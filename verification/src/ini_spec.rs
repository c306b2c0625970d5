//! The INI document model (`ini::Ini` of the `rust-ini` crate) and the
//! operations of that crate that the translation logic relies on.
//!
//! An `Ini` is modelled by its contents: the sequence of its sections in
//! iteration order, each a section name (`None` for the general section) and
//! the sequence of its key/value pairs in iteration order.
use vstd::prelude::*;

verus! {

#[verifier::external_type_specification]
#[verifier::external_body]
pub struct ExIni(ini::Ini);

#[verifier::external_type_specification]
#[verifier::external_body]
pub struct ExIniParseError(ini::ParseError);

/// One key/value pair of a section.
pub type PropView = (Seq<char>, Seq<char>);

/// One section: its name and its pairs.
pub type SectionView = (Option<Seq<char>>, Seq<PropView>);

/// A whole document.
pub type IniView = Seq<SectionView>;

/// One `(section, key, value)` triple.
pub type Triple = (Option<Seq<char>>, Seq<char>, Seq<char>);

/// The sections of an `Ini`, in the order in which `Ini::iter` yields them,
/// each with its pairs in the order in which `Properties::iter` yields them.
pub uninterp spec fn ini_contents(ini: ini::Ini) -> IniView;

/// What `Ini::load_from_str` makes of a text: `None` where it fails.
pub uninterp spec fn spec_ini_parse(text: Seq<char>) -> Option<IniView>;

/// The text that `Ini::write_to` writes for a document.
pub uninterp spec fn spec_ini_text(doc: IniView) -> Seq<char>;

// ---------------------------------------------------------------------------
// Lookup and update, as `ordered_multimap::ListOrderedMultimap` does them.
// ---------------------------------------------------------------------------

/// Index of the first section named `sec`.
pub open spec fn find_section(c: IniView, sec: Option<Seq<char>>) -> Option<int>
    decreases c.len(),
{
    if c.len() == 0 {
        None
    } else {
        match find_section(c.drop_last(), sec) {
            Some(i) => Some(i),
            None => if c.last().0 == sec {
                Some(c.len() - 1)
            } else {
                None
            },
        }
    }
}

/// The first value stored under `key` in a list of pairs.
pub open spec fn first_value(props: Seq<PropView>, key: Seq<char>) -> Option<Seq<char>>
    decreases props.len(),
{
    if props.len() == 0 {
        None
    } else {
        match first_value(props.drop_last(), key) {
            Some(v) => Some(v),
            None => if props.last().0 == key {
                Some(props.last().1)
            } else {
                None
            },
        }
    }
}

/// The pairs of a list whose key is not `key`, in order.
pub open spec fn remove_key(props: Seq<PropView>, key: Seq<char>) -> Seq<PropView>
    decreases props.len(),
{
    if props.len() == 0 {
        props
    } else {
        let rest = remove_key(props.drop_last(), key);
        if props.last().0 == key {
            rest
        } else {
            rest.push(props.last())
        }
    }
}

/// `Ini::get_from`: the first value of `key` in the first section named `sec`.
pub open spec fn ini_lookup(c: IniView, sec: Option<Seq<char>>, key: Seq<char>) -> Option<Seq<char>> {
    match find_section(c, sec) {
        Some(i) => first_value(c[i].1, key),
        None => None,
    }
}

/// `ini.with_section(sec).set(key, value)`: in the first section named `sec`
/// every pair of `key` is dropped and `(key, value)` goes last; where no such
/// section exists, a new one holding only that pair is appended.
pub open spec fn ini_set_view(c: IniView, sec: Option<Seq<char>>, key: Seq<char>, value: Seq<char>) -> IniView {
    match find_section(c, sec) {
        Some(i) => c.update(i, (sec, remove_key(c[i].1, key).push((key, value)))),
        None => c.push((sec, seq![(key, value)])),
    }
}

/// The contents of `Ini::new()`: one empty general section.
pub open spec fn ini_new_view() -> IniView {
    seq![(None::<Seq<char>>, Seq::<PropView>::empty())]
}

/// Every `(section, key, value)` of a document, section by section.
pub open spec fn all_triples(c: IniView) -> Seq<Triple>
    decreases c.len(),
{
    if c.len() == 0 {
        Seq::empty()
    } else {
        all_triples(c.drop_last()) + section_triples(c.last())
    }
}

/// The triples of one section.
pub open spec fn section_triples(s: SectionView) -> Seq<Triple> {
    s.1.map_values(|p: PropView| (s.0, p.0, p.1))
}

/// A document into which the triples were set one after another.
pub open spec fn set_all(c: IniView, ts: Seq<Triple>) -> IniView
    decreases ts.len(),
{
    if ts.len() == 0 {
        c
    } else {
        let t = ts.last();
        ini_set_view(set_all(c, ts.drop_last()), t.0, t.1, t.2)
    }
}

/// A document whose section names are distinct and whose keys are distinct
/// within each section.
pub open spec fn ini_well_formed(c: IniView) -> bool {
    &&& forall|i: int, j: int| 0 <= i < j < c.len() ==> #[trigger] c[i].0 != #[trigger] c[j].0
    &&& forall|i: int| 0 <= i < c.len() ==> keys_distinct(#[trigger] c[i].1)
}

/// Keys of a list of pairs are pairwise distinct.
pub open spec fn keys_distinct(props: Seq<PropView>) -> bool {
    forall|a: int, b: int| 0 <= a < b < props.len() ==> #[trigger] props[a].0 != #[trigger] props[b].0
}

// ---------------------------------------------------------------------------
// Trusted items: the calls into `rust-ini`.
// ---------------------------------------------------------------------------

/// `Ini::new`: a document holding one empty general section (its
/// `Default` impl inserts the `None` section).
#[verifier::external_body]
pub(crate) fn ini_new() -> (r: ini::Ini)
    ensures
        ini_contents(r) == ini_new_view(),
{
    ini::Ini::new()
}

/// `Ini::load_from_str`: parses a text; the result is named.
#[verifier::external_body]
pub(crate) fn ini_load(text: &str) -> (r: Result<ini::Ini, ini::ParseError>)
    ensures
        r is Ok <==> spec_ini_parse(text@) is Some,
        r matches Ok(doc) ==> spec_ini_parse(text@) == Some(ini_contents(doc)),
{
    ini::Ini::load_from_str(text)
}

/// `Ini::write_to` into a byte buffer, read back as a `String`. Writing into a
/// `Vec` cannot fail and every byte written comes from `str` pieces, so the
/// text is always produced; the text itself is named.
#[verifier::external_body]
pub(crate) fn ini_write(doc: &ini::Ini) -> (r: String)
    ensures
        r@ == spec_ini_text(ini_contents(*doc)),
{
    let mut out: Vec<u8> = Vec::new();
    let _ = doc.write_to(&mut out);
    String::from_utf8(out).unwrap_or_default()
}

/// `Ini::get_from`: the first value of `key` in the first section named `sec`.
#[verifier::external_body]
pub(crate) fn ini_get(doc: &ini::Ini, sec: &Option<String>, key: &str) -> (r: Option<String>)
    ensures
        r.deep_view() == ini_lookup(ini_contents(*doc), sec.deep_view(), key@),
{
    doc.get_from(sec.clone(), key).map(|v| v.to_string())
}

/// `ini.with_section(sec).set(key, value)`.
#[verifier::external_body]
pub(crate) fn ini_set(doc: &mut ini::Ini, sec: &Option<String>, key: &str, value: &str)
    ensures
        ini_contents(*final(doc)) == ini_set_view(ini_contents(*old(doc)), sec.deep_view(), key@, value@),
{
    doc.with_section(sec.clone()).set(key, value);
}

/// `Ini::iter` with `Properties::iter`: every section and its pairs, copied
/// out in iteration order.
#[verifier::external_body]
pub(crate) fn ini_sections(doc: &ini::Ini) -> (r: Vec<(Option<String>, Vec<(String, String)>)>)
    ensures
        r.deep_view() == ini_contents(*doc),
{
    let mut out = Vec::new();
    for (sec, props) in doc.iter() {
        let pairs: Vec<(String, String)> = props.iter().map(|(k, v)| (k.to_string(), v.to_string())).collect();
        out.push((sec.map(|s| s.to_string()), pairs));
    }
    out
}

/// `Ini::is_empty`: the document has no section at all.
#[verifier::external_body]
pub(crate) fn ini_is_empty(doc: &ini::Ini) -> (r: bool)
    ensures
        r == (ini_contents(*doc).len() == 0),
{
    doc.is_empty()
}

} // verus!

verus! {

// ---------------------------------------------------------------------------
// Facts about lookup and update.
// ---------------------------------------------------------------------------

/// `find_section` gives the first index holding the name, or `None` when no
/// section holds it.
pub proof fn lemma_find_section(c: IniView, sec: Option<Seq<char>>)
    ensures
        find_section(c, sec) matches Some(i) ==> {
            &&& 0 <= i < c.len()
            &&& c[i].0 == sec
            &&& forall|j: int| 0 <= j < i ==> c[j].0 != sec
        },
        find_section(c, sec) is None ==> forall|j: int| 0 <= j < c.len() ==> c[j].0 != sec,
    decreases c.len(),
{
    if c.len() > 0 {
        let r = c.drop_last();
        lemma_find_section(r, sec);
        assert(forall|j: int| 0 <= j < r.len() ==> r[j] == c[j]);
    }
}

/// `find_section` reads only the names of the sections.
proof fn lemma_find_section_names(c: IniView, d: IniView, sec: Option<Seq<char>>)
    requires
        c.len() == d.len(),
        forall|j: int| 0 <= j < c.len() ==> c[j].0 == d[j].0,
    ensures
        find_section(c, sec) == find_section(d, sec),
    decreases c.len(),
{
    if c.len() > 0 {
        lemma_find_section_names(c.drop_last(), d.drop_last(), sec);
    }
}

/// Dropping the pairs of a key leaves the first value of every other key, and
/// no value of that key.
proof fn lemma_remove_key(props: Seq<PropView>, key: Seq<char>, other: Seq<char>)
    ensures
        first_value(remove_key(props, key), key) is None,
        other != key ==> first_value(remove_key(props, key), other) == first_value(props, other),
    decreases props.len(),
{
    if props.len() > 0 {
        lemma_remove_key(props.drop_last(), key, other);
        let rest = remove_key(props.drop_last(), key);
        assert(rest.push(props.last()).drop_last() =~= rest);
    }
}

/// A lookup after `ini_set_view` sees the value set under its own section and
/// key, and the old document everywhere else.
pub proof fn lemma_lookup_after_set(
    c: IniView,
    sec: Option<Seq<char>>,
    key: Seq<char>,
    value: Seq<char>,
    s2: Option<Seq<char>>,
    k2: Seq<char>,
)
    ensures
        ini_lookup(ini_set_view(c, sec, key, value), s2, k2) == if sec == s2 && key == k2 {
            Some(value)
        } else {
            ini_lookup(c, s2, k2)
        },
{
    let c2 = ini_set_view(c, sec, key, value);
    lemma_find_section(c, sec);
    lemma_find_section(c, s2);
    match find_section(c, sec) {
        Some(i) => {
            let r = remove_key(c[i].1, key);
            let p2 = r.push((key, value));
            assert(c2 == c.update(i, (sec, p2)));
            assert(c2[i].1 == p2);
            lemma_find_section_names(c, c2, s2);
            lemma_remove_key(c[i].1, key, k2);
            assert(p2.drop_last() =~= r);
            assert(p2.last() == (key, value));
            if sec == s2 {
                assert(find_section(c, s2) == Some(i));
                assert(find_section(c2, s2) == Some(i));
                assert(ini_lookup(c2, s2, k2) == first_value(p2, k2));
                if key == k2 {
                    assert(first_value(r, k2) is None);
                } else {
                    assert(first_value(r, k2) == first_value(c[i].1, k2));
                }
            } else {
                match find_section(c, s2) {
                    Some(j) => {
                        assert(j != i);
                        assert(c2[j] == c[j]);
                    },
                    None => {},
                }
            }
        },
        None => {
            let one: Seq<PropView> = seq![(key, value)];
            assert(c2 == c.push((sec, one)));
            assert(c2.drop_last() =~= c);
            assert(one.drop_last() =~= Seq::<PropView>::empty());
            assert(first_value(Seq::<PropView>::empty(), k2) is None);
            assert(one.last() == (key, value));
            match find_section(c, s2) {
                Some(j) => {
                    assert(find_section(c2, s2) == Some(j));
                    assert(c2[j] == c[j]);
                },
                None => {
                    if sec == s2 {
                        assert(find_section(c2, s2) == Some(c.len() as int));
                        assert(c2[c.len() as int].1 == one);
                    } else {
                        assert(find_section(c2, s2) is None);
                    }
                },
            }
        },
    }
}

/// The value set last for a section and key, if any triple sets it.
pub open spec fn last_set(ts: Seq<Triple>, sec: Option<Seq<char>>, key: Seq<char>) -> Option<Seq<char>>
    decreases ts.len(),
{
    if ts.len() == 0 {
        None
    } else if ts.last().0 == sec && ts.last().1 == key {
        Some(ts.last().2)
    } else {
        last_set(ts.drop_last(), sec, key)
    }
}

/// After setting triples one by one, a lookup sees the value set last for its
/// section and key, or the starting document's value where none was set.
pub proof fn lemma_lookup_set_all(c: IniView, ts: Seq<Triple>, sec: Option<Seq<char>>, key: Seq<char>)
    ensures
        ini_lookup(set_all(c, ts), sec, key) == match last_set(ts, sec, key) {
            Some(v) => Some(v),
            None => ini_lookup(c, sec, key),
        },
    decreases ts.len(),
{
    if ts.len() > 0 {
        let t = ts.last();
        lemma_lookup_set_all(c, ts.drop_last(), sec, key);
        lemma_lookup_after_set(set_all(c, ts.drop_last()), t.0, t.1, t.2, sec, key);
    }
}

/// A fresh document holds no value.
pub proof fn lemma_lookup_new(sec: Option<Seq<char>>, key: Seq<char>)
    ensures
        ini_lookup(ini_new_view(), sec, key) is None,
{
    let c = ini_new_view();
    let e = Seq::<PropView>::empty();
    assert(c.drop_last() =~= Seq::<SectionView>::empty());
    assert(find_section(c.drop_last(), sec) is None);
    assert(c.last() == (None::<Seq<char>>, e));
    assert(first_value(e, key) is None);
    if sec == None::<Seq<char>> {
        assert(find_section(c, sec) == Some(0int));
        assert(c[0].1 == e);
    } else {
        assert(find_section(c, sec) is None);
    }
}

/// Triples that share a section and key share their value `w`: after a filter,
/// the value set last for that section and key is `w` exactly when one of them
/// passes the filter.
pub proof fn lemma_last_set_filter(
    ts: Seq<Triple>,
    p: spec_fn(Triple) -> bool,
    sec: Option<Seq<char>>,
    key: Seq<char>,
    w: Seq<char>,
)
    requires
        forall|i: int| 0 <= i < ts.len() && ts[i].0 == sec && ts[i].1 == key ==> #[trigger] ts[i].2 == w,
    ensures
        last_set(ts.filter(p), sec, key) == if (exists|i: int| 0 <= i < ts.len() && ts[i].0 == sec && ts[i].1 == key)
            && p((sec, key, w)) {
            Some(w)
        } else {
            None::<Seq<char>>
        },
    decreases ts.len(),
{
    if ts.len() > 0 {
        let rest = ts.drop_last();
        let t = ts.last();
        assert forall|i: int| 0 <= i < rest.len() && rest[i].0 == sec && rest[i].1 == key implies #[trigger] rest[i].2 == w by {
            assert(rest[i] == ts[i]);
        }
        lemma_last_set_filter(rest, p, sec, key, w);
        assert(rest.push(t) =~= ts);
        rest.lemma_filter_push(t, p);
        if p(t) {
            assert(rest.filter(p).push(t).drop_last() =~= rest.filter(p));
        }
        if t.0 == sec && t.1 == key {
            assert(ts[ts.len() - 1] == t);
            assert(t.2 == w);
            assert(t == (sec, key, w));
        } else {
            if exists|i: int| 0 <= i < ts.len() && ts[i].0 == sec && ts[i].1 == key {
                let i = choose|i: int| 0 <= i < ts.len() && ts[i].0 == sec && ts[i].1 == key;
                assert(i < ts.len() - 1);
                assert(rest[i] == ts[i]);
            }
            if exists|i: int| 0 <= i < rest.len() && rest[i].0 == sec && rest[i].1 == key {
                let i = choose|i: int| 0 <= i < rest.len() && rest[i].0 == sec && rest[i].1 == key;
                assert(rest[i] == ts[i]);
            }
        }
    }
}

/// The `filter_map` counterpart of `lemma_last_set_filter`, for a map that
/// keeps the section and key of a triple and decides the same way, with the
/// same result `r`, for every triple of that section and key.
pub proof fn lemma_last_set_filter_map(
    ts: Seq<Triple>,
    f: spec_fn(Triple) -> Option<Triple>,
    sec: Option<Seq<char>>,
    key: Seq<char>,
    r: Option<Triple>,
)
    requires
        forall|t: Triple| #[trigger] f(t) matches Some(u) ==> u.0 == t.0 && u.1 == t.1,
        forall|i: int| 0 <= i < ts.len() && ts[i].0 == sec && ts[i].1 == key ==> #[trigger] f(ts[i]) == r,
    ensures
        last_set(ts.filter_map(f), sec, key) == if (exists|i: int| 0 <= i < ts.len() && ts[i].0 == sec && ts[i].1 == key)
            && r is Some {
            Some(r.unwrap().2)
        } else {
            None::<Seq<char>>
        },
    decreases ts.len(),
{
    if ts.len() > 0 {
        let rest = ts.drop_last();
        let t = ts.last();
        assert forall|i: int| 0 <= i < rest.len() && rest[i].0 == sec && rest[i].1 == key implies #[trigger] f(rest[i]) == r by {
            assert(rest[i] == ts[i]);
            assert(f(ts[i]) == r);
        }
        lemma_last_set_filter_map(rest, f, sec, key, r);
        match f(t) {
            Some(u) => {
                assert((rest.filter_map(f) + seq![u]).drop_last() =~= rest.filter_map(f));
            },
            None => {},
        }
        if t.0 == sec && t.1 == key {
            assert(ts[ts.len() - 1] == t);
            assert(f(ts[ts.len() - 1]) == r);
        } else {
            if exists|i: int| 0 <= i < ts.len() && ts[i].0 == sec && ts[i].1 == key {
                let i = choose|i: int| 0 <= i < ts.len() && ts[i].0 == sec && ts[i].1 == key;
                assert(i < ts.len() - 1);
                assert(rest[i] == ts[i]);
            }
            if exists|i: int| 0 <= i < rest.len() && rest[i].0 == sec && rest[i].1 == key {
                let i = choose|i: int| 0 <= i < rest.len() && rest[i].0 == sec && rest[i].1 == key;
                assert(rest[i] == ts[i]);
            }
        }
    }
}

/// In a list of pairs with distinct keys, every pair of a key holds its first
/// value, and a first value comes from some pair.
proof fn lemma_first_value_distinct(props: Seq<PropView>, key: Seq<char>)
    requires
        keys_distinct(props),
    ensures
        forall|j: int| 0 <= j < props.len() && props[j].0 == key ==> first_value(props, key) == Some(#[trigger] props[j].1),
        first_value(props, key) is Some ==> exists|j: int| 0 <= j < props.len() && props[j].0 == key,
    decreases props.len(),
{
    if props.len() > 0 {
        let rest = props.drop_last();
        assert(keys_distinct(rest)) by {
            assert forall|a: int, b: int| 0 <= a < b < rest.len() implies #[trigger] rest[a].0 != #[trigger] rest[b].0 by {
                assert(rest[a] == props[a] && rest[b] == props[b]);
            }
        }
        lemma_first_value_distinct(rest, key);
        assert forall|j: int| 0 <= j < props.len() && props[j].0 == key implies first_value(props, key) == Some(#[trigger] props[j].1) by {
            if j < props.len() - 1 {
                assert(rest[j] == props[j]);
            } else {
                if first_value(rest, key) is Some {
                    let i = choose|i: int| 0 <= i < rest.len() && rest[i].0 == key;
                    assert(rest[i] == props[i]);
                }
            }
        }
        if first_value(rest, key) is Some {
            let i = choose|i: int| 0 <= i < rest.len() && rest[i].0 == key;
            assert(rest[i] == props[i]);
        }
    }
}

/// Where some triple sets a section and key and every such triple carries
/// `w`, the last one set is `w`; where none does, nothing is.
pub proof fn lemma_last_set_uniform(ts: Seq<Triple>, sec: Option<Seq<char>>, key: Seq<char>, w: Seq<char>)
    requires
        forall|i: int| 0 <= i < ts.len() && ts[i].0 == sec && ts[i].1 == key ==> #[trigger] ts[i].2 == w,
    ensures
        last_set(ts, sec, key) == if exists|i: int| 0 <= i < ts.len() && ts[i].0 == sec && ts[i].1 == key {
            Some(w)
        } else {
            None::<Seq<char>>
        },
    decreases ts.len(),
{
    if ts.len() > 0 {
        let rest = ts.drop_last();
        assert forall|i: int| 0 <= i < rest.len() && rest[i].0 == sec && rest[i].1 == key implies #[trigger] rest[i].2 == w by {
            assert(rest[i] == ts[i]);
        }
        lemma_last_set_uniform(rest, sec, key, w);
        if exists|i: int| 0 <= i < rest.len() && rest[i].0 == sec && rest[i].1 == key {
            let i = choose|i: int| 0 <= i < rest.len() && rest[i].0 == sec && rest[i].1 == key;
            assert(ts[i] == rest[i]);
        }
        if exists|i: int| 0 <= i < ts.len() && ts[i].0 == sec && ts[i].1 == key {
            let i = choose|i: int| 0 <= i < ts.len() && ts[i].0 == sec && ts[i].1 == key;
            if i < rest.len() {
                assert(rest[i] == ts[i]);
            }
        }
    }
}

/// The last value set by two runs of triples is that of the second run where
/// it sets one, else that of the first.
pub proof fn lemma_last_set_append(a: Seq<Triple>, b: Seq<Triple>, sec: Option<Seq<char>>, key: Seq<char>)
    ensures
        last_set(a + b, sec, key) == match last_set(b, sec, key) {
            Some(v) => Some(v),
            None => last_set(a, sec, key),
        },
    decreases b.len(),
{
    if b.len() == 0 {
        assert(a + b =~= a);
    } else {
        lemma_last_set_append(a, b.drop_last(), sec, key);
        assert((a + b).drop_last() =~= a + b.drop_last());
        assert((a + b).last() == b.last());
    }
}

/// In a well-formed document, the triples of a section and key all carry the
/// value that a lookup finds, and a lookup finds a value only where such a
/// triple exists.
pub proof fn lemma_well_formed_triples(c: IniView, sec: Option<Seq<char>>, key: Seq<char>)
    requires
        ini_well_formed(c),
    ensures
        forall|i: int| 0 <= i < all_triples(c).len() && all_triples(c)[i].0 == sec && all_triples(c)[i].1 == key
            ==> ini_lookup(c, sec, key) == Some(#[trigger] all_triples(c)[i].2),
        ini_lookup(c, sec, key) is Some <==> exists|i: int| 0 <= i < all_triples(c).len() && all_triples(c)[i].0 == sec
            && all_triples(c)[i].1 == key,
    decreases c.len(),
{
    if c.len() > 0 {
        let rest = c.drop_last();
        let last = c.last();
        assert(ini_well_formed(rest)) by {
            assert forall|i: int, j: int| 0 <= i < j < rest.len() implies #[trigger] rest[i].0 != #[trigger] rest[j].0 by {
                assert(rest[i] == c[i] && rest[j] == c[j]);
            }
            assert forall|i: int| 0 <= i < rest.len() implies keys_distinct(#[trigger] rest[i].1) by {
                assert(rest[i] == c[i]);
            }
        }
        lemma_well_formed_triples(rest, sec, key);
        lemma_find_section(rest, sec);
        lemma_find_section(c, sec);
        assert(keys_distinct(c[c.len() - 1].1));
        lemma_first_value_distinct(last.1, key);
        let rt = all_triples(rest);
        let st = section_triples(last);
        assert(all_triples(c) == rt + st);
        lemma_triple_names(rest);
        if last.0 == sec {
            // `sec` names no earlier section.
            assert forall|j: int| 0 <= j < rest.len() implies rest[j].0 != sec by {
                assert(rest[j] == c[j]);
                assert(c[j].0 != c[c.len() - 1].0);
            }
            assert(find_section(c, sec) == Some(c.len() - 1));
            assert forall|i: int| 0 <= i < all_triples(c).len() && all_triples(c)[i].0 == sec && all_triples(c)[i].1 == key
                implies ini_lookup(c, sec, key) == Some(#[trigger] all_triples(c)[i].2) by {
                if i < rt.len() {
                    assert(all_triples(c)[i] == rt[i]);
                    let j = choose|j: int| 0 <= j < rest.len() && rest[j].0 == rt[i].0;
                } else {
                    assert(all_triples(c)[i] == st[i - rt.len()]);
                    assert(last.1[i - rt.len()].0 == key);
                }
            }
            if ini_lookup(c, sec, key) is Some {
                let j = choose|j: int| 0 <= j < last.1.len() && last.1[j].0 == key;
                assert(all_triples(c)[rt.len() + j] == st[j]);
            }
        } else {
            assert(ini_lookup(c, sec, key) == ini_lookup(rest, sec, key));
            assert forall|i: int| 0 <= i < all_triples(c).len() && all_triples(c)[i].0 == sec && all_triples(c)[i].1 == key
                implies ini_lookup(c, sec, key) == Some(#[trigger] all_triples(c)[i].2) by {
                if i < rt.len() {
                    assert(all_triples(c)[i] == rt[i]);
                } else {
                    assert(all_triples(c)[i] == st[i - rt.len()]);
                }
            }
            if ini_lookup(c, sec, key) is Some {
                let i = choose|i: int| 0 <= i < rt.len() && rt[i].0 == sec && rt[i].1 == key;
                assert(all_triples(c)[i] == rt[i]);
            }
        }
    }
}

/// Every triple of a document carries the name of one of its sections.
pub(crate) proof fn lemma_triple_names(c: IniView)
    ensures
        forall|i: int| 0 <= i < all_triples(c).len() ==> exists|j: int| 0 <= j < c.len() && #[trigger] c[j].0 == #[trigger] all_triples(c)[i].0,
    decreases c.len(),
{
    if c.len() > 0 {
        let rest = c.drop_last();
        lemma_triple_names(rest);
        let rt = all_triples(rest);
        let st = section_triples(c.last());
        assert forall|i: int| 0 <= i < all_triples(c).len() implies exists|j: int| 0 <= j < c.len() && #[trigger] c[j].0 == #[trigger] all_triples(c)[i].0 by {
            if i < rt.len() {
                assert(all_triples(c)[i] == rt[i]);
                let j = choose|j: int| 0 <= j < rest.len() && #[trigger] rest[j].0 == rt[i].0;
                assert(c[j] == rest[j]);
            } else {
                assert(all_triples(c)[i] == st[i - rt.len()]);
                assert(c[c.len() - 1].0 == all_triples(c)[i].0);
            }
        }
    }
}

} // verus!

verus! {

/// The triples of the first sections of a document begin the triples of the
/// whole document.
pub proof fn lemma_all_triples_prefix(c: IniView, n: int)
    requires
        0 <= n <= c.len(),
    ensures
        all_triples(c.take(n)).len() <= all_triples(c).len(),
        forall|k: int| 0 <= k < all_triples(c.take(n)).len() ==> #[trigger] all_triples(c)[k] == all_triples(c.take(n))[k],
    decreases c.len() - n,
{
    if n < c.len() {
        lemma_all_triples_prefix(c, n + 1);
        assert(c.take(n + 1).drop_last() =~= c.take(n));
        let a = all_triples(c.take(n));
        let b = all_triples(c.take(n + 1));
        assert(b == a + section_triples(c.take(n + 1).last()));
        assert forall|k: int| 0 <= k < a.len() implies #[trigger] all_triples(c)[k] == a[k] by {
            assert(b[k] == a[k]);
        }
    } else {
        assert(c.take(n) =~= c);
    }
}

} // verus!
