//! INI translation files: parsing, rendering, and the diff / merge operations
//! that decide what is sent for translation and what is kept.
use vstd::prelude::*;
use crate::assoc::{assoc_find, assoc_get, assoc_insert, text_map_clone, text_map_entries, text_map_insert, text_map_new};
use crate::ini_spec::{
    all_triples, ini_contents, ini_get, ini_load, ini_lookup, ini_new, ini_new_view, ini_sections,
    ini_set, ini_well_formed, ini_write, lemma_last_set_filter, lemma_last_set_filter_map,
    lemma_lookup_new, lemma_lookup_set_all, lemma_well_formed_triples, section_triples, set_all,
    spec_ini_parse, spec_ini_text, IniView, PropView, Triple,
};

verus! {

/// The translation files of one language: file name to INI text, in the order
/// in which they were added.
#[derive(Debug)]
pub struct LangInfo {
    pub contents: indexmap::IndexMap<String, String>,
}

/// The view of a language: its `(file name, text)` entries in order.
pub type LangView = Seq<(Seq<char>, Seq<char>)>;

impl View for LangInfo {
    type V = LangView;

    open spec fn view(&self) -> LangView {
        text_map_entries(self.contents)
    }
}

impl LangInfo {
    /// A language with no file.
    pub fn new() -> (r: LangInfo)
        ensures
            r@ == LangView::empty(),
    {
        LangInfo { contents: text_map_new() }
    }
}

/// The translation files of a mod: language code to that language's files,
/// with the mod's version.
#[derive(Debug)]
pub struct LocaleInfo {
    /// lang code -> lang info
    pub contents: indexmap::IndexMap<String, LangInfo>,
    /// version
    pub version: String,
}

/// The view of a mod's locale: its `(language code, files)` entries in order,
/// and its version.
pub type LocaleView = (Seq<(Seq<char>, LangView)>, Seq<char>);

impl View for LocaleInfo {
    type V = LocaleView;

    open spec fn view(&self) -> LocaleView {
        (lang_map_entries(self.contents), self.version@)
    }
}

/// The entries of a map from language codes to languages, in insertion order,
/// each language by its view.
pub uninterp spec fn lang_map_entries(m: indexmap::IndexMap<String, LangInfo>) -> Seq<(Seq<char>, LangView)>;

/// The entries after adding a file to a language, as
/// `entry(lang).or_insert_with(LangInfo::new).contents.insert(file, text)`
/// does it.
pub open spec fn add_file_view(
    e: Seq<(Seq<char>, LangView)>,
    lang: Seq<char>,
    file: Seq<char>,
    text: Seq<char>,
) -> Seq<(Seq<char>, LangView)> {
    match assoc_find(e, lang) {
        Some(i) => e.update(i, (lang, assoc_insert(e[i].1, file, text))),
        None => e.push((lang, seq![(file, text)])),
    }
}

/// `IndexMap::new`.
#[verifier::external_body]
pub(crate) fn lang_map_new() -> (r: indexmap::IndexMap<String, LangInfo>)
    ensures
        lang_map_entries(r) == Seq::<(Seq<char>, LangView)>::empty(),
{
    indexmap::IndexMap::new()
}

/// `IndexMap::insert`.
#[verifier::external_body]
pub(crate) fn lang_map_insert(m: &mut indexmap::IndexMap<String, LangInfo>, k: String, v: LangInfo)
    ensures
        lang_map_entries(*final(m)) == assoc_insert(lang_map_entries(*old(m)), k@, v@),
{
    m.insert(k, v);
}

/// `IndexMap::get`.
#[verifier::external_body]
pub(crate) fn lang_map_get<'a>(m: &'a indexmap::IndexMap<String, LangInfo>, k: &str) -> (r: Option<&'a LangInfo>)
    ensures
        match r {
            Some(li) => assoc_get(lang_map_entries(*m), k@) == Some(li@),
            None => assoc_get(lang_map_entries(*m), k@) is None,
        },
{
    m.get(k)
}

/// `IndexMap::contains_key`.
#[verifier::external_body]
pub(crate) fn lang_map_contains_key(m: &indexmap::IndexMap<String, LangInfo>, k: &str) -> (r: bool)
    ensures
        r == (assoc_find(lang_map_entries(*m), k@) is Some),
{
    m.contains_key(k)
}

/// `IndexMap::len`.
#[verifier::external_body]
pub(crate) fn lang_map_len(m: &indexmap::IndexMap<String, LangInfo>) -> (r: usize)
    ensures
        r == lang_map_entries(*m).len(),
{
    m.len()
}

/// `IndexMap::iter`: each entry in order, the key copied out.
#[verifier::external_body]
pub(crate) fn lang_map_iter<'a>(m: &'a indexmap::IndexMap<String, LangInfo>) -> (r: Vec<(String, &'a LangInfo)>)
    ensures
        r@.len() == lang_map_entries(*m).len(),
        forall|i: int|
            0 <= i < r@.len() ==> (#[trigger] r@[i]).0@ == lang_map_entries(*m)[i].0 && r@[i].1@ == lang_map_entries(
                *m,
            )[i].1,
{
    m.iter().map(|(k, v)| (k.clone(), v)).collect()
}

/// Adds a file to a language, creating the language (last) where the map
/// lacks it; an existing file of that name takes the new text in its place.
pub(crate) fn lang_map_add_file(m: &mut indexmap::IndexMap<String, LangInfo>, lang: String, file: String, text: String)
    ensures
        lang_map_entries(*final(m)) == add_file_view(lang_map_entries(*old(m)), lang@, file@, text@),
{
    let mut li = match lang_map_get(m, lang.as_str()) {
        Some(existing) => LangInfo { contents: text_map_clone(&existing.contents) },
        None => LangInfo::new(),
    };
    proof {
        crate::assoc::lemma_assoc_find(lang_map_entries(*m), lang@);
    }
    text_map_insert(&mut li.contents, file, text);
    lang_map_insert(m, lang, li);
}

/// Failure to read an INI text.
#[derive(Debug)]
pub enum IniError {
    /// `Ini::load_from_str` refused the text.
    Parse(ini::ParseError),
}

/// Whether a triple of the new document is reported against `old`: when only
/// keys count, where `old` lacks the key; otherwise also where `old` holds it
/// with another value.
pub open spec fn reported(old: IniView, keys_only: bool, t: Triple) -> bool {
    if keys_only {
        ini_lookup(old, t.0, t.1) is None
    } else {
        ini_lookup(old, t.0, t.1) != Some(t.2)
    }
}

/// Triples of `new` that `old` does not already hold with the same value.
pub open spec fn diff_triples(old: IniView, new: IniView) -> Seq<Triple> {
    all_triples(new).filter(|t: Triple| reported(old, false, t))
}

/// Triples of `new` whose key `old` does not hold at all.
pub open spec fn new_key_triples(old: IniView, new: IniView) -> Seq<Triple> {
    all_triples(new).filter(|t: Triple| reported(old, true, t))
}

/// For a triple of the reference: the value of the diff where it has one,
/// else the value of the old document, else nothing.
pub open spec fn merge_pick(old: IniView, diff: IniView, t: Triple) -> Option<Triple> {
    match ini_lookup(diff, t.0, t.1) {
        Some(v) => Some((t.0, t.1, v)),
        None => match ini_lookup(old, t.0, t.1) {
            Some(v) => Some((t.0, t.1, v)),
            None => None,
        },
    }
}

/// The triples that `merge_ini` sets, in order.
pub open spec fn merge_triples(reference: IniView, old: IniView, diff: IniView) -> Seq<Triple> {
    all_triples(reference).filter_map(|t: Triple| merge_pick(old, diff, t))
}

/// Parses an INI text.
pub fn str_to_ini(s: &str) -> (r: Result<ini::Ini, IniError>)
    ensures
        r is Ok <==> spec_ini_parse(s@) is Some,
        r matches Ok(doc) ==> spec_ini_parse(s@) == Some(ini_contents(doc)),
{
    match ini_load(s) {
        Ok(doc) => Ok(doc),
        Err(e) => Err(IniError::Parse(e)),
    }
}

/// Renders a document as INI text; rendering into memory always succeeds.
pub fn ini_to_str(doc: &ini::Ini) -> (r: Result<String, IniError>)
    ensures
        r matches Ok(s) && s@ == spec_ini_text(ini_contents(*doc)),
{
    Ok(ini_write(doc))
}

pub(crate) proof fn lemma_section_triples_push(name: Option<Seq<char>>, props: Seq<PropView>, j: int)
    requires
        0 <= j < props.len(),
    ensures
        section_triples((name, props.take(j + 1))) == section_triples((name, props.take(j))).push(
            (name, props[j].0, props[j].1),
        ),
{
    assert(section_triples((name, props.take(j + 1))) =~= section_triples((name, props.take(j))).push(
        (name, props[j].0, props[j].1),
    ));
}

pub(crate) proof fn lemma_all_triples_take(c: IniView, i: int)
    requires
        0 <= i < c.len(),
    ensures
        all_triples(c.take(i + 1)) == all_triples(c.take(i)) + section_triples((c[i].0, c[i].1.take(c[i].1.len() as int))),
{
    assert(c.take(i + 1).drop_last() =~= c.take(i));
    assert(c[i].1.take(c[i].1.len() as int) =~= c[i].1);
}

/// A fresh document into which every triple of `new` that is reported
/// against `old` is set, in the order of `new`.
fn collect_reported(old: &ini::Ini, new: &ini::Ini, keys_only: bool) -> (r: ini::Ini)
    ensures
        ini_contents(r) == set_all(
            ini_new_view(),
            all_triples(ini_contents(*new)).filter(|t: Triple| reported(ini_contents(*old), keys_only, t)),
        ),
{
    let ghost oldv = ini_contents(*old);
    let ghost pred = |t: Triple| reported(oldv, keys_only, t);
    let mut diff = ini_new();
    let secs = ini_sections(new);
    let ghost sv = secs.deep_view();
    let mut i: usize = 0;
    while i < secs.len()
        invariant
            0 <= i <= secs.len(),
            sv == secs.deep_view(),
            sv == ini_contents(*new),
            oldv == ini_contents(*old),
            pred == (|t: Triple| reported(oldv, keys_only, t)),
            ini_contents(diff) == set_all(ini_new_view(), all_triples(sv.take(i as int)).filter(pred)),
        decreases secs.len() - i,
    {
        let sec = &secs[i].0;
        let props = &secs[i].1;
        let ghost base = all_triples(sv.take(i as int));
        let ghost name = sv[i as int].0;
        let ghost pv = sv[i as int].1;
        assert(pv == props.deep_view());
        assert(name == sec.deep_view());
        assert(props.deep_view().take(0) =~= Seq::<PropView>::empty());
        assert(section_triples((name, pv.take(0))) =~= Seq::<Triple>::empty());
        assert(base + section_triples((name, pv.take(0))) =~= base);
        let mut j: usize = 0;
        while j < props.len()
            invariant
                0 <= j <= props.len(),
                pv == props.deep_view(),
                name == sec.deep_view(),
                pred == (|t: Triple| reported(oldv, keys_only, t)),
                oldv == ini_contents(*old),
                ini_contents(diff) == set_all(ini_new_view(), (base + section_triples((name, pv.take(j as int)))).filter(pred)),
            decreases props.len() - j,
        {
            let key = &props[j].0;
            let value = &props[j].1;
            let ghost t: Triple = (name, key@, value@);
            proof {
                lemma_section_triples_push(name, pv, j as int);
                assert(pv[j as int] == (key@, value@));
                assert((base + section_triples((name, pv.take(j + 1)))) =~= (base + section_triples((name, pv.take(j as int)))).push(t));
                (base + section_triples((name, pv.take(j as int)))).lemma_filter_push(t, pred);
            }
            let found = ini_get(old, sec, key.as_str());
            let same = match &found {
                Some(o) => if keys_only {
                    true
                } else {
                    o.eq(value)
                },
                None => false,
            };
            let ghost prefix = (base + section_triples((name, pv.take(j as int)))).filter(pred);
            assert(same == !pred(t));
            if !same {
                ini_set(&mut diff, sec, key.as_str(), value.as_str());
                assert(prefix.push(t).drop_last() =~= prefix);
            }
            j += 1;
        }
        proof {
            lemma_all_triples_take(sv, i as int);
            assert(pv.take(pv.len() as int) =~= pv);
        }
        i += 1;
    }
    proof {
        assert(sv.take(sv.len() as int) =~= sv);
    }
    diff
}

/// Merges a translation diff onto an old translation, shaped by a reference:
/// for every key of `reference`, in order, the value of `diff` is set where it
/// has one, else the value of `old` where it has one; keys that `reference`
/// lacks are dropped.
pub fn merge_ini(reference: &ini::Ini, old: &ini::Ini, diff: &ini::Ini) -> (r: ini::Ini)
    ensures
        ini_contents(r) == set_all(
            ini_new_view(),
            merge_triples(ini_contents(*reference), ini_contents(*old), ini_contents(*diff)),
        ),
{
    let ghost oldv = ini_contents(*old);
    let ghost diffv = ini_contents(*diff);
    let ghost f = |t: Triple| merge_pick(oldv, diffv, t);
    let mut merged = ini_new();
    let secs = ini_sections(reference);
    let ghost sv = secs.deep_view();
    let mut i: usize = 0;
    while i < secs.len()
        invariant
            0 <= i <= secs.len(),
            sv == secs.deep_view(),
            sv == ini_contents(*reference),
            oldv == ini_contents(*old),
            diffv == ini_contents(*diff),
            f == (|t: Triple| merge_pick(oldv, diffv, t)),
            ini_contents(merged) == set_all(ini_new_view(), all_triples(sv.take(i as int)).filter_map(f)),
        decreases secs.len() - i,
    {
        let sec = &secs[i].0;
        let props = &secs[i].1;
        let ghost base = all_triples(sv.take(i as int));
        let ghost name = sv[i as int].0;
        let ghost pv = sv[i as int].1;
        assert(pv == props.deep_view());
        assert(name == sec.deep_view());
        assert(section_triples((name, pv.take(0))) =~= Seq::<Triple>::empty());
        assert(base + section_triples((name, pv.take(0))) =~= base);
        let mut j: usize = 0;
        while j < props.len()
            invariant
                0 <= j <= props.len(),
                pv == props.deep_view(),
                name == sec.deep_view(),
                f == (|t: Triple| merge_pick(oldv, diffv, t)),
                oldv == ini_contents(*old),
                diffv == ini_contents(*diff),
                ini_contents(merged) == set_all(ini_new_view(), (base + section_triples((name, pv.take(j as int)))).filter_map(f)),
            decreases props.len() - j,
        {
            let key = &props[j].0;
            let ghost t: Triple = (name, key@, pv[j as int].1);
            let ghost prev = base + section_triples((name, pv.take(j as int)));
            proof {
                lemma_section_triples_push(name, pv, j as int);
                assert((base + section_triples((name, pv.take(j + 1)))) =~= prev.push(t));
                assert(prev.push(t).drop_last() =~= prev);
            }
            let from_diff = ini_get(diff, sec, key.as_str());
            match from_diff {
                Some(v) => {
                    ini_set(&mut merged, sec, key.as_str(), v.as_str());
                    assert((prev.filter_map(f) + seq![(name, key@, v@)]).drop_last() =~= prev.filter_map(f));
                },
                None => {
                    let from_old = ini_get(old, sec, key.as_str());
                    match from_old {
                        Some(v) => {
                            ini_set(&mut merged, sec, key.as_str(), v.as_str());
                            assert((prev.filter_map(f) + seq![(name, key@, v@)]).drop_last() =~= prev.filter_map(f));
                        },
                        None => {},
                    }
                },
            }
            j += 1;
        }
        proof {
            lemma_all_triples_take(sv, i as int);
            assert(pv.take(pv.len() as int) =~= pv);
        }
        i += 1;
    }
    proof {
        assert(sv.take(sv.len() as int) =~= sv);
    }
    merged
}

/// What `new` brings over `old`: a fresh document into which every triple of
/// `new` whose key `old` lacks, or holds with another value, is set in order.
/// Nothing that `new` lacks is reported.
pub fn diff_ini(old: &ini::Ini, new: &ini::Ini) -> (r: ini::Ini)
    ensures
        ini_contents(r) == set_all(ini_new_view(), diff_triples(ini_contents(*old), ini_contents(*new))),
{
    collect_reported(old, new, false)
}

/// The keys that `new` adds over `old`: a fresh document into which every
/// triple of `new` whose key `old` lacks is set in order; changed values of
/// keys that `old` holds are not reported.
pub fn diff_ini_keys_only(old: &ini::Ini, new: &ini::Ini) -> (r: ini::Ini)
    ensures
        ini_contents(r) == set_all(ini_new_view(), new_key_triples(ini_contents(*old), ini_contents(*new))),
{
    collect_reported(old, new, true)
}

/// What `diff_ini` finds under a section and key, where the new document is
/// well formed: the new value where the old document lacks it or holds
/// another value, nothing otherwise.
pub open spec fn expected_diff(old: IniView, new: IniView, sec: Option<Seq<char>>, key: Seq<char>) -> Option<Seq<char>> {
    match ini_lookup(new, sec, key) {
        Some(v) => if ini_lookup(old, sec, key) == Some(v) {
            None
        } else {
            Some(v)
        },
        None => None,
    }
}

/// Law: the diff of a well-formed document against an old one holds, under
/// each section and key, the new value exactly where the old document lacks
/// that key or holds another value for it.
pub proof fn law_diff_lookup(old: IniView, new: IniView, sec: Option<Seq<char>>, key: Seq<char>)
    requires
        ini_well_formed(new),
    ensures
        ini_lookup(set_all(ini_new_view(), diff_triples(old, new)), sec, key) == expected_diff(old, new, sec, key),
{
    let ts = all_triples(new);
    let w = match ini_lookup(new, sec, key) {
        Some(v) => v,
        None => Seq::<char>::empty(),
    };
    lemma_well_formed_triples(new, sec, key);
    lemma_last_set_filter(ts, |t: Triple| reported(old, false, t), sec, key, w);
    lemma_lookup_set_all(ini_new_view(), diff_triples(old, new), sec, key);
    lemma_lookup_new(sec, key);
}

/// Law: the keys-only diff of a well-formed document against an old one holds
/// the new value under each section and key that the old document lacks, and
/// nothing else.
pub proof fn law_diff_keys_only_lookup(old: IniView, new: IniView, sec: Option<Seq<char>>, key: Seq<char>)
    requires
        ini_well_formed(new),
    ensures
        ini_lookup(set_all(ini_new_view(), new_key_triples(old, new)), sec, key) == if ini_lookup(old, sec, key) is None {
            ini_lookup(new, sec, key)
        } else {
            None
        },
{
    let ts = all_triples(new);
    let w = match ini_lookup(new, sec, key) {
        Some(v) => v,
        None => Seq::<char>::empty(),
    };
    lemma_well_formed_triples(new, sec, key);
    lemma_last_set_filter(ts, |t: Triple| reported(old, true, t), sec, key, w);
    lemma_lookup_set_all(ini_new_view(), new_key_triples(old, new), sec, key);
    lemma_lookup_new(sec, key);
}

/// Law: whatever the keys-only diff reports, the full diff reports too, with
/// the same value.
pub proof fn law_keys_only_within_diff(old: IniView, new: IniView, sec: Option<Seq<char>>, key: Seq<char>)
    requires
        ini_well_formed(new),
    ensures
        ini_lookup(set_all(ini_new_view(), new_key_triples(old, new)), sec, key) matches Some(v)
            ==> ini_lookup(set_all(ini_new_view(), diff_triples(old, new)), sec, key) == Some(v),
{
    law_diff_lookup(old, new, sec, key);
    law_diff_keys_only_lookup(old, new, sec, key);
}

/// Law: a well-formed document has no diff against itself.
pub proof fn law_diff_self_empty(doc: IniView, sec: Option<Seq<char>>, key: Seq<char>)
    requires
        ini_well_formed(doc),
    ensures
        ini_lookup(set_all(ini_new_view(), diff_triples(doc, doc)), sec, key) is None,
{
    law_diff_lookup(doc, doc, sec, key);
}

/// Law: merging onto a well-formed reference keeps exactly the keys of the
/// reference; under each of them the diff's value wins, the old value fills
/// in where the diff has none, and a key that neither holds stays absent.
pub proof fn law_merge_lookup(
    reference: IniView,
    old: IniView,
    diff: IniView,
    sec: Option<Seq<char>>,
    key: Seq<char>,
)
    requires
        ini_well_formed(reference),
    ensures
        ini_lookup(set_all(ini_new_view(), merge_triples(reference, old, diff)), sec, key) == if ini_lookup(reference, sec, key) is Some {
            match ini_lookup(diff, sec, key) {
                Some(v) => Some(v),
                None => ini_lookup(old, sec, key),
            }
        } else {
            None
        },
{
    let ts = all_triples(reference);
    let f = |t: Triple| merge_pick(old, diff, t);
    let w = match ini_lookup(reference, sec, key) {
        Some(v) => v,
        None => Seq::<char>::empty(),
    };
    let r = merge_pick(old, diff, (sec, key, w));
    lemma_well_formed_triples(reference, sec, key);
    assert forall|i: int| 0 <= i < ts.len() && ts[i].0 == sec && ts[i].1 == key implies #[trigger] f(ts[i]) == r by {}
    lemma_last_set_filter_map(ts, f, sec, key, r);
    lemma_lookup_set_all(ini_new_view(), merge_triples(reference, old, diff), sec, key);
    lemma_lookup_new(sec, key);
}

/// Law: merging the diff of a well-formed reference against an old
/// translation back onto that old translation gives, under every section and
/// key, exactly the reference's value.
pub proof fn law_merge_diff_roundtrip(reference: IniView, old: IniView, sec: Option<Seq<char>>, key: Seq<char>)
    requires
        ini_well_formed(reference),
    ensures
        ini_lookup(
            set_all(ini_new_view(), merge_triples(reference, old, set_all(ini_new_view(), diff_triples(old, reference)))),
            sec,
            key,
        ) == ini_lookup(reference, sec, key),
{
    let diff = set_all(ini_new_view(), diff_triples(old, reference));
    law_merge_lookup(reference, old, diff, sec, key);
    law_diff_lookup(old, reference, sec, key);
}

} // verus!
