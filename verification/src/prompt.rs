//! The request sent to the language model: the reference texts, then the
//! entries to translate grouped by file and by section, both in the order of
//! their names.
use vstd::prelude::*;
use crate::flow::{entry_views, locale_opt_view, views, EntryView, TranslationEntry};
use crate::assoc::text_map_pairs;
use crate::ini_spec::{ini_contents, ini_is_empty, spec_ini_text, IniView};
use crate::text::{str_eq, to_string};
use crate::translation::{ini_to_str, lang_map_iter, lang_map_len, LangView, LocaleInfo, LocaleView};

verus! {

// ═══════════════════════════════════════════════════════════════════════════
// The order of texts
// ═══════════════════════════════════════════════════════════════════════════

/// `a` comes strictly before `b` in the order of `str`: the first character
/// in which they differ decides by its code point, and a proper prefix comes
/// first. (UTF-8 keeps the order of code points, so this is the byte order
/// that `str` uses.)
pub open spec fn text_lt(a: Seq<char>, b: Seq<char>) -> bool
    decreases a.len(),
{
    if b.len() == 0 {
        false
    } else if a.len() == 0 {
        true
    } else if a[0] != b[0] {
        (a[0] as int) < (b[0] as int)
    } else {
        text_lt(a.drop_first(), b.drop_first())
    }
}

/// No text comes before itself, and of two texts at most one comes first.
pub proof fn lemma_text_lt_asymmetric(a: Seq<char>, b: Seq<char>)
    ensures
        text_lt(a, b) ==> !text_lt(b, a),
    decreases a.len(),
{
    if a.len() > 0 && b.len() > 0 && a[0] == b[0] {
        lemma_text_lt_asymmetric(a.drop_first(), b.drop_first());
    }
}

/// The order of texts is transitive.
pub proof fn lemma_text_lt_transitive(a: Seq<char>, b: Seq<char>, c: Seq<char>)
    ensures
        text_lt(a, b) && text_lt(b, c) ==> text_lt(a, c),
    decreases a.len(),
{
    if a.len() > 0 && b.len() > 0 && c.len() > 0 && a[0] == b[0] && b[0] == c[0] {
        lemma_text_lt_transitive(a.drop_first(), b.drop_first(), c.drop_first());
    }
}

/// Of two different texts, one comes before the other.
pub proof fn lemma_text_lt_total(a: Seq<char>, b: Seq<char>)
    ensures
        a != b ==> text_lt(a, b) || text_lt(b, a),
    decreases a.len(),
{
    if a.len() == 0 && b.len() == 0 {
        assert(a =~= b);
    } else if a.len() > 0 && b.len() > 0 && a[0] != b[0] {
        assert((a[0] as int) != (b[0] as int));
    } else if a.len() > 0 && b.len() > 0 && a[0] == b[0] {
        lemma_text_lt_total(a.drop_first(), b.drop_first());
        if a.drop_first() == b.drop_first() {
            assert(a =~= seq![a[0]] + a.drop_first());
            assert(b =~= seq![b[0]] + b.drop_first());
        }
    }
}

/// Whether `a` comes strictly before `b`.
fn str_lt(a: &str, b: &str) -> (r: bool)
    ensures
        r == text_lt(a@, b@),
{
    let la = a.unicode_len();
    let lb = b.unicode_len();
    let mut i: usize = 0;
    assert(a@.skip(0) =~= a@);
    assert(b@.skip(0) =~= b@);
    while i < la && i < lb
        invariant
            0 <= i <= la,
            i <= lb,
            la == a@.len(),
            lb == b@.len(),
            text_lt(a@, b@) == text_lt(a@.skip(i as int), b@.skip(i as int)),
        decreases la - i,
    {
        let ca = a.get_char(i);
        let cb = b.get_char(i);
        assert(a@.skip(i as int)[0] == ca);
        assert(b@.skip(i as int)[0] == cb);
        assert(a@.skip(i as int).drop_first() =~= a@.skip(i + 1));
        assert(b@.skip(i as int).drop_first() =~= b@.skip(i + 1));
        if ca != cb {
            return ca < cb;
        }
        i += 1;
    }
    assert(a@.skip(i as int).len() == a@.len() - i);
    assert(b@.skip(i as int).len() == b@.len() - i);
    i < lb
}

/// Each key comes strictly before every later one: ascending, each once.
pub open spec fn strictly_sorted(ks: Seq<Seq<char>>) -> bool {
    forall|i: int, j: int| 0 <= i < j < ks.len() ==> text_lt(#[trigger] ks[i], #[trigger] ks[j])
}

/// `a` and `b` hold the same texts.
pub open spec fn same_members(a: Seq<Seq<char>>, b: Seq<Seq<char>>) -> bool {
    forall|x: Seq<char>| a.contains(x) <==> b.contains(x)
}

/// The distinct texts of `s`, in ascending order.
pub open spec fn sorted_keys(s: Seq<Seq<char>>) -> Seq<Seq<char>> {
    choose|ks: Seq<Seq<char>>| strictly_sorted(ks) && same_members(ks, s)
}

/// Two ascending sequences of the same texts are the same sequence.
pub proof fn lemma_sorted_unique(a: Seq<Seq<char>>, b: Seq<Seq<char>>)
    requires
        strictly_sorted(a),
        strictly_sorted(b),
        same_members(a, b),
    ensures
        a == b,
    decreases a.len(),
{
    if a.len() == 0 {
        if b.len() > 0 {
            assert(b.contains(b[0]));
        }
        assert(a =~= b);
    } else {
        if b.len() == 0 {
            assert(a.contains(a[0]));
        }
        assert(a.contains(a[0]));
        assert(b.contains(b[0]));
        let i = choose|i: int| 0 <= i < a.len() && a[i] == b[0];
        let j = choose|j: int| 0 <= j < b.len() && b[j] == a[0];
        if a[0] != b[0] {
            assert(text_lt(a[0], a[i]));
            assert(text_lt(b[0], b[j]));
            lemma_text_lt_asymmetric(a[0], b[0]);
        }
        let a2 = a.drop_first();
        let b2 = b.drop_first();
        assert forall|x: Seq<char>| a2.contains(x) <==> b2.contains(x) by {
            if a2.contains(x) {
                let k = choose|k: int| 0 <= k < a2.len() && a2[k] == x;
                assert(a[k + 1] == x);
                assert(text_lt(a[0], a[k + 1]));
                lemma_text_lt_asymmetric(a[0], x);
                assert(a.contains(x));
                let m = choose|m: int| 0 <= m < b.len() && b[m] == x;
                assert(m != 0);
                assert(b2[m - 1] == x);
            }
            if b2.contains(x) {
                let k = choose|k: int| 0 <= k < b2.len() && b2[k] == x;
                assert(b[k + 1] == x);
                assert(text_lt(b[0], b[k + 1]));
                lemma_text_lt_asymmetric(b[0], x);
                assert(b.contains(x));
                let m = choose|m: int| 0 <= m < a.len() && a[m] == x;
                assert(m != 0);
                assert(a2[m - 1] == x);
            }
        }
        assert forall|p: int, q: int| 0 <= p < q < a2.len() implies text_lt(#[trigger] a2[p], #[trigger] a2[q]) by {
            assert(a2[p] == a[p + 1] && a2[q] == a[q + 1]);
        }
        assert forall|p: int, q: int| 0 <= p < q < b2.len() implies text_lt(#[trigger] b2[p], #[trigger] b2[q]) by {
            assert(b2[p] == b[p + 1] && b2[q] == b[q + 1]);
        }
        lemma_sorted_unique(a2, b2);
        assert(a =~= seq![a[0]] + a2);
        assert(b =~= seq![b[0]] + b2);
    }
}

/// An ascending sequence of the texts of `s` is `sorted_keys(s)`.
pub proof fn lemma_sorted_keys_is(ks: Seq<Seq<char>>, s: Seq<Seq<char>>)
    requires
        strictly_sorted(ks),
        same_members(ks, s),
    ensures
        sorted_keys(s) == ks,
{
    let c = sorted_keys(s);
    assert(strictly_sorted(c) && same_members(c, s));
    assert(same_members(c, ks));
    lemma_sorted_unique(c, ks);
}

/// Where a text not yet in an ascending list goes: every key before that
/// place comes before the text, and the text before every key from there on.
proof fn lemma_insert_point(ks: Seq<Seq<char>>, x: Seq<char>) -> (p: int)
    requires
        strictly_sorted(ks),
        !ks.contains(x),
    ensures
        0 <= p <= ks.len(),
        forall|q: int| 0 <= q < p ==> text_lt(#[trigger] ks[q], x),
        forall|q: int| p <= q < ks.len() ==> text_lt(x, #[trigger] ks[q]),
    decreases ks.len(),
{
    if ks.len() == 0 {
        0
    } else {
        let last = ks.len() - 1;
        if text_lt(ks[last], x) {
            assert forall|q: int| 0 <= q < ks.len() implies text_lt(#[trigger] ks[q], x) by {
                if q < last {
                    lemma_text_lt_transitive(ks[q], ks[last], x);
                }
            }
            ks.len() as int
        } else {
            let init = ks.drop_last();
            assert forall|i: int, j: int| 0 <= i < j < init.len() implies text_lt(#[trigger] init[i], #[trigger] init[j]) by {
                assert(init[i] == ks[i] && init[j] == ks[j]);
            }
            if init.contains(x) {
                let k = choose|k: int| 0 <= k < init.len() && init[k] == x;
                assert(ks[k] == x);
            }
            let p = lemma_insert_point(init, x);
            assert(ks[last] != x);
            lemma_text_lt_total(ks[last], x);
            assert forall|q: int| 0 <= q < p implies text_lt(#[trigger] ks[q], x) by {
                assert(ks[q] == init[q]);
            }
            assert forall|q: int| p <= q < ks.len() implies text_lt(x, #[trigger] ks[q]) by {
                if q < last {
                    assert(ks[q] == init[q]);
                }
            }
            p
        }
    }
}

/// Inserting a text at its place keeps a list ascending.
proof fn lemma_insert_keeps_sorted(ks: Seq<Seq<char>>, x: Seq<char>, p: int)
    requires
        strictly_sorted(ks),
        0 <= p <= ks.len(),
        forall|q: int| 0 <= q < p ==> text_lt(#[trigger] ks[q], x),
        forall|q: int| p <= q < ks.len() ==> text_lt(x, #[trigger] ks[q]),
    ensures
        strictly_sorted(ks.insert(p, x)),
        same_members(ks.insert(p, x), ks.push(x)),
{
    let nv = ks.insert(p, x);
    assert forall|i: int, j: int| 0 <= i < j < nv.len() implies text_lt(#[trigger] nv[i], #[trigger] nv[j]) by {
        if j < p {
            assert(nv[i] == ks[i] && nv[j] == ks[j]);
        } else if j == p {
            assert(nv[i] == ks[i]);
        } else if i == p {
            assert(nv[j] == ks[j - 1]);
        } else if i < p {
            assert(nv[i] == ks[i] && nv[j] == ks[j - 1]);
        } else {
            assert(nv[i] == ks[i - 1] && nv[j] == ks[j - 1]);
        }
    }
    assert forall|y: Seq<char>| nv.contains(y) <==> ks.push(x).contains(y) by {
        if nv.contains(y) {
            let k = choose|k: int| 0 <= k < nv.len() && nv[k] == y;
            if k < p {
                assert(ks.push(x)[k] == y);
            } else if k == p {
                assert(ks.push(x)[ks.len() as int] == y);
            } else {
                assert(ks.push(x)[k - 1] == y);
            }
        }
        if ks.push(x).contains(y) {
            let k = choose|k: int| 0 <= k < ks.push(x).len() && ks.push(x)[k] == y;
            if k == ks.len() {
                assert(nv[p] == y);
            } else if k < p {
                assert(nv[k] == y);
            } else {
                assert(nv[k + 1] == y);
            }
        }
    }
}

/// An ascending list of the distinct texts of `s`.
proof fn lemma_sorted_witness(s: Seq<Seq<char>>) -> (ks: Seq<Seq<char>>)
    ensures
        strictly_sorted(ks),
        same_members(ks, s),
    decreases s.len(),
{
    if s.len() == 0 {
        let ks = Seq::<Seq<char>>::empty();
        assert forall|y: Seq<char>| ks.contains(y) <==> s.contains(y) by {
            if s.contains(y) {
                let k = choose|k: int| 0 <= k < s.len() && s[k] == y;
            }
        }
        ks
    } else {
        let init = s.drop_last();
        let x = s.last();
        let k0 = lemma_sorted_witness(init);
        assert(s =~= init.push(x));
        lemma_same_members_push(k0, init, x);
        if k0.contains(x) {
            assert forall|y: Seq<char>| k0.contains(y) <==> k0.push(x).contains(y) by {
                if k0.push(x).contains(y) {
                    let k = choose|k: int| 0 <= k < k0.push(x).len() && k0.push(x)[k] == y;
                    if k < k0.len() {
                        assert(k0[k] == y);
                    }
                }
                if k0.contains(y) {
                    let k = choose|k: int| 0 <= k < k0.len() && k0[k] == y;
                    assert(k0.push(x)[k] == y);
                }
            }
            k0
        } else {
            let p = lemma_insert_point(k0, x);
            lemma_insert_keeps_sorted(k0, x, p);
            k0.insert(p, x)
        }
    }
}

/// `sorted_keys(s)` is well defined: it is ascending and holds exactly the
/// texts of `s`.
pub proof fn lemma_sorted_keys_spec(s: Seq<Seq<char>>)
    ensures
        strictly_sorted(sorted_keys(s)),
        same_members(sorted_keys(s), s),
{
    let ks = lemma_sorted_witness(s);
    lemma_sorted_keys_is(ks, s);
}

/// Adds a text to an ascending list of distinct texts, where it is not there
/// yet, in its place.
fn insert_sorted(keys: &mut Vec<String>, x: &str)
    requires
        strictly_sorted(views(old(keys)@)),
    ensures
        strictly_sorted(views(final(keys)@)),
        same_members(views(final(keys)@), views(old(keys)@).push(x@)),
{
    let ghost kv = views(keys@);
    let mut p: usize = 0;
    loop
        invariant
            0 <= p <= keys.len(),
            kv == views(keys@),
            kv == views(old(keys)@),
            strictly_sorted(kv),
            forall|q: int| 0 <= q < p ==> text_lt(#[trigger] kv[q], x@),
        ensures
            p <= keys.len(),
            kv == views(keys@),
            forall|q: int| 0 <= q < p ==> text_lt(#[trigger] kv[q], x@),
            p < keys.len() ==> !text_lt(kv[p as int], x@),
        decreases keys.len() - p,
    {
        if p >= keys.len() {
            break;
        }
        assert(kv[p as int] == keys@[p as int]@);
        if !str_lt(keys[p].as_str(), x) {
            break;
        }
        p += 1;
    }
    if p < keys.len() {
        assert(kv[p as int] == keys@[p as int]@);
        if str_eq(keys[p].as_str(), x) {
            assert forall|y: Seq<char>| kv.contains(y) <==> kv.push(x@).contains(y) by {
                if kv.push(x@).contains(y) {
                    let k = choose|k: int| 0 <= k < kv.push(x@).len() && kv.push(x@)[k] == y;
                    if k == kv.len() {
                        assert(kv[p as int] == y);
                    } else {
                        assert(kv[k] == y);
                    }
                }
                if kv.contains(y) {
                    let k = choose|k: int| 0 <= k < kv.len() && kv[k] == y;
                    assert(kv.push(x@)[k] == y);
                }
            }
            return;
        }
        proof {
            lemma_text_lt_total(kv[p as int], x@);
        }
    }
    proof {
        assert forall|q: int| p <= q < kv.len() implies text_lt(x@, #[trigger] kv[q]) by {
            if q > p {
                lemma_text_lt_transitive(x@, kv[p as int], kv[q]);
            }
        }
        lemma_insert_keeps_sorted(kv, x@, p as int);
    }
    keys.insert(p, to_string(x));
    assert(views(keys@) =~= kv.insert(p as int, x@));
}

// ═══════════════════════════════════════════════════════════════════════════
// Grouping the entries
// ═══════════════════════════════════════════════════════════════════════════

/// The file of each entry, in order.
pub open spec fn file_list(ev: Seq<EntryView>) -> Seq<Seq<char>> {
    ev.map_values(|e: EntryView| e.0)
}

/// The section of each entry of file `f`, in order.
pub open spec fn section_list(ev: Seq<EntryView>, f: Seq<char>) -> Seq<Seq<char>>
    decreases ev.len(),
{
    if ev.len() == 0 {
        Seq::empty()
    } else {
        section_list(ev.drop_last(), f) + if ev.last().0 == f {
            seq![ev.last().1]
        } else {
            Seq::empty()
        }
    }
}

/// The row of an entry in its section's table.
pub open spec fn row_text(e: EntryView) -> Seq<char> {
    "| `"@ + e.2 + "` | "@ + e.3 + " |\n"@
}

/// The rows of the entries of file `f` and section `s`, in order.
pub open spec fn rows_text(ev: Seq<EntryView>, f: Seq<char>, s: Seq<char>) -> Seq<char>
    decreases ev.len(),
{
    if ev.len() == 0 {
        Seq::empty()
    } else {
        rows_text(ev.drop_last(), f, s) + if ev.last().0 == f && ev.last().1 == s {
            row_text(ev.last())
        } else {
            Seq::empty()
        }
    }
}

/// The table of a section of a file.
pub open spec fn section_block(ev: Seq<EntryView>, f: Seq<char>, s: Seq<char>) -> Seq<char> {
    "#### Section: ["@ + s + "]\n\n"@ + "| key | 英文原文 |\n"@ + "|-----|----------|\n"@ + rows_text(ev, f, s) + "\n"@
}

/// The tables of the given sections of a file, one after another.
pub open spec fn sections_text(ev: Seq<EntryView>, f: Seq<char>, ss: Seq<Seq<char>>) -> Seq<char>
    decreases ss.len(),
{
    if ss.len() == 0 {
        Seq::empty()
    } else {
        sections_text(ev, f, ss.drop_last()) + section_block(ev, f, ss.last())
    }
}

/// The part of a file: its heading, then its sections in order.
pub open spec fn file_block(ev: Seq<EntryView>, f: Seq<char>) -> Seq<char> {
    "### 文件: "@ + f + "\n\n"@ + sections_text(ev, f, sorted_keys(section_list(ev, f)))
}

/// The parts of the given files, one after another.
pub open spec fn files_text(ev: Seq<EntryView>, fs: Seq<Seq<char>>) -> Seq<char>
    decreases fs.len(),
{
    if fs.len() == 0 {
        Seq::empty()
    } else {
        files_text(ev, fs.drop_last()) + file_block(ev, fs.last())
    }
}

/// Every entry, grouped by file and then by section, both in order of their
/// names; the entries of a section in their own order.
pub open spec fn task_text(ev: Seq<EntryView>) -> Seq<char> {
    files_text(ev, sorted_keys(file_list(ev)))
}

/// Lists that hold the same texts still do after the same text is added.
proof fn lemma_same_members_push(a: Seq<Seq<char>>, b: Seq<Seq<char>>, x: Seq<char>)
    requires
        same_members(a, b),
    ensures
        same_members(a.push(x), b.push(x)),
{
    assert forall|y: Seq<char>| a.push(x).contains(y) implies b.push(x).contains(y) by {
        let k = choose|k: int| 0 <= k < a.push(x).len() && a.push(x)[k] == y;
        if k == a.len() {
            assert(b.push(x)[b.len() as int] == y);
        } else {
            assert(a.contains(y));
            let m = choose|m: int| 0 <= m < b.len() && b[m] == y;
            assert(b.push(x)[m] == y);
        }
    }
    assert forall|y: Seq<char>| b.push(x).contains(y) implies a.push(x).contains(y) by {
        let k = choose|k: int| 0 <= k < b.push(x).len() && b.push(x)[k] == y;
        if k == b.len() {
            assert(a.push(x)[a.len() as int] == y);
        } else {
            assert(b.contains(y));
            let m = choose|m: int| 0 <= m < a.len() && a[m] == y;
            assert(a.push(x)[m] == y);
        }
    }
}

/// The distinct files of the entries, in ascending order.
fn sorted_files(entries: &[TranslationEntry]) -> (r: Vec<String>)
    ensures
        views(r@) == sorted_keys(file_list(entry_views(entries@))),
{
    let ghost ev = entry_views(entries@);
    let mut keys: Vec<String> = Vec::new();
    assert(views(keys@) =~= Seq::<Seq<char>>::empty());
    assert(file_list(ev.take(0)) =~= Seq::<Seq<char>>::empty());
    let mut i: usize = 0;
    while i < entries.len()
        invariant
            0 <= i <= entries.len(),
            ev == entry_views(entries@),
            strictly_sorted(views(keys@)),
            same_members(views(keys@), file_list(ev.take(i as int))),
        decreases entries.len() - i,
    {
        let ghost before = views(keys@);
        insert_sorted(&mut keys, entries[i].file_name.as_str());
        proof {
            assert(file_list(ev.take(i + 1)) =~= file_list(ev.take(i as int)).push(entries@[i as int].file_name@));
            lemma_same_members_push(before, file_list(ev.take(i as int)), entries@[i as int].file_name@);
        }
        i += 1;
    }
    proof {
        assert(ev.take(entries.len() as int) =~= ev);
        lemma_sorted_keys_is(views(keys@), file_list(ev));
    }
    keys
}

/// The distinct sections of the entries of file `f`, in ascending order.
fn sorted_sections(entries: &[TranslationEntry], f: &str) -> (r: Vec<String>)
    ensures
        views(r@) == sorted_keys(section_list(entry_views(entries@), f@)),
{
    let ghost ev = entry_views(entries@);
    let mut keys: Vec<String> = Vec::new();
    assert(views(keys@) =~= Seq::<Seq<char>>::empty());
    assert(section_list(ev.take(0), f@) =~= Seq::<Seq<char>>::empty());
    let mut i: usize = 0;
    while i < entries.len()
        invariant
            0 <= i <= entries.len(),
            ev == entry_views(entries@),
            strictly_sorted(views(keys@)),
            same_members(views(keys@), section_list(ev.take(i as int), f@)),
        decreases entries.len() - i,
    {
        let ghost before = views(keys@);
        assert(ev.take(i + 1).drop_last() =~= ev.take(i as int));
        assert(ev.take(i + 1).last() == entries@[i as int]@);
        if str_eq(entries[i].file_name.as_str(), f) {
            insert_sorted(&mut keys, entries[i].section.as_str());
            proof {
                assert(section_list(ev.take(i + 1), f@) =~= section_list(ev.take(i as int), f@).push(entries@[i as int].section@));
                lemma_same_members_push(before, section_list(ev.take(i as int), f@), entries@[i as int].section@);
            }
        } else {
            assert(section_list(ev.take(i + 1), f@) =~= section_list(ev.take(i as int), f@));
        }
        i += 1;
    }
    proof {
        assert(ev.take(entries.len() as int) =~= ev);
        lemma_sorted_keys_is(views(keys@), section_list(ev, f@));
    }
    keys
}

/// Appends the rows of the entries of file `f` and section `s`.
fn push_rows(prompt: &mut String, entries: &[TranslationEntry], f: &str, s: &str)
    ensures
        final(prompt)@ == old(prompt)@ + rows_text(entry_views(entries@), f@, s@),
{
    let ghost ev = entry_views(entries@);
    let ghost start = prompt@;
    assert(start + rows_text(ev.take(0), f@, s@) =~= start);
    let mut i: usize = 0;
    while i < entries.len()
        invariant
            0 <= i <= entries.len(),
            ev == entry_views(entries@),
            start == old(prompt)@,
            prompt@ == start + rows_text(ev.take(i as int), f@, s@),
        decreases entries.len() - i,
    {
        let e = &entries[i];
        assert(ev.take(i + 1).drop_last() =~= ev.take(i as int));
        assert(ev.take(i + 1).last() == e@);
        if str_eq(e.file_name.as_str(), f) && str_eq(e.section.as_str(), s) {
            prompt.append("| `");
            prompt.append(e.key.as_str());
            prompt.append("` | ");
            prompt.append(e.original.as_str());
            prompt.append(" |\n");
            assert(prompt@ =~= start + rows_text(ev.take(i + 1), f@, s@));
        } else {
            assert(rows_text(ev.take(i + 1), f@, s@) =~= rows_text(ev.take(i as int), f@, s@));
        }
        i += 1;
    }
    assert(ev.take(entries.len() as int) =~= ev);
}

/// Appends the tables of the given sections of file `f`.
fn push_sections(prompt: &mut String, entries: &[TranslationEntry], f: &str, sections: &Vec<String>)
    ensures
        final(prompt)@ == old(prompt)@ + sections_text(entry_views(entries@), f@, views(sections@)),
{
    let ghost ev = entry_views(entries@);
    let ghost sv = views(sections@);
    let ghost start = prompt@;
    assert(start + sections_text(ev, f@, sv.take(0)) =~= start);
    let mut j: usize = 0;
    while j < sections.len()
        invariant
            0 <= j <= sections.len(),
            ev == entry_views(entries@),
            sv == views(sections@),
            start == old(prompt)@,
            prompt@ == start + sections_text(ev, f@, sv.take(j as int)),
        decreases sections.len() - j,
    {
        let s = sections[j].as_str();
        assert(sv.take(j + 1).drop_last() =~= sv.take(j as int));
        assert(sv.take(j + 1).last() == s@);
        prompt.append("#### Section: [");
        prompt.append(s);
        prompt.append("]\n\n");
        prompt.append("| key | 英文原文 |\n");
        prompt.append("|-----|----------|\n");
        push_rows(prompt, entries, f, s);
        prompt.append("\n");
        assert(prompt@ =~= start + sections_text(ev, f@, sv.take(j + 1)));
        j += 1;
    }
    assert(sv.take(sections.len() as int) =~= sv);
}

/// Appends every entry, grouped by file and then by section.
fn push_task(prompt: &mut String, entries: &[TranslationEntry])
    ensures
        final(prompt)@ == old(prompt)@ + task_text(entry_views(entries@)),
{
    let ghost ev = entry_views(entries@);
    let files = sorted_files(entries);
    let ghost fv = views(files@);
    let ghost start = prompt@;
    assert(start + files_text(ev, fv.take(0)) =~= start);
    let mut k: usize = 0;
    while k < files.len()
        invariant
            0 <= k <= files.len(),
            ev == entry_views(entries@),
            fv == views(files@),
            start == old(prompt)@,
            prompt@ == start + files_text(ev, fv.take(k as int)),
        decreases files.len() - k,
    {
        let f = files[k].as_str();
        assert(fv.take(k + 1).drop_last() =~= fv.take(k as int));
        assert(fv.take(k + 1).last() == f@);
        prompt.append("### 文件: ");
        prompt.append(f);
        prompt.append("\n\n");
        let sections = sorted_sections(entries, f);
        push_sections(prompt, entries, f, &sections);
        assert(prompt@ =~= start + files_text(ev, fv.take(k + 1)));
        k += 1;
    }
    assert(fv.take(files.len() as int) =~= fv);
}

/// The rows of the given entries, every one, in order.
pub open spec fn all_rows(ev: Seq<EntryView>) -> Seq<char>
    decreases ev.len(),
{
    if ev.len() == 0 {
        Seq::empty()
    } else {
        all_rows(ev.drop_last()) + row_text(ev.last())
    }
}

/// Law: the rows listed under file `f` and section `s` are the rows of exactly
/// the entries of that file and that section, in the entries' order; an entry
/// of another file or another section adds nothing there.
pub proof fn law_rows_are_the_group(ev: Seq<EntryView>, f: Seq<char>, s: Seq<char>)
    ensures
        rows_text(ev, f, s) == all_rows(ev.filter(|e: EntryView| e.0 == f && e.1 == s)),
    decreases ev.len(),
{
    let p = |e: EntryView| e.0 == f && e.1 == s;
    if ev.len() == 0 {
        assert(ev.filter(p) =~= Seq::<EntryView>::empty());
    } else {
        law_rows_are_the_group(ev.drop_last(), f, s);
        assert(ev =~= ev.drop_last().push(ev.last()));
        ev.drop_last().lemma_filter_push(ev.last(), p);
        if p(ev.last()) {
            assert(ev.filter(p).drop_last() =~= ev.drop_last().filter(p));
        } else {
            assert(rows_text(ev, f, s) =~= rows_text(ev.drop_last(), f, s));
        }
    }
}

/// The rows of two runs of entries are the rows of each, one after the other.
proof fn lemma_rows_concat(a: Seq<EntryView>, b: Seq<EntryView>, f: Seq<char>, s: Seq<char>)
    ensures
        rows_text(a + b, f, s) == rows_text(a, f, s) + rows_text(b, f, s),
    decreases b.len(),
{
    if b.len() == 0 {
        assert(a + b =~= a);
        assert(rows_text(a, f, s) + rows_text(b, f, s) =~= rows_text(a, f, s));
    } else {
        lemma_rows_concat(a, b.drop_last(), f, s);
        assert((a + b).drop_last() =~= a + b.drop_last());
        assert((a + b).last() == b.last());
        assert(rows_text(a + b, f, s) =~= rows_text(a, f, s) + rows_text(b, f, s));
    }
}

/// Law: the request lists the files of the entries, each once and in
/// ascending order; under each file the sections of its entries, each once
/// and in ascending order; and under each file and section the row of every
/// entry of that file and section, in the entries' order: the row of the
/// `i`-th entry stands between the rows of the entries before it and those of
/// the entries after it.
pub proof fn law_prompt_grouping(ev: Seq<EntryView>, f: Seq<char>, i: int)
    requires
        0 <= i < ev.len(),
    ensures
        strictly_sorted(sorted_keys(file_list(ev))),
        same_members(sorted_keys(file_list(ev)), file_list(ev)),
        strictly_sorted(sorted_keys(section_list(ev, f))),
        same_members(sorted_keys(section_list(ev, f)), section_list(ev, f)),
        rows_text(ev, ev[i].0, ev[i].1) == rows_text(ev.take(i), ev[i].0, ev[i].1) + row_text(ev[i]) + rows_text(
            ev.skip(i + 1),
            ev[i].0,
            ev[i].1,
        ),
{
    lemma_sorted_keys_spec(file_list(ev));
    lemma_sorted_keys_spec(section_list(ev, f));
    let (fi, si) = (ev[i].0, ev[i].1);
    assert(ev =~= ev.take(i + 1) + ev.skip(i + 1));
    lemma_rows_concat(ev.take(i + 1), ev.skip(i + 1), fi, si);
    assert(ev.take(i + 1).drop_last() =~= ev.take(i));
    assert(ev.take(i + 1).last() == ev[i]);
}

// ═══════════════════════════════════════════════════════════════════════════
// The reference texts
// ═══════════════════════════════════════════════════════════════════════════

/// The files of a language, each under a comment naming it.
pub open spec fn files_listing(files: LangView) -> Seq<char>
    decreases files.len(),
{
    if files.len() == 0 {
        Seq::empty()
    } else {
        files_listing(files.drop_last()) + "; 文件: "@ + files.last().0 + "\n"@ + files.last().1 + "\n"@
    }
}

/// The languages of a locale, each under a comment naming it.
pub open spec fn langs_listing(langs: Seq<(Seq<char>, LangView)>) -> Seq<char>
    decreases langs.len(),
{
    if langs.len() == 0 {
        Seq::empty()
    } else {
        langs_listing(langs.drop_last()) + "; --- 语言: "@ + langs.last().0 + " ---\n"@ + files_listing(langs.last().1)
    }
}

/// The base game's terms, where there are any sections.
pub open spec fn base_reference_text(base: IniView) -> Seq<char> {
    if base.len() == 0 {
        Seq::empty()
    } else {
        "## 原版游戏术语对照参考\n\n"@ + "以下为原版游戏中的常见术语翻译，请保持翻译一致性：\n\n"@ + "```ini\n"@
            + spec_ini_text(base) + "```\n\n"@
    }
}

/// The mod's earlier translation, where it has any language.
pub open spec fn previous_text(prev: Option<LocaleView>) -> Seq<char> {
    match prev {
        Some(p) => if p.0.len() > 0 {
            "## 该模组之前的翻译（仅供参考风格）\n\n"@ + "```ini\n"@ + langs_listing(p.0) + "```\n\n"@
        } else {
            Seq::empty()
        },
        None => Seq::empty(),
    }
}

/// The whole request: references, the task heading, the grouped entries and
/// the closing instruction.
pub open spec fn user_prompt_text(base: IniView, prev: Option<LocaleView>, ev: Seq<EntryView>) -> Seq<char> {
    base_reference_text(base) + previous_text(prev) + "## 当前翻译任务\n\n"@
        + "请将以下英文文本翻译为简体中文，按文件分 section 调用 submit_translation 函数提交：\n\n"@ + task_text(ev)
        + "请现在开始翻译，按文件按 section 调用 submit_translation 函数逐批提交。\n"@
}

/// Appends the files of a language, each under a comment naming it.
fn push_files_listing(prompt: &mut String, li: &crate::translation::LangInfo)
    ensures
        final(prompt)@ == old(prompt)@ + files_listing(li@),
{
    let files = text_map_pairs(&li.contents);
    let ghost fv = files.deep_view();
    let ghost start = prompt@;
    assert(start + files_listing(fv.take(0)) =~= start);
    let mut i: usize = 0;
    while i < files.len()
        invariant
            0 <= i <= files.len(),
            fv == files.deep_view(),
            fv == li@,
            start == old(prompt)@,
            prompt@ == start + files_listing(fv.take(i as int)),
        decreases files.len() - i,
    {
        assert(fv.take(i + 1).drop_last() =~= fv.take(i as int));
        assert(fv.take(i + 1).last() == (files@[i as int].0@, files@[i as int].1@));
        prompt.append("; 文件: ");
        prompt.append(files[i].0.as_str());
        prompt.append("\n");
        prompt.append(files[i].1.as_str());
        prompt.append("\n");
        assert(prompt@ =~= start + files_listing(fv.take(i + 1)));
        i += 1;
    }
    assert(fv.take(files.len() as int) =~= fv);
}

/// Appends the languages of a locale, each under a comment naming it.
fn push_langs_listing(prompt: &mut String, prev: &LocaleInfo)
    ensures
        final(prompt)@ == old(prompt)@ + langs_listing(prev@.0),
{
    let langs = lang_map_iter(&prev.contents);
    let ghost lv = prev@.0;
    let ghost start = prompt@;
    assert(start + langs_listing(lv.take(0)) =~= start);
    let mut i: usize = 0;
    while i < langs.len()
        invariant
            0 <= i <= langs.len(),
            langs@.len() == lv.len(),
            lv == prev@.0,
            forall|k: int| 0 <= k < langs@.len() ==> (#[trigger] langs@[k]).0@ == lv[k].0 && langs@[k].1@ == lv[k].1,
            start == old(prompt)@,
            prompt@ == start + langs_listing(lv.take(i as int)),
        decreases langs.len() - i,
    {
        assert(lv.take(i + 1).drop_last() =~= lv.take(i as int));
        assert(langs@[i as int].0@ == lv[i as int].0);
        prompt.append("; --- 语言: ");
        prompt.append(langs[i].0.as_str());
        prompt.append(" ---\n");
        push_files_listing(prompt, langs[i].1);
        assert(prompt@ =~= start + langs_listing(lv.take(i + 1)));
        i += 1;
    }
    assert(lv.take(langs.len() as int) =~= lv);
}

/// Builds the request for a mod's translation: the base game's terms (where
/// the reference document has sections), the mod's earlier translation
/// (where it has languages), then every entry to translate grouped by file
/// and by section, both in ascending order of their names.
pub fn build_user_prompt(
    base_locale: &ini::Ini,
    entries: &[TranslationEntry],
    previous_translations: Option<&LocaleInfo>,
) -> (r: String)
    ensures
        r@ == user_prompt_text(ini_contents(*base_locale), locale_opt_view(previous_translations), entry_views(entries@)),
{
    let mut prompt = String::new();
    if !ini_is_empty(base_locale) {
        prompt.append("## 原版游戏术语对照参考\n\n");
        prompt.append("以下为原版游戏中的常见术语翻译，请保持翻译一致性：\n\n");
        prompt.append("```ini\n");
        match ini_to_str(base_locale) {
            Ok(text) => prompt.append(text.as_str()),
            Err(_) => {},
        }
        prompt.append("```\n\n");
    }
    assert(prompt@ =~= base_reference_text(ini_contents(*base_locale)));
    let ghost head = prompt@;
    match previous_translations {
        Some(prev) => {
            if lang_map_len(&prev.contents) > 0 {
                prompt.append("## 该模组之前的翻译（仅供参考风格）\n\n");
                prompt.append("```ini\n");
                push_langs_listing(&mut prompt, prev);
                prompt.append("```\n\n");
            }
        },
        None => {},
    }
    assert(prompt@ =~= head + previous_text(locale_opt_view(previous_translations)));
    prompt.append("## 当前翻译任务\n\n");
    prompt.append("请将以下英文文本翻译为简体中文，按文件分 section 调用 submit_translation 函数提交：\n\n");
    push_task(&mut prompt, entries);
    prompt.append("请现在开始翻译，按文件按 section 调用 submit_translation 函数逐批提交。\n");
    assert(prompt@ =~= user_prompt_text(ini_contents(*base_locale), locale_opt_view(previous_translations), entry_views(entries@)));
    prompt
}


} // verus!
