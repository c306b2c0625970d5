//! Repacking: picking the translations of the enabled mods out of an
//! installed translation pack into a mod of their own.
use vstd::prelude::*;
use crate::archive::{item_text, zip_entry, zip_entry_text, zip_items, zip_len, zip_open, spec_zip_read, ZipItem};
use crate::assoc::{assoc_find, assoc_insert};
use crate::flow::{views, ExtractError, ExtractStage, stage_of};
use crate::text::{concat2, concat3, decimal_text, str_ends_with, str_eq, str_starts_with, str_strip_prefix, str_strip_suffix, strip_prefix_view, strip_suffix_view, to_string, usize_text};
use crate::time::{time_le, UtcTime};

verus! {

/// The name of the translation pack.
pub const PACK_PREFIX: &'static str = "tanvec-ai-cn";

/// Mods that never get a translation of their own.
pub const IGNORED_MODS: [&'static str; 6] = ["base", "space-age", "quality", "recycler", "elevated-rails", "tanvec-ai-cn"];

/// The ignored mods' names.
pub open spec fn ignored_names() -> Seq<Seq<char>> {
    IGNORED_MODS@.map_values(|s: &str| s@)
}

/// A file of the mods directory is a candidate pack: it starts with the
/// prefix and ends in `.zip`.
pub fn is_pack_candidate(file_name: &str, prefix: &str) -> (r: bool)
    ensures
        r == (prefix@.is_prefix_of(file_name@) && ".zip"@.is_suffix_of(file_name@)),
{
    str_starts_with(file_name, prefix) && str_ends_with(file_name, ".zip")
}

/// The candidate modified last: among those with the latest time, the last
/// one (as a stable sort by time followed by taking the last gives).
pub fn latest_index(mtimes: &[UtcTime]) -> (r: Option<usize>)
    ensures
        r is None <==> mtimes@.len() == 0,
        r matches Some(k) ==> {
            &&& k < mtimes@.len()
            &&& forall|j: int| 0 <= j < mtimes@.len() ==> time_le(#[trigger] mtimes@[j], mtimes@[k as int])
            &&& forall|j: int| k < j < mtimes@.len() ==> !time_le(mtimes@[k as int], #[trigger] mtimes@[j])
        },
{
    if mtimes.len() == 0 {
        return None;
    }
    let mut best: usize = 0;
    let mut i: usize = 1;
    while i < mtimes.len()
        invariant
            1 <= i <= mtimes@.len(),
            best < i,
            forall|j: int| 0 <= j < i ==> time_le(#[trigger] mtimes@[j], mtimes@[best as int]),
            forall|j: int| best < j < i ==> !time_le(mtimes@[best as int], #[trigger] mtimes@[j]),
        decreases mtimes.len() - i,
    {
        if mtimes[i].at_or_after(&mtimes[best]) {
            best = i;
        }
        i += 1;
    }
    Some(best)
}

/// The mod a pack entry holds the translation of: for
/// `tanvec-ai-cn/locale/zh-CN/<mod>.cfg` or `<mod>.cfg.disabled`, the mod;
/// every other entry (such as the toggle script) holds none.
pub open spec fn pack_entry_mod(name: Seq<char>) -> Option<Seq<char>> {
    match strip_prefix_view(name, "tanvec-ai-cn/locale/zh-CN/"@) {
        None => None,
        Some(rest) => match strip_suffix_view(rest, ".cfg"@) {
            Some(m) => Some(m),
            None => strip_suffix_view(rest, ".cfg.disabled"@),
        },
    }
}

/// The mod a pack entry holds the translation of, where it is one.
pub fn pack_locale_mod_name(entry_name: &str) -> (r: Option<String>)
    ensures
        r.deep_view() == pack_entry_mod(entry_name@),
{
    match str_strip_prefix(entry_name, "tanvec-ai-cn/locale/zh-CN/") {
        None => None,
        Some(rest) => match str_strip_suffix(rest, ".cfg") {
            Some(m) => Some(to_string(m)),
            None => match str_strip_suffix(rest, ".cfg.disabled") {
                Some(m) => Some(to_string(m)),
                None => None,
            },
        },
    }
}

/// The view of a list of text pairs.
pub open spec fn pair_views(v: Seq<(String, String)>) -> Seq<(Seq<char>, Seq<char>)> {
    v.map_values(|p: (String, String)| (p.0@, p.1@))
}

/// One entry's effect on the translations read from a pack: an entry that
/// does not open fails the read; a translation whose text does not read
/// fails it; a translation is stored under its mod, replacing an earlier one.
pub open spec fn pack_files_step(
    acc: Result<Seq<(Seq<char>, Seq<char>)>, ExtractStage>,
    it: ZipItem,
) -> Result<Seq<(Seq<char>, Seq<char>)>, ExtractStage> {
    match acc {
        Err(e) => Err(e),
        Ok(m) => match it {
            None => Err(ExtractStage::Entry),
            Some((name, _, text)) => match pack_entry_mod(name) {
                None => Ok(m),
                Some(mod_name) => match text {
                    Some(t) => Ok(assoc_insert(m, mod_name, t)),
                    None => Err(ExtractStage::Read),
                },
            },
        },
    }
}

/// The entries' effects, in order.
pub open spec fn pack_files_fold(items: Seq<ZipItem>) -> Result<Seq<(Seq<char>, Seq<char>)>, ExtractStage>
    decreases items.len(),
{
    if items.len() == 0 {
        Ok(Seq::empty())
    } else {
        pack_files_step(pack_files_fold(items.drop_last()), items.last())
    }
}

/// What reading the translations out of a pack gives.
pub open spec fn pack_files_view(bytes: Seq<u8>) -> Result<Seq<(Seq<char>, Seq<char>)>, ExtractStage> {
    match spec_zip_read(bytes) {
        None => Err(ExtractStage::Open),
        Some(items) => pack_files_fold(items),
    }
}

/// A failure stays a failure as more entries are folded in.
proof fn lemma_pack_fold_err(items: Seq<ZipItem>, j: int, e: ExtractStage)
    requires
        0 <= j <= items.len(),
        pack_files_fold(items.take(j)) == Err::<Seq<(Seq<char>, Seq<char>)>, ExtractStage>(e),
    ensures
        pack_files_fold(items) == Err::<Seq<(Seq<char>, Seq<char>)>, ExtractStage>(e),
    decreases items.len() - j,
{
    if j < items.len() {
        assert(items.take(j + 1).drop_last() =~= items.take(j));
        lemma_pack_fold_err(items, j + 1, e);
    } else {
        assert(items.take(j) =~= items);
    }
}

/// Stores a text under a key, replacing an earlier one in its place.
fn pairs_insert(v: &mut Vec<(String, String)>, k: String, t: String)
    ensures
        pair_views(final(v)@) == assoc_insert(pair_views(old(v)@), k@, t@),
{
    let ghost pv = pair_views(v@);
    let mut i: usize = 0;
    while i < v.len()
        invariant
            0 <= i <= v.len(),
            pv == pair_views(v@),
            pv == pair_views(old(v)@),
            forall|j: int| 0 <= j < i ==> pv[j].0 != k@,
        decreases v.len() - i,
    {
        assert(pv[i as int].0 == v@[i as int].0@);
        if v[i].0.eq(&k) {
            let ghost kv = k@;
            let ghost tv = t@;
            proof {
                crate::assoc::lemma_assoc_find(pv, kv);
            }
            assert(assoc_find(pv, kv) == Some(i as int));
            v.set(i, (k, t));
            assert(pair_views(v@) =~= pv.update(i as int, (kv, tv)));
            return;
        }
        i += 1;
    }
    proof {
        crate::assoc::lemma_assoc_find(pv, k@);
    }
    let ghost kv = k@;
    let ghost tv = t@;
    v.push((k, t));
    assert(pair_views(v@) =~= pv.push((kv, tv)));
}

/// Reads the translation of every mod out of a translation pack (entries
/// `tanvec-ai-cn/locale/zh-CN/<mod>.cfg` or `.cfg.disabled`), keyed by mod.
pub fn extract_pack_locale_files(zip_bytes: &[u8]) -> (r: Result<Vec<(String, String)>, ExtractError>)
    ensures
        match r {
            Ok(v) => pack_files_view(zip_bytes@) == Ok::<Seq<(Seq<char>, Seq<char>)>, ExtractStage>(pair_views(v@)),
            Err(e) => pack_files_view(zip_bytes@) == Err::<Seq<(Seq<char>, Seq<char>)>, ExtractStage>(stage_of(e)),
        },
{
    let mut archive = match zip_open(zip_bytes) {
        Ok(a) => a,
        Err(e) => return Err(ExtractError::Open(e)),
    };
    let ghost items = zip_items(archive);
    let n = zip_len(&archive);
    let mut files: Vec<(String, String)> = Vec::new();
    assert(items.take(0) =~= Seq::<ZipItem>::empty());
    assert(pair_views(files@) =~= Seq::<(Seq<char>, Seq<char>)>::empty());
    let mut i: usize = 0;
    while i < n
        invariant
            0 <= i <= n,
            n == items.len(),
            zip_items(archive) == items,
            spec_zip_read(zip_bytes@) == Some(items),
            pack_files_fold(items.take(i as int)) == Ok::<Seq<(Seq<char>, Seq<char>)>, ExtractStage>(pair_views(files@)),
        decreases n - i,
    {
        assert(items.take(i + 1).drop_last() =~= items.take(i as int));
        assert(items.take(i + 1).last() == items[i as int]);
        let (name, _) = match zip_entry(&mut archive, i) {
            Ok(entry) => entry,
            Err(e) => {
                proof {
                    lemma_pack_fold_err(items, i + 1, ExtractStage::Entry);
                }
                return Err(ExtractError::Entry(e));
            },
        };
        match pack_locale_mod_name(name.as_str()) {
            Some(mod_name) => {
                let content = match zip_entry_text(&mut archive, i) {
                    Ok(t) => t,
                    Err(e) => {
                        proof {
                            lemma_pack_fold_err(items, i + 1, ExtractStage::Read);
                        }
                        return Err(ExtractError::Read(e));
                    },
                };
                pairs_insert(&mut files, mod_name, content);
            },
            None => {},
        }
        i += 1;
    }
    assert(items.take(n as int) =~= items);
    Ok(files)
}

/// The text stored under a mod, where there is one.
pub fn pack_file_text<'a>(files: &'a Vec<(String, String)>, mod_name: &str) -> (r: Option<&'a String>)
    ensures
        r.deep_view() == crate::assoc::assoc_get(pair_views(files@), mod_name@),
{
    let ghost pv = pair_views(files@);
    proof {
        crate::assoc::lemma_assoc_find(pv, mod_name@);
    }
    let mut i: usize = 0;
    while i < files.len()
        invariant
            0 <= i <= files.len(),
            pv == pair_views(files@),
            forall|j: int| 0 <= j < i ==> pv[j].0 != mod_name@,
            assoc_find(pv, mod_name@) matches Some(k) ==> i <= k && pv[k].0 == mod_name@ && forall|j: int| 0 <= j < k ==> pv[j].0 != mod_name@,
            assoc_find(pv, mod_name@) is None ==> forall|j: int| 0 <= j < pv.len() ==> pv[j].0 != mod_name@,
        decreases files.len() - i,
    {
        assert(pv[i as int] == (files@[i as int].0@, files@[i as int].1@));
        if str_eq(files[i].0.as_str(), mod_name) {
            return Some(&files[i].1);
        }
        i += 1;
    }
    None
}

/// Whether a mod is one that never gets a translation of its own.
pub fn is_ignored_mod(name: &str) -> (r: bool)
    ensures
        r == ignored_names().contains(name@),
{
    let mut i: usize = 0;
    while i < 6
        invariant
            0 <= i <= 6,
            forall|j: int| 0 <= j < i ==> ignored_names()[j] != name@,
        decreases 6 - i,
    {
        assert(ignored_names()[i as int] == IGNORED_MODS@[i as int]@);
        if str_eq(IGNORED_MODS[i], name) {
            return true;
        }
        i += 1;
    }
    false
}

/// Whether an enabled mod is a candidate for the repack.
pub open spec fn repack_candidate(m: Seq<char>, self_name: Seq<char>) -> bool {
    !ignored_names().contains(m) && m != self_name
}

/// Splits the enabled mods (in order) into those the pack translates and those
/// it does not, leaving out the ignored mods and the repack itself.
pub fn partition_enabled_mods(
    enabled: &[String],
    available: &Vec<(String, String)>,
    self_name: &str,
) -> (r: (Vec<String>, Vec<String>))
    ensures
        views(r.0@) == views(enabled@).filter(|m: Seq<char>| repack_candidate(m, self_name@) && assoc_find(pair_views(available@), m) is Some),
        views(r.1@) == views(enabled@).filter(|m: Seq<char>| repack_candidate(m, self_name@) && assoc_find(pair_views(available@), m) is None),
{
    let ghost ev = views(enabled@);
    let ghost av = pair_views(available@);
    let ghost p_in = |m: Seq<char>| repack_candidate(m, self_name@) && assoc_find(av, m) is Some;
    let ghost p_out = |m: Seq<char>| repack_candidate(m, self_name@) && assoc_find(av, m) is None;
    let mut matched: Vec<String> = Vec::new();
    let mut unmatched: Vec<String> = Vec::new();
    let mut i: usize = 0;
    while i < enabled.len()
        invariant
            0 <= i <= enabled.len(),
            ev == views(enabled@),
            av == pair_views(available@),
            p_in == (|m: Seq<char>| repack_candidate(m, self_name@) && assoc_find(av, m) is Some),
            p_out == (|m: Seq<char>| repack_candidate(m, self_name@) && assoc_find(av, m) is None),
            views(matched@) == ev.take(i as int).filter(p_in),
            views(unmatched@) == ev.take(i as int).filter(p_out),
        decreases enabled.len() - i,
    {
        let m = &enabled[i];
        proof {
            assert(ev[i as int] == m@);
            assert(ev.take(i + 1) =~= ev.take(i as int).push(m@));
            ev.take(i as int).lemma_filter_push(m@, p_in);
            ev.take(i as int).lemma_filter_push(m@, p_out);
        }
        if !is_ignored_mod(m.as_str()) && !str_eq(m.as_str(), self_name) {
            let found = pack_file_text(available, m.as_str());
            proof {
                crate::assoc::lemma_assoc_find(av, m@);
            }
            if found.is_some() {
                let ghost before = matched@;
                matched.push(m.clone());
                assert(views(matched@) =~= views(before).push(m@));
            } else {
                let ghost before = unmatched@;
                unmatched.push(m.clone());
                assert(views(unmatched@) =~= views(before).push(m@));
            }
        }
        i += 1;
    }
    assert(ev.take(enabled.len() as int) =~= ev);
    (matched, unmatched)
}

/// The dependencies of a repack: the base game, each translated mod as
/// optional (`+`), and the translation pack as incompatible (`!`).
pub fn repack_dependencies(matched: &[String]) -> (r: Vec<String>)
    ensures
        views(r@) == seq!["base >= 2.1"@] + views(matched@).map_values(|m: Seq<char>| "+ "@ + m) + seq!["! tanvec-ai-cn"@],
{
    let ghost mv = views(matched@);
    let ghost f = |m: Seq<char>| "+ "@ + m;
    let mut deps: Vec<String> = Vec::new();
    deps.push(to_string("base >= 2.1"));
    let mut i: usize = 0;
    while i < matched.len()
        invariant
            0 <= i <= matched.len(),
            mv == views(matched@),
            f == (|m: Seq<char>| "+ "@ + m),
            views(deps@) == seq!["base >= 2.1"@] + mv.take(i as int).map_values(f),
        decreases matched.len() - i,
    {
        let ghost before = deps@;
        deps.push(concat2("+ ", matched[i].as_str()));
        assert(mv[i as int] == matched@[i as int]@);
        assert(mv.take(i + 1).map_values(f) =~= mv.take(i as int).map_values(f).push(f(mv[i as int])));
        assert(views(deps@) =~= views(before).push(f(mv[i as int])));
        i += 1;
    }
    assert(mv.take(matched.len() as int) =~= mv);
    let ghost before = deps@;
    deps.push(to_string("! tanvec-ai-cn"));
    assert(views(deps@) =~= views(before).push("! tanvec-ai-cn"@));
    deps
}

/// The title of a repack made for an author.
pub fn repack_title(author: &str) -> (r: String)
    ensures
        r@ == author@ + " 的专用汉化整合包"@,
{
    concat2(author, " 的专用汉化整合包")
}

/// The description of a repack holding `count` mods' translations.
pub fn repack_description(count: usize) -> (r: String)
    ensures
        r@ == "包含 "@ + decimal_text(count as nat) + " 个模组的 AI 中文翻译。由 gavin-server 从 tanvec-ai-cn 翻译包中自动提取。"@,
{
    let num = usize_text(count);
    concat3("包含 ", num.as_str(), " 个模组的 AI 中文翻译。由 gavin-server 从 tanvec-ai-cn 翻译包中自动提取。")
}

} // verus!
