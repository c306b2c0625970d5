//! The translation pipeline: reading a mod's locale files out of its zip,
//! deciding what to translate, and folding the answers back in.
use vstd::prelude::*;
use crate::archive::{item_text, zip_entry, zip_entry_text, zip_items, zip_len, zip_open, spec_zip_read, Archive, ZipItem};
use crate::assoc::assoc_find;
use crate::json::{json_str_field, spec_json_str_field};
use crate::text::{
    split_first, str_ends_with, str_eq, str_split_once, str_starts_with, str_strip_prefix,
    strip_prefix_view, to_string, concat2, concat3, concat4, concat5, decimal_text, usize_text,
};
use crate::time::{UtcTime, time_le};
use crate::assoc::{assoc_get, assoc_insert, text_map_insert, text_map_pairs};
use crate::ini_spec::{all_triples, ini_contents, ini_lookup, ini_well_formed, ini_is_empty, ini_new, ini_new_view, ini_sections, section_triples, set_all, spec_ini_parse, spec_ini_text, IniView, PropView, Triple};
use crate::translation::{
    add_file_view, diff_ini, diff_triples, ini_to_str, lang_map_add_file, lang_map_contains_key, lang_map_get, lang_map_insert,
    lang_map_len, lang_map_new, merge_ini, merge_triples, str_to_ini, IniError, LangInfo, LangView, LocaleInfo, LocaleView,
};

verus! {

// ═══════════════════════════════════════════════════════════════════════════
// The common root directory of an archive's file names
// ═══════════════════════════════════════════════════════════════════════════

/// A name that does not end in `/` names a file rather than a directory.
pub open spec fn names_file(n: Seq<char>) -> bool {
    !seq!['/'].is_suffix_of(n)
}

/// The names of files among a list of names, in order.
pub open spec fn file_names(names: Seq<Seq<char>>) -> Seq<Seq<char>> {
    names.filter(|n: Seq<char>| names_file(n))
}

/// The directory prefix (up to and including the first `/`) of the first file
/// name, where every file name starts with it; `None` where there is no file,
/// where the first file has no `/`, or where some file lies outside it.
pub open spec fn common_root_prefix(names: Seq<Seq<char>>) -> Option<Seq<char>> {
    let files = file_names(names);
    if files.len() == 0 {
        None
    } else {
        match split_first(files[0], '/') {
            None => None,
            Some((head, _)) => {
                let candidate = head.push('/');
                if forall|i: int| 0 <= i < files.len() ==> candidate.is_prefix_of(#[trigger] files[i]) {
                    Some(candidate)
                } else {
                    None
                }
            },
        }
    }
}

/// Law: the common root of a list of names is the directory, before the first
/// `/` of the first file name, under which every file name (a name not ending
/// in `/`) lies; there is none where there is no file or no such directory.
/// So the directory is unique, and names of directories never matter.
pub proof fn law_common_root_prefix(names: Seq<Seq<char>>, d: Seq<char>)
    ensures
        common_root_prefix(names) matches Some(p) ==> {
            &&& file_names(names).len() > 0
            &&& exists|d0: Seq<char>| !d0.contains('/') && p == #[trigger] d0.push('/')
            &&& forall|i: int| 0 <= i < file_names(names).len() ==> p.is_prefix_of(#[trigger] file_names(names)[i])
        },
        !d.contains('/') && file_names(names).len() > 0 && (forall|i: int|
            0 <= i < file_names(names).len() ==> d.push('/').is_prefix_of(#[trigger] file_names(names)[i]))
            ==> common_root_prefix(names) == Some(d.push('/')),
{
    let files = file_names(names);
    if files.len() > 0 {
        crate::text::lemma_split_first(files[0], '/', d);
        if let Some((h, t)) = split_first(files[0], '/') {
            assert(h.push('/') == h.push('/'));
        }
    }
}

/// The views of a list of texts.
pub open spec fn views(names: Seq<String>) -> Seq<Seq<char>> {
    names.map_values(|s: String| s@)
}

/// Detects the common root directory of a list of archive paths, e.g.
/// `["foo/bar.txt", "foo/baz/info.json"]` gives `Some("foo/")`. Only the
/// directory before the first `/` is considered, and every name that is not a
/// directory (does not end in `/`) must lie in it.
pub fn find_common_root_prefix(names: &[String]) -> (r: Option<String>)
    ensures
        r.deep_view() == common_root_prefix(views(names@)),
{
    let ghost nv = views(names@);
    let ghost pred = |n: Seq<char>| names_file(n);
    proof {
        reveal_strlit("/");
    }
    let mut files: Vec<&str> = Vec::new();
    let mut i: usize = 0;
    while i < names.len()
        invariant
            0 <= i <= names.len(),
            nv == views(names@),
            pred == (|n: Seq<char>| names_file(n)),
            files.deep_view() == nv.take(i as int).filter(pred),
        decreases names.len() - i,
    {
        let name = names[i].as_str();
        proof {
            reveal_strlit("/");
            assert(nv[i as int] == name@);
            assert(nv.take(i + 1) =~= nv.take(i as int).push(name@));
            nv.take(i as int).lemma_filter_push(name@, pred);
        }
        if !str_ends_with(name, "/") {
            files.push(name);
            assert(files.deep_view() =~= nv.take(i as int).filter(pred).push(name@));
        }
        i += 1;
    }
    assert(nv.take(names.len() as int) =~= nv);
    let ghost fv = file_names(nv);
    assert(files.deep_view() == fv);
    if files.len() == 0 {
        return None;
    }
    let first = files[0];
    assert(first@ == fv[0]);
    let split = str_split_once(first, '/');
    let (head, _) = match split {
        Some(parts) => parts,
        None => return None,
    };
    assert(split_first(fv[0], '/') matches Some((h, _)) && h == head@);
    let candidate = concat2(head, "/");
    proof {
        reveal_strlit("/");
        assert(candidate@ =~= head@.push('/'));
    }
    let mut j: usize = 0;
    while j < files.len()
        invariant
            0 <= j <= files.len(),
            files.deep_view() == fv,
            fv == file_names(nv),
            nv == views(names@),
            fv.len() > 0,
            split_first(fv[0], '/') matches Some((h, _)) && h.push('/') == candidate@,
            forall|k: int| 0 <= k < j ==> candidate@.is_prefix_of(#[trigger] fv[k]),
        decreases files.len() - j,
    {
        if !str_starts_with(files[j], candidate.as_str()) {
            assert(files[j as int]@ == fv[j as int]);
            assert(!candidate@.is_prefix_of(fv[j as int]));
            assert(!(forall|i: int| 0 <= i < fv.len() ==> candidate@.is_prefix_of(#[trigger] fv[i])));
            return None;
        }
        j += 1;
    }
    Some(candidate)
}

// ═══════════════════════════════════════════════════════════════════════════
// Reading the locale files out of a mod's zip
// ═══════════════════════════════════════════════════════════════════════════

/// Files larger than this (5 MiB) are not read from an archive.
pub const MAX_LOCALE_FILE_SIZE: u64 = 5 * 1024 * 1024;

/// `locale/`
pub open spec fn locale_dir() -> Seq<char> {
    seq!['l', 'o', 'c', 'a', 'l', 'e', '/']
}

/// `.cfg`
pub open spec fn cfg_ext() -> Seq<char> {
    seq!['.', 'c', 'f', 'g']
}

/// `info.json`
pub open spec fn info_json_name() -> Seq<char> {
    seq!['i', 'n', 'f', 'o', '.', 'j', 's', 'o', 'n']
}

/// `version`
pub open spec fn version_key() -> Seq<char> {
    seq!['v', 'e', 'r', 's', 'i', 'o', 'n']
}

/// Where reading an archive failed.
#[derive(PartialEq, Eq, Structural, Debug, Clone, Copy)]
pub enum ExtractStage {
    /// The bytes are not a zip archive.
    Open,
    /// An entry could not be opened or named.
    Entry,
    /// A locale file could not be read as text.
    Read,
}

/// Failure to read the locale files of an archive.
#[derive(Debug)]
pub enum ExtractError {
    /// `ZipArchive::new` refused the bytes.
    Open(zip::result::ZipError),
    /// `ZipArchive::by_index` or the entry's name failed.
    Entry(zip::result::ZipError),
    /// A locale file could not be read as UTF-8 text.
    Read(std::io::Error),
}

/// The stage at which an error arose.
pub open spec fn stage_of(e: ExtractError) -> ExtractStage {
    match e {
        ExtractError::Open(_) => ExtractStage::Open,
        ExtractError::Entry(_) => ExtractStage::Entry,
        ExtractError::Read(_) => ExtractStage::Read,
    }
}

/// The names of the entries that open, in order.
pub open spec fn zip_names(items: Seq<ZipItem>) -> Seq<Seq<char>> {
    items.filter_map(|it: ZipItem| match it {
        Some((n, _, _)) => Some(n),
        None => None,
    })
}

/// An entry's path with the common root directory removed, where it has it.
pub open spec fn entry_path(raw: Seq<char>, prefix: Option<Seq<char>>) -> Seq<char> {
    match prefix {
        Some(p) => match strip_prefix_view(raw, p) {
            Some(r) => r,
            None => raw,
        },
        None => raw,
    }
}

/// Directories and files over the size limit are passed over.
pub open spec fn entry_skipped(raw: Seq<char>, size: u64) -> bool {
    seq!['/'].is_suffix_of(raw) || size > MAX_LOCALE_FILE_SIZE
}

/// For a path `locale/<lang>/<file>`: the language and the file.
pub open spec fn locale_target(path: Seq<char>) -> Option<(Seq<char>, Seq<char>)> {
    match strip_prefix_view(path, locale_dir()) {
        Some(rest) => split_first(rest, '/'),
        None => None,
    }
}

/// One entry's effect on the locale being read: a `.cfg` file under
/// `locale/<lang>/` is added to that language (its text must read), an
/// `info.json` at the root sets the version from its `version` field where it
/// reads and parses, and every other entry is passed over. An entry that does
/// not open fails the whole read.
pub open spec fn extract_step(
    acc: Result<LocaleView, ExtractStage>,
    prefix: Option<Seq<char>>,
    it: ZipItem,
) -> Result<LocaleView, ExtractStage> {
    match acc {
        Err(e) => Err(e),
        Ok(loc) => match it {
            None => Err(ExtractStage::Entry),
            Some((raw, size, text)) => if entry_skipped(raw, size) {
                Ok(loc)
            } else {
                let path = entry_path(raw, prefix);
                match locale_target(path) {
                    Some((lang, file)) => if cfg_ext().is_suffix_of(file) {
                        match text {
                            Some(t) => Ok((add_file_view(loc.0, lang, file, t), loc.1)),
                            None => Err(ExtractStage::Read),
                        }
                    } else {
                        Ok(loc)
                    },
                    None => if path == info_json_name() {
                        match text {
                            Some(t) => match spec_json_str_field(t, version_key()) {
                                Some(Some(v)) => Ok((loc.0, v)),
                                Some(None) => Ok((loc.0, Seq::empty())),
                                None => Ok(loc),
                            },
                            None => Ok(loc),
                        }
                    } else {
                        Ok(loc)
                    },
                }
            },
        },
    }
}

/// The entries' effects, in order, from an empty locale.
pub open spec fn extract_fold(items: Seq<ZipItem>, prefix: Option<Seq<char>>) -> Result<LocaleView, ExtractStage>
    decreases items.len(),
{
    if items.len() == 0 {
        Ok((Seq::empty(), Seq::empty()))
    } else {
        extract_step(extract_fold(items.drop_last(), prefix), prefix, items.last())
    }
}

/// A failure stays a failure as more entries are folded in.
proof fn lemma_extract_fold_err(items: Seq<ZipItem>, prefix: Option<Seq<char>>, j: int, e: ExtractStage)
    requires
        0 <= j <= items.len(),
        extract_fold(items.take(j), prefix) == Err::<LocaleView, ExtractStage>(e),
    ensures
        extract_fold(items, prefix) == Err::<LocaleView, ExtractStage>(e),
    decreases items.len() - j,
{
    if j < items.len() {
        assert(items.take(j + 1).drop_last() =~= items.take(j));
        lemma_extract_fold_err(items, prefix, j + 1, e);
    } else {
        assert(items.take(j) =~= items);
    }
}

/// The text a locale holds for a language and file, where it holds one.
pub open spec fn locale_file(langs: Seq<(Seq<char>, LangView)>, lang: Seq<char>, file: Seq<char>) -> Option<Seq<char>> {
    match assoc_get(langs, lang) {
        Some(files) => assoc_get(files, file),
        None => None,
    }
}

/// What an entry gives as a locale file: its language, file name and text,
/// where it is a readable `.cfg` file under `locale/<lang>/` (root removed),
/// not a directory and within the size limit.
pub open spec fn cfg_entry(it: ZipItem, prefix: Option<Seq<char>>) -> Option<(Seq<char>, Seq<char>, Seq<char>)> {
    match it {
        None => None,
        Some((raw, size, text)) => if entry_skipped(raw, size) {
            None
        } else {
            match locale_target(entry_path(raw, prefix)) {
                Some((lang, file)) => if cfg_ext().is_suffix_of(file) {
                    match text {
                        Some(t) => Some((lang, file, t)),
                        None => None,
                    }
                } else {
                    None
                },
                None => None,
            }
        },
    }
}

/// The text of the last entry that gives `lang`/`file`.
pub open spec fn last_cfg(items: Seq<ZipItem>, prefix: Option<Seq<char>>, lang: Seq<char>, file: Seq<char>) -> Option<Seq<char>>
    decreases items.len(),
{
    if items.len() == 0 {
        None
    } else {
        match cfg_entry(items.last(), prefix) {
            Some((l, f, t)) => if l == lang && f == file {
                Some(t)
            } else {
                last_cfg(items.drop_last(), prefix, lang, file)
            },
            None => last_cfg(items.drop_last(), prefix, lang, file),
        }
    }
}

/// What an entry does to the version: `Some(v)` where it is the root
/// `info.json`, reads as JSON, and has a `version` field (`v` its text, or
/// empty where the field is not a string); `None` where it leaves it.
pub open spec fn info_version(it: ZipItem, prefix: Option<Seq<char>>) -> Option<Seq<char>> {
    match it {
        None => None,
        Some((raw, size, text)) => if entry_skipped(raw, size) {
            None
        } else {
            let path = entry_path(raw, prefix);
            if locale_target(path) is None && path == info_json_name() {
                match text {
                    Some(t) => match spec_json_str_field(t, version_key()) {
                        Some(Some(v)) => Some(v),
                        Some(None) => Some(Seq::empty()),
                        None => None,
                    },
                    None => None,
                }
            } else {
                None
            }
        },
    }
}

/// The version the last entry that sets one gives; empty where none does.
pub open spec fn last_version(items: Seq<ZipItem>, prefix: Option<Seq<char>>) -> Seq<char>
    decreases items.len(),
{
    if items.len() == 0 {
        Seq::empty()
    } else {
        match info_version(items.last(), prefix) {
            Some(v) => v,
            None => last_version(items.drop_last(), prefix),
        }
    }
}

/// Adding a file to a locale: that language and file read the new text; every
/// other language and file reads what it read before.
proof fn lemma_add_file_lookup(
    e: Seq<(Seq<char>, LangView)>,
    l: Seq<char>,
    f: Seq<char>,
    t: Seq<char>,
    lang: Seq<char>,
    file: Seq<char>,
)
    ensures
        locale_file(add_file_view(e, l, f, t), lang, file) == if lang == l && file == f {
            Some(t)
        } else {
            locale_file(e, lang, file)
        },
{
    let base = match assoc_get(e, l) {
        Some(fs) => fs,
        None => Seq::<(Seq<char>, Seq<char>)>::empty(),
    };
    crate::assoc::lemma_assoc_find(e, l);
    assert(seq![(f, t)] =~= assoc_insert(Seq::<(Seq<char>, Seq<char>)>::empty(), f, t));
    assert(add_file_view(e, l, f, t) == assoc_insert(e, l, assoc_insert(base, f, t)));
    crate::assoc::lemma_assoc_get_insert(e, l, assoc_insert(base, f, t), lang);
    crate::assoc::lemma_assoc_get_insert(base, f, t, file);
    if lang == l {
        crate::assoc::lemma_assoc_get_insert(Seq::<(Seq<char>, Seq<char>)>::empty(), f, t, file);
    }
}

/// Law: where reading the locale files of an archive succeeds, each language
/// and file hold the text of the last readable `.cfg` entry under
/// `locale/<lang>/` with that file name (root removed, directories and files
/// over the size limit passed over), and nothing else; the version is that of
/// the last root `info.json` that sets one, empty where none does.
pub proof fn law_extract_locale(items: Seq<ZipItem>, prefix: Option<Seq<char>>, lang: Seq<char>, file: Seq<char>)
    requires
        extract_fold(items, prefix) is Ok,
    ensures
        extract_fold(items, prefix) matches Ok(l) && locale_file(l.0, lang, file) == last_cfg(items, prefix, lang, file)
            && l.1 == last_version(items, prefix),
    decreases items.len(),
{
    if items.len() > 0 {
        let init = items.drop_last();
        if extract_fold(init, prefix) is Err {
            assert(extract_fold(items, prefix) is Err);
        }
        law_extract_locale(init, prefix, lang, file);
        let prev = extract_fold(init, prefix)->Ok_0;
        let it = items.last();
        match cfg_entry(it, prefix) {
            Some((l, f, t)) => {
                lemma_add_file_lookup(prev.0, l, f, t, lang, file);
            },
            None => {},
        }
    }
}

/// What reading the locale files of an archive gives.
pub open spec fn extract_locale_view(bytes: Seq<u8>) -> Result<LocaleView, ExtractStage> {
    match spec_zip_read(bytes) {
        None => Err(ExtractStage::Open),
        Some(items) => extract_fold(items, common_root_prefix(zip_names(items))),
    }
}

/// Reads the translation files under `locale/` out of a mod's zip.
///
/// A common root directory (such as `mod-name_version/`) is detected and
/// removed first; then every `locale/<language code>/<name>.cfg` is collected
/// under its language code, and the version is taken from `info.json`.
pub fn extract_locale_from_zip(zip_bytes: &[u8]) -> (r: Result<LocaleInfo, ExtractError>)
    ensures
        match r {
            Ok(l) => extract_locale_view(zip_bytes@) == Ok::<LocaleView, ExtractStage>(l@),
            Err(e) => extract_locale_view(zip_bytes@) == Err::<LocaleView, ExtractStage>(stage_of(e)),
        },
{
    let mut archive = match zip_open(zip_bytes) {
        Ok(a) => a,
        Err(e) => return Err(ExtractError::Open(e)),
    };
    let ghost items = zip_items(archive);
    let n = zip_len(&archive);
    let mut all_names: Vec<String> = Vec::new();
    let mut i: usize = 0;
    while i < n
        invariant
            0 <= i <= n,
            n == items.len(),
            zip_items(archive) == items,
            views(all_names@) == zip_names(items.take(i as int)),
        decreases n - i,
    {
        assert(items.take(i + 1).drop_last() =~= items.take(i as int));
        match zip_entry(&mut archive, i) {
            Ok((name, _)) => {
                let ghost before = all_names@;
                all_names.push(name);
                assert(views(all_names@) =~= views(before).push(name@));
                assert(views(all_names@) =~= zip_names(items.take(i as int)) + seq![name@]);
            },
            Err(_) => {},
        }
        i += 1;
    }
    assert(items.take(n as int) =~= items);
    let strip_prefix = find_common_root_prefix(&all_names);
    let ghost prefix = strip_prefix.deep_view();
    assert(prefix == common_root_prefix(zip_names(items)));
    let mut locale_info = LocaleInfo { contents: lang_map_new(), version: String::new() };
    let mut i: usize = 0;
    while i < n
        invariant
            0 <= i <= n,
            n == items.len(),
            zip_items(archive) == items,
            spec_zip_read(zip_bytes@) == Some(items),
            prefix == common_root_prefix(zip_names(items)),
            prefix == strip_prefix.deep_view(),
            extract_fold(items.take(i as int), prefix) == Ok::<LocaleView, ExtractStage>(locale_info@),
        decreases n - i,
    {
        proof {
            assert(items.take(i + 1).drop_last() =~= items.take(i as int));
            assert(items.take(i + 1).last() == items[i as int]);
            reveal_strlit("/");
            reveal_strlit("locale/");
            reveal_strlit(".cfg");
            reveal_strlit("info.json");
            reveal_strlit("version");
            assert("info.json"@ =~= info_json_name());
            assert("version"@ =~= version_key());
            assert("locale/"@ =~= locale_dir());
            assert(".cfg"@ =~= cfg_ext());
        }
        let ghost before = locale_info@;
        let (raw_name, size) = match zip_entry(&mut archive, i) {
            Ok(entry) => entry,
            Err(e) => {
                proof {
                    lemma_extract_fold_err(items, prefix, i + 1, ExtractStage::Entry);
                }
                return Err(ExtractError::Entry(e));
            },
        };
        if !(str_ends_with(raw_name.as_str(), "/") || size > MAX_LOCALE_FILE_SIZE) {
            let name: &str = match &strip_prefix {
                Some(p) => match str_strip_prefix(raw_name.as_str(), p.as_str()) {
                    Some(rest) => rest,
                    None => raw_name.as_str(),
                },
                None => raw_name.as_str(),
            };
            assert(name@ == entry_path(raw_name@, prefix));
            let target = match str_strip_prefix(name, "locale/") {
                Some(rest) => str_split_once(rest, '/'),
                None => None,
            };
            assert(target.deep_view() == locale_target(name@));
            match target {
                Some((lang, file)) => {
                    if str_ends_with(file, ".cfg") {
                        let content = match zip_entry_text(&mut archive, i) {
                            Ok(t) => t,
                            Err(e) => {
                                proof {
                                    lemma_extract_fold_err(items, prefix, i + 1, ExtractStage::Read);
                                }
                                return Err(ExtractError::Read(e));
                            },
                        };
                        lang_map_add_file(&mut locale_info.contents, to_string(lang), to_string(file), content);
                        assert(Ok::<LocaleView, ExtractStage>(locale_info@) == extract_step(Ok(before), prefix, items[i as int]));
                    } else {
                        assert(Ok::<LocaleView, ExtractStage>(locale_info@) == extract_step(Ok(before), prefix, items[i as int]));
                    }
                },
                None => {
                    if str_eq(name, "info.json") {
                        match zip_entry_text(&mut archive, i) {
                            Ok(info_content) => {
                                match json_str_field(info_content.as_str(), "version") {
                                    Some(Some(v)) => {
                                        locale_info.version = v;
                                    },
                                    Some(None) => {
                                        locale_info.version = String::new();
                                    },
                                    None => {},
                                }
                            },
                            Err(_) => {},
                        }
                        assert(Ok::<LocaleView, ExtractStage>(locale_info@) == extract_step(Ok(before), prefix, items[i as int]));
                    } else {
                        assert(Ok::<LocaleView, ExtractStage>(locale_info@) == extract_step(Ok(before), prefix, items[i as int]));
                    }
                },
            }
        }
        assert(extract_fold(items.take(i + 1), prefix) == extract_step(Ok(before), prefix, items[i as int]));
        i += 1;
    }
    assert(items.take(n as int) =~= items);
    Ok(locale_info)
}

// ═══════════════════════════════════════════════════════════════════════════
// Deciding what to translate
// ═══════════════════════════════════════════════════════════════════════════

/// The language of the texts that mods ship.
pub const SOURCE_LANG: &'static str = "en";
/// The language that the pipeline writes.
pub const TARGET_LANG: &'static str = "zh-CN";

/// One text that needs translating.
#[derive(Debug, Clone)]
pub struct TranslationEntry {
    pub file_name: String,
    pub section: String,
    pub key: String,
    pub original: String,
}

/// The view of an entry: file, section, key, original text.
pub type EntryView = (Seq<char>, Seq<char>, Seq<char>, Seq<char>);

impl View for TranslationEntry {
    type V = EntryView;

    open spec fn view(&self) -> EntryView {
        (self.file_name@, self.section@, self.key@, self.original@)
    }
}

/// The cached translations of one file, parsed: file name and document.
pub type TargetView = Seq<(Seq<char>, IniView)>;

/// The view of parsed cached translations.
pub open spec fn targets_view(v: Seq<(String, ini::Ini)>) -> TargetView {
    v.map_values(|p: (String, ini::Ini)| (p.0@, ini_contents(p.1)))
}

/// The section a translation entry names: the section's name, or
/// `(global)` for the general section.
pub open spec fn section_label(s: Option<Seq<char>>) -> Seq<char> {
    match s {
        Some(x) => x,
        None => seq!['(', 'g', 'l', 'o', 'b', 'a', 'l', ')'],
    }
}

/// The entries that a document of a file asks to translate, in order.
pub open spec fn entries_of_file(file: Seq<char>, doc: IniView) -> Seq<EntryView> {
    all_triples(doc).map_values(|t: Triple| (file, section_label(t.0), t.1, t.2))
}

/// The cached target-language files parsed in order, a later file of the same
/// name replacing an earlier one; `None` where one does not parse.
pub open spec fn parse_targets(files: LangView) -> Option<TargetView>
    decreases files.len(),
{
    if files.len() == 0 {
        Some(Seq::empty())
    } else {
        match parse_targets(files.drop_last()) {
            None => None,
            Some(prev) => match spec_ini_parse(files.last().1) {
                None => None,
                Some(doc) => Some(assoc_insert(prev, files.last().0, doc)),
            },
        }
    }
}

/// What a source file leaves to translate: its diff against the cached
/// translation of the same file, or all of it where there is none.
pub open spec fn work_of_file(cur: IniView, old: Option<IniView>) -> IniView {
    match old {
        Some(o) => set_all(ini_new_view(), diff_triples(o, cur)),
        None => cur,
    }
}

/// Every entry the source files leave to translate, file by file; `None`
/// where a source file does not parse.
pub open spec fn translation_work(source: LangView, targets: TargetView) -> Option<Seq<EntryView>>
    decreases source.len(),
{
    if source.len() == 0 {
        Some(Seq::empty())
    } else {
        match translation_work(source.drop_last(), targets) {
            None => None,
            Some(prev) => match spec_ini_parse(source.last().1) {
                None => None,
                Some(cur) => Some(prev + entries_of_file(source.last().0, work_of_file(cur, assoc_get(targets, source.last().0)))),
            },
        }
    }
}

/// Law: planning one more source file appends its entries to the plan so far:
/// with no cached translation of that file, one entry (file, section label,
/// key, value) for every entry of every section of the file, in order; with a
/// cached translation, the entries of a document that reads, under each
/// section and key, the source's value exactly where the cached translation
/// lacks the key or holds another value (for a well-formed source file).
pub proof fn law_translation_work_step(prev: LangView, targets: TargetView, f: Seq<char>, text: Seq<char>)
    requires
        translation_work(prev, targets) is Some,
        spec_ini_parse(text) is Some,
    ensures
        assoc_get(targets, f) is None ==> translation_work(prev.push((f, text)), targets) == Some(
            translation_work(prev, targets).unwrap() + all_triples(spec_ini_parse(text).unwrap()).map_values(
                |t: Triple| (f, section_label(t.0), t.1, t.2),
            ),
        ),
        assoc_get(targets, f) is Some && ini_well_formed(spec_ini_parse(text).unwrap()) ==> exists|d: IniView|
            translation_work(prev.push((f, text)), targets) == Some(
                translation_work(prev, targets).unwrap() + (#[trigger] all_triples(d)).map_values(
                    |t: Triple| (f, section_label(t.0), t.1, t.2),
                ),
            ) && forall|sec: Option<Seq<char>>, key: Seq<char>|
                ini_lookup(d, sec, key) == crate::translation::expected_diff(
                    assoc_get(targets, f).unwrap(),
                    spec_ini_parse(text).unwrap(),
                    sec,
                    key,
                ),
{
    let s2 = prev.push((f, text));
    assert(s2.drop_last() =~= prev);
    assert(s2.last() == (f, text));
    let cur = spec_ini_parse(text).unwrap();
    if let Some(o) = assoc_get(targets, f) {
        if ini_well_formed(cur) {
            let d = set_all(ini_new_view(), diff_triples(o, cur));
            assert forall|sec: Option<Seq<char>>, key: Seq<char>|
                ini_lookup(d, sec, key) == crate::translation::expected_diff(o, cur, sec, key) by {
                crate::translation::law_diff_lookup(o, cur, sec, key);
            }
            assert(translation_work(s2, targets) == Some(
                translation_work(prev, targets).unwrap() + all_triples(d).map_values(
                    |t: Triple| (f, section_label(t.0), t.1, t.2),
                ),
            ));
        }
    }
}

/// `en`
pub open spec fn source_lang() -> Seq<char> {
    seq!['e', 'n']
}

/// `zh-CN`
pub open spec fn target_lang() -> Seq<char> {
    seq!['z', 'h', '-', 'C', 'N']
}

/// The view of a locale that may be absent.
pub open spec fn locale_opt_view(c: Option<&LocaleInfo>) -> Option<LocaleView> {
    match c {
        Some(l) => Some(l@),
        None => None,
    }
}

/// The cached target-language files of a mod.
pub open spec fn cached_target_files(cached: Option<LocaleView>) -> LangView {
    match cached {
        Some(c) => match assoc_get(c.0, target_lang()) {
            Some(files) => files,
            None => Seq::empty(),
        },
        None => Seq::empty(),
    }
}

/// What to do with a mod's locale files.
#[derive(Debug)]
pub enum TranslationPlan {
    /// The mod has no locale files.
    NoLocale,
    /// The mod has Chinese but no English files: it is written in Chinese first.
    ChineseFirst,
    /// The mod has no English files.
    NoSource,
    /// Nothing new to translate.
    NothingNew,
    /// Translate these entries; the cached translations are kept for merging.
    Translate { entries: Vec<TranslationEntry>, targets: Vec<(String, ini::Ini)> },
}

/// Stores a parsed cached translation under its file name, replacing an earlier one in its place.
fn targets_insert(v: &mut Vec<(String, ini::Ini)>, k: String, doc: ini::Ini)
    ensures
        targets_view(final(v)@) == assoc_insert(targets_view(old(v)@), k@, ini_contents(doc)),
{
    let ghost tv = targets_view(v@);
    proof {
        crate::assoc::lemma_assoc_find(tv, k@);
    }
    let mut i: usize = 0;
    while i < v.len()
        invariant
            0 <= i <= v.len(),
            tv == targets_view(v@),
            tv == targets_view(old(v)@),
            forall|j: int| 0 <= j < i ==> tv[j].0 != k@,
        decreases v.len() - i,
    {
        assert(tv[i as int].0 == v@[i as int].0@);
        if v[i].0.eq(&k) {
            assert(tv[i as int].0 == k@);
            let ghost kv = k@;
            let ghost dv = ini_contents(doc);
            v.set(i, (k, doc));
            proof {
                crate::assoc::lemma_assoc_find(tv, kv);
            }
            assert(crate::assoc::assoc_find(tv, kv) == Some(i as int));
            assert(targets_view(v@) =~= tv.update(i as int, (kv, dv)));
            assert(assoc_insert(tv, kv, dv) == tv.update(i as int, (kv, dv)));
            return;
        }
        i += 1;
    }
    let ghost kv = k@;
    let ghost dv = ini_contents(doc);
    v.push((k, doc));
    assert(targets_view(v@) =~= tv.push((kv, dv)));
}

/// Parses the cached target-language files of a mod.
fn parse_cached_targets(cached: Option<&LocaleInfo>) -> (r: Result<Vec<(String, ini::Ini)>, IniError>)
    ensures
        match r {
            Ok(v) => parse_targets(cached_target_files(locale_opt_view(cached))) == Some(targets_view(v@)),
            Err(_) => parse_targets(cached_target_files(locale_opt_view(cached))) is None,
        },
{
    let mut out: Vec<(String, ini::Ini)> = Vec::new();
    proof {
        reveal_strlit("zh-CN");
        assert("zh-CN"@ =~= target_lang());
    }
    let files = match cached {
        Some(c) => match lang_map_get(&c.contents, TARGET_LANG) {
            Some(li) => text_map_pairs(&li.contents),
            None => Vec::new(),
        },
        None => Vec::new(),
    };
    let ghost fv = files.deep_view();
    assert(fv == cached_target_files(locale_opt_view(cached)));
    let mut i: usize = 0;
    while i < files.len()
        invariant
            0 <= i <= files.len(),
            fv == files.deep_view(),
            fv == cached_target_files(locale_opt_view(cached)),
            parse_targets(fv.take(i as int)) == Some(targets_view(out@)),
        decreases files.len() - i,
    {
        assert(fv.take(i + 1).drop_last() =~= fv.take(i as int));
        assert(fv.take(i + 1).last() == fv[i as int]);
        assert(fv[i as int] == (files[i as int].0@, files[i as int].1@));
        let doc = match str_to_ini(files[i].1.as_str()) {
            Ok(d) => d,
            Err(e) => {
                proof {
                    lemma_parse_targets_none(fv, i as int + 1);
                }
                return Err(e);
            },
        };
        targets_insert(&mut out, files[i].0.clone(), doc);
        i += 1;
    }
    assert(fv.take(files.len() as int) =~= fv);
    Ok(out)
}

/// A cached file that does not parse makes the whole parse fail.
proof fn lemma_parse_targets_none(files: LangView, j: int)
    requires
        0 <= j <= files.len(),
        parse_targets(files.take(j)) is None,
    ensures
        parse_targets(files) is None,
    decreases files.len() - j,
{
    if j < files.len() {
        assert(files.take(j + 1).drop_last() =~= files.take(j));
        lemma_parse_targets_none(files, j + 1);
    } else {
        assert(files.take(j) =~= files);
    }
}

/// The views of a list of entries.
pub open spec fn entry_views(v: Seq<TranslationEntry>) -> Seq<EntryView> {
    v.map_values(|e: TranslationEntry| e@)
}

/// Appends the entries that `doc` holds for `file`, in order.
fn push_entries(out: &mut Vec<TranslationEntry>, file: &str, doc: &ini::Ini)
    ensures
        entry_views(final(out)@) == entry_views(old(out)@) + entries_of_file(file@, ini_contents(*doc)),
{
    let ghost start = entry_views(out@);
    let ghost f = |t: Triple| (file@, section_label(t.0), t.1, t.2);
    proof {
        reveal_strlit("(global)");
        assert("(global)"@ =~= seq!['(', 'g', 'l', 'o', 'b', 'a', 'l', ')']);
    }
    let secs = ini_sections(doc);
    let ghost sv = secs.deep_view();
    let mut i: usize = 0;
    while i < secs.len()
        invariant
            0 <= i <= secs.len(),
            sv == secs.deep_view(),
            sv == ini_contents(*doc),
            start == entry_views(old(out)@),
            f == (|t: Triple| (file@, section_label(t.0), t.1, t.2)),
            "(global)"@ == seq!['(', 'g', 'l', 'o', 'b', 'a', 'l', ')'],
            entry_views(out@) == start + all_triples(sv.take(i as int)).map_values(f),
        decreases secs.len() - i,
    {
        let sec = &secs[i].0;
        let props = &secs[i].1;
        let ghost base = all_triples(sv.take(i as int));
        let ghost name = sv[i as int].0;
        let ghost pv = sv[i as int].1;
        assert(pv == props.deep_view());
        assert(name == sec.deep_view());
        assert(section_triples((name, pv.take(0))) =~= Seq::<Triple>::empty());
        assert(base + section_triples((name, pv.take(0))) =~= base);
        let mut j: usize = 0;
        while j < props.len()
            invariant
                0 <= j <= props.len(),
                pv == props.deep_view(),
                name == sec.deep_view(),
                f == (|t: Triple| (file@, section_label(t.0), t.1, t.2)),
                "(global)"@ == seq!['(', 'g', 'l', 'o', 'b', 'a', 'l', ')'],
                entry_views(out@) == start + (base + section_triples((name, pv.take(j as int)))).map_values(f),
            decreases props.len() - j,
        {
            let ghost t: Triple = (name, props[j as int].0@, props[j as int].1@);
            let ghost prev = base + section_triples((name, pv.take(j as int)));
            proof {
                crate::translation::lemma_section_triples_push(name, pv, j as int);
                assert(pv[j as int] == (props[j as int].0@, props[j as int].1@));
                assert((base + section_triples((name, pv.take(j + 1)))) =~= prev.push(t));
                assert(prev.push(t).map_values(f) =~= prev.map_values(f).push(f(t)));
            }
            let label = match sec {
                Some(x) => x.clone(),
                None => to_string("(global)"),
            };
            let ghost before = out@;
            out.push(
                TranslationEntry {
                    file_name: to_string(file),
                    section: label,
                    key: props[j].0.clone(),
                    original: props[j].1.clone(),
                },
            );
            assert(entry_views(out@) =~= entry_views(before).push(f(t)));
            j += 1;
        }
        proof {
            crate::translation::lemma_all_triples_take(sv, i as int);
            assert(pv.take(pv.len() as int) =~= pv);
        }
        i += 1;
    }
    assert(sv.take(sv.len() as int) =~= sv);
}

/// The index of the first cached translation of a file.
fn find_target(targets: &Vec<(String, ini::Ini)>, file: &str) -> (r: Option<usize>)
    ensures
        match r {
            Some(i) => i < targets@.len() && assoc_get(targets_view(targets@), file@) == Some(targets_view(targets@)[i as int].1),
            None => assoc_get(targets_view(targets@), file@) is None,
        },
{
    let ghost tv = targets_view(targets@);
    proof {
        crate::assoc::lemma_assoc_find(tv, file@);
    }
    let mut i: usize = 0;
    while i < targets.len()
        invariant
            0 <= i <= targets.len(),
            tv == targets_view(targets@),
            forall|j: int| 0 <= j < i ==> tv[j].0 != file@,
            crate::assoc::assoc_find(tv, file@) matches Some(k) ==> i <= k && tv[k].0 == file@ && forall|j: int| 0 <= j < k ==> tv[j].0 != file@,
            crate::assoc::assoc_find(tv, file@) is None ==> forall|j: int| 0 <= j < tv.len() ==> tv[j].0 != file@,
        decreases targets.len() - i,
    {
        assert(tv[i as int].0 == targets@[i as int].0@);
        if crate::text::str_eq(targets[i].0.as_str(), file) {
            return Some(i);
        }
        i += 1;
    }
    None
}

/// Every entry that the source files leave to translate, file by file.
fn collect_work(source: &LangInfo, targets: &Vec<(String, ini::Ini)>) -> (r: Result<Vec<TranslationEntry>, IniError>)
    ensures
        match r {
            Ok(v) => translation_work(source@, targets_view(targets@)) == Some(entry_views(v@)),
            Err(_) => translation_work(source@, targets_view(targets@)) is None,
        },
{
    let files = text_map_pairs(&source.contents);
    let ghost fv = files.deep_view();
    let ghost tv = targets_view(targets@);
    let mut out: Vec<TranslationEntry> = Vec::new();
    let mut i: usize = 0;
    while i < files.len()
        invariant
            0 <= i <= files.len(),
            fv == files.deep_view(),
            fv == source@,
            tv == targets_view(targets@),
            translation_work(fv.take(i as int), tv) == Some(entry_views(out@)),
        decreases files.len() - i,
    {
        assert(fv.take(i + 1).drop_last() =~= fv.take(i as int));
        assert(fv.take(i + 1).last() == fv[i as int]);
        assert(fv[i as int] == (files[i as int].0@, files[i as int].1@));
        let current = match str_to_ini(files[i].1.as_str()) {
            Ok(d) => d,
            Err(e) => {
                proof {
                    lemma_work_none(fv, tv, i as int + 1);
                }
                return Err(e);
            },
        };
        match find_target(targets, files[i].0.as_str()) {
            Some(k) => {
                let work = diff_ini(&targets[k].1, &current);
                push_entries(&mut out, files[i].0.as_str(), &work);
            },
            None => {
                push_entries(&mut out, files[i].0.as_str(), &current);
            },
        }
        i += 1;
    }
    assert(fv.take(files.len() as int) =~= fv);
    Ok(out)
}

/// A source file that does not parse makes the whole plan fail.
proof fn lemma_work_none(source: LangView, targets: TargetView, j: int)
    requires
        0 <= j <= source.len(),
        translation_work(source.take(j), targets) is None,
    ensures
        translation_work(source, targets) is None,
    decreases source.len() - j,
{
    if j < source.len() {
        assert(source.take(j + 1).drop_last() =~= source.take(j));
        lemma_work_none(source, targets, j + 1);
    } else {
        assert(source.take(j) =~= source);
    }
}

/// The source-language files of a mod.
pub open spec fn source_files(current: LocaleView) -> Option<LangView> {
    assoc_get(current.0, source_lang())
}

/// Decides what to do with a mod's freshly extracted locale files, given the
/// cached translation of the mod (English to Chinese):
/// no locale files, or no English files (a mod written in Chinese first where
/// it has Chinese files), leave nothing to do; otherwise the cached Chinese
/// files are parsed, and every English entry that the cache lacks or holds
/// with another value is to be translated (all of a file without a cached
/// translation), nothing new where there is none.
pub fn plan_translation(current: &LocaleInfo, cached: Option<&LocaleInfo>) -> (r: Result<TranslationPlan, IniError>)
    ensures
        current@.0.len() == 0 ==> r matches Ok(TranslationPlan::NoLocale),
        current@.0.len() > 0 && source_files(current@) is None ==> if assoc_get(current@.0, target_lang()) is Some {
            r matches Ok(TranslationPlan::ChineseFirst)
        } else {
            r matches Ok(TranslationPlan::NoSource)
        },
        current@.0.len() > 0 ==> (source_files(current@) matches Some(src) ==> match parse_targets(
            cached_target_files(locale_opt_view(cached)),
        ) {
            None => r is Err,
            Some(t) => match translation_work(src, t) {
                None => r is Err,
                Some(w) => if w.len() == 0 {
                    r matches Ok(TranslationPlan::NothingNew)
                } else {
                    r matches Ok(TranslationPlan::Translate { entries, targets }) && entry_views(entries@) == w
                        && targets_view(targets@) == t
                },
            },
        }),
{
    proof {
        reveal_strlit("en");
        reveal_strlit("zh-CN");
        assert("en"@ =~= source_lang());
        assert("zh-CN"@ =~= target_lang());
    }
    if lang_map_len(&current.contents) == 0 {
        return Ok(TranslationPlan::NoLocale);
    }
    let source = match lang_map_get(&current.contents, SOURCE_LANG) {
        Some(li) => li,
        None => {
            if lang_map_contains_key(&current.contents, TARGET_LANG) {
                return Ok(TranslationPlan::ChineseFirst);
            }
            return Ok(TranslationPlan::NoSource);
        },
    };
    let targets = parse_cached_targets(cached)?;
    let entries = collect_work(source, &targets)?;
    if entries.len() == 0 {
        return Ok(TranslationPlan::NothingNew);
    }
    Ok(TranslationPlan::Translate { entries, targets })
}

// ═══════════════════════════════════════════════════════════════════════════
// Folding the translation back in
// ═══════════════════════════════════════════════════════════════════════════

/// The new target-language files: for every source file, in order, the merge
/// of the translation answer onto the cached translation of that file (an
/// empty one where there is none), shaped by the source file and rendered as
/// INI text; `None` where a source file does not parse.
pub open spec fn merged_target(source: LangView, targets: TargetView, llm: IniView) -> Option<LangView>
    decreases source.len(),
{
    if source.len() == 0 {
        Some(Seq::empty())
    } else {
        match merged_target(source.drop_last(), targets, llm) {
            None => None,
            Some(acc) => match spec_ini_parse(source.last().1) {
                None => None,
                Some(reference) => {
                    let old = match assoc_get(targets, source.last().0) {
                        Some(o) => o,
                        None => ini_new_view(),
                    };
                    Some(
                        assoc_insert(
                            acc,
                            source.last().0,
                            spec_ini_text(set_all(ini_new_view(), merge_triples(reference, old, llm))),
                        ),
                    )
                },
            },
        }
    }
}

/// The cached locale (or an empty one) with the new version and the new
/// target-language files; every other language is kept.
pub open spec fn finalized(cached: Option<LocaleView>, version: Seq<char>, target: LangView) -> LocaleView {
    let langs = match cached {
        Some(c) => c.0,
        None => Seq::empty(),
    };
    (assoc_insert(langs, target_lang(), target), version)
}

/// A source file that does not parse makes the whole merge fail.
proof fn lemma_merged_none(source: LangView, targets: TargetView, llm: IniView, j: int)
    requires
        0 <= j <= source.len(),
        merged_target(source.take(j), targets, llm) is None,
    ensures
        merged_target(source, targets, llm) is None,
    decreases source.len() - j,
{
    if j < source.len() {
        assert(source.take(j + 1).drop_last() =~= source.take(j));
        lemma_merged_none(source, targets, llm, j + 1);
    } else {
        assert(source.take(j) =~= source);
    }
}

/// The merged file of a source file that no later source file shadows is the
/// rendering of that file's merge.
proof fn lemma_merged_file(source: LangView, targets: TargetView, llm: IniView, i: int)
    requires
        0 <= i < source.len(),
        forall|j: int| i < j < source.len() ==> source[j].0 != source[i].0,
        merged_target(source, targets, llm) is Some,
        spec_ini_parse(source[i].1) is Some,
    ensures
        assoc_get(merged_target(source, targets, llm).unwrap(), source[i].0) == Some(
            spec_ini_text(
                set_all(
                    ini_new_view(),
                    merge_triples(
                        spec_ini_parse(source[i].1).unwrap(),
                        match assoc_get(targets, source[i].0) {
                            Some(o) => o,
                            None => ini_new_view(),
                        },
                        llm,
                    ),
                ),
            ),
        ),
    decreases source.len(),
{
    let n = source.len() - 1;
    let prev = source.drop_last();
    let acc = merged_target(prev, targets, llm).unwrap();
    let f = source[i].0;
    if i < n {
        assert(source.last() == source[n]);
        assert(forall|j: int| i < j < prev.len() ==> prev[j] == source[j]);
        lemma_merged_file(prev, targets, llm, i);
        let reference = spec_ini_parse(source.last().1).unwrap();
        let old = match assoc_get(targets, source.last().0) {
            Some(o) => o,
            None => ini_new_view(),
        };
        crate::assoc::lemma_assoc_get_insert(
            acc,
            source.last().0,
            spec_ini_text(set_all(ini_new_view(), merge_triples(reference, old, llm))),
            f,
        );
    } else {
        let reference = spec_ini_parse(source.last().1).unwrap();
        let old = match assoc_get(targets, f) {
            Some(o) => o,
            None => ini_new_view(),
        };
        crate::assoc::lemma_assoc_get_insert(
            acc,
            f,
            spec_ini_text(set_all(ini_new_view(), merge_triples(reference, old, llm))),
            f,
        );
    }
}

/// Law: after a translation answer is folded in, the Chinese file of every
/// source file (one that no later source file of the same name shadows) is
/// the text of a document that, under each section and key, holds the
/// answer's value where the English file has that key and the answer has it,
/// else the cached translation's value of that file where it has one, and
/// nothing where the English file lacks the key (for a well-formed English
/// file).
pub proof fn law_apply_translation_lookup(
    source: LangView,
    targets: TargetView,
    llm: IniView,
    cached: Option<LocaleView>,
    version: Seq<char>,
    i: int,
)
    requires
        0 <= i < source.len(),
        forall|j: int| i < j < source.len() ==> source[j].0 != source[i].0,
        merged_target(source, targets, llm) is Some,
        spec_ini_parse(source[i].1) is Some,
        ini_well_formed(spec_ini_parse(source[i].1).unwrap()),
    ensures
        exists|d: IniView|
            locale_file(finalized(cached, version, merged_target(source, targets, llm).unwrap()).0, target_lang(), source[i].0)
                == Some(#[trigger] spec_ini_text(d)) && forall|sec: Option<Seq<char>>, key: Seq<char>|
                #[trigger] ini_lookup(d, sec, key) == if ini_lookup(spec_ini_parse(source[i].1).unwrap(), sec, key) is Some {
                    match ini_lookup(llm, sec, key) {
                        Some(v) => Some(v),
                        None => match assoc_get(targets, source[i].0) {
                            Some(o) => ini_lookup(o, sec, key),
                            None => None,
                        },
                    }
                } else {
                    None
                },
{
    let f = source[i].0;
    let r = spec_ini_parse(source[i].1).unwrap();
    let old = match assoc_get(targets, f) {
        Some(o) => o,
        None => ini_new_view(),
    };
    let t = merged_target(source, targets, llm).unwrap();
    let d = set_all(ini_new_view(), merge_triples(r, old, llm));
    lemma_merged_file(source, targets, llm, i);
    let langs = match cached {
        Some(c) => c.0,
        None => Seq::empty(),
    };
    crate::assoc::lemma_assoc_get_insert(langs, target_lang(), t, target_lang());
    assert(locale_file(finalized(cached, version, t).0, target_lang(), f) == Some(spec_ini_text(d)));
    assert forall|sec: Option<Seq<char>>, key: Seq<char>|
        #[trigger] ini_lookup(d, sec, key) == if ini_lookup(r, sec, key) is Some {
            match ini_lookup(llm, sec, key) {
                Some(v) => Some(v),
                None => match assoc_get(targets, f) {
                    Some(o) => ini_lookup(o, sec, key),
                    None => None,
                },
            }
        } else {
            None
        } by {
        crate::translation::law_merge_lookup(r, old, llm, sec, key);
        crate::ini_spec::lemma_lookup_new(sec, key);
    }
}

/// Folds a translation answer into a mod's cache: every source file is merged
/// (answer first, cached translation second, keys of the source only) into
/// the Chinese files, which replace those of the cached locale; the other
/// languages of the cache stay and the version becomes the current one.
pub fn apply_translation(
    source: &LangInfo,
    targets: &Vec<(String, ini::Ini)>,
    llm: &ini::Ini,
    cached: Option<LocaleInfo>,
    version: &str,
) -> (r: Result<LocaleInfo, IniError>)
    ensures
        match merged_target(source@, targets_view(targets@), ini_contents(*llm)) {
            None => r is Err,
            Some(t) => r matches Ok(l) && l@ == finalized(
                match cached {
                    Some(c) => Some(c@),
                    None => None,
                },
                version@,
                t,
            ),
        },
{
    let files = text_map_pairs(&source.contents);
    let ghost fv = files.deep_view();
    let ghost tv = targets_view(targets@);
    let ghost lv = ini_contents(*llm);
    let mut merged = LangInfo::new();
    let mut i: usize = 0;
    while i < files.len()
        invariant
            0 <= i <= files.len(),
            fv == files.deep_view(),
            fv == source@,
            tv == targets_view(targets@),
            lv == ini_contents(*llm),
            merged_target(fv.take(i as int), tv, lv) == Some(merged@),
        decreases files.len() - i,
    {
        assert(fv.take(i + 1).drop_last() =~= fv.take(i as int));
        assert(fv.take(i + 1).last() == fv[i as int]);
        assert(fv[i as int] == (files[i as int].0@, files[i as int].1@));
        let reference = match str_to_ini(files[i].1.as_str()) {
            Ok(d) => d,
            Err(e) => {
                proof {
                    lemma_merged_none(fv, tv, lv, i as int + 1);
                }
                return Err(e);
            },
        };
        let doc = match find_target(targets, files[i].0.as_str()) {
            Some(k) => merge_ini(&reference, &targets[k].1, llm),
            None => {
                let empty = ini_new();
                merge_ini(&reference, &empty, llm)
            },
        };
        let text = match ini_to_str(&doc) {
            Ok(t) => t,
            Err(e) => return Err(e),
        };
        text_map_insert(&mut merged.contents, files[i].0.clone(), text);
        i += 1;
    }
    assert(fv.take(files.len() as int) =~= fv);
    proof {
        reveal_strlit("zh-CN");
        assert("zh-CN"@ =~= target_lang());
    }
    let mut locale = match cached {
        Some(c) => c,
        None => LocaleInfo { contents: lang_map_new(), version: String::new() },
    };
    locale.version = to_string(version);
    lang_map_insert(&mut locale.contents, to_string(TARGET_LANG), merged);
    Ok(locale)
}

/// Whether a document has no section at all (a fresh document has its
/// general section, so it is not empty).
pub fn is_empty_ini(doc: &ini::Ini) -> (r: bool)
    ensures
        r == (ini_contents(*doc).len() == 0),
{
    ini_is_empty(doc)
}

impl LocaleInfo {
    /// The files of a language, where the locale has it.
    pub fn language(&self, code: &str) -> (r: Option<&LangInfo>)
        ensures
            match r {
                Some(li) => assoc_get(self@.0, code@) == Some(li@),
                None => assoc_get(self@.0, code@) is None,
            },
    {
        lang_map_get(&self.contents, code)
    }

    /// The number of languages.
    pub fn language_count(&self) -> (r: usize)
        ensures
            r == self@.0.len(),
    {
        lang_map_len(&self.contents)
    }
}

/// The release of a mod to download: its latest release where the record
/// names one, else the last of its releases.
pub fn choose_release(info: &crate::portal::ResultEntry) -> (r: Option<&crate::portal::Release>)
    ensures
        r == match info.latest_release {
            Some(rel) => Some(&rel),
            None => match info.releases {
                Some(rs) => if rs@.len() > 0 {
                    Some(&rs@.last())
                } else {
                    None
                },
                None => None,
            },
        },
{
    match &info.latest_release {
        Some(rel) => Some(rel),
        None => match &info.releases {
            Some(rs) => if rs.len() > 0 {
                Some(&rs[rs.len() - 1])
            } else {
                None
            },
            None => None,
        },
    }
}

/// The cache file of a mod: `{mod_name}.json`.
pub fn cache_file_name(mod_name: &str) -> (r: String)
    ensures
        r@ == mod_name@ + ".json"@,
{
    concat2(mod_name, ".json")
}

// ═══════════════════════════════════════════════════════════════════════════
// Talking with the language model
// ═══════════════════════════════════════════════════════════════════════════

/// Rounds of requests to the model before giving up on more answers.
pub const MAX_LLM_ROUNDS: usize = 20;

/// The name of the function through which the model submits translations.
pub const SUBMIT_FUNCTION: &'static str = "submit_translation";

/// What is said to the model after an accepted submission.
pub const CONTINUE_PROMPT: &'static str = "请继续提交剩余的翻译条目，或调用 stop 完成。如果所有翻译已完成，请只回复'所有翻译已完成'。";

/// Whether the dialogue may send another request after `rounds` requests:
/// it sends at most `MAX_LLM_ROUNDS`.
pub fn may_request(rounds: usize) -> (r: bool)
    ensures
        r == (rounds < MAX_LLM_ROUNDS),
{
    rounds < MAX_LLM_ROUNDS
}

/// After the tool calls of one reply were handled (`accepted[i]`: whether the
/// i-th call's submission was taken): where any was taken, the model is asked
/// to go on with `CONTINUE_PROMPT`; otherwise nothing more is said before the
/// next request.
pub fn continue_prompt_after(accepted: &Vec<bool>) -> (r: Option<&'static str>)
    ensures
        (r is Some) == (exists|i: int| 0 <= i < accepted@.len() && accepted@[i]),
        r matches Some(t) ==> t@ == CONTINUE_PROMPT@,
{
    let mut i: usize = 0;
    while i < accepted.len()
        invariant
            0 <= i <= accepted.len(),
            forall|j: int| 0 <= j < i ==> !accepted@[j],
        decreases accepted.len() - i,
    {
        if accepted[i] {
            return Some(CONTINUE_PROMPT);
        }
        i += 1;
    }
    None
}

/// One translated entry submitted by the model.
#[derive(Debug, Clone)]
pub struct SubmittedEntry {
    pub key: String,
    pub original: String,
    pub translation: String,
}

/// One submission of the model: a whole file as INI text, or the entries of
/// one section.
#[derive(Debug, Clone)]
pub struct SubmittedTranslation {
    pub file_name: String,
    pub ini_content: Option<String>,
    pub section: Option<String>,
    pub entries: Option<Vec<SubmittedEntry>>,
}

/// How a submission was taken.
#[derive(Debug)]
pub enum Submission {
    /// A whole file, with this many entries.
    WholeFile(usize),
    /// One section, with this many entries.
    Section(usize),
    /// Neither a whole file nor a section with entries.
    Invalid,
    /// The whole file did not parse as INI.
    Unreadable(IniError),
}

/// The triples of a submitted whole file: the general section goes under the
/// section named by the empty text.
pub open spec fn whole_file_triples(doc: IniView) -> Seq<Triple> {
    all_triples(doc).map_values(|t: Triple| (Some(match t.0 {
        Some(x) => x,
        None => Seq::<char>::empty(),
    }), t.1, t.2))
}

/// Law: a whole-file submission of a well-formed document sets one entry for
/// every entry of every section, and afterwards each key of each section reads
/// the submitted value, the keys of the general section under the section
/// named by the empty text. (The document must not have both a general section
/// and one named by the empty text, which would fall together.)
pub proof fn law_whole_file_submission(before: IniView, doc: IniView, sec: Option<Seq<char>>, key: Seq<char>)
    requires
        ini_well_formed(doc),
        crate::ini_spec::find_section(doc, None) is None || crate::ini_spec::find_section(doc, Some(Seq::<char>::empty())) is None,
    ensures
        whole_file_triples(doc).len() == all_triples(doc).len(),
        ini_lookup(doc, sec, key) matches Some(v) ==> ini_lookup(
            set_all(before, whole_file_triples(doc)),
            Some(match sec {
                Some(x) => x,
                None => Seq::<char>::empty(),
            }),
            key,
        ) == Some(v),
{
    let ts = all_triples(doc);
    let wts = whole_file_triples(doc);
    let name: Seq<char> = match sec {
        Some(x) => x,
        None => Seq::<char>::empty(),
    };
    if let Some(v) = ini_lookup(doc, sec, key) {
        crate::ini_spec::lemma_well_formed_triples(doc, sec, key);
        crate::ini_spec::lemma_triple_names(doc);
        crate::ini_spec::lemma_find_section(doc, None);
        crate::ini_spec::lemma_find_section(doc, Some(Seq::<char>::empty()));
        crate::ini_spec::lemma_find_section(doc, sec);
        assert forall|i: int| 0 <= i < wts.len() && wts[i].0 == Some(name) && wts[i].1 == key implies #[trigger] wts[i].2 == v by {
            assert(wts[i] == (Some(match ts[i].0 {
                Some(x) => x,
                None => Seq::<char>::empty(),
            }), ts[i].1, ts[i].2));
            let j = choose|j: int| 0 <= j < doc.len() && #[trigger] doc[j].0 == ts[i].0;
            assert(ts[i].0 == sec);
        }
        let i = choose|i: int| 0 <= i < ts.len() && ts[i].0 == sec && ts[i].1 == key;
        assert(wts[i].0 == Some(name) && wts[i].1 == key);
        crate::ini_spec::lemma_last_set_uniform(wts, Some(name), key, v);
        crate::ini_spec::lemma_lookup_set_all(before, wts, Some(name), key);
    }
}

/// The triples of submitted entries of a section: key and translation.
pub open spec fn section_entry_triples(section: Seq<char>, entries: Seq<SubmittedEntry>) -> Seq<Triple> {
    entries.map_values(|e: SubmittedEntry| (Some(section), e.key@, e.translation@))
}

/// The translation that the last entry for `key` gives, where one does.
pub open spec fn last_translation(entries: Seq<SubmittedEntry>, key: Seq<char>) -> Option<Seq<char>>
    decreases entries.len(),
{
    if entries.len() == 0 {
        None
    } else if entries.last().key@ == key {
        Some(entries.last().translation@)
    } else {
        last_translation(entries.drop_last(), key)
    }
}

/// The last value that a section submission sets under a section and key.
proof fn lemma_last_set_section_entries(section: Seq<char>, entries: Seq<SubmittedEntry>, sec: Option<Seq<char>>, key: Seq<char>)
    ensures
        crate::ini_spec::last_set(section_entry_triples(section, entries), sec, key) == if sec == Some(section) {
            last_translation(entries, key)
        } else {
            None
        },
    decreases entries.len(),
{
    if entries.len() > 0 {
        assert(section_entry_triples(section, entries).drop_last() =~= section_entry_triples(section, entries.drop_last()));
        lemma_last_set_section_entries(section, entries.drop_last(), sec, key);
    }
}

/// Law: after the model submits entries for a section, each key of that
/// section reads back the translation of the last entry for it, and every
/// other key, of that section or another, reads what it read before.
pub proof fn law_section_submission_lookup(
    before: IniView,
    section: Seq<char>,
    entries: Seq<SubmittedEntry>,
    sec: Option<Seq<char>>,
    key: Seq<char>,
)
    ensures
        ini_lookup(set_all(before, section_entry_triples(section, entries)), sec, key) == if sec == Some(section) {
            match last_translation(entries, key) {
                Some(v) => Some(v),
                None => ini_lookup(before, sec, key),
            }
        } else {
            ini_lookup(before, sec, key)
        },
{
    crate::ini_spec::lemma_lookup_set_all(before, section_entry_triples(section, entries), sec, key);
    lemma_last_set_section_entries(section, entries, sec, key);
}

/// Law: of two submissions taken one after the other, the later one wins:
/// under a section and key that it sets, its last value is read back;
/// elsewhere what the first left is read.
pub proof fn law_later_submission_wins(
    before: IniView,
    first: Seq<Triple>,
    later: Seq<Triple>,
    sec: Option<Seq<char>>,
    key: Seq<char>,
)
    ensures
        ini_lookup(set_all(set_all(before, first), later), sec, key) == match crate::ini_spec::last_set(later, sec, key) {
            Some(v) => Some(v),
            None => ini_lookup(set_all(before, first), sec, key),
        },
{
    crate::ini_spec::lemma_lookup_set_all(set_all(before, first), later, sec, key);
}

/// Sets the triples into a document, in order.
fn set_triples_whole(result: &mut ini::Ini, doc: &ini::Ini) -> (count: usize)
    ensures
        ini_contents(*final(result)) == set_all(ini_contents(*old(result)), whole_file_triples(ini_contents(*doc))),
        count as int == if whole_file_triples(ini_contents(*doc)).len() < usize::MAX {
            whole_file_triples(ini_contents(*doc)).len() as int
        } else {
            usize::MAX as int
        },
{
    let ghost start = ini_contents(*result);
    let ghost f = |t: Triple| (Some(match t.0 {
        Some(x) => x,
        None => Seq::<char>::empty(),
    }), t.1, t.2);
    let secs = ini_sections(doc);
    let ghost sv = secs.deep_view();
    let mut count: usize = 0;
    let mut i: usize = 0;
    while i < secs.len()
        invariant
            0 <= i <= secs.len(),
            sv == secs.deep_view(),
            sv == ini_contents(*doc),
            start == ini_contents(*old(result)),
            f == (|t: Triple| (Some(match t.0 {
                Some(x) => x,
                None => Seq::<char>::empty(),
            }), t.1, t.2)),
            ini_contents(*result) == set_all(start, all_triples(sv.take(i as int)).map_values(f)),
            count as int == if all_triples(sv.take(i as int)).len() < usize::MAX {
                all_triples(sv.take(i as int)).len() as int
            } else {
                usize::MAX as int
            },
        decreases secs.len() - i,
    {
        let sec_name: Option<String> = match &secs[i].0 {
            Some(x) => Some(x.clone()),
            None => Some(String::new()),
        };
        let props = &secs[i].1;
        let ghost base = all_triples(sv.take(i as int));
        let ghost name = sv[i as int].0;
        let ghost pv = sv[i as int].1;
        assert(pv == props.deep_view());
        assert(section_triples((name, pv.take(0))) =~= Seq::<Triple>::empty());
        assert(base + section_triples((name, pv.take(0))) =~= base);
        let mut j: usize = 0;
        while j < props.len()
            invariant
                0 <= j <= props.len(),
                pv == props.deep_view(),
                sec_name.deep_view() == Some(match name {
                    Some(x) => x,
                    None => Seq::<char>::empty(),
                }),
                f == (|t: Triple| (Some(match t.0 {
                    Some(x) => x,
                    None => Seq::<char>::empty(),
                }), t.1, t.2)),
                ini_contents(*result) == set_all(start, (base + section_triples((name, pv.take(j as int)))).map_values(f)),
                count as int == if (base + section_triples((name, pv.take(j as int)))).len() < usize::MAX {
                    (base + section_triples((name, pv.take(j as int)))).len() as int
                } else {
                    usize::MAX as int
                },
            decreases props.len() - j,
        {
            let ghost t: Triple = (name, props[j as int].0@, props[j as int].1@);
            let ghost prev = base + section_triples((name, pv.take(j as int)));
            proof {
                crate::translation::lemma_section_triples_push(name, pv, j as int);
                assert(pv[j as int] == (props[j as int].0@, props[j as int].1@));
                assert((base + section_triples((name, pv.take(j + 1)))) =~= prev.push(t));
                assert(prev.push(t).map_values(f) =~= prev.map_values(f).push(f(t)));
                assert(prev.map_values(f).push(f(t)).drop_last() =~= prev.map_values(f));
            }
            crate::ini_spec::ini_set(result, &sec_name, props[j].0.as_str(), props[j].1.as_str());
            if count < usize::MAX {
                count += 1;
            }
            j += 1;
        }
        proof {
            crate::translation::lemma_all_triples_take(sv, i as int);
            assert(pv.take(pv.len() as int) =~= pv);
        }
        i += 1;
    }
    assert(sv.take(sv.len() as int) =~= sv);
    count
}

/// Takes a submission of the model into the answer collected so far: a whole
/// file is parsed and all its entries set (its general section under the
/// section named by the empty text); the entries of a named section are set
/// under it, key to translation; anything else is refused unchanged.
pub fn apply_submission(result: &mut ini::Ini, submitted: &SubmittedTranslation) -> (r: Submission)
    ensures
        match submitted.ini_content {
            Some(text) => match spec_ini_parse(text@) {
                Some(doc) => {
                    &&& ini_contents(*final(result)) == set_all(ini_contents(*old(result)), whole_file_triples(doc))
                    &&& r matches Submission::WholeFile(n) && n as int == if whole_file_triples(doc).len() < usize::MAX {
                        whole_file_triples(doc).len() as int
                    } else {
                        usize::MAX as int
                    }
                },
                None => ini_contents(*final(result)) == ini_contents(*old(result)) && r is Unreadable,
            },
            None => match (submitted.section, submitted.entries) {
                (Some(sec), Some(es)) => {
                    &&& ini_contents(*final(result)) == set_all(ini_contents(*old(result)), section_entry_triples(sec@, es@))
                    &&& r matches Submission::Section(n) && n == es@.len()
                },
                _ => ini_contents(*final(result)) == ini_contents(*old(result)) && r is Invalid,
            },
        },
{
    if let Some(text) = &submitted.ini_content {
        return match str_to_ini(text.as_str()) {
            Ok(doc) => {
                let n = set_triples_whole(result, &doc);
                Submission::WholeFile(n)
            },
            Err(e) => Submission::Unreadable(e),
        };
    }
    match (&submitted.section, &submitted.entries) {
        (Some(sec), Some(es)) => {
            let sec_name = Some(sec.clone());
            let ghost start = ini_contents(*result);
            let mut k: usize = 0;
            while k < es.len()
                invariant
                    0 <= k <= es.len(),
                    sec_name.deep_view() == Some(sec@),
                    start == ini_contents(*old(result)),
                    ini_contents(*result) == set_all(start, section_entry_triples(sec@, es@.take(k as int))),
                decreases es.len() - k,
            {
                proof {
                    assert(section_entry_triples(sec@, es@.take(k + 1)).drop_last() =~= section_entry_triples(
                        sec@,
                        es@.take(k as int),
                    ));
                }
                crate::ini_spec::ini_set(result, &sec_name, es[k].key.as_str(), es[k].translation.as_str());
                k += 1;
            }
            assert(es@.take(es.len() as int) =~= es@);
            Submission::Section(es.len())
        },
        _ => Submission::Invalid,
    }
}

/// A submission counts as answered where a whole file or a section was taken.
pub fn submission_accepted(s: &Submission) -> (r: bool)
    ensures
        r == (s is WholeFile || s is Section),
{
    match s {
        Submission::WholeFile(_) => true,
        Submission::Section(_) => true,
        _ => false,
    }
}

/// The answer to the model for a submission it made: what was taken, or why
/// nothing was; `None` for a whole file that did not parse (whose answer
/// carries the parse error's own text).
pub fn submission_reply(submitted: &SubmittedTranslation, outcome: &Submission) -> (r: Option<String>)
    ensures
        match outcome {
            Submission::WholeFile(n) => r matches Some(t) && t@ == "已收到 "@ + submitted.file_name@ + " 的整文件翻译（"@
                + decimal_text(*n as nat) + " 条）"@,
            Submission::Section(n) => r matches Some(t) && t@ == "已收到 "@ + submitted.file_name@ + " 的 "@ + match submitted.section {
                Some(s) => s@,
                None => Seq::<char>::empty(),
            } + " 下 "@ + decimal_text(*n as nat) + " 条翻译"@,
            Submission::Invalid => r matches Some(t) && t@ == "格式无效：请提供 ini_content（整文件）或 section+entries（按 section）"@,
            Submission::Unreadable(_) => r is None,
        },
{
    match outcome {
        Submission::WholeFile(n) => {
            let head = concat3("已收到 ", submitted.file_name.as_str(), " 的整文件翻译（");
            let num = usize_text(*n);
            Some(concat3(head.as_str(), num.as_str(), " 条）"))
        },
        Submission::Section(n) => {
            let section = match &submitted.section {
                Some(s) => s.as_str(),
                None => "",
            };
            proof {
                reveal_strlit("");
            }
            let head = concat4("已收到 ", submitted.file_name.as_str(), " 的 ", section);
            let num = usize_text(*n);
            Some(concat4(head.as_str(), " 下 ", num.as_str(), " 条翻译"))
        },
        Submission::Invalid => Some(to_string("格式无效：请提供 ini_content（整文件）或 section+entries（按 section）")),
        Submission::Unreadable(_) => None,
    }
}

/// The answer to a call of a function other than the submission function.
pub fn unknown_function_reply(name: &str) -> (r: String)
    ensures
        r@ == "未知函数: "@ + name@,
{
    concat2("未知函数: ", name)
}

/// The answer to a submission whose arguments did not parse.
pub fn parse_failure_reply(error_text: &str) -> (r: String)
    ensures
        r@ == "解析失败: "@ + error_text@,
{
    concat2("解析失败: ", error_text)
}

/// Whether a call is a submission.
pub fn is_submission_call(function_name: &str) -> (r: bool)
    ensures
        r == (function_name@ == SUBMIT_FUNCTION@),
{
    str_eq(function_name, SUBMIT_FUNCTION)
}

/// The single user message sent to the model: the system instructions ahead
/// of the task.
pub fn combined_prompt(system_prompt: &str, user_prompt: &str) -> (r: String)
    ensures
        r@ == "[系统指令]\n"@ + system_prompt@ + "\n\n---\n\n"@ + user_prompt@,
{
    concat4("[系统指令]\n", system_prompt, "\n\n---\n\n", user_prompt)
}

/// What to do with one reply of the model.
#[derive(Debug, Clone, Copy, PartialEq, Eq, Structural)]
pub struct LlmStep {
    /// How many times the reply's message is recorded in the conversation.
    pub record_message: usize,
    /// Whether the reply's function calls are to be handled.
    pub handle_calls: bool,
    /// Whether the conversation ends here.
    pub stop: bool,
}

/// Decides a round from the shape of the model's reply: a reply that ends in
/// function calls and carries them is recorded and its calls handled; a
/// message that carries calls without ending in them is recorded and the model
/// asked again; otherwise the message (recorded twice where the reply ended in
/// function calls but carried none) closes the conversation.
pub fn llm_step(finished_with_calls: bool, has_message: bool, has_calls: bool) -> (r: LlmStep)
    ensures
        r == if finished_with_calls && has_message && has_calls {
            LlmStep { record_message: 1, handle_calls: true, stop: false }
        } else if finished_with_calls && has_message {
            LlmStep { record_message: 2, handle_calls: false, stop: true }
        } else if has_message && has_calls {
            LlmStep { record_message: 1, handle_calls: false, stop: false }
        } else if has_message {
            LlmStep { record_message: 1, handle_calls: false, stop: true }
        } else {
            LlmStep { record_message: 0, handle_calls: false, stop: true }
        },
{
    if finished_with_calls && has_message && has_calls {
        LlmStep { record_message: 1, handle_calls: true, stop: false }
    } else if finished_with_calls && has_message {
        LlmStep { record_message: 2, handle_calls: false, stop: true }
    } else if has_message && has_calls {
        LlmStep { record_message: 1, handle_calls: false, stop: false }
    } else if has_message {
        LlmStep { record_message: 1, handle_calls: false, stop: true }
    } else {
        LlmStep { record_message: 0, handle_calls: false, stop: true }
    }
}

// ═══════════════════════════════════════════════════════════════════════════
// Configuration and the pipeline's own state
// ═══════════════════════════════════════════════════════════════════════════

/// The run-time settings of the pipeline.
#[derive(Debug, Clone)]
pub struct FlowConfig {
    /// Factorio game version.
    pub game_version: String,
    /// Directory of the translation cache.
    pub cache_dir: String,
    /// File of the base game's English/Chinese reference.
    pub base_locale_path: String,
    /// File of the system prompt.
    pub system_prompt_path: String,
    /// Pause between API requests, in milliseconds.
    pub api_delay_ms: u64,
    /// DeepSeek API key.
    pub deepseek_key: String,
}

/// A setting, or its default where it is not given.
pub open spec fn or_default(v: Option<String>, d: Seq<char>) -> Seq<char> {
    match v {
        Some(s) => s@,
        None => d,
    }
}

/// The text given, or the default.
fn owned_or(v: Option<String>, d: &str) -> (r: String)
    ensures
        r@ == or_default(v, d@),
{
    match v {
        Some(s) => s,
        None => to_string(d),
    }
}

impl FlowConfig {
    /// Builds the settings from the values found (`FACTORIO_VERSION`,
    /// `TANVEC_CACHE_DIR`, `TANVEC_BASE_LOCALE`, `TANVEC_SYSTEM_PROMPT`,
    /// `DEEPSEEK_KEY`), defaults standing in for missing ones; the DeepSeek key
    /// has no default, and its absence is an error.
    pub fn from_settings(
        game_version: Option<String>,
        cache_dir: Option<String>,
        base_locale_path: Option<String>,
        system_prompt_path: Option<String>,
        deepseek_key: Option<String>,
    ) -> (r: Result<FlowConfig, String>)
        ensures
            match deepseek_key {
                None => r matches Err(m) && m@ == "环境变量 DEEPSEEK_KEY 未设置"@,
                Some(k) => r matches Ok(c) && {
                    &&& c.game_version@ == or_default(game_version, "2.0.76"@)
                    &&& c.cache_dir@ == or_default(cache_dir, "./cache"@)
                    &&& c.base_locale_path@ == or_default(base_locale_path, "data/base_game_locale.ini"@)
                    &&& c.system_prompt_path@ == or_default(system_prompt_path, "data/system_prompt.txt"@)
                    &&& c.api_delay_ms == 2000
                    &&& c.deepseek_key == k
                },
            },
    {
        let key = match deepseek_key {
            Some(k) => k,
            None => return Err(to_string("环境变量 DEEPSEEK_KEY 未设置")),
        };
        Ok(
            FlowConfig {
                game_version: owned_or(game_version, "2.0.76"),
                cache_dir: owned_or(cache_dir, "./cache"),
                base_locale_path: owned_or(base_locale_path, "data/base_game_locale.ini"),
                system_prompt_path: owned_or(system_prompt_path, "data/system_prompt.txt"),
                api_delay_ms: 2000,
                deepseek_key: key,
            },
        )
    }
}

/// The default system prompt, used where its file does not exist.
pub const DEFAULT_SYSTEM_PROMPT: &'static str = "你是一个专业的中文本地化翻译专家，专门负责将 Factorio 模组的英文文本翻译成简体中文。

翻译规则：
1. 保持游戏术语的一致性，参考提供的原版对照表
2. 对于技术类文本，使用准确、简洁的中文表达
3. 保留原文中的格式标记（如 __1__、[item=xxx] 等占位符）
4. 不要翻译专有名词、代码标识符
5. 使用简体中文书写风格

提交方式：
- 推荐使用 submit_translation 函数，传入 file_name + ini_content 一次性提交整个文件的翻译
- ini_content 应为标准 INI 格式文本，保留原文的 section 结构和 key，只将 value 翻译为中文
- 如果文件过大，可以按 section 分批提交（传入 section + entries）";

/// The system prompt: the file's text where the file exists, the default
/// prompt otherwise.
pub fn system_prompt_or_default(file_text: Option<String>) -> (r: String)
    ensures
        r@ == or_default(file_text, DEFAULT_SYSTEM_PROMPT@),
{
    owned_or(file_text, DEFAULT_SYSTEM_PROMPT)
}

/// The base game's reference: the file's text parsed where the file exists,
/// an empty document otherwise.
pub fn base_locale_from(file_text: Option<&str>) -> (r: Result<ini::Ini, IniError>)
    ensures
        match file_text {
            None => r matches Ok(doc) && ini_contents(doc) == ini_new_view(),
            Some(t) => match spec_ini_parse(t@) {
                Some(v) => r matches Ok(doc) && ini_contents(doc) == v,
                None => r is Err,
            },
        },
{
    match file_text {
        None => Ok(ini_new()),
        Some(t) => str_to_ini(t),
    }
}

/// The state kept between runs: when the pipeline last ran.
#[derive(Debug, Clone, Copy, PartialEq, Eq, Structural)]
pub struct PipelineState {
    pub last_run: UtcTime,
}

impl Default for PipelineState {
    /// Never run: the Unix epoch.
    fn default() -> (r: PipelineState)
        ensures
            r.last_run == (UtcTime { secs: 0, nanos: 0 }),
    {
        PipelineState { last_run: UtcTime { secs: 0, nanos: 0 } }
    }
}

/// The point from which updates are fetched: the one asked for, else the last
/// run.
pub fn effective_since(since: Option<UtcTime>, state: &PipelineState) -> (r: UtcTime)
    ensures
        r == match since {
            Some(t) => t,
            None => state.last_run,
        },
{
    match since {
        Some(t) => t,
        None => state.last_run,
    }
}

/// Whether the limit on processed mods has been reached.
pub fn limit_reached(processed: usize, limit: Option<usize>) -> (r: bool)
    ensures
        r == match limit {
            Some(l) => processed >= l,
            None => false,
        },
{
    match limit {
        Some(l) => processed >= l,
        None => false,
    }
}

/// How the pipeline signs in to the mod portal.
#[derive(Debug, Clone)]
pub enum LoginChoice {
    /// With a user name and password.
    Password { user: String, password: String },
    /// With a user name and an existing token.
    Token { user: String, token: String },
    /// Not possible: the settings lack what it needs.
    Missing(String),
}

/// Picks the sign-in from `FACTORIO_USERNAME`, `FACTORIO_PASSWORD` and
/// `FACTORIO_TOKEN`: a password wins over a token; a user name is needed
/// either way.
pub fn choose_login(user: Option<String>, password: Option<String>, token: Option<String>) -> (r: LoginChoice)
    ensures
        match (user, password, token) {
            (Some(u), Some(p), _) => r matches LoginChoice::Password { user, password } && user == u && password == p,
            (Some(u), None, Some(t)) => r matches LoginChoice::Token { user, token } && user == u && token == t,
            _ => r matches LoginChoice::Missing(m) && m@ == "需要设置 FACTORIO_USERNAME + (FACTORIO_PASSWORD 或 FACTORIO_TOKEN)"@,
        },
{
    match (user, password, token) {
        (Some(u), Some(p), _) => LoginChoice::Password { user: u, password: p },
        (Some(u), None, Some(t)) => LoginChoice::Token { user: u, token: t },
        _ => LoginChoice::Missing(to_string("需要设置 FACTORIO_USERNAME + (FACTORIO_PASSWORD 或 FACTORIO_TOKEN)")),
    }
}

} // verus!
