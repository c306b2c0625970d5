use std::collections::HashMap;
use std::io::Write;

use tanvec_ai_cn::pack::{
    base_key_pairs, cache_mod_name, pack_dependencies, dated_name, has_base_overlap, is_cache_file, is_protected, locale_entry_path, pack_description,
    pack_mod_file, root_entry_path, PackEntry,
};
use tanvec_ai_cn::repack::{
    extract_pack_locale_files, is_ignored_mod, is_pack_candidate, latest_index, pack_file_text, pack_locale_mod_name,
    partition_enabled_mods, repack_dependencies, repack_description, repack_title,
};
use tanvec_ai_cn::time::UtcTime;
use tanvec_ai_cn::translation::{str_to_ini, LangInfo, LocaleInfo};

#[test]
fn protected_sections() {
    assert!(is_protected("entity-name"));
    assert!(is_protected("item-name"));
    assert!(is_protected(""));
    assert!(!is_protected("my-mod-section"));
}

#[test]
fn base_overlap_when_a_key_is_among_the_base_keys() {
    let mut base = HashMap::new();
    base.insert("entity-name.iron-plate".to_string(), "铁板".to_string());
    base.insert("my-section.k".to_string(), "x".to_string());
    base.insert("top".to_string(), "1".to_string());
    let same = str_to_ini("[entity-name]\niron-plate=铁板\n").unwrap();
    assert!(has_base_overlap(&same, &base));
    let other = str_to_ini("[entity-name]\niron-plate=铁制板\n").unwrap();
    assert!(has_base_overlap(&other, &base));
    let any_section = str_to_ini("[my-section]\nk=y\n").unwrap();
    assert!(has_base_overlap(&any_section, &base));
    let general = str_to_ini("top=2\n").unwrap();
    assert!(has_base_overlap(&general, &base));
    let missing = str_to_ini("[entity-name]\nnew-thing=新\n").unwrap();
    assert!(!has_base_overlap(&missing, &base));
}

#[test]
fn cache_files_and_names() {
    assert!(is_cache_file("flib.json", true));
    assert!(!is_cache_file("flib.json", false));
    assert!(!is_cache_file("_state.json", true));
    assert!(!is_cache_file("flib.txt", true));
    assert_eq!(cache_mod_name(Some("flib")), "flib");
    assert_eq!(cache_mod_name(None), "unknown");
}

#[test]
fn pack_paths_and_texts() {
    assert_eq!(locale_entry_path("pack", "flib", "cfg"), "pack/locale/zh-CN/flib.cfg");
    assert_eq!(root_entry_path("pack", "info.json"), "pack/info.json");
    assert_eq!(dated_name("pack", "2024-01-01"), "pack_2024-01-01");
    assert!(pack_description(12).starts_with("包含 12 个模组的 AI 中文翻译。"));
}

fn chinese_locale(files: &[(&str, &str)]) -> LocaleInfo {
    let mut li = LangInfo::new();
    for (name, text) in files {
        li.contents.insert(name.to_string(), text.to_string());
    }
    let mut contents = indexmap::IndexMap::new();
    contents.insert("zh-CN".to_string(), li);
    LocaleInfo { contents, version: "1.0.0".to_string() }
}

#[test]
fn packing_a_mod_merges_its_files() {
    let locale = chinese_locale(&[("a.cfg", "[s]\nk=一\n"), ("b.cfg", "[s]\nj=二\n"), ("bad.cfg", "[s\n")]);
    let (entry, unreadable) = pack_mod_file("pack", "m", &locale, false, None);
    match entry {
        PackEntry::File { path, content } => {
            assert_eq!(path, "pack/locale/zh-CN/m.cfg");
            assert_eq!(content, "[s]\nk=一\nj=二\n");
        },
        PackEntry::Skip => panic!("expected a file"),
    }
    assert_eq!(unreadable, vec!["bad.cfg".to_string()]);
}

#[test]
fn packing_disables_mods_that_override_the_base_game() {
    let mut base = HashMap::new();
    base.insert("item-name.iron-plate".to_string(), "铁板".to_string());
    let locale = chinese_locale(&[("a.cfg", "[item-name]\niron-plate=铁片\n")]);
    let (entry, _) = pack_mod_file("pack", "m", &locale, true, Some(&base));
    assert!(matches!(entry, PackEntry::File { ref path, .. } if path == "pack/locale/zh-CN/m.cfg.disabled"));
    let (kept, _) = pack_mod_file("pack", "m", &locale, false, Some(&base));
    assert!(matches!(kept, PackEntry::File { ref path, .. } if path == "pack/locale/zh-CN/m.cfg"));
}

#[test]
fn packing_skips_mods_without_chinese() {
    let locale = LocaleInfo { contents: indexmap::IndexMap::new(), version: String::new() };
    let (entry, unreadable) = pack_mod_file("pack", "m", &locale, true, None);
    assert!(matches!(entry, PackEntry::Skip));
    assert!(unreadable.is_empty());
}

#[test]
fn pack_candidates_and_latest() {
    assert!(is_pack_candidate("tanvec-ai-cn_2024.zip", "tanvec-ai-cn"));
    assert!(!is_pack_candidate("tanvec-ai-cn_2024.tar", "tanvec-ai-cn"));
    assert!(!is_pack_candidate("other.zip", "tanvec-ai-cn"));
    assert_eq!(latest_index(&[]), None);
    let times = [
        UtcTime { secs: 5, nanos: 0 },
        UtcTime { secs: 9, nanos: 0 },
        UtcTime { secs: 9, nanos: 0 },
        UtcTime { secs: 1, nanos: 0 },
    ];
    assert_eq!(latest_index(&times), Some(2));
}

#[test]
fn pack_entry_names() {
    assert_eq!(pack_locale_mod_name("tanvec-ai-cn/locale/zh-CN/flib.cfg").as_deref(), Some("flib"));
    assert_eq!(pack_locale_mod_name("tanvec-ai-cn/locale/zh-CN/flib.cfg.disabled").as_deref(), Some("flib"));
    assert_eq!(pack_locale_mod_name("tanvec-ai-cn/locale/zh-CN/toggle_py"), None);
    assert_eq!(pack_locale_mod_name("tanvec-ai-cn/info.json"), None);
}

#[test]
fn reading_a_pack() {
    let cursor = std::io::Cursor::new(Vec::new());
    let mut w = zip::ZipWriter::new(cursor);
    let options = zip::write::SimpleFileOptions::default().compression_method(zip::CompressionMethod::Stored);
    w.start_file("tanvec-ai-cn/locale/zh-CN/flib.cfg", options).unwrap();
    w.write_all("[s]\nk=一\n".as_bytes()).unwrap();
    w.start_file("tanvec-ai-cn/locale/zh-CN/rso.cfg.disabled", options).unwrap();
    w.write_all("[s]\nk=二\n".as_bytes()).unwrap();
    w.start_file("tanvec-ai-cn/info.json", options).unwrap();
    w.write_all(b"{}").unwrap();
    let bytes = w.finish().unwrap().into_inner();
    let files = extract_pack_locale_files(&bytes).unwrap();
    assert_eq!(files.len(), 2);
    assert_eq!(pack_file_text(&files, "flib").map(|s| s.as_str()), Some("[s]\nk=一\n"));
    assert_eq!(pack_file_text(&files, "rso").map(|s| s.as_str()), Some("[s]\nk=二\n"));
    assert_eq!(pack_file_text(&files, "none"), None);
    assert!(extract_pack_locale_files(b"junk").is_err());
}

#[test]
fn partitioning_enabled_mods() {
    assert!(is_ignored_mod("base"));
    assert!(is_ignored_mod("space-age"));
    assert!(!is_ignored_mod("flib"));
    let enabled: Vec<String> =
        ["base", "flib", "gavin-pack", "rso", "missing"].iter().map(|s| s.to_string()).collect();
    let available = vec![("flib".to_string(), "x".to_string()), ("rso".to_string(), "y".to_string())];
    let (matched, unmatched) = partition_enabled_mods(&enabled, &available, "gavin-pack");
    assert_eq!(matched, vec!["flib".to_string(), "rso".to_string()]);
    assert_eq!(unmatched, vec!["missing".to_string()]);
    assert_eq!(
        repack_dependencies(&matched),
        vec!["base >= 2.1".to_string(), "+ flib".to_string(), "+ rso".to_string(), "! tanvec-ai-cn".to_string()]
    );
    assert_eq!(repack_title("gavin"), "gavin 的专用汉化整合包");
    assert!(repack_description(2).starts_with("包含 2 个模组的 AI 中文翻译。"));
}

#[test]
fn base_keys_are_section_dot_key() {
    let doc = str_to_ini("top=1\n[item-name]\niron-plate=铁板\ncopper-plate=铜板\n").unwrap();
    assert_eq!(
        base_key_pairs(&doc),
        vec![
            ("top".to_string(), "1".to_string()),
            ("item-name.iron-plate".to_string(), "铁板".to_string()),
            ("item-name.copper-plate".to_string(), "铜板".to_string()),
        ]
    );
}

#[test]
fn pack_declares_only_the_base_game() {
    assert_eq!(pack_dependencies(), vec!["base >= 2.1".to_string()]);
}
