use std::io::Write;

use tanvec_ai_cn::flow::{
    apply_translation, extract_locale_from_zip, find_common_root_prefix, plan_translation, ExtractError,
    TranslationPlan,
};
use tanvec_ai_cn::translation::{str_to_ini, LangInfo, LocaleInfo};

/// A zip holding two locale files and an `info.json`, every name under `prefix`.
fn make_test_zip(prefix: &str) -> Vec<u8> {
    let cursor = std::io::Cursor::new(Vec::new());
    let mut zip_writer = zip::ZipWriter::new(cursor);
    let options = zip::write::SimpleFileOptions::default().compression_method(zip::CompressionMethod::Stored);

    zip_writer.start_file(format!("{prefix}locale/en/base.cfg"), options).unwrap();
    zip_writer
        .write_all(b"[entity-name]\niron-plate=Iron plate\ncopper-plate=Copper plate\n")
        .unwrap();

    zip_writer.start_file(format!("{prefix}locale/zh-CN/base.cfg"), options).unwrap();
    zip_writer.write_all("[entity-name]\niron-plate=铁板\n".as_bytes()).unwrap();

    zip_writer.start_file(format!("{prefix}info.json"), options).unwrap();
    zip_writer.write_all(b"{\"name\":\"test-mod\",\"version\":\"1.0.0\"}").unwrap();

    zip_writer.finish().unwrap().into_inner()
}

#[test]
fn test_extract_locale_from_zip_no_prefix() {
    let zip_buf = make_test_zip("");
    let locale = extract_locale_from_zip(&zip_buf).unwrap();
    assert_eq!(locale.version, "1.0.0");
    assert_eq!(locale.contents.len(), 2);
    assert!(locale.contents.contains_key("en"));
    assert!(locale.contents.contains_key("zh-CN"));
    let en_base = locale.contents["en"].contents["base.cfg"].as_str();
    assert!(en_base.contains("iron-plate=Iron plate"));
}

#[test]
fn test_extract_locale_from_zip_with_prefix() {
    let zip_buf = make_test_zip("test-mod_1.0.0/");
    let locale = extract_locale_from_zip(&zip_buf).unwrap();
    assert_eq!(locale.version, "1.0.0");
    assert_eq!(locale.contents.len(), 2);
    assert!(locale.contents.contains_key("en"));
    assert!(locale.contents.contains_key("zh-CN"));
    let en_base = locale.contents["en"].contents["base.cfg"].as_str();
    assert!(en_base.contains("iron-plate=Iron plate"));
}

#[test]
fn test_find_common_root_prefix() {
    let names = vec![
        "mod_1.0.0/locale/en/base.cfg".to_string(),
        "mod_1.0.0/locale/zh-CN/base.cfg".to_string(),
        "mod_1.0.0/info.json".to_string(),
    ];
    assert_eq!(find_common_root_prefix(&names).as_deref(), Some("mod_1.0.0/"));

    let names2 = vec!["locale/en/base.cfg".to_string(), "other/info.json".to_string()];
    assert_eq!(find_common_root_prefix(&names2), None);

    let names3 = vec!["foo/bar.txt".to_string()];
    assert_eq!(find_common_root_prefix(&names3).as_deref(), Some("foo/"));
}

#[test]
fn common_root_prefix_skips_directory_entries() {
    let names = vec!["other/".to_string(), "mod/".to_string(), "mod/info.json".to_string()];
    assert_eq!(find_common_root_prefix(&names).as_deref(), Some("mod/"));
}

#[test]
fn common_root_prefix_of_nothing_or_flat_names() {
    let none: Vec<String> = Vec::new();
    assert_eq!(find_common_root_prefix(&none), None);
    let only_dirs = vec!["a/".to_string()];
    assert_eq!(find_common_root_prefix(&only_dirs), None);
    let flat = vec!["info.json".to_string(), "info.json/x".to_string()];
    assert_eq!(find_common_root_prefix(&flat), None);
}

#[test]
fn extract_refuses_bytes_that_are_no_zip() {
    let r = extract_locale_from_zip(b"not a zip archive");
    assert!(matches!(r, Err(ExtractError::Open(_))));
}

#[test]
fn extract_reads_chinese_file_and_skips_other_files() {
    let cursor = std::io::Cursor::new(Vec::new());
    let mut w = zip::ZipWriter::new(cursor);
    let options = zip::write::SimpleFileOptions::default().compression_method(zip::CompressionMethod::Stored);
    w.start_file("m_2.0.0/locale/zh-CN/base.cfg", options).unwrap();
    w.write_all("[a]\nk=值\n".as_bytes()).unwrap();
    w.start_file("m_2.0.0/locale/en/readme.txt", options).unwrap();
    w.write_all(b"ignored").unwrap();
    w.start_file("m_2.0.0/info.json", options).unwrap();
    w.write_all(b"{\"version\":\"2.0.0\"}").unwrap();
    let bytes = w.finish().unwrap().into_inner();
    let locale = extract_locale_from_zip(&bytes).unwrap();
    assert_eq!(locale.version, "2.0.0");
    assert_eq!(locale.contents.len(), 1);
    assert_eq!(locale.contents["zh-CN"].contents["base.cfg"], "[a]\nk=值\n");
}

fn locale_with(lang: &str, file: &str, text: &str) -> LocaleInfo {
    let mut li = LangInfo::new();
    li.contents.insert(file.to_string(), text.to_string());
    let mut contents = indexmap::IndexMap::new();
    contents.insert(lang.to_string(), li);
    LocaleInfo { contents, version: "1.0.0".to_string() }
}

#[test]
fn plan_without_locale_files() {
    let current = LocaleInfo { contents: indexmap::IndexMap::new(), version: String::new() };
    assert!(matches!(plan_translation(&current, None), Ok(TranslationPlan::NoLocale)));
}

#[test]
fn plan_for_mod_written_in_chinese() {
    let current = locale_with("zh-CN", "base.cfg", "[a]\nk=v\n");
    assert!(matches!(plan_translation(&current, None), Ok(TranslationPlan::ChineseFirst)));
    let other = locale_with("de", "base.cfg", "[a]\nk=v\n");
    assert!(matches!(plan_translation(&other, None), Ok(TranslationPlan::NoSource)));
}

#[test]
fn plan_translates_new_and_changed_entries_only() {
    let current = locale_with("en", "base.cfg", "[a]\nk=v\nn=new\n");
    let cached = locale_with("zh-CN", "base.cfg", "[a]\nk=v\n");
    match plan_translation(&current, Some(&cached)) {
        Ok(TranslationPlan::Translate { entries, targets }) => {
            assert_eq!(entries.len(), 1);
            assert_eq!(entries[0].file_name, "base.cfg");
            assert_eq!(entries[0].section, "a");
            assert_eq!(entries[0].key, "n");
            assert_eq!(entries[0].original, "new");
            assert_eq!(targets.len(), 1);
            assert_eq!(targets[0].0, "base.cfg");
        },
        other => panic!("unexpected plan: {:?}", other),
    }
    let all_known = locale_with("zh-CN", "base.cfg", "[a]\nk=v\nn=new\n");
    assert!(matches!(plan_translation(&current, Some(&all_known)), Ok(TranslationPlan::NothingNew)));
}

#[test]
fn plan_refuses_unreadable_cached_translation() {
    let current = locale_with("en", "base.cfg", "[a]\nk=v\n");
    let cached = locale_with("zh-CN", "base.cfg", "[a\nk=v\n");
    assert!(plan_translation(&current, Some(&cached)).is_err());
}

#[test]
fn apply_translation_merges_answer_over_cache() {
    let mut source = LangInfo::new();
    source.contents.insert("base.cfg".to_string(), "[a]\nk=v\nn=new\n".to_string());
    let targets = vec![("base.cfg".to_string(), str_to_ini("[a]\nk=旧\nstale=x\n").unwrap())];
    let llm = str_to_ini("[a]\nn=新\n").unwrap();
    let result = apply_translation(&source, &targets, &llm, None, "3.1.4").unwrap();
    assert_eq!(result.version, "3.1.4");
    let text = &result.contents["zh-CN"].contents["base.cfg"];
    let doc = str_to_ini(text).unwrap();
    assert_eq!(doc.get_from(Some("a"), "k"), Some("旧"));
    assert_eq!(doc.get_from(Some("a"), "n"), Some("新"));
    assert_eq!(doc.get_from(Some("a"), "stale"), None);
}

fn entry(file: &str, section: &str, key: &str, original: &str) -> tanvec_ai_cn::flow::TranslationEntry {
    tanvec_ai_cn::flow::TranslationEntry {
        file_name: file.to_string(),
        section: section.to_string(),
        key: key.to_string(),
        original: original.to_string(),
    }
}

#[test]
fn user_prompt_groups_entries_by_sorted_file_and_section() {
    let base = str_to_ini("[item-name]\niron-plate=铁板\n").unwrap();
    let entries = vec![
        entry("z.cfg", "b", "k1", "One"),
        entry("a.cfg", "s", "k2", "Two"),
        entry("z.cfg", "a", "k3", "Three"),
        entry("z.cfg", "b", "k4", "Four"),
    ];
    let prompt = tanvec_ai_cn::prompt::build_user_prompt(&base, &entries, None);
    let expected = [
        "## 原版游戏术语对照参考\n\n",
        "以下为原版游戏中的常见术语翻译，请保持翻译一致性：\n\n",
        "```ini\n[item-name]\niron-plate=铁板\n```\n\n",
        "## 当前翻译任务\n\n",
        "请将以下英文文本翻译为简体中文，按文件分 section 调用 submit_translation 函数提交：\n\n",
        "### 文件: a.cfg\n\n",
        "#### Section: [s]\n\n| key | 英文原文 |\n|-----|----------|\n| `k2` | Two |\n\n",
        "### 文件: z.cfg\n\n",
        "#### Section: [a]\n\n| key | 英文原文 |\n|-----|----------|\n| `k3` | Three |\n\n",
        "#### Section: [b]\n\n| key | 英文原文 |\n|-----|----------|\n| `k1` | One |\n| `k4` | Four |\n\n",
        "请现在开始翻译，按文件按 section 调用 submit_translation 函数逐批提交。\n",
    ]
    .concat();
    assert_eq!(prompt, expected);
}

#[test]
fn user_prompt_lists_previous_translation() {
    let base = str_to_ini("").unwrap();
    let previous = locale_with("zh-CN", "base.cfg", "[a]\nk=值\n");
    let prompt = tanvec_ai_cn::prompt::build_user_prompt(&base, &[], Some(&previous));
    assert!(prompt.contains("## 该模组之前的翻译（仅供参考风格）\n\n```ini\n; --- 语言: zh-CN ---\n; 文件: base.cfg\n[a]\nk=值\n\n```\n\n"));
    assert!(prompt.ends_with("## 当前翻译任务\n\n请将以下英文文本翻译为简体中文，按文件分 section 调用 submit_translation 函数提交：\n\n请现在开始翻译，按文件按 section 调用 submit_translation 函数逐批提交。\n"));
}
