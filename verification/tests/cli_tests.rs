use std::io::Write;

use tanvec_ai_cn::cli::{
    enabled_mod_names, mod_info_line, since_instant, mod_name_from_zip, parse_since, read_enabled_mods, ModInfo, ModListJson, SinceArg,
};
use tanvec_ai_cn::flow::{
    apply_submission, base_locale_from, continue_prompt_after, may_request, CONTINUE_PROMPT, cache_file_name, choose_login, choose_release, combined_prompt,
    effective_since, is_empty_ini, is_submission_call, limit_reached, llm_step, parse_failure_reply,
    submission_accepted, submission_reply, system_prompt_or_default, unknown_function_reply, FlowConfig, LlmStep,
    LoginChoice, PipelineState, Submission, SubmittedEntry, SubmittedTranslation, DEFAULT_SYSTEM_PROMPT,
};
use tanvec_ai_cn::portal::{InfoJson, Release, ResultEntry};
use tanvec_ai_cn::text::{concat2, concat3, concat4, concat5, to_string};
use tanvec_ai_cn::time::UtcTime;
use tanvec_ai_cn::translation::{str_to_ini, LangInfo, LocaleInfo};

#[test]
fn since_arguments() {
    assert_eq!(parse_since("7d"), Ok(SinceArg::DaysAgo(7)));
    assert_eq!(parse_since("12h"), Ok(SinceArg::HoursAgo(12)));
    assert_eq!(parse_since("30m"), Ok(SinceArg::MinutesAgo(30)));
    assert_eq!(parse_since("-2d"), Ok(SinceArg::DaysAgo(-2)));
    assert_eq!(parse_since("xd"), Err("无效的天数: x".to_string()));
    assert_eq!(parse_since("1.5h"), Err("无效的小时数: 1.5".to_string()));
    assert_eq!(parse_since("m"), Err("无效的分钟数: ".to_string()));
    assert_eq!(
        parse_since("2024-01-01T00:00:00Z"),
        Ok(SinceArg::At(UtcTime { secs: 1704067200, nanos: 0 }))
    );
    assert!(matches!(parse_since("tomorrow"), Err(ref m) if m.starts_with("无法解析时间 'tomorrow': ")));
}

#[test]
fn enabled_mods_of_a_mod_list() {
    let entries = vec![
        (Some(true), Some("base".to_string())),
        (Some(false), Some("off".to_string())),
        (None, Some("implicit".to_string())),
        (Some(true), None),
    ];
    assert_eq!(enabled_mod_names(&entries), vec!["base".to_string(), "implicit".to_string()]);
    let text = r#"{"mods":[{"name":"base","enabled":true},{"name":"x","enabled":false},{"name":"y"}]}"#;
    assert_eq!(read_enabled_mods(text), Some(vec!["base".to_string(), "y".to_string()]));
    assert_eq!(read_enabled_mods("not json"), None);
}

#[test]
fn mod_name_of_an_upload() {
    let cursor = std::io::Cursor::new(Vec::new());
    let mut w = zip::ZipWriter::new(cursor);
    let options = zip::write::SimpleFileOptions::default().compression_method(zip::CompressionMethod::Stored);
    w.start_file("pack_1.0.0/locale/zh-CN/a.cfg", options).unwrap();
    w.write_all(b"[s]\nk=v\n").unwrap();
    w.start_file("pack_1.0.0/info.json", options).unwrap();
    w.write_all(b"{\"name\":\"my-pack\",\"version\":\"1.0.0\"}").unwrap();
    let bytes = w.finish().unwrap().into_inner();
    assert_eq!(mod_name_from_zip(&bytes).unwrap().as_deref(), Some("my-pack"));
    assert!(mod_name_from_zip(b"no zip").is_err());
}

#[test]
fn text_helpers() {
    assert_eq!(to_string("a"), "a");
    assert_eq!(concat2("a", "b"), "ab");
    assert_eq!(concat3("a", "b", "c"), "abc");
    assert_eq!(concat4("a", "b", "c", "d"), "abcd");
    assert_eq!(concat5("a", "b", "c", "d", "e"), "abcde");
}

#[test]
fn applying_submissions() {
    let mut result = ini::Ini::new();
    let whole = SubmittedTranslation {
        file_name: "base.cfg".to_string(),
        ini_content: Some("[a]\nk=值\nj=另\n".to_string()),
        section: None,
        entries: None,
    };
    let outcome = apply_submission(&mut result, &whole);
    assert!(matches!(outcome, Submission::WholeFile(2)));
    assert!(submission_accepted(&outcome));
    assert_eq!(result.get_from(Some("a"), "k"), Some("值"));
    assert_eq!(submission_reply(&whole, &outcome).as_deref(), Some("已收到 base.cfg 的整文件翻译（2 条）"));

    let by_section = SubmittedTranslation {
        file_name: "base.cfg".to_string(),
        ini_content: None,
        section: Some("b".to_string()),
        entries: Some(vec![SubmittedEntry {
            key: "x".to_string(),
            original: "X".to_string(),
            translation: "叉".to_string(),
        }]),
    };
    let outcome = apply_submission(&mut result, &by_section);
    assert!(matches!(outcome, Submission::Section(1)));
    assert_eq!(result.get_from(Some("b"), "x"), Some("叉"));
    assert_eq!(submission_reply(&by_section, &outcome).as_deref(), Some("已收到 base.cfg 的 b 下 1 条翻译"));

    let invalid = SubmittedTranslation { file_name: "f".to_string(), ini_content: None, section: None, entries: None };
    let outcome = apply_submission(&mut result, &invalid);
    assert!(matches!(outcome, Submission::Invalid));
    assert!(!submission_accepted(&outcome));
    assert_eq!(
        submission_reply(&invalid, &outcome).as_deref(),
        Some("格式无效：请提供 ini_content（整文件）或 section+entries（按 section）")
    );

    let broken = SubmittedTranslation {
        file_name: "f".to_string(),
        ini_content: Some("[oops\n".to_string()),
        section: None,
        entries: None,
    };
    let outcome = apply_submission(&mut result, &broken);
    assert!(matches!(outcome, Submission::Unreadable(_)));
    assert_eq!(submission_reply(&broken, &outcome), None);
    assert_eq!(result.get_from(Some("a"), "j"), Some("另"));
}

#[test]
fn talking_with_the_model() {
    assert!(is_submission_call("submit_translation"));
    assert!(!is_submission_call("stop"));
    assert_eq!(unknown_function_reply("f"), "未知函数: f");
    assert_eq!(parse_failure_reply("bad"), "解析失败: bad");
    assert_eq!(combined_prompt("S", "U"), "[系统指令]\nS\n\n---\n\nU");
    assert_eq!(llm_step(true, true, true), LlmStep { record_message: 1, handle_calls: true, stop: false });
    assert_eq!(llm_step(true, true, false), LlmStep { record_message: 2, handle_calls: false, stop: true });
    assert_eq!(llm_step(false, true, true), LlmStep { record_message: 1, handle_calls: false, stop: false });
    assert_eq!(llm_step(false, true, false), LlmStep { record_message: 1, handle_calls: false, stop: true });
    assert_eq!(llm_step(false, false, false), LlmStep { record_message: 0, handle_calls: false, stop: true });
}

#[test]
fn settings_and_state() {
    let cfg = FlowConfig::from_settings(None, Some("/tmp/c".to_string()), None, None, Some("key".to_string())).unwrap();
    assert_eq!(cfg.game_version, "2.0.76");
    assert_eq!(cfg.cache_dir, "/tmp/c");
    assert_eq!(cfg.base_locale_path, "data/base_game_locale.ini");
    assert_eq!(cfg.system_prompt_path, "data/system_prompt.txt");
    assert_eq!(cfg.api_delay_ms, 2000);
    assert_eq!(cfg.deepseek_key, "key");
    assert_eq!(
        FlowConfig::from_settings(None, None, None, None, None).unwrap_err(),
        "环境变量 DEEPSEEK_KEY 未设置"
    );
    assert_eq!(system_prompt_or_default(None), DEFAULT_SYSTEM_PROMPT);
    assert_eq!(system_prompt_or_default(Some("mine".to_string())), "mine");
    let fresh = base_locale_from(None).unwrap();
    assert!(!is_empty_ini(&fresh));
    assert_eq!(fresh.len(), 1);
    assert_eq!(fresh.get_from(None::<&str>, "k"), None);
    assert_eq!(base_locale_from(Some("[a]\nk=v\n")).unwrap().get_from(Some("a"), "k"), Some("v"));
    assert!(base_locale_from(Some("[a\n")).is_err());
    assert!(!is_empty_ini(&str_to_ini("[a]\nk=v\n").unwrap()));

    let state = PipelineState::default();
    assert_eq!(state.last_run, UtcTime { secs: 0, nanos: 0 });
    let t = UtcTime { secs: 10, nanos: 1 };
    assert_eq!(effective_since(Some(t), &state), t);
    assert_eq!(effective_since(None, &state), state.last_run);
    assert!(limit_reached(3, Some(3)));
    assert!(!limit_reached(2, Some(3)));
    assert!(!limit_reached(100, None));
    assert_eq!(cache_file_name("flib"), "flib.json");
}

#[test]
fn login_choices() {
    let s = |x: &str| Some(x.to_string());
    assert!(matches!(choose_login(s("u"), s("p"), s("t")), LoginChoice::Password { ref user, ref password } if user == "u" && password == "p"));
    assert!(matches!(choose_login(s("u"), None, s("t")), LoginChoice::Token { ref user, ref token } if user == "u" && token == "t"));
    assert!(matches!(choose_login(None, s("p"), None), LoginChoice::Missing(ref m)
        if m == "需要设置 FACTORIO_USERNAME + (FACTORIO_PASSWORD 或 FACTORIO_TOKEN)"));
}

#[test]
fn languages_of_a_locale() {
    let mut li = LangInfo::new();
    li.contents.insert("a.cfg".to_string(), "x".to_string());
    let mut contents = indexmap::IndexMap::new();
    contents.insert("en".to_string(), li);
    let locale = LocaleInfo { contents, version: String::new() };
    assert_eq!(locale.language_count(), 1);
    assert!(locale.language("en").is_some());
    assert!(locale.language("fr").is_none());
}

#[test]
fn release_to_download() {
    let rel = |v: &str| Release {
        download_url: String::new(),
        file_name: String::new(),
        info_json: InfoJson { factorio_version: String::new(), dependencies: None },
        released_at: String::new(),
        version: v.to_string(),
        sha1: String::new(),
        feature_flags: None,
    };
    let mut e = ResultEntry {
        name: "m".to_string(),
        title: String::new(),
        owner: String::new(),
        summary: String::new(),
        downloads_count: 0,
        latest_release: None,
        releases: Some(vec![rel("1"), rel("2")]),
        category: None,
        changelog: None,
        created_at: None,
        description: None,
        deprecated: None,
        deprecated_reason: None,
        source_url: None,
        github_path: None,
        homepage: None,
        tags: None,
        license: None,
        updated_at: None,
        last_highlighted_at: None,
        thumbnail: None,
    };
    assert_eq!(choose_release(&e).map(|r| r.version.as_str()), Some("2"));
    e.latest_release = Some(rel("9"));
    assert_eq!(choose_release(&e).map(|r| r.version.as_str()), Some("9"));
    e.latest_release = None;
    e.releases = Some(Vec::new());
    assert!(choose_release(&e).is_none());
}

#[test]
fn listing_mods() {
    let list = ModListJson {
        mods: vec![
            ModInfo { name: "base".to_string(), enabled: true, version: None },
            ModInfo { name: "flib".to_string(), enabled: false, version: Some("0.15.0".to_string()) },
        ],
    };
    assert_eq!(mod_info_line(&list.mods[0]), "Mod Name: base, Enabled: true, Version: N/A");
    assert_eq!(mod_info_line(&list.mods[1]), "Mod Name: flib, Enabled: false, Version: 0.15.0");
}

#[test]
fn since_arguments_as_points_in_time() {
    let now = UtcTime { secs: 1_000_000, nanos: 7 };
    assert_eq!(since_instant(SinceArg::DaysAgo(2), now), Some(UtcTime { secs: 1_000_000 - 172_800, nanos: 7 }));
    assert_eq!(since_instant(SinceArg::HoursAgo(-1), now), Some(UtcTime { secs: 1_003_600, nanos: 7 }));
    assert_eq!(since_instant(SinceArg::MinutesAgo(30), now), Some(UtcTime { secs: 998_200, nanos: 7 }));
    let t = UtcTime { secs: 5, nanos: 0 };
    assert_eq!(since_instant(SinceArg::At(t), now), Some(t));
    assert_eq!(since_instant(SinceArg::DaysAgo(i64::MIN), now), None);
}

#[test]
fn model_dialogue_rounds_and_follow_up() {
    assert!(may_request(0));
    assert!(may_request(19));
    assert!(!may_request(20));
    assert_eq!(continue_prompt_after(&vec![]), None);
    assert_eq!(continue_prompt_after(&vec![false, false]), None);
    assert_eq!(continue_prompt_after(&vec![false, true]), Some(CONTINUE_PROMPT));
}

#[test]
fn since_counts_at_the_edges_of_i64() {
    assert_eq!(parse_since("+5d"), Ok(SinceArg::DaysAgo(5)));
    assert_eq!(parse_since("-9223372036854775808h"), Ok(SinceArg::HoursAgo(i64::MIN)));
    assert_eq!(parse_since("9223372036854775807m"), Ok(SinceArg::MinutesAgo(i64::MAX)));
    assert_eq!(parse_since("9223372036854775808d"), Err("无效的天数: 9223372036854775808".to_string()));
    assert_eq!(parse_since("-d"), Err("无效的天数: -".to_string()));
    assert_eq!(parse_since("1a2h"), Err("无效的小时数: 1a2".to_string()));
}

#[test]
fn mod_list_without_a_list_of_mods() {
    assert_eq!(read_enabled_mods("{}"), Some(Vec::new()));
    assert_eq!(read_enabled_mods(r#"{"mods": 3}"#), Some(Vec::new()));
}
