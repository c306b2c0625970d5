use tanvec_ai_cn::portal::{
    api_error_text, bearer_header, bookmark_state, download_url, entries_from_search, filter_released_since,
    filter_updated_since, login_outcome, mod_url, newest_mods_query, recently_updated_query, scan_updated_page,
    updated_since_page_size, updated_since_query, upload_file_name, upload_next, ErrorResponse, InfoJson,
    LoginReply, PageOutcome, Release, ResultEntry, SearchPagination, SearchResultEntry, Tag, UploadAction,
    UploadReply,
};
use tanvec_ai_cn::time::{parse_iso8601, UtcTime};

fn release(released_at: &str) -> Release {
    Release {
        download_url: "/download/m/abc".to_string(),
        file_name: "m_1.0.0.zip".to_string(),
        info_json: InfoJson { factorio_version: "2.0".to_string(), dependencies: None },
        released_at: released_at.to_string(),
        version: "1.0.0".to_string(),
        sha1: "abc".to_string(),
        feature_flags: None,
    }
}

fn entry(name: &str, released_at: Option<&str>) -> ResultEntry {
    ResultEntry {
        name: name.to_string(),
        title: name.to_string(),
        owner: "owner".to_string(),
        summary: String::new(),
        downloads_count: 0,
        latest_release: released_at.map(release),
        releases: None,
        category: None,
        changelog: None,
        created_at: None,
        description: None,
        deprecated: None,
        deprecated_reason: None,
        source_url: None,
        github_path: None,
        homepage: None,
        tags: None,
        license: None,
        updated_at: None,
        last_highlighted_at: None,
        thumbnail: None,
    }
}

fn hit(name: &str, updated_at: Option<&str>) -> SearchResultEntry {
    SearchResultEntry {
        name: name.to_string(),
        title: format!("{name} title"),
        owner: "someone".to_string(),
        summary: "sum".to_string(),
        downloads_count: 7,
        latest_release: Some("deadbeef".to_string()),
        latest_release_version: Some("0.3.1".to_string()),
        category: Some("content".to_string()),
        created_at: None,
        updated_at: updated_at.map(|s| s.to_string()),
        deprecated: Some(false),
        source_url: None,
        requires_space_age: None,
        thumbnail: Some("/thumb.png".to_string()),
        highlighted_fields: None,
        factorio_versions: None,
        tags: Some(vec![Tag::Name("utilities".to_string())]),
    }
}

#[test]
fn test_time_parsing() {
    let s1 = Some("2026-07-23T23:31:36.025000");
    println!("{:?}", parse_iso8601(s1));
}

#[test]
fn time_stamps_in_each_accepted_form() {
    assert_eq!(parse_iso8601(Some("2024-01-01T00:00:00Z")), Some(UtcTime { secs: 1704067200, nanos: 0 }));
    assert_eq!(
        parse_iso8601(Some("2024-01-01T00:00:00.5Z")),
        Some(UtcTime { secs: 1704067200, nanos: 500_000_000 })
    );
    assert_eq!(parse_iso8601(Some("2024-01-01T00:00:00")), Some(UtcTime { secs: 1704067200, nanos: 0 }));
    assert_eq!(parse_iso8601(Some("2024-01-01T08:00:00+08:00")), Some(UtcTime { secs: 1704067200, nanos: 0 }));
    assert_eq!(parse_iso8601(Some("yesterday")), None);
    assert_eq!(parse_iso8601(None), None);
}

#[test]
fn tag_name_in_both_forms() {
    assert_eq!(Tag::Name("a".to_string()).name(), "a");
    assert_eq!(Tag::Named { name: "b".to_string() }.name(), "b");
}

#[test]
fn thumbnail_and_github_urls() {
    let mut e = entry("m", None);
    assert_eq!(e.thumbnail_url(), None);
    e.thumbnail = Some("/x.png".to_string());
    assert_eq!(e.thumbnail_url().as_deref(), Some("https://assets-mod.factorio.com/x.png"));
    assert_eq!(e.github_url(), None);
    e.github_path = Some(String::new());
    assert_eq!(e.github_url(), None);
    e.github_path = Some("user/repo".to_string());
    assert_eq!(e.github_url().as_deref(), Some("https://github.com/user/repo"));
    let h = hit("m", None);
    assert_eq!(h.thumbnail_url().as_deref(), Some("https://assets-mod.factorio.com/thumb.png"));
}

#[test]
fn search_hit_becomes_entry_with_synthetic_release() {
    let e = hit("flib", Some("2024-01-01T00:00:00Z")).into_result_entry();
    assert_eq!(e.name, "flib");
    assert_eq!(e.title, "flib title");
    assert_eq!(e.downloads_count, 7);
    assert_eq!(e.category.as_deref(), Some("content"));
    assert_eq!(e.updated_at.as_deref(), Some("2024-01-01T00:00:00Z"));
    assert_eq!(e.thumbnail.as_deref(), Some("/thumb.png"));
    assert!(e.releases.is_none());
    assert!(e.github_path.is_none());
    let rel = e.latest_release.unwrap();
    assert_eq!(rel.download_url, "/download/flib/deadbeef");
    assert_eq!(rel.version, "0.3.1");
    assert_eq!(rel.file_name, "");
    assert_eq!(rel.released_at, "");

    let mut bare = hit("x", None);
    bare.latest_release = None;
    assert!(bare.into_result_entry().latest_release.is_none());
    let mut no_version = hit("y", None);
    no_version.latest_release_version = None;
    assert_eq!(no_version.into_result_entry().latest_release.unwrap().version, "");
}

#[test]
fn entries_from_search_keep_order() {
    let out = entries_from_search(vec![hit("a", None), hit("b", None)]);
    assert_eq!(out.len(), 2);
    assert_eq!(out[0].name, "a");
    assert_eq!(out[1].name, "b");
}

#[test]
fn search_queries() {
    let q = recently_updated_query(20, "2.0");
    assert_eq!(q.version.as_deref(), Some("2.0"));
    assert_eq!(q.sort_attribute.as_deref(), Some("last_updated_at"));
    assert_eq!(q.order.as_deref(), Some("desc"));
    assert_eq!(q.page, Some(1));
    assert_eq!(q.page_size, Some(20));
    assert!(q.query.is_none());
    let n = newest_mods_query(5, "2.1");
    assert_eq!(n.sort_attribute.as_deref(), Some("created_at"));
    assert_eq!(n.page_size, Some(5));
    let u = updated_since_query("2.1", 50, 3);
    assert_eq!(u.page, Some(3));
    assert_eq!(u.page_size, Some(50));
    assert_eq!(u.sort_attribute.as_deref(), Some("last_updated_at"));
}

#[test]
fn page_size_is_capped() {
    assert_eq!(updated_since_page_size(None), 100);
    assert_eq!(updated_since_page_size(Some(50)), 50);
    assert_eq!(updated_since_page_size(Some(500)), 100);
}

#[test]
fn scanning_a_page_of_updates() {
    let since = UtcTime { secs: 1704067200, nanos: 0 };
    let pagination = SearchPagination { count: 10, page: 1, page_count: 3, page_size: 3 };
    let results = vec![
        hit("new", Some("2024-02-01T00:00:00Z")),
        hit("old", Some("2023-02-01T00:00:00Z")),
        hit("none", None),
        hit("exact", Some("2024-01-01T00:00:00Z")),
    ];
    let mut collected = Vec::new();
    let next = scan_updated_page(since, None, &mut collected, results, &pagination, 1);
    assert_eq!(next, PageOutcome::NextPage(2));
    let names: Vec<&str> = collected.iter().map(|e| e.name.as_str()).collect();
    assert_eq!(names, vec!["new", "exact"]);
}

#[test]
fn scanning_stops_at_the_limit_and_on_the_last_page() {
    let since = UtcTime { secs: 0, nanos: 0 };
    let last = SearchPagination { count: 2, page: 2, page_count: 2, page_size: 2 };
    let results = vec![hit("a", Some("2024-02-01T00:00:00Z")), hit("b", Some("2024-02-01T00:00:00Z"))];
    let mut collected = Vec::new();
    let next = scan_updated_page(since, Some(1), &mut collected, results, &last, 2);
    assert_eq!(next, PageOutcome::Finished);
    assert_eq!(collected.len(), 1);
    assert_eq!(collected[0].name, "a");

    let mut none = Vec::new();
    let empty = scan_updated_page(since, None, &mut none, Vec::new(), &last, 1);
    assert_eq!(empty, PageOutcome::Finished);
}

#[test]
fn filtering_by_release_time() {
    let since = UtcTime { secs: 1704067200, nanos: 0 };
    let entries = vec![
        entry("later", Some("2024-03-01T00:00:00Z")),
        entry("earlier", Some("2023-03-01T00:00:00Z")),
        entry("unreleased", None),
        entry("garbled", Some("soon")),
    ];
    let kept = filter_updated_since(&entries, since);
    assert_eq!(kept.len(), 1);
    assert_eq!(kept[0].name, "later");
    let owned = filter_released_since(entries, since);
    assert_eq!(owned.len(), 1);
    assert_eq!(owned[0].name, "later");
    assert_eq!(owned[0].released_at_dt(), Some(UtcTime { secs: 1709251200, nanos: 0 }));
}

#[test]
fn urls_and_headers() {
    assert_eq!(mod_url("flib", false), "https://mods.factorio.com/api/mods/flib");
    assert_eq!(mod_url("flib", true), "https://mods.factorio.com/api/mods/flib/full");
    assert_eq!(download_url("/download/flib/1"), "https://mods.factorio.com/download/flib/1");
    assert_eq!(bookmark_state(true), "on");
    assert_eq!(bookmark_state(false), "off");
    assert_eq!(bearer_header("k"), "Bearer k");
    assert_eq!(upload_file_name("pack"), "pack.zip");
}

#[test]
fn api_error_prefers_parsed_message() {
    let parsed = Some(ErrorResponse { message: "Mod not found".to_string() });
    assert_eq!(api_error_text("获取模组详情失败", "404", &parsed, "{...}"), "获取模组详情失败 (404): Mod not found");
    assert_eq!(api_error_text("下载失败", "500", &None, "boom"), "下载失败 (500): boom");
}

#[test]
fn login_replies() {
    let ok = LoginReply {
        error: None,
        message: None,
        token: Some(Some("t".to_string())),
        username: Some(Some("u".to_string())),
        body: String::new(),
    };
    let c = login_outcome(&ok).unwrap();
    assert_eq!(c.user, "u");
    assert_eq!(c.token, "t");
    let failed = LoginReply {
        error: Some("login-failed".to_string()),
        message: None,
        token: None,
        username: None,
        body: String::new(),
    };
    assert_eq!(login_outcome(&failed).unwrap_err(), "登录失败: login-failed - Unknown error");
    let odd = LoginReply { error: None, message: None, token: None, username: None, body: "{}".to_string() };
    assert_eq!(login_outcome(&odd).unwrap_err(), "接收到未知的响应格式: {}");
}

#[test]
fn upload_steps() {
    let a = upload_next(&UploadReply::InitUpload { ok: false, upload_url: None });
    assert!(matches!(a, UploadAction::Publish));
    let b = upload_next(&UploadReply::InitUpload { ok: true, upload_url: Some("https://u".to_string()) });
    assert!(matches!(b, UploadAction::Post(ref u) if u == "https://u"));
    let c = upload_next(&UploadReply::InitUpload { ok: true, upload_url: None });
    assert!(matches!(c, UploadAction::Done(Err(ref m)) if m == "init_upload 失败：未返回 upload_url"));
    let d = upload_next(&UploadReply::InitPublish { ok: false, upload_url: None, text: "no".to_string() });
    assert!(matches!(d, UploadAction::Done(Err(ref m)) if m == "init_publish 失败: no"));
    let e = upload_next(&UploadReply::Uploaded { ok: true, text: String::new() });
    assert!(matches!(e, UploadAction::Done(Ok(()))));
    let f = upload_next(&UploadReply::Uploaded { ok: false, text: "bad".to_string() });
    assert!(matches!(f, UploadAction::Done(Err(ref m)) if m == "上传失败: bad"));
}

#[test]
fn scanning_never_collects_more_than_the_limit() {
    let since = UtcTime { secs: 0, nanos: 0 };
    let more = SearchPagination { count: 9, page: 1, page_count: 3, page_size: 3 };
    let hits = || vec![hit("a", Some("2024-02-01T00:00:00Z")), hit("b", Some("2024-02-01T00:00:00Z"))];
    let mut none = Vec::new();
    assert_eq!(scan_updated_page(since, Some(0), &mut none, hits(), &more, 1), PageOutcome::Finished);
    assert!(none.is_empty());
    let mut one = Vec::new();
    assert_eq!(scan_updated_page(since, Some(1), &mut one, hits(), &more, 1), PageOutcome::Finished);
    assert_eq!(one.len(), 1);
    let mut two = Vec::new();
    assert_eq!(scan_updated_page(since, Some(5), &mut two, hits(), &more, 1), PageOutcome::NextPage(2));
    assert_eq!(two.len(), 2);
}

#[test]
fn filtering_by_the_newest_of_the_releases() {
    let since = UtcTime { secs: 1704067200, nanos: 0 };
    let mut fetched = entry("fetched", None);
    fetched.releases = Some(vec![release("2023-01-01T00:00:00Z"), release("2024-05-01T00:00:00Z")]);
    let mut stale = entry("stale", None);
    stale.releases = Some(vec![release("2024-05-01T00:00:00Z"), release("2023-01-01T00:00:00Z")]);
    let mut empty = entry("empty", None);
    empty.releases = Some(Vec::new());
    let kept = filter_released_since(vec![fetched, stale, empty], since);
    assert_eq!(kept.len(), 1);
    assert_eq!(kept[0].name, "fetched");
    assert_eq!(kept[0].newest_release_at(), Some(UtcTime { secs: 1714521600, nanos: 0 }));
}

#[test]
fn time_stamp_with_fraction_and_no_zone() {
    assert_eq!(
        parse_iso8601(Some("2026-07-23T23:31:36.025000")),
        Some(UtcTime { secs: 1784849496, nanos: 25_000_000 })
    );
}
