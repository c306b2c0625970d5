use tanvec_ai_cn::translation::{diff_ini, diff_ini_keys_only, ini_to_str, merge_ini, str_to_ini, IniError};

const OLD: &str = "[section1]\nkey1=value1\nkey3=value3\n[section2]\nkeyA=valueA\n";
const NEW: &str = "[section1]\nkey1=value1\nkey2=value2\n[section3]\nkeyB=valueB\n";

#[test]
fn test_diff_ini() {
    let old = str_to_ini(OLD).unwrap();
    let new = str_to_ini(NEW).unwrap();
    let diff = diff_ini(&old, &new);
    println!("{:?}", diff);
    assert_eq!(diff.get_from(Some("section1"), "key1"), None);
    assert_eq!(diff.get_from(Some("section1"), "key2"), Some("value2"));
    assert_eq!(diff.get_from(Some("section3"), "keyB"), Some("valueB"));
    assert_eq!(diff.get_from(Some("section1"), "key3"), None);
    assert_eq!(diff.get_from(Some("section2"), "keyA"), None);
}

#[test]
fn test_merge_ini() {
    let reference = str_to_ini(NEW).unwrap();
    let old = str_to_ini(OLD).unwrap();
    let mut diff = diff_ini(&old, &reference);
    diff.with_section(Some("section3")).set("keyB", "22222");
    diff.with_section(Some("section1")).set("key1", "22333");
    println!("{:?}", diff);
    let merged = merge_ini(&reference, &old, &diff);
    println!("{:?}", merged);
    assert_eq!(merged.get_from(Some("section1"), "key1"), Some("22333"));
    assert_eq!(merged.get_from(Some("section1"), "key2"), Some("value2"));
    assert_eq!(merged.get_from(Some("section3"), "keyB"), Some("22222"));
    assert_eq!(merged.get_from(Some("section1"), "key3"), None);
    assert_eq!(merged.get_from(Some("section2"), "keyA"), None);
}

#[test]
fn diff_against_itself_is_empty() {
    let doc = str_to_ini(NEW).unwrap();
    let diff = diff_ini(&doc, &doc);
    assert_eq!(ini_to_str(&diff).unwrap(), "");
}

#[test]
fn diff_reports_changed_values() {
    let old = str_to_ini("[s]\nk=a\n").unwrap();
    let new = str_to_ini("[s]\nk=b\n").unwrap();
    assert_eq!(diff_ini(&old, &new).get_from(Some("s"), "k"), Some("b"));
    assert_eq!(diff_ini_keys_only(&old, &new).get_from(Some("s"), "k"), None);
}

#[test]
fn keys_only_diff_reports_new_keys() {
    let old = str_to_ini(OLD).unwrap();
    let new = str_to_ini(NEW).unwrap();
    let diff = diff_ini_keys_only(&old, &new);
    assert_eq!(diff.get_from(Some("section1"), "key2"), Some("value2"));
    assert_eq!(diff.get_from(Some("section3"), "keyB"), Some("valueB"));
    assert_eq!(diff.get_from(Some("section1"), "key1"), None);
}

#[test]
fn merging_the_diff_back_gives_the_reference() {
    let reference = str_to_ini(NEW).unwrap();
    let old = str_to_ini(OLD).unwrap();
    let diff = diff_ini(&old, &reference);
    let merged = merge_ini(&reference, &old, &diff);
    assert_eq!(merged.get_from(Some("section1"), "key1"), Some("value1"));
    assert_eq!(merged.get_from(Some("section1"), "key2"), Some("value2"));
    assert_eq!(merged.get_from(Some("section3"), "keyB"), Some("valueB"));
    assert_eq!(merged.get_from(Some("section2"), "keyA"), None);
}

#[test]
fn merge_takes_old_value_where_diff_has_none() {
    let reference = str_to_ini("[s]\na=A\nb=B\nc=C\n").unwrap();
    let old = str_to_ini("[s]\na=old-a\n").unwrap();
    let diff = str_to_ini("[s]\nb=new-b\n").unwrap();
    let merged = merge_ini(&reference, &old, &diff);
    assert_eq!(merged.get_from(Some("s"), "a"), Some("old-a"));
    assert_eq!(merged.get_from(Some("s"), "b"), Some("new-b"));
    assert_eq!(merged.get_from(Some("s"), "c"), None);
}

#[test]
fn ini_text_round_trip() {
    let doc = str_to_ini("[s]\nk=v\n").unwrap();
    let text = ini_to_str(&doc).unwrap();
    assert_eq!(text, "[s]\nk=v\n");
}

#[test]
fn unreadable_ini_text_is_an_error() {
    assert!(matches!(str_to_ini("[unclosed\nk=v\n"), Err(IniError::Parse(_))));
}
