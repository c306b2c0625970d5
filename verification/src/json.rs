//! Reading fields out of JSON texts (`serde_json::Value`).
use vstd::prelude::*;

verus! {

/// What `serde_json::from_str::<Value>` and then `.get(key)` and `.as_str()`
/// make of a text: `None` where the text is not JSON; otherwise the field's
/// text, where the document is an object whose field `key` is a string.
pub uninterp spec fn spec_json_str_field(text: Seq<char>, key: Seq<char>) -> Option<Option<Seq<char>>>;

/// What `serde_json::from_str::<Value>` makes of a mod list, read as
/// `value["mods"].as_array()` with each item's `["enabled"].as_bool()` and
/// `["name"].as_str()`: `None` where the text is not JSON; `Some(None)` where
/// `mods` is not an array.
pub uninterp spec fn spec_json_mod_entries(text: Seq<char>) -> Option<Option<Seq<(Option<bool>, Option<Seq<char>>)>>>;

/// Parses `text` as JSON and reads the string field `key`.
#[verifier::external_body]
pub(crate) fn json_str_field(text: &str, key: &str) -> (r: Option<Option<String>>)
    ensures
        r.deep_view() == spec_json_str_field(text@, key@),
{
    match serde_json::from_str::<serde_json::Value>(text) {
        Ok(v) => Some(v.get(key).and_then(|f| f.as_str()).map(|s| s.to_string())),
        Err(_) => None,
    }
}

/// Parses `text` as JSON and reads the `mods` array of a mod list.
#[verifier::external_body]
pub(crate) fn json_mod_entries(text: &str) -> (r: Option<Option<Vec<(Option<bool>, Option<String>)>>>)
    ensures
        r.deep_view() == spec_json_mod_entries(text@),
{
    let v: serde_json::Value = serde_json::from_str(text).ok()?;
    Some(v["mods"].as_array().map(|list| {
        list.iter().map(|m| (m["enabled"].as_bool(), m["name"].as_str().map(|s| s.to_string()))).collect()
    }))
}

} // verus!
