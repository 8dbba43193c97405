//! The JSON texts the tool reads: the settings file and the reply of the Bing
//! picture archive, handled by serde_json.
use vstd::prelude::*;
use crate::pictures::archive_view;

verus! {

/// What `json_has_key` answers for `text` and `key`.
pub uninterp spec fn spec_json_has_key(text: Seq<char>, key: Seq<char>) -> Option<bool>;

/// Parses `text` as a `serde_json::Value` with `serde_json::from_str` and asks
/// `Value::get` for `key`: `None` when parsing fails, otherwise whether the
/// value has that key (only an object has keys).  Which texts serde_json
/// accepts is not stated here; the answer is named by `spec_json_has_key`.
#[verifier::external_body]
pub(crate) fn json_has_key(text: &str, key: &str) -> (r: Option<bool>)
    ensures
        r == spec_json_has_key(text@, key@),
{
    match serde_json::from_str::<serde_json::Value>(text) {
        Ok(v) => Some(v.get(key).is_some()),
        Err(_) => None,
    }
}

/// What `json_rename_key` gives for its arguments.
pub uninterp spec fn spec_json_rename_key(
    text: Seq<char>,
    old: Seq<char>,
    new: Seq<char>,
    value: Seq<char>,
) -> Option<Seq<char>>;

/// Parses `text` with `serde_json::from_str`; when it is a JSON object, first
/// sets the key `new` to the string `value` (`Map::insert`), then removes the
/// key `old` (`Map::remove`), in that order, and prints the object with
/// `serde_json::to_string_pretty`.
/// `None` when `text` is not JSON, is not an object, or printing fails.  The
/// printed text is not stated here; it is named by `spec_json_rename_key`.
#[verifier::external_body]
pub(crate) fn json_rename_key(text: &str, old: &str, new: &str, value: &str) -> (r: Option<
    String,
>)
    ensures
        match r {
            Some(s) => spec_json_rename_key(text@, old@, new@, value@) == Some(s@),
            None => spec_json_rename_key(text@, old@, new@, value@) is None,
        },
{
    let mut v: serde_json::Value = serde_json::from_str(text).ok()?;
    let map = v.as_object_mut()?;
    map.insert(new.to_string(), serde_json::Value::String(value.to_string()));
    map.remove(old);
    serde_json::to_string_pretty(&v).ok()
}

/// What `parse_bing_archive` gives for a reply body.
pub uninterp spec fn spec_bing_archive(body: Seq<u8>) -> Option<Option<Seq<Option<Seq<char>>>>>;

/// Parses the archive reply `body` with `serde_json::from_slice` as a
/// `serde_json::Value` and reads its `images` array (`Value::as_array`) and,
/// for each picture, its `url` string (`Value::as_str`).  `None` when the body
/// is not JSON; the list is `None` when `images` is not an array, and a
/// picture's address is `None` when its `url` is not a string.  The parse
/// itself is not stated here; the result is named by `spec_bing_archive`.
#[verifier::external_body]
pub(crate) fn parse_bing_archive(body: &[u8]) -> (r: Option<Option<Vec<Option<String>>>>)
    ensures
        match r {
            Some(images) => spec_bing_archive(body@) == Some(archive_view(images)),
            None => spec_bing_archive(body@) is None,
        },
{
    match serde_json::from_slice::<serde_json::Value>(body) {
        Ok(json) => Some(
            json["images"].as_array().map(
                |a| a.iter().map(|i| i["url"].as_str().map(|s| s.to_string())).collect(),
            ),
        ),
        Err(_) => None,
    }
}

} // verus!
