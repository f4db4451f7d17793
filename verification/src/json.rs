//! Single fields of small JSON documents (the tool's state file and backup
//! metadata), read with `serde_json`.
use serde_json::Value;
use vstd::prelude::*;

verus! {

/// The boolean under `key` in the JSON object `json`, as `serde_json` reads
/// it; `None` when the text is not JSON, the key is missing, or its value is
/// not a boolean.
pub uninterp spec fn json_bool_at(json: Seq<char>, key: Seq<char>) -> Option<bool>;

/// `serde_json::from_str::<Value>`, then `get(key)` and `as_bool`: the result
/// is named [`json_bool_at`] of the text and the key.
#[verifier::external_body]
pub(crate) fn json_bool_field(json: &str, key: &str) -> (r: Option<bool>)
    ensures
        r == json_bool_at(json@, key@),
{
    serde_json::from_str::<Value>(json).ok()?.get(key)?.as_bool()
}

/// The string under `key` in the JSON object `json`, as `serde_json` reads
/// it; `None` when the text is not JSON, the key is missing, or its value is
/// not a string.
pub uninterp spec fn json_str_at(json: Seq<char>, key: Seq<char>) -> Option<Seq<char>>;

/// `serde_json::from_str::<Value>`, then `get(key)` and `as_str`: the result
/// is named [`json_str_at`] of the text and the key.
#[verifier::external_body]
pub(crate) fn json_str_field(json: &str, key: &str) -> (r: Option<String>)
    ensures
        r is None <==> json_str_at(json@, key@) is None,
        r matches Some(v) ==> json_str_at(json@, key@) == Some(v@),
{
    serde_json::from_str::<Value>(json).ok()?.get(key)?.as_str().map(String::from)
}

} // verus!
