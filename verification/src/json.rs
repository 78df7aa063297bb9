//! The JSON values that messages carry, as `serde_json` reads and writes them.
//!
//! Nothing in this file is proved. Each function calls `serde_json` once and
//! says of the result only that it is what `serde_json` makes of the
//! arguments; the spec functions without a body give those results a name, so
//! that the verified code can say exactly which of them it puts where.

use vstd::prelude::*;

verus! {

/// `serde_json::Value`: any JSON value. The library carries such values and
/// hands them back to `serde_json`; it never looks inside one.
#[verifier::external_type_specification]
#[verifier::external_body]
pub struct ExJsonValue(serde_json::Value);

/// `serde_json::Error`: why `serde_json` refused an input.
#[verifier::external_type_specification]
#[verifier::external_body]
pub struct ExJsonError(serde_json::Error);

/// The JSON value that `serde_json::from_slice` reads from a text, or `None`
/// where it refuses the text.
pub uninterp spec fn json_document(text: Seq<u8>) -> Option<serde_json::Value>;

/// The member that `serde_json::Value::get` finds under a key, or `None` where
/// it finds none.
pub uninterp spec fn json_member(value: serde_json::Value, key: Seq<char>) -> Option<serde_json::Value>;

/// The string that `serde_json::Value::as_str` finds in a value, or `None`
/// where the value is not a JSON string.
pub uninterp spec fn json_string(value: serde_json::Value) -> Option<Seq<char>>;

/// The compact text that `serde_json::to_vec` writes for a value, or `None`
/// where it fails.
pub uninterp spec fn json_text(value: serde_json::Value) -> Option<Seq<u8>>;

/// The JSON string literal, quotes and escapes included, that
/// `serde_json::to_vec` writes for a string, or `None` where it fails.
pub uninterp spec fn json_quoted(s: Seq<char>) -> Option<Seq<u8>>;

/// Calls `serde_json::from_slice::<serde_json::Value>`, which reads the whole
/// text as one JSON value and fails on anything else. The result is a function
/// of the text alone, named `json_document`.
#[verifier::external_body]
pub(crate) fn parse_document(text: &[u8]) -> (parsed: Result<serde_json::Value, serde_json::Error>)
    ensures
        match parsed {
            Ok(value) => json_document(text@) == Some(value),
            Err(_) => json_document(text@) is None,
        },
{
    serde_json::from_slice::<serde_json::Value>(text)
}

/// Calls `serde_json::Value::get` with a string key, which gives the member of
/// a JSON object under that key and `None` for a missing key or for a value
/// that is not an object. The result is named `json_member`.
#[verifier::external_body]
pub(crate) fn member<'a>(value: &'a serde_json::Value, key: &str) -> (found: Option<&'a serde_json::Value>)
    ensures
        match found {
            Some(inner) => json_member(*value, key@) == Some(*inner),
            None => json_member(*value, key@) is None,
        },
{
    value.get(key)
}

/// Calls `serde_json::Value::as_str`, which gives the text of a JSON string
/// and `None` for any other value. The result is named `json_string`.
#[verifier::external_body]
pub(crate) fn string_of<'a>(value: &'a serde_json::Value) -> (found: Option<&'a str>)
    ensures
        match found {
            Some(s) => json_string(*value) == Some(s@),
            None => json_string(*value) is None,
        },
{
    value.as_str()
}

/// `<serde_json::Value as Clone>::clone`, which gives a value equal to the one
/// it is called on.
pub assume_specification[ <serde_json::Value as Clone>::clone ](
    value: &serde_json::Value,
) -> (copy: serde_json::Value)
    ensures
        copy == *value,
;

/// Calls `serde_json::to_vec` on a `serde_json::Value`, which writes the value
/// as compact JSON text. The result is a function of the value alone, named
/// `json_text`.
#[verifier::external_body]
pub(crate) fn text_of(value: &serde_json::Value) -> (written: Result<Vec<u8>, serde_json::Error>)
    ensures
        match written {
            Ok(text) => json_text(*value) == Some(text@),
            Err(_) => json_text(*value) is None,
        },
{
    serde_json::to_vec(value)
}

/// Calls `serde_json::to_vec` on a `str`, which writes it as a JSON string
/// literal. The result is a function of the string alone, named
/// `json_quoted`.
#[verifier::external_body]
pub(crate) fn quoted(s: &str) -> (written: Result<Vec<u8>, serde_json::Error>)
    ensures
        match written {
            Ok(text) => json_quoted(s@) == Some(text@),
            Err(_) => json_quoted(s@) is None,
        },
{
    serde_json::to_vec(s)
}

} // verus!
