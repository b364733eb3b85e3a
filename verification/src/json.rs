//! JSON documents, as `serde_json` holds them.
//!
//! A document is a `serde_json::Value`. Its contents have three names here:
//! what it holds as an object, as an array and as a string.
use vstd::prelude::*;

verus! {

/// A JSON document of `serde_json`.
#[verifier::external_type_specification]
#[verifier::external_body]
pub struct ExValue(serde_json::Value);

/// The document that `serde_json::from_slice` reads from the whole of `bytes`,
/// and none where they are no JSON document.
pub uninterp spec fn parsed_json(bytes: Seq<u8>) -> Option<serde_json::Value>;

/// The members of a document that is an object.
pub uninterp spec fn members(document: serde_json::Value) -> Option<
    Map<Seq<char>, serde_json::Value>,
>;

/// The items of a document that is an array.
pub uninterp spec fn items(document: serde_json::Value) -> Option<Seq<serde_json::Value>>;

/// The characters of a document that is a string.
pub uninterp spec fn string_of(document: serde_json::Value) -> Option<Seq<char>>;

/// The member `key` of a document that is an object.
pub open spec fn member(document: serde_json::Value, key: Seq<char>) -> Option<serde_json::Value> {
    match members(document) {
        Some(map) => if map.dom().contains(key) {
            Some(map[key])
        } else {
            None
        },
        None => None,
    }
}

/// Calls `serde_json::from_slice`. What it reads depends on the bytes alone.
#[verifier::external_body]
pub(crate) fn parse(bytes: &[u8]) -> (r: Option<serde_json::Value>)
    ensures
        r == parsed_json(bytes@),
{
    serde_json::from_slice::<serde_json::Value>(bytes).ok()
}

/// Calls `serde_json::Value::get` with a string: the member of that name of an
/// object, and nothing of any other document.
#[verifier::external_body]
pub(crate) fn get<'a>(document: &'a serde_json::Value, key: &str) -> (r: Option<
    &'a serde_json::Value,
>)
    ensures
        match (members(*document), r) {
            (Some(map), Some(value)) => map.dom().contains(key@) && map[key@] == *value,
            (Some(map), None) => !map.dom().contains(key@),
            (None, r) => r is None,
        },
{
    document.get(key)
}

/// Calls `serde_json::Value::as_array`: the items of an array, and nothing of
/// any other document.
#[verifier::external_body]
pub(crate) fn as_array(document: &serde_json::Value) -> (r: Option<&Vec<serde_json::Value>>)
    ensures
        match r {
            Some(list) => items(*document) == Some(list@),
            None => items(*document) is None,
        },
{
    document.as_array()
}

/// Calls `serde_json::Value::as_str`: the characters of a string, and nothing
/// of any other document.
#[verifier::external_body]
pub(crate) fn as_str(document: &serde_json::Value) -> (r: Option<&str>)
    ensures
        match r {
            Some(text) => string_of(*document) == Some(text@),
            None => string_of(*document) is None,
        },
{
    document.as_str()
}

} // verus!
