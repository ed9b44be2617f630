//! JSON documents, read through `serde_json`.

use vstd::prelude::*;

verus! {

#[verifier::external_type_specification]
#[verifier::external_body]
pub struct ExValue(serde_json::Value);

#[verifier::external_type_specification]
#[verifier::external_body]
pub struct ExJsonError(serde_json::Error);

/// The document that `serde_json::from_str` reads from `text`, if it reads one.
pub uninterp spec fn document_of_text(text: Seq<char>) -> Option<serde_json::Value>;

/// The document that `serde_json::from_slice` reads from `bytes`, if it reads one.
pub uninterp spec fn document_of_bytes(bytes: Seq<u8>) -> Option<serde_json::Value>;

/// The member that `serde_json::Value::get` finds under `key`, if there is one.
pub uninterp spec fn member_of(value: serde_json::Value, key: Seq<char>) -> Option<serde_json::Value>;

/// The elements of `value` where it is an array (`serde_json::Value::as_array`).
pub uninterp spec fn elements_of(value: serde_json::Value) -> Option<Seq<serde_json::Value>>;

/// The text of `value` where it is a string (`serde_json::Value::as_str`).
pub uninterp spec fn string_of(value: serde_json::Value) -> Option<Seq<char>>;

/// `serde_json::from_str` at type `Value`: succeeds exactly on the texts that
/// hold one JSON document, and the document depends on the text alone.
#[verifier::external_body]
pub(crate) fn read_text(text: &str) -> (r: Result<serde_json::Value, serde_json::Error>)
    ensures
        match r {
            Ok(doc) => document_of_text(text@) == Some(doc),
            Err(_) => document_of_text(text@) is None,
        },
{
    serde_json::from_str::<serde_json::Value>(text)
}

/// `serde_json::from_slice` at type `Value`: as `read_text`, on bytes.
#[verifier::external_body]
pub(crate) fn read_bytes(bytes: &[u8]) -> (r: Result<serde_json::Value, serde_json::Error>)
    ensures
        match r {
            Ok(doc) => document_of_bytes(bytes@) == Some(doc),
            Err(_) => document_of_bytes(bytes@) is None,
        },
{
    serde_json::from_slice::<serde_json::Value>(bytes)
}

/// `serde_json::Value::get` with a string key.
#[verifier::external_body]
pub(crate) fn member<'a>(value: &'a serde_json::Value, key: &str) -> (r: Option<&'a serde_json::Value>)
    ensures
        match r {
            Some(found) => member_of(*value, key@) == Some(*found),
            None => member_of(*value, key@) is None,
        },
{
    value.get(key)
}

/// `serde_json::Value::as_array`.
#[verifier::external_body]
pub(crate) fn elements<'a>(value: &'a serde_json::Value) -> (r: Option<&'a Vec<serde_json::Value>>)
    ensures
        match r {
            Some(items) => elements_of(*value) == Some(items@),
            None => elements_of(*value) is None,
        },
{
    value.as_array()
}

/// `serde_json::Value::as_str`.
#[verifier::external_body]
pub(crate) fn string<'a>(value: &'a serde_json::Value) -> (r: Option<&'a str>)
    ensures
        match r {
            Some(text) => string_of(*value) == Some(text@),
            None => string_of(*value) is None,
        },
{
    value.as_str()
}

} // verus!
