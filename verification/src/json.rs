//! JSON documents, as `serde_json` reads them.
//!
//! A value of `serde_json` is opaque to the verifier. It is known by its
//! compact JSON text, which determines it; what the functions of `serde_json`
//! return is named over that text.
use crate::number::unsigned;
use vstd::prelude::*;

verus! {

/// A JSON value.
#[verifier::external_type_specification]
#[verifier::external_body]
pub struct ExValue(serde_json::Value);

/// Why a text is no JSON document.
#[verifier::external_type_specification]
#[verifier::external_body]
pub struct ExError(serde_json::Error);

/// What a JSON value holds: its compact JSON text.
pub uninterp spec fn json_text(value: serde_json::Value) -> Seq<char>;

/// The message of an error, as its `Display` writes it.
pub uninterp spec fn json_error_text(error: serde_json::Error) -> Seq<char>;

/// What `serde_json::from_str` makes of a text: the compact text of the value
/// that it reads, or the message of its error.
pub uninterp spec fn json_from_text(text: Seq<char>) -> Result<Seq<char>, Seq<char>>;

/// What `serde_json::from_slice` makes of some bytes: the compact text of the
/// value that it reads, or the message of its error.
pub uninterp spec fn json_from_bytes(bytes: Seq<u8>) -> Result<Seq<char>, Seq<char>>;

/// What `Value::pointer` finds in the value with the given text.
pub uninterp spec fn json_at(text: Seq<char>, pointer: Seq<char>) -> Option<Seq<char>>;

/// What `Value::get` finds under a key in the value with the given text.
pub uninterp spec fn json_member(text: Seq<char>, key: Seq<char>) -> Option<Seq<char>>;

/// What `Value::as_str` gives of the value with the given text.
pub uninterp spec fn json_string(text: Seq<char>) -> Option<Seq<char>>;

/// The text of an optional value.
pub open spec fn opt_json_text(value: Option<&serde_json::Value>) -> Option<Seq<char>> {
    match value {
        Some(value) => Some(json_text(*value)),
        None => None,
    }
}

/// The text or the message of what was read.
pub open spec fn read_text(
    read: Result<serde_json::Value, serde_json::Error>,
) -> Result<Seq<char>, Seq<char>> {
    match read {
        Ok(value) => Ok(json_text(value)),
        Err(error) => Err(json_error_text(error)),
    }
}

/// Calls `serde_json::from_str` to read a value. The contract names what comes
/// of it: the same text always gives the same value or the same error.
#[verifier::external_body]
pub(crate) fn from_text(text: &str) -> (read: Result<serde_json::Value, serde_json::Error>)
    ensures
        read_text(read) == json_from_text(text@),
{
    serde_json::from_str(text)
}

/// Calls `serde_json::from_slice` to read a value. The contract names what
/// comes of it: the same bytes always give the same value or the same error.
#[verifier::external_body]
pub(crate) fn from_bytes(bytes: &[u8]) -> (read: Result<serde_json::Value, serde_json::Error>)
    ensures
        read_text(read) == json_from_bytes(bytes@),
{
    serde_json::from_slice(bytes)
}

/// Calls `to_string` of `serde_json::Error`. The contract names the message.
#[verifier::external_body]
pub(crate) fn error_message(error: &serde_json::Error) -> (message: String)
    ensures
        message@ == json_error_text(*error),
{
    error.to_string()
}

/// Calls `Value::pointer`. The contract names the value that it finds, by the
/// text of the document and the pointer.
#[verifier::external_body]
pub(crate) fn value_at<'a>(value: &'a serde_json::Value, pointer: &str) -> (found: Option<
    &'a serde_json::Value,
>)
    ensures
        opt_json_text(found) == json_at(json_text(*value), pointer@),
{
    value.pointer(pointer)
}

/// Calls `Value::get` with a string. The contract names the value that it
/// finds, by the text of the document and the key.
#[verifier::external_body]
pub(crate) fn member<'a>(value: &'a serde_json::Value, key: &str) -> (found: Option<
    &'a serde_json::Value,
>)
    ensures
        opt_json_text(found) == json_member(json_text(*value), key@),
{
    value.get(key)
}

/// Calls `Value::as_str`. The contract names the string, by the text of the value.
#[verifier::external_body]
pub(crate) fn as_string(value: &serde_json::Value) -> (string: Option<&str>)
    ensures
        crate::text::opt_view(string) == json_string(json_text(*value)),
{
    value.as_str()
}

/// Calls `Value::as_u64`, which gives the value of a number that is held as a
/// `u64` and nothing else. The contract claims that these are the values whose
/// text is an unsigned decimal number, and that the number is the one written
/// there: such a number is written with its digits alone, a negative one with
/// a sign, a floating point one with a point or an exponent.
#[verifier::external_body]
pub(crate) fn as_number(value: &serde_json::Value) -> (number: Option<u64>)
    ensures
        match number {
            Some(n) => unsigned(json_text(*value), u64::MAX as int) == Some(n as int),
            None => unsigned(json_text(*value), u64::MAX as int) is None,
        },
{
    value.as_u64()
}

/// Calls `clone` of `serde_json::Value`. The contract claims that the copy
/// holds what the value holds.
#[verifier::external_body]
pub(crate) fn copy_of(value: &serde_json::Value) -> (copy: serde_json::Value)
    ensures
        json_text(copy) == json_text(*value),
{
    value.clone()
}

} // verus!
