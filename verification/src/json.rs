//! JSON values, held as JSON text.
//!
//! What a value is and holds, `serde_json` says. Text that is not JSON stands
//! for no value: it is no object, has no members and no string, and equals
//! nothing.

use vstd::prelude::*;

verus! {

/// Whether a text is JSON.
pub uninterp spec fn valid(text: Seq<char>) -> bool;

/// Whether a JSON text is an object.
pub uninterp spec fn is_object(text: Seq<char>) -> bool;

/// The member of a JSON object under a key, as JSON text.
pub uninterp spec fn member(text: Seq<char>, key: Seq<char>) -> Option<Seq<char>>;

/// The characters of a JSON string.
pub uninterp spec fn string(text: Seq<char>) -> Option<Seq<char>>;

/// Whether two JSON texts stand for equal values.
pub uninterp spec fn equal(left: Seq<char>, right: Seq<char>) -> bool;

/// Whether a text is JSON, by `serde_json::from_str`.
#[verifier::external_body]
pub(crate) fn json_is_valid(text: &str) -> (result: bool)
    ensures
        result == valid(text@),
{
    serde_json::from_str::<serde_json::Value>(text).is_ok()
}

/// Whether a JSON text is an object, by `serde_json::Value::is_object`.
#[verifier::external_body]
pub(crate) fn json_is_object(text: &str) -> (result: bool)
    ensures
        result == is_object(text@),
{
    match serde_json::from_str::<serde_json::Value>(text) {
        Ok(value) => value.is_object(),
        Err(_) => false,
    }
}

/// The member of a JSON object under a key, by `serde_json::Value::get`; `None`
/// for anything but an object that has the key.
#[verifier::external_body]
pub(crate) fn json_member(text: &str, key: &str) -> (result: Option<String>)
    ensures
        crate::text::optional_text(result) == member(text@, key@),
{
    let value = serde_json::from_str::<serde_json::Value>(text).ok()?;
    Some(value.get(key)?.to_string())
}

/// The characters of a JSON string, by `serde_json::Value::as_str`; `None` for
/// anything but a string.
#[verifier::external_body]
pub(crate) fn json_string(text: &str) -> (result: Option<String>)
    ensures
        crate::text::optional_text(result) == string(text@),
{
    let value = serde_json::from_str::<serde_json::Value>(text).ok()?;
    Some(value.as_str()?.to_owned())
}

/// Whether two JSON texts stand for equal values, by `serde_json::Value`'s
/// `PartialEq`.
#[verifier::external_body]
pub(crate) fn json_equal(left: &str, right: &str) -> (result: bool)
    ensures
        result == equal(left@, right@),
{
    let left = serde_json::from_str::<serde_json::Value>(left);
    let right = serde_json::from_str::<serde_json::Value>(right);
    match (left, right) {
        (Ok(left), Ok(right)) => left == right,
        _ => false,
    }
}

} // verus!
