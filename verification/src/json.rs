//! JSON by way of `serde_json`: documents and their parts are kept as text.

use vstd::prelude::*;

use crate::text::optional;

verus! {

/// The compact text of the JSON document in `bytes`, or what is wrong with it:
/// `serde_json::from_slice` into a `serde_json::Value`, printed.
pub uninterp spec fn json_text(bytes: Seq<u8>) -> Result<Seq<char>, Seq<char>>;

/// Member `key` of the object in `doc`, as compact text:
/// `serde_json::Value::get` with a string.
pub uninterp spec fn json_member(doc: Seq<char>, key: Seq<char>) -> Option<Seq<char>>;

/// Item `i` of the array in `doc`, as compact text: `serde_json::Value::get`
/// with a number.
pub uninterp spec fn json_item(doc: Seq<char>, i: int) -> Option<Seq<char>>;

/// The characters of the JSON string in `doc`: `serde_json::Value::as_str`.
pub uninterp spec fn json_string(doc: Seq<char>) -> Option<Seq<char>>;

/// A string as JSON text: `serde_json::Value::from` a string, printed.
pub uninterp spec fn json_quoted(s: Seq<char>) -> Seq<char>;

/// Calls `serde_json::from_slice` and prints the value, or the error. That the
/// bytes alone decide which of the two comes, and what it says, is all that is
/// claimed.
#[verifier::external_body]
pub(crate) fn parse(bytes: &[u8]) -> (r: Result<String, String>)
    ensures
        match r {
            Ok(t) => json_text(bytes@) == Ok::<Seq<char>, Seq<char>>(t@),
            Err(e) => json_text(bytes@) == Err::<Seq<char>, Seq<char>>(e@),
        },
{
    match serde_json::from_slice::<serde_json::Value>(bytes) {
        Ok(value) => Ok(value.to_string()),
        Err(error) => Err(error.to_string()),
    }
}

/// Calls `serde_json::from_str` and `Value::get` with a string: the member of an
/// object, printed; none where `doc` is no JSON, no object or has no such member.
#[verifier::external_body]
pub(crate) fn member(doc: &str, key: &str) -> (r: Option<String>)
    ensures
        optional(r) == json_member(doc@, key@),
{
    serde_json::from_str::<serde_json::Value>(doc).ok()?.get(key).map(|v| v.to_string())
}

/// Calls `serde_json::from_str` and `Value::get` with a number: the item of an
/// array, printed; none where `doc` is no JSON, no array or has no such item.
#[verifier::external_body]
pub(crate) fn item(doc: &str, i: usize) -> (r: Option<String>)
    ensures
        optional(r) == json_item(doc@, i as int),
{
    serde_json::from_str::<serde_json::Value>(doc).ok()?.get(i).map(|v| v.to_string())
}

/// Calls `serde_json::from_str` and `Value::as_str`: what a JSON string says;
/// none where `doc` is no JSON string.
#[verifier::external_body]
pub(crate) fn string(doc: &str) -> (r: Option<String>)
    ensures
        optional(r) == json_string(doc@),
{
    serde_json::from_str::<serde_json::Value>(doc).ok()?.as_str().map(|s| s.to_string())
}

/// Prints a string as `serde_json` does. What was quoted can be read back.
#[verifier::external_body]
pub(crate) fn quote(s: &str) -> (r: String)
    ensures
        r@ == json_quoted(s@),
        json_string(r@) == Some(s@),
{
    serde_json::Value::from(s).to_string()
}

/// The text of the member of a member.
pub open spec fn member_of(doc: Option<Seq<char>>, key: Seq<char>) -> Option<Seq<char>> {
    match doc {
        Some(d) => json_member(d, key),
        None => None,
    }
}

/// Member `key` of an optional document.
pub fn get(doc: &Option<String>, key: &str) -> (r: Option<String>)
    ensures
        optional(r) == member_of(optional(*doc), key@),
{
    match doc {
        Some(d) => member(d.as_str(), key),
        None => None,
    }
}

/// Item `i` of an optional document.
pub open spec fn item_of(doc: Option<Seq<char>>, i: int) -> Option<Seq<char>> {
    match doc {
        Some(d) => json_item(d, i),
        None => None,
    }
}

/// Item `i` of an optional document.
pub fn nth(doc: &Option<String>, i: usize) -> (r: Option<String>)
    ensures
        optional(r) == item_of(optional(*doc), i as int),
{
    match doc {
        Some(d) => item(d.as_str(), i),
        None => None,
    }
}

/// What an optional document says, where it is a string.
pub open spec fn string_of(doc: Option<Seq<char>>) -> Option<Seq<char>> {
    match doc {
        Some(d) => json_string(d),
        None => None,
    }
}

/// What an optional document says, where it is a string.
pub fn as_string(doc: &Option<String>) -> (r: Option<String>)
    ensures
        optional(r) == string_of(optional(*doc)),
{
    match doc {
        Some(d) => string(d.as_str()),
        None => None,
    }
}

} // verus!
