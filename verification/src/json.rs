//! What this crate takes on trust from `serde_json`.
//!
//! A parsed JSON value is opaque to the verifier. [`Json`] is the tree that
//! such a value stands for, and [`json_of`] names the tree of a given value.
//! The contracts below say, over that tree, what `serde_json`'s parser and
//! accessors return. None of them is proved; the verified readers of this
//! crate rest on them.

use vstd::prelude::*;
use serde_json::Value;

verus! {

/// `serde_json::Value`, a parsed JSON value. Verified code carries it through
/// and sees nothing inside it.
#[verifier::external_type_specification]
#[verifier::external_body]
pub struct ExValue(serde_json::Value);

/// `serde_json::Error`, why a text was not parsed. Verified code does not
/// look into it.
#[verifier::external_type_specification]
#[verifier::external_body]
pub struct ExJsonError(serde_json::Error);

/// A JSON value as a tree of plain values.
pub enum Json {
    Null,
    Bool(bool),
    /// A number that is held as an integer.
    Integer(int),
    /// Any other number. The tree does not say which.
    Real,
    Text(Seq<char>),
    Array(Seq<Json>),
    Object(Map<Seq<char>, Json>),
}

/// The tree that a parsed value stands for.
pub uninterp spec fn json_of(value: Value) -> Json;

/// The tree of the document that `serde_json` reads from `text`; `None`
/// where it reads none: `text` is not JSON, nests deeper than the parser
/// follows, or holds a number beyond what the parser can hold.
pub uninterp spec fn document_of(text: Seq<char>) -> Option<Json>;

/// The trees of the values `items`, in order.
pub open spec fn jsons_of(items: Seq<Value>) -> Seq<Json> {
    items.map_values(|item: Value| json_of(item))
}

/// Calls `serde_json::from_str` for a `Value`. Trusted: whether it succeeds,
/// and the tree of the value it returns, depend on the characters of `text`
/// alone.
#[verifier::external_body]
pub(crate) fn parse_document(text: &str) -> (parsed: Result<Value, serde_json::Error>)
    ensures
        match parsed {
            Ok(document) => document_of(text@) == Some(json_of(document)),
            Err(_) => document_of(text@) is None,
        },
{
    serde_json::from_str(text)
}

/// Calls `serde_json::Value::get` with a string key. Trusted: where `value`
/// is an object with a member under `key`, it returns that member, and else
/// `None`.
#[verifier::external_body]
pub(crate) fn member<'a>(value: &'a Value, key: &str) -> (found: Option<&'a Value>)
    ensures
        match found {
            Some(inner) => json_of(*value) matches Json::Object(members) && members.contains_key(
                key@,
            ) && members[key@] == json_of(*inner),
            None => !(json_of(*value) matches Json::Object(members) && members.contains_key(key@)),
        },
{
    value.get(key)
}

/// `serde_json::Value::as_array`. Trusted: where `value` is an array, it
/// returns the elements, in order, and else `None`.
pub assume_specification<'a>[ serde_json::Value::as_array ](value: &'a Value) -> (found: Option<
    &'a Vec<Value>,
>)
    ensures
        match found {
            Some(items) => json_of(*value) == Json::Array(jsons_of(items@)),
            None => !(json_of(*value) is Array),
        },
;

/// `serde_json::Value::as_str`. Trusted: where `value` is a string, it
/// returns the string, and else `None`.
pub assume_specification<'a>[ serde_json::Value::as_str ](value: &'a Value) -> (found: Option<
    &'a str,
>)
    ensures
        match found {
            Some(text) => json_of(*value) == Json::Text(text@),
            None => !(json_of(*value) is Text),
        },
;

/// `serde_json::Value::as_i64`. Trusted: where `value` is a number that is
/// held as an integer and fits in an `i64`, it returns that integer, and
/// else `None`.
pub assume_specification[ serde_json::Value::as_i64 ](value: &Value) -> (found: Option<i64>)
    ensures
        match found {
            Some(number) => json_of(*value) == Json::Integer(number as int),
            None => !(json_of(*value) matches Json::Integer(number) && i64::MIN <= number
                <= i64::MAX),
        },
;

} // verus!
