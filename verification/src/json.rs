//! JSON documents as `serde_json` holds them, and what the monitor reads of
//! them.
//!
//! A document stays a `serde_json::Value`. Contracts speak of it through
//! `json_of`, which names the document a value holds as a `Json`, and the few
//! accessors below say what each call into `serde_json` gives in terms of that
//! document. Verus takes these statements on trust.

use vstd::prelude::*;
use crate::binary64::Binary64;

verus! {

/// `serde_json::Value`, a JSON document in memory. Opaque to the verifier.
#[verifier::external_type_specification]
#[verifier::external_body]
pub struct ExValue(serde_json::Value);

/// `serde_json::Error`, the reason a text is not a JSON document.
#[verifier::external_type_specification]
#[verifier::external_body]
pub struct ExError(serde_json::Error);

/// A JSON number, as far as it can be read: as a binary64 number, and as an
/// unsigned 64-bit integer where it was written as one.
pub struct JsonNumber {
    pub binary64: Option<Binary64>,
    pub unsigned: Option<u64>,
}

/// A JSON document.
pub enum Json {
    Null,
    Bool(bool),
    Number(JsonNumber),
    Text(Seq<char>),
    Array(Seq<Json>),
    Object(Map<Seq<char>, Json>),
}

impl Json {
    /// The member of an object under `key`. None where the document is not an
    /// object or has no such member.
    pub open spec fn member(self, key: Seq<char>) -> Option<Json> {
        match self {
            Json::Object(members) => if members.contains_key(key) {
                Some(members[key])
            } else {
                None
            },
            _ => None,
        }
    }

    /// The elements of an array. None where the document is not an array.
    pub open spec fn elements(self) -> Option<Seq<Json>> {
        match self {
            Json::Array(items) => Some(items),
            _ => None,
        }
    }

    /// A number read as binary64. None where the document is not a number.
    pub open spec fn binary64(self) -> Option<Binary64> {
        match self {
            Json::Number(n) => n.binary64,
            _ => None,
        }
    }

    /// A number read as an unsigned integer. None where the document is not a
    /// number, or is a number not written as an unsigned integer.
    pub open spec fn unsigned(self) -> Option<u64> {
        match self {
            Json::Number(n) => n.unsigned,
            _ => None,
        }
    }
}

/// The document that a `serde_json::Value` holds.
pub uninterp spec fn json_of(value: serde_json::Value) -> Json;

/// The document that `serde_json::from_str` reads from a text, or None where
/// it rejects the text.
pub uninterp spec fn parsed_json(text: Seq<char>) -> Option<Json>;

/// The documents that a vector of values holds, in order.
pub open spec fn jsons_of(values: Seq<serde_json::Value>) -> Seq<Json> {
    values.map_values(|v: serde_json::Value| json_of(v))
}

/// `serde_json::from_str` at `serde_json::Value`: reads a text as one JSON
/// document. The same text always gives the same document or is always
/// rejected, which is all the contract claims.
#[verifier::external_body]
pub(crate) fn parse(text: &str) -> (r: Result<serde_json::Value, serde_json::Error>)
    ensures
        match r {
            Ok(value) => parsed_json(text@) == Some(json_of(value)),
            Err(_) => parsed_json(text@) is None,
        },
{
    serde_json::from_str::<serde_json::Value>(text)
}

/// `serde_json::Value::get` with a string index: the member of an object
/// under that key, and None for a document that is not an object or has no
/// such member.
#[verifier::external_body]
pub(crate) fn get<'a>(value: &'a serde_json::Value, key: &str) -> (r: Option<
    &'a serde_json::Value,
>)
    ensures
        match r {
            Some(found) => json_of(*value).member(key@) == Some(json_of(*found)),
            None => json_of(*value).member(key@) is None,
        },
{
    value.get(key)
}

/// `serde_json::Value::as_array`: the vector inside an array, and None for a
/// document that is not an array.
#[verifier::external_body]
pub(crate) fn as_array<'a>(value: &'a serde_json::Value) -> (r: Option<
    &'a Vec<serde_json::Value>,
>)
    ensures
        match r {
            Some(items) => json_of(*value).elements() == Some(jsons_of(items@)),
            None => json_of(*value).elements() is None,
        },
{
    value.as_array()
}

/// `serde_json::Value::as_f64`: a number as binary64, handed on as its bit
/// pattern, and None for a document that is not a number.
#[verifier::external_body]
pub(crate) fn as_binary64(value: &serde_json::Value) -> (r: Option<Binary64>)
    ensures
        r == json_of(*value).binary64(),
{
    match value.as_f64() {
        Some(x) => Some(Binary64 { bits: x.to_bits() }),
        None => None,
    }
}

/// `serde_json::Value::as_u64`: a number written as an unsigned integer, and
/// None for a negative or fractional number or for a document that is not a
/// number.
#[verifier::external_body]
pub(crate) fn as_u64(value: &serde_json::Value) -> (r: Option<u64>)
    ensures
        r == json_of(*value).unsigned(),
{
    value.as_u64()
}

} // verus!
