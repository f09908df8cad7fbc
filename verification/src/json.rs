//! JSON values, by what they hold.
//!
//! The values themselves are those of `serde_json`, which also reads and writes
//! their text. Contracts speak of their contents.

use serde_json::Value;
use vstd::prelude::*;

verus! {

/// What a JSON value holds. A number that is no 64-bit integer is kept by its
/// decimal text.
#[verifier::ext_equal]
pub enum Json {
    Null,
    Bool(bool),
    Int(int),
    Real(Seq<char>),
    Text(Seq<char>),
    List(Seq<Json>),
    Object(Map<Seq<char>, Json>),
}

/// `serde_json::Value`, carried through as it is.
#[verifier::external_type_specification]
#[verifier::external_body]
pub struct ExValue(serde_json::Value);

/// The contents of a `serde_json::Value`.
pub uninterp spec fn json_contents(value: Value) -> Json;

/// The text that `serde_json::to_vec` writes for a value with these contents.
pub uninterp spec fn json_encoding(contents: Json) -> Seq<u8>;

/// The contents of the value that `serde_json::from_slice` reads from these
/// bytes, or the error it reports.
pub uninterp spec fn json_decoding(bytes: Seq<u8>) -> Result<Json, Seq<char>>;

/// Whether the contents hold no number but 64-bit integers and no list or object
/// that is nested deeper than `depth`.
pub open spec fn plain(contents: Json, depth: nat) -> bool
    decreases depth,
{
    match contents {
        Json::Real(_) => false,
        Json::List(items) => depth > 0 && forall|i: int|
            0 <= i < items.len() ==> plain(#[trigger] items[i], (depth - 1) as nat),
        Json::Object(fields) => depth > 0 && forall|name: Seq<char>| #[trigger]
            fields.contains_key(name) ==> plain(fields[name], (depth - 1) as nat),
        _ => true,
    }
}

/// The contents of an optional value.
pub open spec fn optional_contents(value: Option<Value>) -> Option<Json> {
    match value {
        Some(value) => Some(json_contents(value)),
        None => None,
    }
}

/// The fields of an object, a later one taking the place of an earlier one.
pub open spec fn field_map(fields: Seq<(String, Value)>) -> Map<Seq<char>, Json>
    decreases fields.len(),
{
    if fields.len() == 0 {
        Map::empty()
    } else {
        field_map(fields.drop_last()).insert(fields.last().0@, json_contents(fields.last().1))
    }
}

/// Whether no two fields have the same name.
pub open spec fn distinct_names(fields: Seq<(String, Value)>) -> bool {
    forall|i: int, j: int|
        0 <= i < j < fields.len() ==> (#[trigger] fields[i]).0@ != (#[trigger] fields[j]).0@
}

/// `Value::from` on an `i64`: a number value that holds that integer.
#[verifier::external_body]
pub(crate) fn int_value(n: i64) -> (value: Value)
    ensures
        json_contents(value) == Json::Int(n as int),
{
    Value::from(n)
}

/// `Value::from` on a `bool`: a boolean value that holds it.
#[verifier::external_body]
pub(crate) fn bool_value(b: bool) -> (value: Value)
    ensures
        json_contents(value) == Json::Bool(b),
{
    Value::from(b)
}

/// `Value::from` on a `&str`: a string value that holds that text.
#[verifier::external_body]
pub(crate) fn text_value(text: &str) -> (value: Value)
    ensures
        json_contents(value) == Json::Text(text@),
{
    Value::from(text)
}

/// `Value::from_iter` on pairs of a name and a value: an object with those
/// fields. Of two fields with the same name one is lost, and nothing is claimed
/// of which.
#[verifier::external_body]
pub(crate) fn object_value(fields: Vec<(String, Value)>) -> (value: Value)
    ensures
        distinct_names(fields@) ==> json_contents(value) == Json::Object(field_map(fields@)),
{
    Value::from_iter(fields)
}

/// `serde_json::to_vec` on a `Value`: its JSON text, which depends only on what
/// the value holds. It never fails: the names of an object are strings, and
/// writing to a vector succeeds. The text reads back as the same contents where
/// it holds only integers as numbers and is nested no deeper than reading allows.
#[verifier::external_body]
pub(crate) fn encode_json(value: &Value) -> (text: Result<Vec<u8>, String>)
    ensures
        match text {
            Ok(bytes) => {
                &&& bytes@ == json_encoding(json_contents(*value))
                &&& plain(json_contents(*value), 127) ==> json_decoding(bytes@) == Ok::<
                    Json,
                    Seq<char>,
                >(json_contents(*value))
            },
            Err(_) => false,
        },
{
    match serde_json::to_vec(value) {
        Ok(bytes) => Ok(bytes),
        Err(error) => Err(error.to_string()),
    }
}

/// `serde_json::from_slice` into a `Value`: the value that the bytes spell, which
/// depends only on the bytes. An error is handed on as its message.
#[verifier::external_body]
pub(crate) fn decode_json(bytes: &[u8]) -> (value: Result<Value, String>)
    ensures
        match value {
            Ok(value) => json_decoding(bytes@) == Ok::<Json, Seq<char>>(json_contents(value)),
            Err(message) => json_decoding(bytes@) == Err::<Json, Seq<char>>(message@),
        },
{
    match serde_json::from_slice(bytes) {
        Ok(value) => Ok(value),
        Err(error) => Err(error.to_string()),
    }
}

} // verus!
