//! A JSON value as the protocol code reads it: its shape, with each number kept as the
//! integer it is or, for any other number, as the text it was written with.
use vstd::prelude::*;

verus! {

/// A JSON number: a non-negative integer, a negative integer, or any other number by its
/// text.
#[derive(Debug, Clone, PartialEq, Eq)]
pub enum JsonNumber {
    PosInt(u64),
    NegInt(i64),
    Float(String),
}

/// A JSON value. An object keeps its entries in the order they were written.
#[derive(Debug, PartialEq, Eq)]
pub enum JsonValue {
    Null,
    Bool(bool),
    Number(JsonNumber),
    String(String),
    Array(Vec<JsonValue>),
    Object(Vec<(String, JsonValue)>),
}

/// The number that a signed integer is written as.
pub open spec fn number_of_i64(i: i64) -> JsonNumber {
    if i < 0 {
        JsonNumber::NegInt(i)
    } else {
        JsonNumber::PosInt(i as u64)
    }
}

/// The value of the last entry of `entries` whose key is `key`: the one that a map built
/// from the entries in order holds.
pub open spec fn object_get(entries: Seq<(String, JsonValue)>, key: Seq<char>) -> Option<
    JsonValue,
>
    decreases entries.len(),
{
    if entries.len() == 0 {
        None
    } else if entries.last().0@ == key {
        Some(entries.last().1)
    } else {
        object_get(entries.drop_last(), key)
    }
}

/// The text of a string value.
pub open spec fn json_string(v: JsonValue) -> Option<String> {
    match v {
        JsonValue::String(s) => Some(s),
        _ => None,
    }
}

impl JsonValue {
    /// The number value of a signed integer.
    pub fn from_i64(i: i64) -> (r: JsonValue)
        ensures
            r == JsonValue::Number(number_of_i64(i)),
    {
        if i < 0 {
            JsonValue::Number(JsonNumber::NegInt(i))
        } else {
            JsonValue::Number(JsonNumber::PosInt(i as u64))
        }
    }

    /// The string value of a text.
    pub fn from_str(s: &str) -> (r: JsonValue)
        ensures
            r matches JsonValue::String(t) && t@ == s@,
    {
        JsonValue::String(s.to_owned())
    }

    pub fn is_null(&self) -> (r: bool)
        ensures
            r <==> *self is Null,
    {
        matches!(self, JsonValue::Null)
    }
}

} // verus!
