//! JSON documents, as `serde_json` parses them.
//!
//! A [`serde_json::Value`] is opaque here. [`json_of`] names the document that
//! a value holds, and each accessor says which part of that document it
//! returns.
use crate::text;
use vstd::prelude::*;

verus! {

/// A JSON document.
pub enum Json {
    Null,
    Bool(bool),
    /// A number that `serde_json` keeps as an integer.
    Integer(int),
    /// A number that `serde_json` keeps as a floating-point number of double
    /// precision: its bits.
    Float(u64),
    Text(Seq<char>),
    Array(Seq<Json>),
    Object(Map<Seq<char>, Json>),
}

impl Json {
    /// The element of an array at position `i`.
    pub open spec fn at(self, i: int) -> Option<Json> {
        match self {
            Json::Array(items) => if 0 <= i < items.len() {
                Some(items[i])
            } else {
                None
            },
            _ => None,
        }
    }

    /// The member of an object under `key`.
    pub open spec fn member(self, key: Seq<char>) -> Option<Json> {
        match self {
            Json::Object(members) => if members.dom().contains(key) {
                Some(members[key])
            } else {
                None
            },
            _ => None,
        }
    }

    /// The characters of a string.
    pub open spec fn text(self) -> Option<Seq<char>> {
        match self {
            Json::Text(s) => Some(s),
            _ => None,
        }
    }

    /// The value of an integer that fits an `i64`.
    pub open spec fn integer(self) -> Option<i64> {
        match self {
            Json::Integer(n) => if i64::MIN <= n <= i64::MAX {
                Some(n as i64)
            } else {
                None
            },
            _ => None,
        }
    }
}

/// A parsed document of `serde_json`.
#[verifier::external_type_specification]
#[verifier::external_body]
pub struct ExValue(serde_json::Value);

/// The document that a value holds.
pub uninterp spec fn json_of(v: serde_json::Value) -> Json;

/// The document that `serde_json::from_str` reads from a text, if any.
pub uninterp spec fn json_parsed(text: Seq<char>) -> Option<Json>;

/// The document behind an optional reference.
pub open spec fn json_behind(v: Option<&serde_json::Value>) -> Option<Json> {
    match v {
        Some(v) => Some(json_of(*v)),
        None => None,
    }
}

/// `serde_json::from_str::<Value>`: whether a text is a JSON document, and
/// which one, depends on the text alone.
#[verifier::external_body]
pub(crate) fn parse(text: &str) -> (r: Option<serde_json::Value>)
    ensures
        (match r {
            Some(v) => Some(json_of(v)),
            None => None,
        }) == json_parsed(text@),
{
    serde_json::from_str::<serde_json::Value>(text).ok()
}

/// `Value::get` with a position: the element of an array, nothing for any other
/// document or for a position past the end.
#[verifier::external_body]
pub(crate) fn element(v: &serde_json::Value, i: usize) -> (r: Option<&serde_json::Value>)
    ensures
        json_behind(r) == json_of(*v).at(i as int),
{
    v.get(i)
}

/// `Value::get` with a key: the member of an object, nothing for any other
/// document or for an absent key.
#[verifier::external_body]
pub(crate) fn member<'a>(v: &'a serde_json::Value, key: &str) -> (r: Option<&'a serde_json::Value>)
    ensures
        json_behind(r) == json_of(*v).member(key@),
{
    v.get(key)
}

/// `Value::as_str`: the characters of a string, nothing for any other document.
#[verifier::external_body]
pub(crate) fn as_text(v: &serde_json::Value) -> (r: Option<&str>)
    ensures
        text::text_behind(r) == json_of(*v).text(),
{
    v.as_str()
}

/// `Value::as_i64`: the value of an integer in the range of `i64`, nothing for
/// any other document.
#[verifier::external_body]
pub(crate) fn as_integer(v: &serde_json::Value) -> (r: Option<i64>)
    ensures
        r == json_of(*v).integer(),
{
    v.as_i64()
}

/// `Value::clone`: a copy holds the same document.
#[verifier::external_body]
pub(crate) fn copy(v: &serde_json::Value) -> (r: serde_json::Value)
    ensures
        json_of(r) == json_of(*v),
{
    v.clone()
}

/// What the accessors read: an array has an element at each position from zero
/// up to its length and nowhere else, an object has a member under each of its
/// keys and under no other, a string has its characters, and an integer has its
/// value where that fits an `i64`. Nothing is read out of any other document.
pub proof fn documents_are_read_as_they_are(
    items: Seq<Json>,
    i: int,
    members: Map<Seq<char>, Json>,
    key: Seq<char>,
    text: Seq<char>,
    n: int,
    other: Json,
)
    ensures
        0 <= i < items.len() ==> Json::Array(items).at(i) == Some(items[i]),
        !(0 <= i < items.len()) ==> Json::Array(items).at(i) is None,
        !(other is Array) ==> other.at(i) is None,
        members.dom().contains(key) ==> Json::Object(members).member(key) == Some(members[key]),
        !members.dom().contains(key) ==> Json::Object(members).member(key) is None,
        !(other is Object) ==> other.member(key) is None,
        Json::Text(text).text() == Some(text),
        !(other is Text) ==> other.text() is None,
        -0x8000_0000_0000_0000 <= n <= 0x7FFF_FFFF_FFFF_FFFF ==> (Json::Integer(n).integer() matches Some(v)
            && v == n),
        !(-0x8000_0000_0000_0000 <= n <= 0x7FFF_FFFF_FFFF_FFFF) ==> Json::Integer(n).integer() is None,
        !(other is Integer) ==> other.integer() is None,
{
}

} // verus!
