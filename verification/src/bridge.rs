//! The bridge to the standard library and to the JSON, identifier and clock
//! crates.
//!
//! Nothing in this file is proved: each item states what the library takes
//! from the code it calls.

use vstd::prelude::*;
use crate::json::{nested_within, Json, JsonData, NESTING_LIMIT};

verus! {

/// `String::push` appends one character to the end of the string.
pub assume_specification[ String::push ](s: &mut String, c: char)
    ensures
        final(s)@ == old(s)@.push(c),
;

/// `serde_json::Value`, carried between the calls below and never read by verified code.
#[verifier::external_type_specification]
#[verifier::external_body]
pub struct ExJsonValue(serde_json::Value);

/// `serde_json::Error`, which verified code maps to an error of its own.
#[verifier::external_type_specification]
#[verifier::external_body]
pub struct ExJsonError(serde_json::Error);

/// The value that `serde_json::from_str` reads from `text`; `None` where it
/// reports an error.
pub uninterp spec fn json_text_value(text: Seq<char>) -> Option<JsonData>;

/// The compact text that `serde_json::to_string` writes for `value`; `None`
/// where the value cannot be written.
pub uninterp spec fn json_value_text(value: JsonData) -> Option<Seq<char>>;

/// Copies a number out of a `serde_json::Value`: `as_u64` first, then `as_i64`,
/// else the number's own text.
#[verifier::external_body]
fn json_of_number(v: &serde_json::Value) -> Json {
    match (v.as_u64(), v.as_i64()) {
        (Some(u), _) => Json::UInt(u),
        (None, Some(i)) => Json::Int(i),
        (None, None) => Json::Float(v.to_string()),
    }
}

/// Copies the items of a `serde_json::Value::Array`, in order.
#[verifier::external_body]
fn json_of_items(v: &serde_json::Value) -> Vec<Json> {
    let mut out = Vec::new();
    if let serde_json::Value::Array(items) = v {
        for item in items {
            out.push(json_of_value(item));
        }
    }
    out
}

/// Copies the members of a `serde_json::Value::Object`, in the order in which
/// its map hands them out.
#[verifier::external_body]
fn json_of_members(v: &serde_json::Value) -> Vec<(String, Json)> {
    let mut out = Vec::new();
    if let serde_json::Value::Object(members) = v {
        for (key, item) in members {
            out.push((key.clone(), json_of_value(item)));
        }
    }
    out
}

/// Copies a `serde_json::Value` into a [`Json`], variant by variant.
#[verifier::external_body]
fn json_of_value(v: &serde_json::Value) -> Json {
    match v {
        serde_json::Value::Null => Json::Null,
        serde_json::Value::Bool(b) => Json::Bool(*b),
        serde_json::Value::Number(_) => json_of_number(v),
        serde_json::Value::String(s) => Json::Str(s.clone()),
        serde_json::Value::Array(_) => Json::Array(json_of_items(v)),
        serde_json::Value::Object(_) => Json::Object(json_of_members(v)),
    }
}

/// Builds a `serde_json::Value::Array` from the items, in order.
#[verifier::external_body]
fn value_of_items(items: &Vec<Json>) -> Result<serde_json::Value, serde_json::Error> {
    let mut out = Vec::new();
    for item in items {
        out.push(value_of_json(item)?);
    }
    Ok(serde_json::Value::Array(out))
}

/// Builds a `serde_json::Value::Object` by `Map::insert` of the members, in order.
#[verifier::external_body]
fn value_of_members(members: &Vec<(String, Json)>) -> Result<
    serde_json::Value,
    serde_json::Error,
> {
    let mut out = serde_json::Map::new();
    for (key, item) in members {
        out.insert(key.clone(), value_of_json(item)?);
    }
    Ok(serde_json::Value::Object(out))
}

/// Copies a [`Json`] into a `serde_json::Value`, variant by variant; the text of a
/// `Float` is read back through `serde_json::from_str`.
#[verifier::external_body]
fn value_of_json(j: &Json) -> Result<serde_json::Value, serde_json::Error> {
    Ok(
        match j {
            Json::Null => serde_json::Value::Null,
            Json::Bool(b) => serde_json::Value::Bool(*b),
            Json::UInt(n) => serde_json::Value::from(*n),
            Json::Int(n) => serde_json::Value::from(*n),
            Json::Float(t) => serde_json::Value::Number(serde_json::from_str(t)?),
            Json::Str(s) => serde_json::Value::String(s.clone()),
            Json::Array(items) => value_of_items(items)?,
            Json::Object(members) => value_of_members(members)?,
        },
    )
}

/// `serde_json::from_str`, read as a `serde_json::Value` and copied into a
/// [`Json`]: the result is a function of the text alone.
#[verifier::external_body]
pub(crate) fn decode_json(text: &str) -> (r: Result<Json, serde_json::Error>)
    ensures
        match r {
            Ok(j) => json_text_value(text@) == Some(j.deep_view()),
            Err(_) => json_text_value(text@) is None,
        },
{
    match serde_json::from_str::<serde_json::Value>(text) {
        Ok(v) => Ok(json_of_value(&v)),
        Err(e) => Err(e),
    }
}

/// `serde_json::to_string` of the value copied into a `serde_json::Value`: the
/// result is a function of the value alone. The copy and the writer go as deep
/// as the value is nested, so the nesting is bounded.
#[verifier::external_body]
pub(crate) fn encode_json(j: &Json) -> (r: Result<String, serde_json::Error>)
    requires
        nested_within(j.deep_view(), NESTING_LIMIT as nat),
    ensures
        match r {
            Ok(t) => json_value_text(j.deep_view()) == Some(t@),
            Err(_) => json_value_text(j.deep_view()) is None,
        },
{
    match value_of_json(j) {
        Ok(v) => serde_json::to_string(&v),
        Err(e) => Err(e),
    }
}

/// `uuid::Uuid::now_v7`, in its hyphenated text. It depends on the clock and on
/// chance, so nothing is stated of it. It panics where the system's clock stands
/// before the year 1970.
#[verifier::external_body]
pub(crate) fn fresh_id() -> String {
    uuid::Uuid::now_v7().to_string()
}

/// `chrono::Local::now`, written by `to_rfc3339`. It depends on the clock and the
/// time zone, so nothing is stated of it. It panics where the system's clock
/// stands before the year 1970.
#[verifier::external_body]
pub(crate) fn now_rfc3339() -> String {
    chrono::Local::now().to_rfc3339()
}

} // verus!
