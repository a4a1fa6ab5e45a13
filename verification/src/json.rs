//! `json.loads`: reading JSON text, with `serde_json`, into a plain tree.
use vstd::prelude::*;

use crate::args::{required_arg, required_text_arg};
use crate::value::{raised, ExceptionType, ExceptionValue};

verus! {

#[verifier::external_type_specification]
#[verifier::external_body]
pub struct ExJsonValue(serde_json::Value);

/// A JSON document as plain values.
#[derive(Debug, PartialEq)]
pub enum Json {
    Null,
    Bool(bool),
    /// A number that is an integer within `i64`.
    Int(i64),
    /// Any other number, by its IEEE-754 bit pattern.
    Float(u64),
    Str(String),
    Array(Vec<Json>),
    /// An object's members, in the order in which its map holds them.
    Object(Vec<(String, Json)>),
}

/// What `serde_json::from_str` reads from a text: the document, or the text
/// of its error.
pub uninterp spec fn parsed_json(text: Seq<char>) -> Result<Json, Seq<char>>;

/// `serde_json::from_str::<serde_json::Value>` on the text, the document
/// turned into a [`Json`] tree, or the `Display` text of the error. Which
/// tree or text comes out is only named.
#[verifier::external_body]
fn parse_json(text: &str) -> (res: Result<Json, String>)
    ensures
        match parsed_json(text@) {
            Ok(j) => res matches Ok(x) && x == j,
            Err(m) => res matches Err(x) && x@ == m,
        },
{
    serde_json::from_str::<serde_json::Value>(text).map(|v| json_of(&v)).map_err(|e| e.to_string())
}

/// A `serde_json::Value` as a [`Json`] tree: a number by `as_i64` when it
/// has one, else by the bits of `as_f64` (which every number has, as this
/// build has no `arbitrary_precision`).
#[verifier::external_body]
fn json_of(v: &serde_json::Value) -> Json {
    match v {
        serde_json::Value::Null => Json::Null,
        serde_json::Value::Bool(b) => Json::Bool(*b),
        serde_json::Value::Number(n) => match n.as_i64() {
            Some(i) => Json::Int(i),
            None => Json::Float(n.as_f64().map(|x| x.to_bits()).unwrap_or(0)),
        },
        serde_json::Value::String(s) => Json::Str(s.clone()),
        serde_json::Value::Array(a) => Json::Array(a.iter().map(json_of).collect()),
        serde_json::Value::Object(o) => Json::Object(o.iter().map(|(k, x)| (k.clone(), json_of(x))).collect()),
    }
}

/// `json.loads(s)`: the document that the string `s` holds; a `TypeError`
/// when `s` is missing or not a string, a `ValueError` with the parser's
/// message when it is not JSON.
pub fn json_loads(args: &Vec<Option<String>>) -> (res: Result<Json, ExceptionValue>)
    ensures
        match required_text_arg(args@, "loads"@, "s"@, "argument"@) {
            Err(r) => res matches Err(e) && raised(e) == r && e.traceback is None,
            Ok(t) => match parsed_json(t) {
                Ok(j) => res matches Ok(x) && x == j,
                Err(m) => res matches Err(e) && raised(e) == (
                    ExceptionType::ValueError,
                    "Invalid JSON: "@ + m,
                ) && e.traceback is None,
            },
        },
{
    let text = required_arg(args, "loads", "s", "argument")?;
    match parse_json(text.as_str()) {
        Ok(j) => Ok(j),
        Err(m) => {
            let mut msg = String::from_str("Invalid JSON: ");
            msg.append(m.as_str());
            Err(ExceptionValue::new(ExceptionType::ValueError, msg))
        },
    }
}

} // verus!
