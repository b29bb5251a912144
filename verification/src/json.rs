//! JSON values as the replies of the price and rate services hold them.
//!
//! Reading JSON text is left to `serde_json`; what it finds is held here as a
//! plain tree, so that the decoding of each reply can be stated and proved.

use crate::errors::AppError;
use vstd::prelude::*;

verus! {

/// A JSON value. A number is held as its numeral, an object as its fields in
/// the order in which `serde_json` hands them out.
#[derive(Debug)]
pub enum Json {
    Null,
    Bool(bool),
    Number(String),
    Text(String),
    Array(Vec<Json>),
    Object(Vec<(String, Json)>),
}

/// `serde_json::Value`, of which nothing is known here: it is only handed
/// from the reader to the copy below.
#[verifier::external_type_specification]
#[verifier::external_body]
pub struct ExValue(serde_json::Value);

/// What `serde_json::from_str` makes of a text: the value that it reads, or
/// the message of the error with which it refuses the text.
pub uninterp spec fn json_of(text: Seq<char>) -> Result<Json, String>;

/// Copies a `serde_json::Value` into a `Json`, variant by variant: a number
/// as the text that `serde_json::Number` displays, the fields of an object in
/// the order of `serde_json::Map::iter`.
#[verifier::external_body]
fn json_from_value(value: &serde_json::Value) -> Json {
    match value {
        serde_json::Value::Null => Json::Null,
        serde_json::Value::Bool(b) => Json::Bool(*b),
        serde_json::Value::Number(n) => Json::Number(n.to_string()),
        serde_json::Value::String(s) => Json::Text(s.clone()),
        serde_json::Value::Array(items) => Json::Array(items.iter().map(json_from_value).collect()),
        serde_json::Value::Object(fields) => Json::Object(
            fields.iter().map(|(k, v)| (k.clone(), json_from_value(v))).collect(),
        ),
    }
}

/// Calls `serde_json::from_str` for a `serde_json::Value`. The result depends
/// on the text alone, which is all that the contract claims: it is `json_of`
/// of the text.
#[verifier::external_body]
fn read_json(text: &str) -> (r: Result<Json, String>)
    ensures
        r == json_of(text@),
{
    match serde_json::from_str::<serde_json::Value>(text) {
        Ok(value) => Ok(json_from_value(&value)),
        Err(error) => Err(error.to_string()),
    }
}

/// The value of the first of the fields that is named `key`.
pub open spec fn lookup(fields: Seq<(String, Json)>, key: Seq<char>) -> Option<Json>
    decreases fields.len(),
{
    if fields.len() == 0 {
        None
    } else if fields[0].0@ == key {
        Some(fields[0].1)
    } else {
        lookup(fields.skip(1), key)
    }
}

impl Json {
    /// The field `key` of an object; nothing for any other value.
    pub open spec fn field(self, key: Seq<char>) -> Option<Json> {
        match self {
            Json::Object(fields) => lookup(fields@, key),
            _ => None,
        }
    }

    /// The item at `index` of an array; nothing for any other value.
    pub open spec fn item(self, index: int) -> Option<Json> {
        match self {
            Json::Array(items) => if 0 <= index < items@.len() {
                Some(items@[index])
            } else {
                None
            },
            _ => None,
        }
    }

    /// The numeral of a number; nothing for any other value.
    pub open spec fn number(self) -> Option<Seq<char>> {
        match self {
            Json::Number(numeral) => Some(numeral@),
            _ => None,
        }
    }

    /// The characters of a string; nothing for any other value.
    pub open spec fn text(self) -> Option<Seq<char>> {
        match self {
            Json::Text(text) => Some(text@),
            _ => None,
        }
    }

    /// Reads JSON text.
    pub fn parse(text: &str) -> (r: Result<Json, AppError>)
        ensures
            match json_of(text@) {
                Ok(json) => r == Ok::<Json, AppError>(json),
                Err(cause) => r is Err && r->Err_0@ == crate::errors::Failure::MalformedResponse(
                    cause@,
                ),
            },
    {
        match read_json(text) {
            Ok(json) => Ok(json),
            Err(cause) => Err(AppError::MalformedResponse(cause)),
        }
    }

    /// The field `key` of an object.
    pub fn get(&self, key: &str) -> (r: Option<&Json>)
        ensures
            match self.field(key@) {
                Some(json) => r == Some(&json),
                None => r is None,
            },
    {
        match self {
            Json::Object(fields) => {
                let wanted: String = key.to_owned();
                let mut i: usize = 0;
                assert(fields@.skip(0) =~= fields@);
                while i < fields.len()
                    invariant
                        i <= fields@.len(),
                        wanted@ == key@,
                        self.field(key@) == lookup(fields@, key@),
                        lookup(fields@, key@) == lookup(fields@.skip(i as int), key@),
                    decreases fields@.len() - i,
                {
                    proof {
                        assert(fields@.skip(i as int)[0] == fields@[i as int]);
                        assert(fields@.skip(i as int).skip(1) =~= fields@.skip(i + 1));
                    }
                    if fields[i].0 == wanted {
                        return Some(&fields[i].1);
                    }
                    i += 1;
                }
                None
            },
            _ => None,
        }
    }

    /// The item at `index` of an array.
    pub fn at(&self, index: usize) -> (r: Option<&Json>)
        ensures
            match self.item(index as int) {
                Some(json) => r == Some(&json),
                None => r is None,
            },
    {
        match self {
            Json::Array(items) => if index < items.len() {
                Some(&items[index])
            } else {
                None
            },
            _ => None,
        }
    }

    /// The numeral of a number.
    pub fn as_number(&self) -> (r: Option<&str>)
        ensures
            match self.number() {
                Some(numeral) => r is Some && r->Some_0@ == numeral,
                None => r is None,
            },
    {
        match self {
            Json::Number(numeral) => Some(numeral.as_str()),
            _ => None,
        }
    }

    /// The characters of a string.
    pub fn as_text(&self) -> (r: Option<&str>)
        ensures
            match self.text() {
                Some(text) => r is Some && r->Some_0@ == text,
                None => r is None,
            },
    {
        match self {
            Json::Text(text) => Some(text.as_str()),
            _ => None,
        }
    }
}

} // verus!
