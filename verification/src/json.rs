//! JSON values: what they hold, and the calls into `serde_json` that read them.

use vstd::prelude::*;
use crate::double::Double;

verus! {

/// What a JSON value holds. A number is known by the double that it is read as.
pub enum Json {
    Null,
    Bool(bool),
    Number(Double),
    Text(Seq<char>),
    Array(Seq<Json>),
    Object(Map<Seq<char>, Json>),
}

impl Json {
    /// The member of an object under `key`; null where there is none.
    pub open spec fn member(self, key: Seq<char>) -> Json {
        match self {
            Json::Object(members) => if members.contains_key(key) {
                members[key]
            } else {
                Json::Null
            },
            _ => Json::Null,
        }
    }

    /// The element of an array at `index`; null where there is none.
    pub open spec fn element(self, index: int) -> Json {
        match self {
            Json::Array(elements) => if 0 <= index < elements.len() {
                elements[index]
            } else {
                Json::Null
            },
            _ => Json::Null,
        }
    }

    /// The text of a string.
    pub open spec fn text(self) -> Option<Seq<char>> {
        match self {
            Json::Text(s) => Some(s),
            _ => None,
        }
    }

    /// The truth value of a boolean.
    pub open spec fn truth(self) -> Option<bool> {
        match self {
            Json::Bool(b) => Some(b),
            _ => None,
        }
    }

    /// The double that a number is read as.
    pub open spec fn double(self) -> Option<Double> {
        match self {
            Json::Number(d) => Some(d),
            _ => None,
        }
    }

    /// The elements of an array.
    pub open spec fn elements(self) -> Option<Seq<Json>> {
        match self {
            Json::Array(elements) => Some(elements),
            _ => None,
        }
    }
}

/// A JSON value of `serde_json`.
#[verifier::external_type_specification]
#[verifier::external_body]
pub struct ExValue(serde_json::Value);

/// An error of `serde_json`.
#[verifier::external_type_specification]
#[verifier::external_body]
pub struct ExError(serde_json::Error);

/// What a `serde_json::Value` holds.
pub uninterp spec fn contents(v: serde_json::Value) -> Json;

/// The value that `serde_json::from_str` reads from a text, if the text is JSON.
pub uninterp spec fn parsed(text: Seq<char>) -> Option<Json>;

/// What each of the values in `list` holds.
pub open spec fn all_contents(list: Seq<serde_json::Value>) -> Seq<Json> {
    list.map_values(|v: serde_json::Value| contents(v))
}

/// `serde_json::from_str` at the type `serde_json::Value`: whether a text is JSON, and what
/// value it is, depends on the text alone.
#[verifier::external_body]
pub(crate) fn read_json(text: &str) -> (r: Result<serde_json::Value, serde_json::Error>)
    ensures
        match r {
            Ok(v) => parsed(text@) == Some(contents(v)),
            Err(_) => parsed(text@) is None,
        },
{
    serde_json::from_str(text)
}

/// Indexing a `serde_json::Value` by a string: the member of an object under that key, and
/// null for a key that is not there or a value that is no object.
#[verifier::external_body]
pub(crate) fn member<'a>(v: &'a serde_json::Value, key: &str) -> (r: &'a serde_json::Value)
    ensures
        contents(*r) == contents(*v).member(key@),
{
    &v[key]
}

/// Indexing a `serde_json::Value` by a position: the element of an array there, and null
/// for a position past the end or a value that is no array.
#[verifier::external_body]
pub(crate) fn element(v: &serde_json::Value, index: usize) -> (r: &serde_json::Value)
    ensures
        contents(*r) == contents(*v).element(index as int),
{
    &v[index]
}

/// `serde_json::Value::as_str`: the text of a string, nothing for any other value.
pub assume_specification[ serde_json::Value::as_str ](v: &serde_json::Value) -> (r: Option<&str>)
    ensures
        match r {
            Some(s) => contents(*v).text() == Some(s@),
            None => contents(*v).text() is None,
        },
;

/// `serde_json::Value::as_bool`: the truth value of a boolean, nothing for any other value.
pub assume_specification[ serde_json::Value::as_bool ](v: &serde_json::Value) -> (r: Option<
    bool,
>)
    ensures
        r == contents(*v).truth(),
;

/// `serde_json::Value::as_array`: the elements of an array, nothing for any other value.
pub assume_specification[ serde_json::Value::as_array ](v: &serde_json::Value) -> (r: Option<
    &Vec<serde_json::Value>,
>)
    ensures
        match r {
            Some(list) => contents(*v).elements() == Some(all_contents(list@)),
            None => contents(*v).elements() is None,
        },
;

/// `serde_json::Value::as_f64`: the double that a number is read as, handed on as its
/// encoding, and nothing for any other value. A `serde_json::Number` holds an integer of 64
/// bits or a finite double, so the result is always finite.
#[verifier::external_body]
pub(crate) fn as_double(v: &serde_json::Value) -> (r: Option<Double>)
    ensures
        r == contents(*v).double(),
        r matches Some(d) ==> d.is_finite(),
{
    match v.as_f64() {
        Some(x) => Some(Double { bits: x.to_bits() }),
        None => None,
    }
}

} // verus!
