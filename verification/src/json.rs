//! JSON values, as the `serde_json` crate reads them.
use crate::text;
use vstd::prelude::*;

verus! {

/// What a JSON value holds. A number stands as it is written, and an object as its keys with
/// their values, in the order in which the crate keeps them.
pub enum Json {
    Null,
    Bool(bool),
    Number(Seq<char>),
    Text(Seq<char>),
    List(Seq<Json>),
    Object(Seq<(Seq<char>, Json)>),
}

/// The value under a key, among the entries `i..`.
pub open spec fn entry_under(entries: Seq<(Seq<char>, Json)>, key: Seq<char>, i: int) -> Option<
    Json,
>
    decreases entries.len() - i,
{
    if i < 0 || i >= entries.len() {
        None
    } else if entries[i].0 == key {
        Some(entries[i].1)
    } else {
        entry_under(entries, key, i + 1)
    }
}

impl Json {
    /// The value under a key of an object; none where there is none, and for any other value.
    pub open spec fn member(self, key: Seq<char>) -> Option<Json> {
        match self {
            Json::Object(entries) => entry_under(entries, key, 0),
            _ => None,
        }
    }

    /// The text of a string; none for any other value.
    pub open spec fn text(self) -> Option<Seq<char>> {
        match self {
            Json::Text(t) => Some(t),
            _ => None,
        }
    }

    /// The items of an array; none for any other value.
    pub open spec fn items(self) -> Option<Seq<Json>> {
        match self {
            Json::List(list) => Some(list),
            _ => None,
        }
    }

    /// The entries of an object; none for any other value.
    pub open spec fn entries(self) -> Option<Seq<(Seq<char>, Json)>> {
        match self {
            Json::Object(entries) => Some(entries),
            _ => None,
        }
    }
}

#[verifier::external_type_specification]
#[verifier::external_body]
pub struct ExValue(serde_json::Value);

#[verifier::external_type_specification]
#[verifier::external_body]
pub struct ExError(serde_json::Error);

/// What a value of the crate holds.
pub uninterp spec fn json_of(value: serde_json::Value) -> Json;

/// The value that a JSON document holds; none for a text that is no JSON.
pub uninterp spec fn json_parsed(document: Seq<char>) -> Option<Json>;

/// A value as compact JSON.
pub uninterp spec fn json_written(value: Json) -> Seq<char>;

/// What an optional value holds.
pub open spec fn held(value: Option<&serde_json::Value>) -> Option<Json> {
    match value {
        Some(v) => Some(json_of(*v)),
        None => None,
    }
}

/// What a list of values holds.
pub open spec fn all_held(values: Seq<serde_json::Value>) -> Seq<Json> {
    values.map_values(|v: serde_json::Value| json_of(v))
}

/// What a list of entries holds.
pub open spec fn pairs_held(entries: Seq<(String, &serde_json::Value)>) -> Seq<(Seq<char>, Json)> {
    entries.map_values(|e: (String, &serde_json::Value)| (e.0@, json_of(*e.1)))
}

/// Whether `written` is how a value without parts is written: a number as it stands.
pub open spec fn is_plainly_written(value: Json, written: Seq<char>) -> bool {
    match value {
        Json::Null => written == "null"@,
        Json::Bool(true) => written == "true"@,
        Json::Bool(false) => written == "false"@,
        Json::Number(n) => written == n,
        _ => true,
    }
}

/// `serde_json::from_str` into a `serde_json::Value`: reads a JSON document.
#[verifier::external_body]
pub(crate) fn parse(document: &str) -> (r: Result<serde_json::Value, serde_json::Error>)
    ensures
        json_parsed(document@) == (match r {
            Ok(v) => Some(json_of(v)),
            Err(_) => None,
        }),
{
    serde_json::from_str(document)
}

/// `serde_json::Value::get` with a key: the value under that key of an object.
#[verifier::external_body]
pub(crate) fn member<'a>(value: &'a serde_json::Value, key: &str) -> (r: Option<
    &'a serde_json::Value,
>)
    ensures
        held(r) == json_of(*value).member(key@),
{
    value.get(key)
}

/// `serde_json::Value::as_str`: the text of a string.
#[verifier::external_body]
pub(crate) fn string(value: &serde_json::Value) -> (r: Option<String>)
    ensures
        text::said(r) == json_of(*value).text(),
{
    value.as_str().map(|s| s.to_owned())
}

/// `serde_json::Value::as_array`: the items of an array.
#[verifier::external_body]
pub(crate) fn items(value: &serde_json::Value) -> (r: Option<&Vec<serde_json::Value>>)
    ensures
        json_of(*value).items() == (match r {
            Some(list) => Some(all_held(list@)),
            None => None,
        }),
{
    value.as_array()
}

/// `serde_json::Value::as_object`, its entries handed out as a list in the order of the map.
#[verifier::external_body]
pub(crate) fn entries(value: &serde_json::Value) -> (r: Option<Vec<(String, &serde_json::Value)>>)
    ensures
        json_of(*value).entries() == (match r {
            Some(list) => Some(pairs_held(list@)),
            None => None,
        }),
{
    value.as_object().map(|map| map.iter().map(|(k, v)| (k.clone(), v)).collect())
}

/// `serde_json::Value::to_string`: the value as compact JSON. How an array, an object or the
/// quoting of a string is written is not said here.
#[verifier::external_body]
pub(crate) fn compact(value: &serde_json::Value) -> (r: String)
    ensures
        r@ == json_written(json_of(*value)),
        is_plainly_written(json_of(*value), r@),
{
    value.to_string()
}

} // verus!
