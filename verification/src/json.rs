//! What is read from JSON.

use vstd::prelude::*;

use crate::text::Text;

verus! {

/// A JSON value, as far as it is read: a text, an object with its members by
/// name, or something else.
pub enum Json {
    Text(Seq<char>),
    Object(Map<Seq<char>, Json>),
    Other,
}

/// A value of the `serde_json` crate.
#[verifier::external_type_specification]
#[verifier::external_body]
pub struct ExJsonValue(serde_json::Value);

/// What a `serde_json::Value` holds.
pub uninterp spec fn json_contents(value: serde_json::Value) -> Json;

/// What the JSON text `s` holds; none where `serde_json::from_str` fails.
pub uninterp spec fn json_of_text(s: Seq<char>) -> Option<Json>;

/// What the JSON document `data` holds; none where `serde_json::from_slice`
/// fails.
pub uninterp spec fn json_of_bytes(data: Seq<u8>) -> Option<Json>;

/// `serde_json::from_str`, for a value of any kind.
#[verifier::external_body]
pub(crate) fn parse_json(s: &str) -> (r: Result<serde_json::Value, serde_json::Error>)
    ensures
        match r {
            Ok(value) => json_of_text(s@) == Some(json_contents(value)),
            Err(_) => json_of_text(s@) is None,
        },
{
    serde_json::from_str::<serde_json::Value>(s)
}

/// `serde_json::from_slice`, for a value of any kind.
#[verifier::external_body]
pub(crate) fn parse_json_bytes(data: &Vec<u8>) -> (r: Result<serde_json::Value, serde_json::Error>)
    ensures
        match r {
            Ok(value) => json_of_bytes(data@) == Some(json_contents(value)),
            Err(_) => json_of_bytes(data@) is None,
        },
{
    serde_json::from_slice::<serde_json::Value>(data.as_slice())
}

/// The member `name` of an object; none of any other value.
pub open spec fn member(json: Json, name: Text) -> Option<Json> {
    match json {
        Json::Object(members) => if members.dom().contains(name) {
            Some(members[name])
        } else {
            None
        },
        _ => None,
    }
}

/// `serde_json::Value::get` by name: the member of an object; none of any other
/// value.
#[verifier::external_body]
pub(crate) fn json_member<'a>(value: &'a serde_json::Value, name: &str) -> (r: Option<
    &'a serde_json::Value,
>)
    ensures
        match r {
            Some(found) => member(json_contents(*value), name@) == Some(json_contents(*found)),
            None => member(json_contents(*value), name@) is None,
        },
{
    value.get(name)
}

/// `serde_json::Value::as_str`: the text, where the value is one.
#[verifier::external_body]
pub(crate) fn json_str(value: &serde_json::Value) -> (r: Option<&str>)
    ensures
        match r {
            Some(s) => json_contents(*value) == Json::Text(s@),
            None => !(json_contents(*value) is Text),
        },
{
    value.as_str()
}

/// The text in the member `name`.
pub open spec fn text_member(json: Json, name: Text) -> Option<Text> {
    match member(json, name) {
        Some(Json::Text(s)) => Some(s),
        _ => None,
    }
}

/// The text in the member `inner` of the member `outer`.
pub open spec fn text_at(json: Json, outer: Text, inner: Text) -> Option<Text> {
    match member(json, outer) {
        Some(found) => text_member(found, inner),
        None => None,
    }
}

/// `r` is `found`.
pub open spec fn is_text(r: Option<String>, found: Option<Text>) -> bool {
    match r {
        Some(s) => found == Some(s@),
        None => found is None,
    }
}

/// The text in the member `name`.
pub(crate) fn read_text_member(value: &serde_json::Value, name: &str) -> (r: Option<String>)
    ensures
        is_text(r, text_member(json_contents(*value), name@)),
{
    match json_member(value, name) {
        Some(found) => match json_str(found) {
            Some(s) => Some(s.to_string()),
            None => None,
        },
        None => None,
    }
}

/// The text in the member `inner` of the member `outer`.
pub(crate) fn read_text_at(value: &serde_json::Value, outer: &str, inner: &str) -> (r: Option<
    String,
>)
    ensures
        is_text(r, text_at(json_contents(*value), outer@, inner@)),
{
    match json_member(value, outer) {
        Some(found) => read_text_member(found, inner),
        None => None,
    }
}

} // verus!
