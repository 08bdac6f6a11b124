//! JSON documents, read through serde_json.
//!
//! A document is seen here through what it holds under each JSON pointer
//! (RFC 6901): whether the value there is an array, and the text of a
//! string value.

use vstd::prelude::*;

verus! {

#[verifier::external_type_specification]
#[verifier::external_body]
pub struct ExValue(serde_json::Value);

/// What a JSON value holds: each JSON pointer that resolves in it, mapped to
/// a pair: whether the value there is an array, and `Some(text)` where it is
/// a string (`None` for any other value).
pub uninterp spec fn json_entries(v: serde_json::Value) -> Map<Seq<char>, (bool, Option<Seq<char>>)>;

/// What serde_json reads from a text: `None` where the text is not one JSON
/// document, else the entries of the value it reads.
pub uninterp spec fn json_document(s: Seq<char>) -> Option<Map<Seq<char>, (bool, Option<Seq<char>>)>>;

/// Relies on `serde_json::from_str::<Value>`: it succeeds exactly on the texts
/// that hold one JSON document, and gives the value read.
#[verifier::external_body]
pub(crate) fn parse_json(s: &str) -> (r: Option<serde_json::Value>)
    ensures
        r is Some <==> json_document(s@) is Some,
        r matches Some(v) ==> json_entries(v) == json_document(s@)->0,
{
    match serde_json::from_str::<serde_json::Value>(s) {
        Ok(v) => Some(v),
        Err(_) => None,
    }
}

/// Relies on `Value::pointer`, to find the value under a JSON pointer, on
/// `Value::is_array`, to tell an array, and on `Value::as_str`, to read a
/// string.
#[verifier::external_body]
pub(crate) fn entry_at(v: &serde_json::Value, pointer: &str) -> (r: Option<(bool, Option<String>)>)
    ensures
        r is Some <==> json_entries(*v).contains_key(pointer@),
        r matches Some(e) ==> e.0 == json_entries(*v)[pointer@].0,
        r matches Some(e) ==> (e.1 is Some <==> json_entries(*v)[pointer@].1 is Some),
        r matches Some((_, Some(t))) ==> t@ == json_entries(*v)[pointer@].1->0,
{
    match v.pointer(pointer) {
        Some(x) => Some((x.is_array(), x.as_str().map(String::from))),
        None => None,
    }
}

/// The text that a JSON text holds under `pointer`, where it is a JSON
/// document and a string stands there.
pub open spec fn string_at(doc: Seq<char>, pointer: Seq<char>) -> Option<Seq<char>> {
    match json_document(doc) {
        Some(m) => if m.contains_key(pointer) {
            m[pointer].1
        } else {
            None
        },
        None => None,
    }
}

/// A JSON text is a document with an array under `pointer`.
pub open spec fn array_at(doc: Seq<char>, pointer: Seq<char>) -> bool {
    match json_document(doc) {
        Some(m) => m.contains_key(pointer) && m[pointer].0,
        None => false,
    }
}

/// The string that a document holds under `pointer`, if any: `None` where
/// `doc` is not a JSON document, where nothing stands there, or where the
/// value there is not a string.
pub fn string_in(doc: &str, pointer: &str) -> (r: Option<String>)
    ensures
        r is Some <==> string_at(doc@, pointer@) is Some,
        r matches Some(t) ==> t@ == string_at(doc@, pointer@)->0,
{
    match parse_json(doc) {
        Some(v) => match entry_at(&v, pointer) {
            Some((_, Some(t))) => Some(t),
            _ => None,
        },
        None => None,
    }
}

/// Whether a text is a JSON document with an array under `pointer`.
pub fn array_in(doc: &str, pointer: &str) -> (r: bool)
    ensures
        r == array_at(doc@, pointer@),
{
    match parse_json(doc) {
        Some(v) => match entry_at(&v, pointer) {
            Some((is_array, _)) => is_array,
            None => false,
        },
        None => false,
    }
}

/// Whether a text is one JSON document.
pub fn is_json(doc: &str) -> (r: bool)
    ensures
        r == (json_document(doc@) is Some),
{
    parse_json(doc).is_some()
}

} // verus!
