//! JSON documents, as the `serde_json` crate reads them. A place in a document
//! is given by a JSON pointer, such as `/State/Running`; the empty pointer is
//! the document itself.

use crate::number;
use crate::text;
use vstd::prelude::*;

verus! {

/// What `serde_json::from_str` has against a text; nothing if it reads it as a
/// JSON document.
pub uninterp spec fn json_error(doc: Seq<char>) -> Option<Seq<char>>;

/// A text is a JSON document.
pub open spec fn json_valid(doc: Seq<char>) -> bool {
    json_error(doc) is None
}

/// The compact notation of what `serde_json::Value::pointer` finds in a
/// document; absent if there is no document, or nothing there.
pub uninterp spec fn json_raw(doc: Seq<char>, pointer: Seq<char>) -> Option<Seq<char>>;

/// The string that `serde_json::Value::pointer` finds in a document; absent if
/// there is none, or something else.
pub uninterp spec fn json_str(doc: Seq<char>, pointer: Seq<char>) -> Option<Seq<char>>;

/// The compact notation of each item of the array that
/// `serde_json::Value::pointer` finds in a document; none if it finds no array.
pub uninterp spec fn json_items(doc: Seq<char>, pointer: Seq<char>) -> Seq<Seq<char>>;

/// `serde_json::from_str`: whether a text is a document, and the text of the
/// error if it is none, depend on the text alone.
#[verifier::external_body]
pub(crate) fn error(doc: &str) -> (r: Option<String>)
    ensures
        text::opt_text(r) == json_error(doc@),
{
    serde_json::from_str::<serde_json::Value>(doc).err().map(|e| e.to_string())
}

pub(crate) fn valid(doc: &str) -> (r: bool)
    ensures
        r == json_valid(doc@),
{
    error(doc).is_none()
}

/// `serde_json::Value::pointer` and `to_string`: what is found, in compact
/// notation, depends on the document and the pointer alone.
#[verifier::external_body]
pub(crate) fn raw(doc: &str, pointer: &str) -> (r: Option<String>)
    ensures
        text::opt_text(r) == json_raw(doc@, pointer@),
{
    let value = serde_json::from_str::<serde_json::Value>(doc).ok()?;
    Some(value.pointer(pointer)?.to_string())
}

/// `serde_json::Value::pointer` and `as_str`: the string that is found depends
/// on the document and the pointer alone.
#[verifier::external_body]
pub(crate) fn string(doc: &str, pointer: &str) -> (r: Option<String>)
    ensures
        text::opt_text(r) == json_str(doc@, pointer@),
{
    let value = serde_json::from_str::<serde_json::Value>(doc).ok()?;
    Some(value.pointer(pointer)?.as_str()?.to_string())
}

/// `serde_json::Value::pointer`, `as_array` and `to_string`: the items that are
/// found, in compact notation, depend on the document and the pointer alone.
#[verifier::external_body]
pub(crate) fn items(doc: &str, pointer: &str) -> (r: Vec<String>)
    ensures
        text::texts(r@) == json_items(doc@, pointer@),
{
    let value = serde_json::from_str::<serde_json::Value>(doc).unwrap_or_default();
    let found = value.pointer(pointer).and_then(serde_json::Value::as_array);
    found.into_iter().flatten().map(serde_json::Value::to_string).collect()
}

/// The names and, in compact notation, the values of the fields of the object
/// that `serde_json::Value::pointer` finds in a document; none if it finds no
/// object.
pub uninterp spec fn json_fields(doc: Seq<char>, pointer: Seq<char>) -> Seq<(Seq<char>, Seq<char>)>;

/// The texts of pairs of strings.
pub open spec fn pairs(v: Seq<(String, String)>) -> Seq<(Seq<char>, Seq<char>)> {
    v.map_values(|p: (String, String)| (p.0@, p.1@))
}

/// `serde_json::Value::pointer`, `as_object` and `to_string`: the fields that
/// are found, in the order of `serde_json::Map`, depend on the document and the
/// pointer alone.
#[verifier::external_body]
pub(crate) fn fields(doc: &str, pointer: &str) -> (r: Vec<(String, String)>)
    ensures
        pairs(r@) == json_fields(doc@, pointer@),
{
    let value = serde_json::from_str::<serde_json::Value>(doc).unwrap_or_default();
    let found = value.pointer(pointer).and_then(serde_json::Value::as_object);
    found.into_iter().flatten().map(|(name, v)| (name.clone(), v.to_string())).collect()
}

/// The indented notation of a document; if it is an object, without the field
/// of a name. Absent if a text is no document.
pub uninterp spec fn json_pretty_without(doc: Seq<char>, field: Seq<char>) -> Option<Seq<char>>;

/// `serde_json::Map::remove` and `to_string_pretty`: the notation depends on
/// the document and the field's name alone.
#[verifier::external_body]
pub(crate) fn pretty_without(doc: &str, field: &str) -> (r: Option<String>)
    ensures
        text::opt_text(r) == json_pretty_without(doc@, field@),
{
    let mut value = serde_json::from_str::<serde_json::Value>(doc).ok()?;
    let _ = value.as_object_mut().map(|fields| fields.remove(field));
    serde_json::to_string_pretty(&value).ok()
}

/// What stands at a place in a document, in compact notation; `null` if
/// nothing does.
pub open spec fn raw_or_null(doc: Seq<char>, pointer: Seq<char>) -> Seq<char> {
    match json_raw(doc, pointer) {
        Some(s) => s,
        None => "null"@,
    }
}

pub(crate) fn notation(doc: &str, pointer: &str) -> (r: String)
    ensures
        r@ == raw_or_null(doc@, pointer@),
{
    match raw(doc, pointer) {
        Some(s) => s,
        None => "null".to_string(),
    }
}

/// The integer at a place in a document.
pub open spec fn int_at(doc: Seq<char>, pointer: Seq<char>) -> Option<int> {
    match json_raw(doc, pointer) {
        Some(s) => number::signed(s),
        None => None,
    }
}

pub(crate) fn integer(doc: &str, pointer: &str) -> (r: Option<i64>)
    ensures
        r is Some == int_at(doc@, pointer@) is Some,
        r matches Some(n) ==> int_at(doc@, pointer@) == Some(n as int),
{
    match raw(doc, pointer) {
        Some(s) => number::parse_i64(&text::chars(s.as_str())),
        None => None,
    }
}

/// The natural number at a place in a document.
pub open spec fn nat_at(doc: Seq<char>, pointer: Seq<char>) -> Option<nat> {
    match json_raw(doc, pointer) {
        Some(s) => number::unsigned(s, u64::MAX as nat),
        None => None,
    }
}

pub(crate) fn natural(doc: &str, pointer: &str) -> (r: Option<u64>)
    ensures
        r is Some == nat_at(doc@, pointer@) is Some,
        r matches Some(n) ==> nat_at(doc@, pointer@) == Some(n as nat),
{
    match raw(doc, pointer) {
        Some(s) => number::parse_u64(&text::chars(s.as_str())),
        None => None,
    }
}

/// `true` stands at a place in a document.
pub open spec fn is_true(doc: Seq<char>, pointer: Seq<char>) -> bool {
    json_raw(doc, pointer) == Some("true"@)
}

pub(crate) fn truth(doc: &str, pointer: &str) -> (r: bool)
    ensures
        r == is_true(doc@, pointer@),
{
    text::holds(&raw(doc, pointer), "true")
}

/// The string at a place in a document, else the empty one.
pub open spec fn str_or_empty(doc: Seq<char>, pointer: Seq<char>) -> Seq<char> {
    match json_str(doc, pointer) {
        Some(s) => s,
        None => ""@,
    }
}

pub(crate) fn string_or_empty(doc: &str, pointer: &str) -> (r: String)
    ensures
        r@ == str_or_empty(doc@, pointer@),
{
    match string(doc, pointer) {
        Some(s) => s,
        None => "".to_string(),
    }
}

} // verus!
