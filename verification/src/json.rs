//! What the library reads from a JSON document: the shape of the value found
//! at one place in it.

use vstd::prelude::*;

verus! {

/// The shape of what a JSON text holds at one pointer.
#[derive(Debug, Clone)]
pub enum JsonProbe {
    /// The text is not a JSON document.
    Malformed,
    /// The document has nothing at the pointer.
    Absent,
    /// The value is `null`.
    Null,
    /// The value is a string, given here unescaped.
    Text(String),
    /// The value is an object.
    Object,
    /// The value is a number, a boolean or an array.
    Other,
}

/// `JsonProbe` as contracts see it.
pub enum JsonShape {
    Malformed,
    Absent,
    Null,
    Text(Seq<char>),
    Object,
    Other,
}

impl View for JsonProbe {
    type V = JsonShape;

    open spec fn view(&self) -> JsonShape {
        match self {
            JsonProbe::Malformed => JsonShape::Malformed,
            JsonProbe::Absent => JsonShape::Absent,
            JsonProbe::Null => JsonShape::Null,
            JsonProbe::Text(s) => JsonShape::Text(s@),
            JsonProbe::Object => JsonShape::Object,
            JsonProbe::Other => JsonShape::Other,
        }
    }
}

#[verifier::external_type_specification]
#[verifier::external_body]
pub struct ExJsonValue(serde_json::Value);

#[verifier::external_type_specification]
#[verifier::external_body]
pub struct ExJsonError(serde_json::Error);

/// The document that `serde_json` reads from `text`, if `text` is a JSON
/// document.
pub uninterp spec fn json_value(text: Seq<char>) -> Option<serde_json::Value>;

/// What a document holds at a JSON pointer.
pub uninterp spec fn json_shape_in(doc: serde_json::Value, pointer: Seq<char>) -> JsonShape;

/// A document in pretty print, where `serde_json` can write it.
pub uninterp spec fn json_pretty_of(doc: serde_json::Value) -> Option<Seq<char>>;

/// What `serde_json` finds in the document `text` at the JSON pointer
/// `pointer`.
pub open spec fn json_shape_at(text: Seq<char>, pointer: Seq<char>) -> JsonShape {
    match json_value(text) {
        Some(doc) => json_shape_in(doc, pointer),
        None => JsonShape::Malformed,
    }
}

/// The pretty-printed form that `serde_json` gives the document `text`, if
/// `text` is a JSON document.
pub open spec fn json_pretty_text(text: Seq<char>) -> Option<Seq<char>> {
    match json_value(text) {
        Some(doc) => json_pretty_of(doc),
        None => None,
    }
}

/// `serde_json::from_str` for a `serde_json::Value`: what is read depends
/// on the text alone, so it is named `json_value`; nothing is claimed about
/// which texts are documents.
#[verifier::external_body]
pub(crate) fn json_parse(text: &str) -> (r: Result<serde_json::Value, serde_json::Error>)
    ensures
        match r {
            Ok(doc) => json_value(text@) == Some(doc),
            Err(_) => json_value(text@) is None,
        },
{
    serde_json::from_str::<serde_json::Value>(text)
}

/// `Value::pointer`: the shape of what the document holds at `pointer`.
#[verifier::external_body]
pub(crate) fn json_at(doc: &serde_json::Value, pointer: &str) -> (r: JsonProbe)
    ensures
        r@ == json_shape_in(*doc, pointer@),
{
    match doc.pointer(pointer) {
        None => JsonProbe::Absent,
        Some(serde_json::Value::Null) => JsonProbe::Null,
        Some(serde_json::Value::String(s)) => JsonProbe::Text(s.clone()),
        Some(serde_json::Value::Object(_)) => JsonProbe::Object,
        Some(_) => JsonProbe::Other,
    }
}

/// `serde_json::to_string_pretty` of a document.
#[verifier::external_body]
pub(crate) fn json_pretty(doc: &serde_json::Value) -> (r: Option<String>)
    ensures
        text_view(r) == json_pretty_of(*doc),
{
    serde_json::to_string_pretty(doc).ok()
}

/// The text in pretty print, if it is a JSON document.
pub(crate) fn pretty_json(text: &str) -> (r: Option<String>)
    ensures
        text_view(r) == json_pretty_text(text@),
{
    match json_parse(text) {
        Ok(doc) => json_pretty(&doc),
        Err(_) => None,
    }
}

/// The view of an optional string.
pub open spec fn text_view(o: Option<String>) -> Option<Seq<char>> {
    match o {
        Some(s) => Some(s@),
        None => None,
    }
}

/// An optional string member: absent and `null` both mean "not given", a
/// string is taken, anything else makes the document unusable (outer `None`).
pub open spec fn optional_text(shape: JsonShape) -> Option<Option<Seq<char>>> {
    match shape {
        JsonShape::Absent => Some(None),
        JsonShape::Null => Some(None),
        JsonShape::Text(s) => Some(Some(s)),
        _ => None,
    }
}

/// A required string member: only a string will do.
pub open spec fn required_text(shape: JsonShape) -> Option<Seq<char>> {
    match shape {
        JsonShape::Text(s) => Some(s),
        _ => None,
    }
}

/// Reads an optional string member from a probe.
pub fn take_optional_text(probe: JsonProbe) -> (r: Option<Option<String>>)
    ensures
        match r {
            Some(inner) => optional_text(probe@) == Some(text_view(inner)),
            None => optional_text(probe@) is None,
        },
{
    match probe {
        JsonProbe::Absent => Some(None),
        JsonProbe::Null => Some(None),
        JsonProbe::Text(s) => Some(Some(s)),
        _ => None,
    }
}

/// Reads a required string member from a probe.
pub fn take_required_text(probe: JsonProbe) -> (r: Option<String>)
    ensures
        text_view(r) == required_text(probe@),
{
    match probe {
        JsonProbe::Text(s) => Some(s),
        _ => None,
    }
}

} // verus!
