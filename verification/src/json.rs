//! The boundary to the JSON library: the document type it returns is opaque
//! here, so its parse result and the fields a document holds are given names
//! that the contracts of the thin call wrappers below speak of.

use vstd::prelude::*;

verus! {

#[verifier::external_type_specification]
#[verifier::external_body]
pub struct ExValue(serde_json::Value);

#[verifier::external_type_specification]
#[verifier::external_body]
pub struct ExError(serde_json::Error);

/// The scalar shape of one JSON value as this library reads it: a string, an
/// integer representable as `i64`, or anything else (null, boolean, other
/// numbers, arrays, objects).
pub enum JsonField {
    Str(Seq<char>),
    Int(i64),
    Other,
}

/// The top-level fields of the JSON document written in `s`, keyed by field
/// name, or `None` when `s` is not valid JSON.  A valid document that is not
/// an object holds no fields.
pub uninterp spec fn json_doc_of(s: Seq<char>) -> Option<Map<Seq<char>, JsonField>>;

/// The top-level fields that a parsed document value holds, keyed by field
/// name; empty when the value is not an object.
pub uninterp spec fn doc_fields(v: serde_json::Value) -> Map<Seq<char>, JsonField>;

/// The scalar shape of one document value.
pub uninterp spec fn field_shape(v: serde_json::Value) -> JsonField;

/// Relies on serde_json::from_str: it succeeds exactly on valid JSON text,
/// and the document it returns is a function of the text alone.
#[verifier::external_body]
pub(crate) fn parse_json(s: &str) -> (r: Result<serde_json::Value, serde_json::Error>)
    ensures
        r is Ok <==> json_doc_of(s@) is Some,
        r matches Ok(v) ==> json_doc_of(s@) == Some(doc_fields(v)),
{
    serde_json::from_str::<serde_json::Value>(s)
}

/// Relies on serde_json::Value::get with a string index: `Some` exactly when
/// the value is an object with that key, holding that field's value.
#[verifier::external_body]
pub(crate) fn get_field<'a>(v: &'a serde_json::Value, key: &str) -> (r: Option<
    &'a serde_json::Value,
>)
    ensures
        r is Some <==> doc_fields(*v).dom().contains(key@),
        r matches Some(f) ==> field_shape(*f) == doc_fields(*v)[key@],
{
    v.get(key)
}

/// Relies on serde_json::Value::as_str: `Some` with the characters exactly
/// when the value is a JSON string.
#[verifier::external_body]
pub(crate) fn field_as_str<'a>(v: &'a serde_json::Value) -> (r: Option<&'a str>)
    ensures
        r is Some <==> field_shape(*v) is Str,
        r matches Some(s) ==> field_shape(*v) == JsonField::Str(s@),
{
    v.as_str()
}

/// Relies on serde_json::Value::as_i64: `Some` with the number exactly when
/// the value is an integer representable as `i64`.
#[verifier::external_body]
pub(crate) fn field_as_i64(v: &serde_json::Value) -> (r: Option<i64>)
    ensures
        r is Some <==> field_shape(*v) is Int,
        r matches Some(n) ==> field_shape(*v) == JsonField::Int(n),
{
    v.as_i64()
}

} // verus!
