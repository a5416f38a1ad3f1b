//! The record parser: one raw text line becomes a `LogRecord` — the
//! application name together with the optional measurements — or a
//! `ParseError` naming what was wrong with the line.

use vstd::prelude::*;
use crate::json::{
    JsonField, doc_fields, field_as_i64, field_as_str, field_shape, get_field, json_doc_of,
    parse_json,
};

verus! {

/// Which field of a record an error points at.
#[derive(Clone, Copy, PartialEq, Eq, Structural, Debug)]
pub enum FieldName {
    App,
    CpuTime,
    IoWait,
}

/// Why one line failed to parse.
#[derive(Clone, Copy, PartialEq, Eq, Structural, Debug)]
pub enum ParseError {
    /// The line is not valid JSON.
    InvalidJson,
    /// The named field is absent (for the required `app`) or has the wrong
    /// type (a non-string `app`, a non-integer measurement).
    MissingOrInvalidField(FieldName),
}

/// One parsed log line.  An absent measurement stays absent here — it is
/// collapsed to zero only when folded into the totals.
pub struct LogRecord {
    pub app: String,
    pub cpu_time: Option<i64>,
    pub io_wait: Option<i64>,
}

/// The characters of a string-shaped field.
pub open spec fn field_str(f: JsonField) -> Seq<char> {
    match f {
        JsonField::Str(s) => s,
        _ => Seq::empty(),
    }
}

/// The number held by an integer-shaped field.
pub open spec fn field_int(f: JsonField) -> i64 {
    match f {
        JsonField::Int(n) => n,
        _ => 0,
    }
}

/// The value of an optional integer field of `doc`: `None` when absent.
pub open spec fn opt_int_field(doc: Map<Seq<char>, JsonField>, key: Seq<char>) -> Option<i64> {
    if doc.dom().contains(key) {
        Some(field_int(doc[key]))
    } else {
        None
    }
}

/// The record described by a document with the given top-level fields, or
/// the first error among: no string `app`, a non-integer `cpu_time`, a
/// non-integer `io_wait`.
pub open spec fn doc_record(doc: Map<Seq<char>, JsonField>) -> Result<
    (Seq<char>, Option<i64>, Option<i64>),
    ParseError,
> {
    if !(doc.dom().contains("app"@) && doc["app"@] is Str) {
        Err(ParseError::MissingOrInvalidField(FieldName::App))
    } else if doc.dom().contains("cpu_time"@) && !(doc["cpu_time"@] is Int) {
        Err(ParseError::MissingOrInvalidField(FieldName::CpuTime))
    } else if doc.dom().contains("io_wait"@) && !(doc["io_wait"@] is Int) {
        Err(ParseError::MissingOrInvalidField(FieldName::IoWait))
    } else {
        Ok(
            (
                field_str(doc["app"@]),
                opt_int_field(doc, "cpu_time"@),
                opt_int_field(doc, "io_wait"@),
            ),
        )
    }
}

/// The outcome of parsing one raw line: `InvalidJson` when the line is not
/// valid JSON, else whatever record or error its document describes.
pub open spec fn line_record(s: Seq<char>) -> Result<
    (Seq<char>, Option<i64>, Option<i64>),
    ParseError,
> {
    match json_doc_of(s) {
        Option::None => Err(ParseError::InvalidJson),
        Option::Some(doc) => doc_record(doc),
    }
}

/// Parse one raw line into a `LogRecord`, or fail with the error that
/// `line_record` assigns to the line.
pub fn parse_record(line: &str) -> (r: Result<LogRecord, ParseError>)
    ensures
        match r {
            Ok(rec) => line_record(line@) matches Ok(m) && rec.app@ == m.0 && rec.cpu_time == m.1
                && rec.io_wait == m.2,
            Err(e) => line_record(line@) == Err::<(Seq<char>, Option<i64>, Option<i64>),
                ParseError,
            >(e),
        },
{
    let doc = match parse_json(line) {
        Ok(v) => v,
        Err(_) => {
            return Err(ParseError::InvalidJson);
        },
    };
    let app: String = match get_field(&doc, "app") {
        Some(f) => match field_as_str(f) {
            Some(s) => s.to_owned(),
            None => {
                return Err(ParseError::MissingOrInvalidField(FieldName::App));
            },
        },
        None => {
            return Err(ParseError::MissingOrInvalidField(FieldName::App));
        },
    };
    let cpu_time: Option<i64> = match get_field(&doc, "cpu_time") {
        Some(f) => match field_as_i64(f) {
            Some(n) => Some(n),
            None => {
                return Err(ParseError::MissingOrInvalidField(FieldName::CpuTime));
            },
        },
        None => None,
    };
    let io_wait: Option<i64> = match get_field(&doc, "io_wait") {
        Some(f) => match field_as_i64(f) {
            Some(n) => Some(n),
            None => {
                return Err(ParseError::MissingOrInvalidField(FieldName::IoWait));
            },
        },
        None => None,
    };
    Ok(LogRecord { app, cpu_time, io_wait })
}

} // verus!
