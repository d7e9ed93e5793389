//! Reading the format parameters of requests to the workbench's web API.
use vstd::prelude::*;
use crate::model::ValidationReportFormat;
use crate::format::{RdfFormat, parse_result_ok};
use crate::error::{LodError, error_heading, error_detail};
use crate::text::{chars_of, string_of, lower, lower_chars, is_literal, push_all, push_lit};

verus! {

/// The report format a request names: JSON when it names none; `json`,
/// `html`, `text` or `txt` in any ASCII case; otherwise the message naming
/// the unsupported (lower-cased) value.
pub open spec fn report_format_named(value: Option<Seq<char>>) -> Result<ValidationReportFormat, Seq<char>> {
    match value {
        None => Ok(ValidationReportFormat::Json),
        Some(v) => {
            let l = lower(v);
            if l == "json"@ {
                Ok(ValidationReportFormat::Json)
            } else if l == "html"@ {
                Ok(ValidationReportFormat::Html)
            } else if l == "text"@ || l == "txt"@ {
                Ok(ValidationReportFormat::Text)
            } else {
                Err("unsupported validation report format: "@ + l)
            }
        },
    }
}

/// The report format a request names.
pub fn parse_report_format(value: Option<&str>) -> (r: Result<ValidationReportFormat, String>)
    ensures
        match report_format_named(match value {
            Some(v) => Some(v@),
            None => None,
        }) {
            Ok(f) => r == Ok::<ValidationReportFormat, String>(f),
            Err(m) => r is Err && r->Err_0@ == m,
        },
{
    match value {
        None => Ok(ValidationReportFormat::Json),
        Some(v) => {
            let l = lower_chars(&chars_of(v));
            if is_literal(&l, "json") {
                Ok(ValidationReportFormat::Json)
            } else if is_literal(&l, "html") {
                Ok(ValidationReportFormat::Html)
            } else if is_literal(&l, "text") || is_literal(&l, "txt") {
                Ok(ValidationReportFormat::Text)
            } else {
                let mut m = chars_of("unsupported validation report format: ");
                push_all(&mut m, &l);
                Err(string_of(&m))
            }
        },
    }
}

/// The RDF format a request may name: nothing when it names none, the
/// format it names, or the message of the error.
pub fn parse_optional_rdf_format(value: Option<&str>) -> (r: Result<Option<RdfFormat>, String>)
    ensures
        match value {
            None => r == Ok::<Option<RdfFormat>, String>(None),
            Some(v) => exists|p: Result<RdfFormat, LodError>| #[trigger] parse_result_ok(v@, p) && match p {
                Ok(f) => r == Ok::<Option<RdfFormat>, String>(Some(f)),
                Err(e) => r is Err && r->Err_0@ == error_heading(e) + error_detail(e),
            },
        },
{
    match value {
        None => Ok(None),
        Some(v) => {
            let p = RdfFormat::parse(v);
            let ghost pp = p;
            let r = match p {
                Ok(f) => Ok(Some(f)),
                Err(e) => Err(e.to_string()),
            };
            assert(parse_result_ok(v@, pp));
            r
        },
    }
}

} // verus!
