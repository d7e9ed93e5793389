//! The library's error type.
use vstd::prelude::*;
use vstd::string::StringExecFns;

verus! {

/// Why an operation of the library failed; each variant carries its message.
#[derive(Debug)]
pub enum LodError {
    UnsupportedFormat(String),
    Io(String),
    Csv(String),
    Yaml(String),
    Json(String),
    RdfParsing(String),
    Mapping(String),
    Validation(String),
}

/// `prefix` followed by `s`.
pub fn prefixed(prefix: &str, s: &str) -> (r: String)
    ensures
        r@ == prefix@ + s@,
{
    let mut r = String::from_str(prefix);
    r.append(s);
    r
}

/// The heading that the message of each kind of error starts with.
pub open spec fn error_heading(e: LodError) -> Seq<char> {
    match e {
        LodError::UnsupportedFormat(_) => "unsupported RDF format: "@,
        LodError::Io(_) => "I/O error: "@,
        LodError::Csv(_) => "CSV error: "@,
        LodError::Yaml(_) => "YAML error: "@,
        LodError::Json(_) => "JSON error: "@,
        LodError::RdfParsing(_) => "RDF parsing error: "@,
        LodError::Mapping(_) => "mapping error: "@,
        LodError::Validation(_) => "validation error: "@,
    }
}

/// The detail carried by an error.
pub open spec fn error_detail(e: LodError) -> Seq<char> {
    match e {
        LodError::UnsupportedFormat(s) => s@,
        LodError::Io(s) => s@,
        LodError::Csv(s) => s@,
        LodError::Yaml(s) => s@,
        LodError::Json(s) => s@,
        LodError::RdfParsing(s) => s@,
        LodError::Mapping(s) => s@,
        LodError::Validation(s) => s@,
    }
}

impl LodError {
    /// The human-readable message: the heading of the kind of error followed by its detail.
    pub fn to_string(&self) -> (r: String)
        ensures
            r@ == error_heading(*self) + error_detail(*self),
    {
        match self {
            LodError::UnsupportedFormat(s) => prefixed("unsupported RDF format: ", s.as_str()),
            LodError::Io(s) => prefixed("I/O error: ", s.as_str()),
            LodError::Csv(s) => prefixed("CSV error: ", s.as_str()),
            LodError::Yaml(s) => prefixed("YAML error: ", s.as_str()),
            LodError::Json(s) => prefixed("JSON error: ", s.as_str()),
            LodError::RdfParsing(s) => prefixed("RDF parsing error: ", s.as_str()),
            LodError::Mapping(s) => prefixed("mapping error: ", s.as_str()),
            LodError::Validation(s) => prefixed("validation error: ", s.as_str()),
        }
    }
}

} // verus!
