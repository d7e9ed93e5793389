//! Converting a graph file from one RDF format to another.
use vstd::prelude::*;
use crate::model::{LodGraph, ConversionRequest};
use crate::error::LodError;
use crate::format::{RdfFormat, format_named};
use crate::parser::{read_graph_content, file_outcome, serialize_graph, written};
use crate::validate::format_of_path;
use crate::text::{lower, trim};

verus! {

/// Conversion between RDF formats.
pub struct ConversionService;

/// The format a conversion uses for one side: the one named, else the one
/// the path names; or the unsupported name.
pub open spec fn side_format(name: Option<String>, path: Seq<char>) -> Result<RdfFormat, Seq<char>> {
    match name {
        Some(n) => match format_named(lower(trim(n@))) {
            Some(f) => Ok(f),
            None => Err(lower(trim(n@))),
        },
        None => format_of_path(path),
    }
}

impl ConversionService {
    fn side(name: &Option<String>, path: &String) -> (r: Result<RdfFormat, LodError>)
        ensures
            match side_format(*name, path@) {
                Ok(f) => r == Ok::<RdfFormat, LodError>(f),
                Err(key) => r matches Err(LodError::UnsupportedFormat(s)) && s@ == key,
            },
    {
        match name {
            Some(s) => RdfFormat::parse(s.as_str()),
            None => RdfFormat::from_path(path.as_str()),
        }
    }

    /// Converts the file a request names: `input` is what reading it gave;
    /// the result is the text to write to the output path. The source
    /// format, then the target format, then the read are checked in turn.
    pub fn convert(&self, req: ConversionRequest, input: Result<String, LodError>) -> (r: Result<String, LodError>)
        requires
            input matches Ok(c) ==> c@.len() < usize::MAX,
        ensures
            conversion_outcome(req, input, r),
    {
        let from = match Self::side(&req.source_format, &req.input_path) {
            Ok(f) => f,
            Err(e) => {
                return Err(e);
            },
        };
        let to = match Self::side(&req.target_format, &req.output_path) {
            Ok(f) => f,
            Err(e) => {
                return Err(e);
            },
        };
        let content = match input {
            Ok(c) => c,
            Err(e) => {
                return Err(e);
            },
        };
        let g = read_graph_content(content.as_str(), from);
        let ghost gg = g;
        assert(file_outcome(content@, from, gg));
        match g {
            Ok(graph) => serialize_graph(&graph, to),
            Err(e) => Err(e),
        }
    }
}

} // verus!

verus! {

/// What converting the file a request names gives.
pub open spec fn conversion_outcome(req: ConversionRequest, input: Result<String, LodError>, r: Result<String, LodError>) -> bool {
    match side_format(req.source_format, req.input_path@) {
        Err(key) => r matches Err(LodError::UnsupportedFormat(s)) && s@ == key,
        Ok(from) => match side_format(req.target_format, req.output_path@) {
            Err(key) => r matches Err(LodError::UnsupportedFormat(s)) && s@ == key,
            Ok(to) => match input {
                Err(e) => r == Err::<String, LodError>(e),
                Ok(c) => exists|g: Result<LodGraph, LodError>| #[trigger] file_outcome(c@, from, g) && match g {
                    Err(e) => r == Err::<String, LodError>(e),
                    Ok(graph) => written(graph, to, r),
                },
            },
        },
    }
}

} // verus!
