//! Core library of the LOD workbench: an RDF graph model, parsers and
//! serializers for Turtle, N-Triples, JSON-LD, RDF/XML and TriG, and the
//! inspection, validation, conversion, mapping and visualization services.
use vstd::prelude::*;

pub mod text;
pub mod model;
pub mod error;
pub mod format;
pub mod lexer;
pub mod terms;
pub mod turtle;
pub mod document;
pub mod printed;
pub mod reading;
pub mod json;
pub mod normal;
pub mod writing;
pub mod oxwrite;
pub mod parser;
pub mod validate;
pub mod shacl;
pub mod report;
pub mod inspect;
pub mod visualize;
pub mod map;
pub mod convert;
pub mod facade;
pub mod requests;
pub mod laws;

pub use error::LodError;
pub use facade::LodWorkbench;
pub use format::RdfFormat;
pub use model::{
    Node, Triple, LodGraph, SortedMap, VisualizationNode, VisualizationEdge, VisualizationGraph, InspectionReport,
    ValidationIssue, ValidationReportFormat, ValidationReport, ConversionRequest, InspectionRequest, ValidationRequest,
    MappingRequest, VisualizationRequest,
};
pub use convert::ConversionService;
pub use inspect::InspectionService;
pub use validate::{ValidationService, ShapesFile};
pub use map::{MappingService, MappingConfig, ColumnMapping};
pub use visualize::VisualizationService;
pub use report::{validation_text, validation_html};

verus! {

} // verus!
