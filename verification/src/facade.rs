//! One entry point to the conversion, inspection, validation, mapping and
//! visualization services.
use vstd::prelude::*;
use crate::model::{
    LodGraph, ConversionRequest, InspectionRequest, InspectionReport, ValidationRequest, ValidationReport, MappingRequest,
    VisualizationRequest, VisualizationGraph,
};
use crate::error::LodError;
use crate::format::RdfFormat;
use crate::convert::{ConversionService, conversion_outcome};
use crate::inspect::{InspectionService, content_inspection, request_inspection};
use crate::validate::{ValidationService, ShapesFile, content_validation, inline_validation, request_validation};
use crate::map::{MappingService, MappingConfig, mapping_request_outcome};
use crate::visualize::{VisualizationService, drawing_outcome};

verus! {

/// The services of the workbench behind one value.
pub struct LodWorkbench {
    converter: ConversionService,
    inspector: InspectionService,
    validator: ValidationService,
    mapper: MappingService,
    visualizer: VisualizationService,
}

impl LodWorkbench {
    /// Each service in its place.
    pub closed spec fn wired(self) -> bool {
        self == LodWorkbench {
            converter: ConversionService,
            inspector: InspectionService,
            validator: ValidationService,
            mapper: MappingService,
            visualizer: VisualizationService,
        }
    }
}

impl Default for LodWorkbench {
    fn default() -> (r: Self)
        ensures
            r.wired(),
    {
        LodWorkbench {
            converter: ConversionService,
            inspector: InspectionService,
            validator: ValidationService,
            mapper: MappingService,
            visualizer: VisualizationService,
        }
    }
}

impl LodWorkbench {
    /// See `ConversionService::convert`.
    pub fn convert(&self, req: ConversionRequest, input: Result<String, LodError>) -> (r: Result<String, LodError>)
        requires
            input matches Ok(c) ==> c@.len() < usize::MAX,
        ensures
            conversion_outcome(req, input, r),
    {
        self.converter.convert(req, input)
    }

    /// See `InspectionService::inspect`.
    pub fn inspect(&self, req: InspectionRequest, content: Result<String, LodError>) -> (r: Result<InspectionReport, LodError>)
        requires
            content matches Ok(c) ==> c@.len() < usize::MAX,
        ensures
            request_inspection(req, content, r),
    {
        self.inspector.inspect(req, content)
    }

    /// See `InspectionService::inspect_content`.
    pub fn inspect_content(&self, content: &str, format: RdfFormat) -> (r: Result<InspectionReport, LodError>)
        requires
            content@.len() < usize::MAX,
        ensures
            content_inspection(content@, format, r),
    {
        self.inspector.inspect_content(content, format)
    }

    /// See `ValidationService::validate`.
    pub fn validate(&self, req: ValidationRequest, data: Result<String, LodError>, shapes: Result<String, LodError>) -> (r:
        Result<ValidationReport, LodError>)
        requires
            data matches Ok(c) ==> c@.len() < usize::MAX,
            shapes matches Ok(c) ==> c@.len() < usize::MAX,
        ensures
            request_validation(req, data, shapes, r),
    {
        self.validator.validate(req, data, shapes)
    }

    /// See `ValidationService::validate_content`.
    pub fn validate_content(&self, content: &str, format: RdfFormat, shapes_graph: Option<ShapesFile>) -> (r: Result<
        ValidationReport,
        LodError,
    >)
        requires
            content@.len() < usize::MAX,
            shapes_graph matches Some(f) ==> (f.content matches Ok(c) ==> c@.len() < usize::MAX),
        ensures
            content_validation(content@, format, shapes_graph, r),
    {
        self.validator.validate_content(content, format, shapes_graph)
    }

    /// See `ValidationService::validate_content_with_format`.
    pub fn validate_content_with_format(&self, content: &str, format: RdfFormat, shapes_graph: Option<ShapesFile>) -> (r:
        Result<ValidationReport, LodError>)
        requires
            content@.len() < usize::MAX,
            shapes_graph matches Some(f) ==> (f.content matches Ok(c) ==> c@.len() < usize::MAX),
        ensures
            content_validation(content@, format, shapes_graph, r),
    {
        self.validator.validate_content_with_format(content, format, shapes_graph)
    }

    /// See `ValidationService::validate_content_with_shapes`.
    pub fn validate_content_with_shapes(
        &self,
        content: &str,
        format: RdfFormat,
        shapes_content: Option<&str>,
        shapes_format: Option<RdfFormat>,
    ) -> (r: Result<ValidationReport, LodError>)
        requires
            content@.len() < usize::MAX,
            shapes_content matches Some(c) ==> c@.len() < usize::MAX,
        ensures
            inline_validation(content@, format, shapes_content, shapes_format, false, r),
    {
        self.validator.validate_content_with_shapes(content, format, shapes_content, shapes_format)
    }

    /// See `ValidationService::validate_content_with_shapes_report`.
    pub fn validate_content_with_shapes_report(
        &self,
        content: &str,
        format: RdfFormat,
        shapes_content: Option<&str>,
        shapes_format: Option<RdfFormat>,
    ) -> (r: Result<ValidationReport, LodError>)
        requires
            content@.len() < usize::MAX,
            shapes_content matches Some(c) ==> c@.len() < usize::MAX,
        ensures
            inline_validation(content@, format, shapes_content, shapes_format, true, r),
    {
        self.validator.validate_content_with_shapes_report(content, format, shapes_content, shapes_format)
    }

    /// See `MappingService::map_csv_to_rdf`.
    pub fn map_csv_to_rdf(
        &self,
        req: MappingRequest,
        mapping: Result<MappingConfig, LodError>,
        csv: Result<String, LodError>,
    ) -> (r: Result<String, LodError>)
        ensures
            mapping_request_outcome(req, mapping, csv, r),
    {
        self.mapper.map_csv_to_rdf(req, mapping, csv)
    }

    /// See `VisualizationService::visualize`.
    pub fn visualize(&self, req: VisualizationRequest, content: Result<String, LodError>) -> (r: Result<
        VisualizationGraph,
        LodError,
    >)
        requires
            content matches Ok(c) ==> c@.len() < usize::MAX,
        ensures
            drawing_outcome(req, content, r),
    {
        self.visualizer.visualize(req, content)
    }
}

} // verus!
