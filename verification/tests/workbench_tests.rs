use lod_core::model::{ConversionRequest, InspectionRequest, MappingRequest, ValidationRequest, VisualizationRequest};
use lod_core::{
    ConversionService, InspectionService, LodError, LodWorkbench, MappingService, RdfFormat, ValidationService,
    VisualizationService,
};

fn missing() -> LodError {
    LodError::Io("No such file or directory (os error 2)".to_string())
}

#[test]
fn lod_workbench_default_constructs() {
    let wb = LodWorkbench::default();
    // Validate with no shapes: the data file could not be read.
    let req = ValidationRequest {
        data_graph_path: String::new(),
        shapes_graph_path: None,
        report_path: None,
        report_format: None,
    };
    let _ = wb.validate(req, Err(missing()), Ok(String::new()));
}

#[test]
fn inspection_service_errors_on_missing_file() {
    let svc = InspectionService;
    let req = InspectionRequest {
        input_path: "/nonexistent/file.ttl".into(),
        input_format: Some("turtle".into()),
        json_output: None,
    };
    let result = svc.inspect(req, Err(missing()));
    assert!(result.is_err());
}

#[test]
fn validation_service_errors_on_missing_file() {
    let svc = ValidationService;
    let req = ValidationRequest {
        data_graph_path: "/nonexistent/file.ttl".into(),
        shapes_graph_path: None,
        report_path: None,
        report_format: None,
    };
    let result = svc.validate(req, Err(missing()), Ok(String::new()));
    assert!(result.is_err());
}

#[test]
fn visualization_service_errors_on_missing_file() {
    let svc = VisualizationService;
    let req = VisualizationRequest {
        input_path: "/nonexistent/file.ttl".into(),
        input_format: Some("turtle".into()),
        output_path: "/tmp/out.html".into(),
    };
    let result = svc.visualize(req, Err(missing()));
    assert!(result.is_err());
}

#[test]
fn format_from_path_extension() {
    assert_eq!(RdfFormat::from_path("data.ttl").unwrap(), RdfFormat::Turtle);
    assert_eq!(RdfFormat::from_path("data.nt").unwrap(), RdfFormat::NTriples);
    assert_eq!(RdfFormat::from_path("data.jsonld").unwrap(), RdfFormat::JsonLd);
    assert!(RdfFormat::from_path("data.xyz").is_err());
}

#[test]
fn conversion_service_rejects_bad_format() {
    let svc = ConversionService;
    let req = ConversionRequest {
        input_path: "in.ttl".into(),
        output_path: "out.nt".into(),
        source_format: Some("bad-format".into()),
        target_format: None,
    };
    let result = svc.convert(req, Ok(String::new()));
    assert!(result.is_err());
}

#[test]
fn mapping_service_rejects_missing_files() {
    let svc = MappingService;
    let req = MappingRequest {
        input_path: "/nonexistent.csv".into(),
        mapping_path: "/nonexistent.yml".into(),
        output_path: "/tmp/out.ttl".into(),
        output_format: Some("turtle".into()),
    };
    let result = svc.map_csv_to_rdf(req, Err(missing()), Err(missing()));
    assert!(result.is_err());
}
