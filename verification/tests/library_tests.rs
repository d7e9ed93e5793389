use lod_core::map::{expand, slug};
use lod_core::model::{Node, Triple, LodGraph, SortedMap, ValidationIssue, ValidationReportFormat};
use lod_core::normal::dedup_triples;
use lod_core::shacl::{merge_detail_cell, normalize_shacl_severity};
use lod_core::report::{escape, infer_report_format};
use lod_core::requests::parse_report_format;
use lod_core::terms::fresh_blank_id;
use lod_core::validate::{strip_ansi_escape_sequences, validate_graph};
use lod_core::visualize::short;
use lod_core::writing::serialize_ntriples;
use lod_core::{parser, ColumnMapping, InspectionService, LodError, MappingConfig, MappingService, RdfFormat};

fn iri(s: &str) -> Node {
    Node::Iri(s.to_string())
}

fn lit(s: &str) -> Node {
    Node::Literal { value: s.to_string(), datatype: None, lang: None }
}

fn graph_of(triples: Vec<Triple>) -> LodGraph {
    let mut g = LodGraph::new();
    g.triples = triples;
    g
}

// ---------------------------------------------------------------------------
// The sorted map: a read gives back the last write
// ---------------------------------------------------------------------------

#[test]
fn sorted_map_reads_back_last_write() {
    let mut m: SortedMap<u32> = SortedMap::new();
    m.insert("b".to_string(), 2);
    m.insert("a".to_string(), 1);
    m.insert("b".to_string(), 3);
    assert_eq!(m.len(), 2);
    assert_eq!(m.get("b"), Some(&3));
    assert_eq!(m.get("a"), Some(&1));
    assert_eq!(m.get("c"), None);
    assert_eq!(m.entry_at(0).0, "a");
    assert_eq!(m.entry_at(1).0, "b");
}

// ---------------------------------------------------------------------------
// Validation: an IRI with a space is the one violation
// ---------------------------------------------------------------------------

fn checked(g: &LodGraph) -> Vec<ValidationIssue> {
    let mut issues = Vec::new();
    validate_graph(g, &mut issues, &"data.ttl".to_string());
    issues
}

#[test]
fn spaced_iri_is_a_violation() {
    let g = graph_of(vec![Triple {
        subject: iri("https://example.org/a b"),
        predicate: "https://example.org/p".to_string(),
        object: lit("x"),
    }]);
    let issues = checked(&g);
    assert!(issues.iter().any(|i| i.severity == "Violation" && i.message == "IRI contains spaces: https://example.org/a b"));
}

#[test]
fn non_http_iri_is_only_a_warning() {
    let g = graph_of(vec![Triple {
        subject: iri("urn:example:a"),
        predicate: "https://example.org/p".to_string(),
        object: lit("x"),
    }]);
    let issues = checked(&g);
    assert!(issues.iter().all(|i| i.severity != "Violation"));
    assert!(issues.iter().any(|i| i.severity == "Warning" && i.message == "IRI is not dereferenceable HTTP(S): urn:example:a"));
}

#[test]
fn validation_conforms_on_clean_data() {
    let wb = lod_core::LodWorkbench::default();
    let ttl = "@prefix ex: <https://example.org/> .\nex:a ex:b \"c\" .\n";
    let report = wb.validate_content(ttl, RdfFormat::Turtle, None).unwrap();
    assert!(report.conforms);
}

#[test]
fn validation_refuses_spaced_iri_in_ntriples() {
    let wb = lod_core::LodWorkbench::default();
    let nt = "<https://example.org/a> <https://example.org/p> <https://example.org/b c> .\n";
    let report = wb.validate_content(nt, RdfFormat::NTriples, None).unwrap();
    assert!(!report.conforms);
}

// ---------------------------------------------------------------------------
// Inspection: the counts add up
// ---------------------------------------------------------------------------

#[test]
fn inspection_counts_add_up() {
    let ttl = "@prefix ex: <https://example.org/> .\n\
               ex:a a ex:Person ; ex:name \"Ada\" ; ex:knows _:b .\n\
               _:b a ex:Person .\n";
    let report = InspectionService.inspect_content(ttl, RdfFormat::Turtle).unwrap();
    assert_eq!(report.triples, 4);
    assert_eq!(report.iris + report.literals + report.blank_nodes, 2 * report.triples);
    assert_eq!(report.literals, 1);
    assert_eq!(report.blank_nodes, 2);
    assert_eq!(report.iris, 5);
    assert_eq!(report.subjects, 2);
    assert_eq!(report.predicates, 3);
    assert_eq!(report.properties, report.predicates);
    let mut total = 0;
    for i in 0..report.property_distribution.len() {
        total += report.property_distribution.entry_at(i).1;
    }
    assert_eq!(total, report.triples);
    assert_eq!(report.class_distribution.get("https://example.org/Person"), Some(&2));
}

// ---------------------------------------------------------------------------
// Escaping and reading back
// ---------------------------------------------------------------------------

#[test]
fn html_escape_replaces_markup() {
    assert_eq!(escape("<a & b>"), "&#60;a &#38; b&#62;");
    assert!(!escape("<<>>").contains('<'));
}

#[test]
fn escaped_literal_reads_back() {
    let value = "say \"hi\" \\ bye";
    let g = graph_of(vec![Triple {
        subject: iri("https://example.org/a"),
        predicate: "https://example.org/p".to_string(),
        object: lit(value),
    }]);
    let nt = serialize_ntriples(&g);
    assert!(nt.contains("\"say \\\"hi\\\" \\\\ bye\""));
    let back = parser::parse_graph(&nt, RdfFormat::NTriples).unwrap();
    assert_eq!(back.triples.len(), 1);
    assert_eq!(back.triples[0].object, lit(value));
}

#[test]
fn dedup_keeps_one_of_each_run() {
    let t1 = Triple { subject: iri("https://e.org/a"), predicate: "https://e.org/p".into(), object: lit("1") };
    let t2 = Triple { subject: iri("https://e.org/a"), predicate: "https://e.org/p".into(), object: lit("2") };
    let d = dedup_triples(&vec![t1.clone(), t1.clone(), t2.clone(), t2.clone()]);
    assert_eq!(d, vec![t1, t2]);
}

// ---------------------------------------------------------------------------
// Small formulas
// ---------------------------------------------------------------------------

#[test]
fn slug_trims_and_dashes() {
    assert_eq!(slug("  Ada Lovelace/UK "), "Ada-Lovelace-UK");
}

#[test]
fn expand_uses_known_prefixes_only() {
    let mut prefixes: SortedMap<String> = SortedMap::new();
    prefixes.insert("ex".to_string(), "https://example.org/".to_string());
    assert_eq!(expand("ex:name", &prefixes), "https://example.org/name");
    assert_eq!(expand("foo:name", &prefixes), "foo:name");
    assert_eq!(expand("https://other.org/x", &prefixes), "https://other.org/x");
}

#[test]
fn short_label_is_last_segment() {
    assert_eq!(short("https://example.org/people#ada"), "ada");
    assert_eq!(short("https://example.org/people/ada"), "ada");
    let long = format!("https://example.org/{}", "x".repeat(50));
    assert_eq!(short(&long), "x".repeat(42));
}

#[test]
fn report_format_names() {
    assert_eq!(parse_report_format(None), Ok(ValidationReportFormat::Json));
    assert_eq!(parse_report_format(Some("HTML")), Ok(ValidationReportFormat::Html));
    assert_eq!(parse_report_format(Some("txt")), Ok(ValidationReportFormat::Text));
    assert_eq!(parse_report_format(Some("pdf")), Err("unsupported validation report format: pdf".to_string()));
}

#[test]
fn report_format_from_file_name() {
    assert_eq!(infer_report_format("out/report.html"), Some(ValidationReportFormat::Html));
    assert_eq!(infer_report_format("out/report.json"), Some(ValidationReportFormat::Json));
    assert_eq!(infer_report_format("out/report.txt"), Some(ValidationReportFormat::Text));
    assert_eq!(infer_report_format("out/report.pdf"), None);
}

#[test]
fn ansi_sequences_are_removed() {
    assert_eq!(strip_ansi_escape_sequences("\u{1b}[1;31mError\u{1b}[0m done"), "Error done");
}

#[test]
fn blank_ids_count_up() {
    let mut n: usize = 7;
    assert_eq!(fresh_blank_id(&mut n), "_:b7");
    assert_eq!(n, 8);
}

// ---------------------------------------------------------------------------
// Errors, one per variant that the library gives
// ---------------------------------------------------------------------------

#[test]
fn error_messages_name_their_kind() {
    assert_eq!(LodError::Csv("x".into()).to_string(), "CSV error: x");
    assert_eq!(LodError::Io("x".into()).to_string(), "I/O error: x");
    assert_eq!(LodError::Validation("x".into()).to_string(), "validation error: x");
}

#[test]
fn unknown_format_is_unsupported() {
    assert!(matches!(RdfFormat::parse("klingon"), Err(LodError::UnsupportedFormat(_))));
}

#[test]
fn bad_turtle_is_a_parsing_error() {
    assert!(matches!(parser::parse_graph("ex:a ex:b", RdfFormat::Turtle), Err(LodError::RdfParsing(_))));
}

#[test]
fn bad_json_is_a_json_error() {
    assert!(matches!(parser::parse_graph("{", RdfFormat::JsonLd), Err(LodError::Json(_))));
}

#[test]
fn named_graphs_cannot_be_written_as_rdfxml() {
    let trig = "<https://example.org/g> { <https://example.org/a> <https://example.org/p> \"x\" . }\n";
    let g = parser::parse_graph(trig, RdfFormat::TriG).unwrap();
    assert_eq!(g.named_graphs.len(), 1);
    assert!(matches!(parser::serialize_graph(&g, RdfFormat::RdfXml), Err(LodError::Validation(_))));
}

fn mapping_config() -> MappingConfig {
    let mut prefixes: SortedMap<String> = SortedMap::new();
    prefixes.insert("ex".to_string(), "https://example.org/".to_string());
    let mut columns: SortedMap<ColumnMapping> = SortedMap::new();
    columns.insert(
        "name".to_string(),
        ColumnMapping { predicate: "ex:name".to_string(), datatype: None, lang: Some("en".to_string()) },
    );
    MappingConfig {
        base_uri: "https://example.org/person/".to_string(),
        subject_column: "id".to_string(),
        class_uri: "ex:Person".to_string(),
        prefixes,
        columns,
    }
}

#[test]
fn csv_rows_become_triples() {
    let g = MappingService.map_graph(&mapping_config(), "id,name\nada l,Ada\n,Nobody\n").unwrap();
    assert_eq!(g.triples.len(), 2);
    assert_eq!(g.triples[0].subject, iri("https://example.org/person/ada-l"));
    assert_eq!(g.triples[0].object, iri("https://example.org/Person"));
    assert_eq!(g.triples[1].predicate, "https://example.org/name");
    assert_eq!(
        g.triples[1].object,
        Node::Literal { value: "Ada".to_string(), datatype: None, lang: Some("en".to_string()) }
    );
}

#[test]
fn missing_subject_column_is_a_mapping_error() {
    let r = MappingService.map_graph(&mapping_config(), "key,name\n1,Ada\n");
    match r {
        Err(LodError::Mapping(m)) => assert_eq!(m, "subject column `id` not found"),
        other => panic!("unexpected: {:?}", other),
    }
}

#[test]
fn mapped_records_give_the_mapped_graph() {
    let header = Ok(vec!["id".to_string(), "name".to_string()]);
    let records = Ok(vec![vec!["b 2".to_string(), "Bo".to_string()]]);
    let g = MappingService.map_records(&mapping_config(), header, records).unwrap();
    assert_eq!(g.triples.len(), 2);
    assert_eq!(g.triples[0].subject, iri("https://example.org/person/b-2"));
    assert_eq!(g.triples[1].object, Node::Literal { value: "Bo".to_string(), datatype: None, lang: Some("en".to_string()) });
    let r = MappingService.map_records(&mapping_config(), Ok(vec!["id".to_string()]), Err("bad row".to_string()));
    match r {
        Err(LodError::Csv(m)) => assert_eq!(m, "bad row"),
        other => panic!("unexpected: {:?}", other),
    }
}

#[test]
fn ragged_csv_is_a_csv_error() {
    let r = MappingService.map_graph(&mapping_config(), "id,name\n1,Ada,extra\n");
    assert!(matches!(r, Err(LodError::Csv(_))));
}

// ---------------------------------------------------------------------------
// Outside readers and writers, through the library
// ---------------------------------------------------------------------------

#[test]
fn rdfxml_reads_one_triple() {
    let xml = "<?xml version=\"1.0\"?>\n<rdf:RDF xmlns:rdf=\"http://www.w3.org/1999/02/22-rdf-syntax-ns#\" \
               xmlns:ex=\"https://example.org/\">\n<rdf:Description rdf:about=\"https://example.org/a\">\n\
               <ex:name>Ada</ex:name>\n</rdf:Description>\n</rdf:RDF>\n";
    let g = parser::parse_graph(xml, RdfFormat::RdfXml).unwrap();
    assert_eq!(g.triples.len(), 1);
    assert_eq!(g.triples[0].subject, iri("https://example.org/a"));
    assert_eq!(g.triples[0].predicate, "https://example.org/name");
    // RDF/XML literals always carry their datatype.
    assert_eq!(
        g.triples[0].object,
        Node::Literal { value: "Ada".to_string(), datatype: Some(XSD_STRING.to_string()), lang: None }
    );
}

const XSD_STRING: &str = "http://www.w3.org/2001/XMLSchema#string";

#[test]
fn rdfxml_writes_what_it_reads() {
    let g = graph_of(vec![Triple {
        subject: iri("https://example.org/a"),
        predicate: "https://example.org/name".to_string(),
        object: lit("Ada"),
    }]);
    let xml = parser::serialize_graph(&g, RdfFormat::RdfXml).unwrap();
    let back = parser::parse_graph(&xml, RdfFormat::RdfXml).unwrap();
    assert_eq!(
        back.triples,
        vec![Triple {
            subject: iri("https://example.org/a"),
            predicate: "https://example.org/name".to_string(),
            object: Node::Literal { value: "Ada".to_string(), datatype: Some(XSD_STRING.to_string()), lang: None },
        }]
    );
}

#[test]
fn trig_keeps_named_graphs() {
    let trig = "<https://example.org/a> <https://example.org/p> \"d\" .\n\
                <https://example.org/g> { <https://example.org/b> <https://example.org/p> \"n\" . }\n";
    let g = parser::parse_graph(trig, RdfFormat::TriG).unwrap();
    assert_eq!(g.triples.len(), 1);
    assert_eq!(g.named_graphs.get("https://example.org/g").map(|v| v.len()), Some(1));
    let out = parser::serialize_graph(&g, RdfFormat::TriG).unwrap();
    let back = parser::parse_graph(&out, RdfFormat::TriG).unwrap();
    assert_eq!(back.triples, g.triples);
    assert_eq!(back.named_graphs.get("https://example.org/g").map(|v| v.len()), Some(1));
}

#[test]
fn jsonld_output_is_pretty_printed() {
    let g = graph_of(vec![Triple {
        subject: iri("https://example.org/a"),
        predicate: "https://example.org/name".to_string(),
        object: lit("Ada"),
    }]);
    let out = parser::serialize_graph(&g, RdfFormat::JsonLd).unwrap();
    assert!(out.contains("\n  \"@graph\""));
    let back = parser::parse_graph(&out, RdfFormat::JsonLd).unwrap();
    assert_eq!(back.triples, g.triples);
}

// ---------------------------------------------------------------------------
// SHACL reports as the engine prints them
// ---------------------------------------------------------------------------

#[test]
fn shacl_detail_table_becomes_issues() {
    let report = "\
┌──────────┬──────┬───────────┬──────┬───────┬──────────────┬─────────┐
│ Severity │ Node │ Component │ Path │ Value │ Source shape │ Details │
├──────────┼──────┼───────────┼──────┼───────┼──────────────┼─────────┤
│ <http://www.w3.org/ns/shacl#Violation> │ ex:alice │ MinCount │ ex:name │ │ ex:PersonShape │ too few │
│ │ │ more │ │ │ │ values │
│ sh:Warning │ │ │ │ 42 │ │ │
└──────────┴──────┴───────────┴──────┴───────┴──────────────┴─────────┘
";
    let issues = lod_core::shacl::shacl_issues_from_report(report);
    assert_eq!(issues.len(), 2);
    let first = &issues[0];
    assert_eq!(first.severity, "Violation");
    assert_eq!(first.message, "ex:alice failed MinCount | more on ex:name");
    assert_eq!(first.token.as_deref(), Some("ex:alice"));
    assert_eq!(first.suggestion.as_deref(), Some("too few | values"));
    assert_eq!(first.source.as_deref(), Some("shacl"));
    assert_eq!(first.focus_node.as_deref(), Some("ex:alice"));
    assert_eq!(first.constraint_component.as_deref(), Some("MinCount | more"));
    assert_eq!(first.path.as_deref(), Some("ex:name"));
    assert_eq!(first.value, None);
    assert_eq!(first.source_shape.as_deref(), Some("ex:PersonShape"));
    let second = &issues[1];
    assert_eq!(second.severity, "sh:warning");
    assert_eq!(second.message, "Unknown focus node failed constraint");
    assert_eq!(second.token.as_deref(), Some("42"));
}

#[test]
fn clean_shacl_report_has_no_issues() {
    assert!(lod_core::shacl::shacl_issues_from_report("  No Errors found\n").is_empty());
    assert!(lod_core::shacl::shacl_issues_from_report("conforms").is_empty());
}

#[test]
fn unreadable_shacl_report_is_one_violation() {
    let issues = lod_core::shacl::shacl_issues_from_report("engine said no\n");
    assert_eq!(issues.len(), 1);
    assert_eq!(issues[0].severity, "Violation");
    assert_eq!(issues[0].message, "SHACL validation failed:\nengine said no");
    assert_eq!(issues[0].details.as_deref(), Some("engine said no"));
}

#[test]
fn shacl_severity_names() {
    assert_eq!(normalize_shacl_severity("<http://www.w3.org/ns/shacl#Info>"), "Info");
    assert_eq!(normalize_shacl_severity("sh/WARNING"), "Warning");
    assert_eq!(normalize_shacl_severity("<>"), "Violation");
}

#[test]
fn detail_cells_merge_once() {
    let mut cell = String::from("a");
    merge_detail_cell(&mut cell, "b".to_string());
    merge_detail_cell(&mut cell, "b".to_string());
    merge_detail_cell(&mut cell, String::new());
    assert_eq!(cell, "a | b");
    let mut lines = String::from("x\n");
    merge_detail_cell(&mut lines, "y".to_string());
    assert_eq!(lines, "x\ny");
}

// ---------------------------------------------------------------------------
// Visualization: a graph of its own nodes
// ---------------------------------------------------------------------------

#[test]
fn drawing_edges_join_drawn_nodes() {
    let ttl = "@prefix ex: <https://example.org/> .\nex:a ex:knows ex:b ; ex:name \"A\" .\nex:b ex:knows ex:a .\n";
    let g = parser::parse_graph(ttl, RdfFormat::Turtle).unwrap();
    let drawing = lod_core::visualize::build_visualization_graph(&g);
    assert_eq!(drawing.edges.len(), 3);
    assert_eq!(drawing.nodes.len(), 3);
    for (i, a) in drawing.nodes.iter().enumerate() {
        for b in drawing.nodes.iter().skip(i + 1) {
            assert_ne!(a.id, b.id);
        }
    }
    for e in &drawing.edges {
        assert!(drawing.nodes.iter().any(|n| n.id == e.source));
        assert!(drawing.nodes.iter().any(|n| n.id == e.target));
    }
    assert_eq!(drawing.edges[0].id, "e0");
}

#[test]
fn written_text_ignores_triple_order() {
    let a = Triple { subject: iri("https://e.org/a"), predicate: "https://e.org/p".into(), object: lit("1") };
    let b = Triple { subject: Node::Blank("_:x".into()), predicate: "https://e.org/q".into(), object: iri("https://e.org/a") };
    let g1 = graph_of(vec![a.clone(), b.clone(), a.clone()]);
    let g2 = graph_of(vec![b.clone(), a.clone(), a.clone()]);
    let t1 = parser::serialize_graph(&g1, RdfFormat::NTriples).unwrap();
    let t2 = parser::serialize_graph(&g2, RdfFormat::NTriples).unwrap();
    assert_eq!(t1, t2);
    assert_eq!(t1, "<https://e.org/a> <https://e.org/p> \"1\" .\n_:b0 <https://e.org/q> <https://e.org/a> .\n");
    assert_eq!(
        parser::serialize_graph(&g1, RdfFormat::Turtle).unwrap(),
        parser::serialize_graph(&g2, RdfFormat::Turtle).unwrap()
    );
}

#[test]
fn format_names_ignore_case() {
    assert_eq!(RdfFormat::parse(" N-Triples ").unwrap(), RdfFormat::parse("n-triples").unwrap());
    assert_eq!(RdfFormat::parse("RDF/XML").unwrap(), RdfFormat::RdfXml);
    match (RdfFormat::parse("Klingon"), RdfFormat::parse("klingon")) {
        (Err(LodError::UnsupportedFormat(a)), Err(LodError::UnsupportedFormat(b))) => {
            assert_eq!(a, "klingon");
            assert_eq!(a, b);
        }
        other => panic!("unexpected: {:?}", other),
    }
}

#[test]
fn relative_iris_are_refused_by_the_xml_and_trig_writers() {
    let g = graph_of(vec![Triple {
        subject: iri("not an iri"),
        predicate: "https://example.org/p".to_string(),
        object: lit("x"),
    }]);
    assert!(matches!(parser::serialize_graph(&g, RdfFormat::RdfXml), Err(LodError::RdfParsing(_))));
    assert!(matches!(parser::serialize_graph(&g, RdfFormat::TriG), Err(LodError::RdfParsing(_))));
    let mut named = LodGraph::new();
    named.named_graphs.insert(
        "_:has space".to_string(),
        vec![Triple { subject: iri("https://example.org/a"), predicate: "https://example.org/p".to_string(), object: lit("x") }],
    );
    assert!(matches!(parser::serialize_graph(&named, RdfFormat::TriG), Err(LodError::RdfParsing(_))));
}

#[test]
fn unparsed_document_does_not_conform() {
    let wb = lod_core::LodWorkbench::default();
    let report = wb.validate_content("@prefix ex: <https://example.org/> .\nex:a ex:b .\n", RdfFormat::Turtle, None).unwrap();
    assert!(!report.conforms);
    assert!(report.issues.iter().any(|i| i.severity == "Violation" && i.source.as_deref() == Some("input")));
}

#[test]
fn repeated_and_reordered_triples_are_written_alike() {
    let t1 = Triple { subject: Node::Blank("_:x".to_string()), predicate: "http://e/p".to_string(), object: Node::Blank("_:y".to_string()) };
    let t2 = Triple { subject: iri("http://e/a"), predicate: "http://e/q".to_string(), object: lit("v") };
    let g1 = graph_of(vec![t1.clone(), t2.clone(), t1.clone()]);
    let g2 = graph_of(vec![t2.clone(), t1.clone()]);
    let a = serialize_ntriples(&g1);
    assert_eq!(a, serialize_ntriples(&g2));
    assert_eq!(a, "<http://e/a> <http://e/q> \"v\" .\n_:b0 <http://e/p> _:b1 .\n");
    let j1 = parser::serialize_graph(&g1, RdfFormat::JsonLd).unwrap();
    let j2 = parser::serialize_graph(&g2, RdfFormat::JsonLd).unwrap();
    assert_eq!(j1, j2);
    assert_eq!(j1.matches("\"@id\"").count(), 3);
}

#[test]
fn written_literal_reads_back() {
    let node = Node::Literal { value: "a\nb\"c\\".to_string(), datatype: None, lang: Some("en".to_string()) };
    let g = graph_of(vec![Triple { subject: iri("http://e/a"), predicate: "http://e/p".to_string(), object: node.clone() }]);
    let nt = serialize_ntriples(&g);
    let written = "\"a\\nb\\\"c\\\\\"@en";
    assert_eq!(nt, format!("<http://e/a> <http://e/p> {written} .\n"));
    let chars: Vec<char> = written.chars().collect();
    let back = lod_core::terms::parse_literal(&chars, &SortedMap::new(), None).unwrap();
    assert_eq!(back, node);
}

#[test]
fn writer_head_is_refused_before_triples() {
    let good = Triple { subject: iri("http://e/a"), predicate: "http://e/p".to_string(), object: lit("v") };
    let bad = Triple { subject: iri("not an iri"), predicate: "http://e/p".to_string(), object: lit("v") };
    for f in [RdfFormat::TriG, RdfFormat::RdfXml] {
        let mut g1 = graph_of(vec![good.clone()]);
        g1.base = Some("::not a base".to_string());
        let mut g2 = graph_of(vec![bad.clone()]);
        g2.base = Some("::not a base".to_string());
        let e1 = parser::serialize_graph(&g1, f).unwrap_err();
        let e2 = parser::serialize_graph(&g2, f).unwrap_err();
        match (e1, e2) {
            (LodError::RdfParsing(a), LodError::RdfParsing(b)) => assert_eq!(a, b),
            other => panic!("unexpected: {:?}", other),
        }
    }
}

#[test]
fn html_report_shows_flag_cards_and_escaped_messages() {
    let issue = ValidationIssue {
        severity: "VIOLATION".to_string(),
        message: "a<b & c".to_string(),
        line: Some(2),
        column: None,
        token: None,
        suggestion: None,
        source: Some("input".to_string()),
        focus_node: None,
        constraint_component: None,
        path: None,
        value: None,
        source_shape: None,
        details: None,
    };
    let report = lod_core::model::ValidationReport { conforms: false, issues: vec![issue] };
    let page = lod_core::report::validation_html(&report);
    assert!(page.contains("Conforms: <strong>false</strong>"));
    assert!(page.contains("<div class=\"k\">Issues</div><div class=\"v\">1</div>"));
    assert!(page.contains("<div class=\"k\">Violations</div><div class=\"v\">1</div>"));
    assert!(page.contains("<div class=\"k\">Warnings</div><div class=\"v\">0</div>"));
    assert!(page.contains("<div class=\"k\">Info</div><div class=\"v\">0</div>"));
    assert!(page.contains("<div class=\"issue-message\">a&#60;b &#38; c</div>"));
    assert!(!page.contains("No validation issues were found."));
    let empty = lod_core::model::ValidationReport { conforms: true, issues: vec![] };
    let page = lod_core::report::validation_html(&empty);
    assert!(page.contains("Conforms: <strong>true</strong>"));
    assert!(page.contains("No validation issues were found."));
}

#[test]
fn tab_in_literal_is_written_as_is() {
    let node = Node::Literal { value: "a\tb".to_string(), datatype: None, lang: None };
    let g = graph_of(vec![Triple { subject: iri("http://e/a"), predicate: "http://e/p".to_string(), object: node }]);
    assert_eq!(serialize_ntriples(&g), "<http://e/a> <http://e/p> \"a\tb\" .\n");
}

#[test]
fn writers_take_a_lang_string_datatype_without_tag() {
    let node = Node::Literal {
        value: "v".to_string(),
        datatype: Some("http://www.w3.org/1999/02/22-rdf-syntax-ns#langString".to_string()),
        lang: None,
    };
    let g = graph_of(vec![Triple { subject: iri("http://e/a"), predicate: "http://e/p".to_string(), object: node }]);
    let t = parser::serialize_graph(&g, RdfFormat::TriG).unwrap();
    assert!(t.contains("langString"));
    let x = parser::serialize_graph(&g, RdfFormat::RdfXml).unwrap();
    assert!(x.contains("langString"));
}
