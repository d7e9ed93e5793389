//! Reading and writing graphs in any supported format.
use vstd::prelude::*;
use crate::model::{STriple, LodGraph, triples_view, opt_view};
use crate::format::RdfFormat;
use crate::error::{LodError, error_detail};
use crate::printed::Printer;
use crate::reading::{
    parse_turtle_rdf, turtle_outcome, parse_line_based_rdf, parse_rdfxml_content, parse_trig_content, parse_trig_dataset,
    listing_graph, rio_ntriples_listing, rdfxml_listing, trig_listing, read_as, quads_read_as, holds_quads, trig_base, trig_prefixes,
};
use crate::json::{parse_jsonld_subset, jsonld_outcome};
use crate::writing::{serialize_turtle, serialize_ntriples, serialize_jsonld, turtle_head, lines_text, ntriples_text, jsonld_doc_view};
use crate::json::json_pretty_text;
use crate::normal::{normal_form, is_sorted};
use crate::oxwrite::{rdfxml_head_refusal, trig_head_refusal, 
    serialize_rdfxml, serialize_trig, first_refusal, trig_refusal, sorted_of, normal_lines, rdfxml_text, trig_text,
    trig_nquads,
};

verus! {

/// What reading `content` in `format` gives.
pub open spec fn parse_outcome(content: Seq<char>, format: RdfFormat, r: Result<LodGraph, LodError>) -> bool {
    match format {
        RdfFormat::Turtle => turtle_outcome(content, r),
        RdfFormat::NTriples => listing_graph(rio_ntriples_listing(content), Printer::Rio, r),
        RdfFormat::JsonLd => jsonld_outcome(content, r),
        RdfFormat::RdfXml => exists|l: Result<Seq<(Seq<char>, Seq<char>, Seq<char>)>, Seq<char>>| #[trigger] read_as(
            rdfxml_listing(content),
            l,
        ) && listing_graph(l, Printer::Ox, r),
        RdfFormat::TriG => exists|l: Result<Seq<(Seq<char>, Seq<char>, Seq<char>, Seq<char>)>, Seq<char>>| #[trigger] quads_read_as(
            trig_listing(content),
            l,
        ) && match l {
            Ok(qs) => r is Ok && holds_quads(r.unwrap(), qs) && r.unwrap().base is None
                && r.unwrap().prefixes.spec_entries().len() == 0,
            Err(m) => r is Err && r->Err_0 is RdfParsing && error_detail(r->Err_0) == m,
        },
    }
}

/// Reads a document in the given format.
pub fn parse_graph(content: &str, format: RdfFormat) -> (r: Result<LodGraph, LodError>)
    requires
        content@.len() < usize::MAX,
    ensures
        parse_outcome(content@, format, r),
{
    match format {
        RdfFormat::Turtle => parse_turtle_rdf(content),
        RdfFormat::NTriples => parse_line_based_rdf(content),
        RdfFormat::JsonLd => parse_jsonld_subset(content),
        RdfFormat::RdfXml => parse_rdfxml_content(content),
        RdfFormat::TriG => parse_trig_content(content),
    }
}

/// What reading a file's content gives: as `parse_graph`, except that a TriG
/// file also records the base IRI and prefixes that the parser saw.
pub open spec fn file_outcome(content: Seq<char>, format: RdfFormat, r: Result<LodGraph, LodError>) -> bool {
    match format {
        RdfFormat::TriG => exists|l: Result<Seq<(Seq<char>, Seq<char>, Seq<char>, Seq<char>)>, Seq<char>>| #[trigger] quads_read_as(
            trig_listing(content),
            l,
        ) && match l {
            Ok(qs) => r is Ok && holds_quads(r.unwrap(), qs) && opt_view(r.unwrap().base) == trig_base(content)
                && r.unwrap().prefixes.pairs().to_set() == trig_prefixes(content),
            Err(m) => r is Err && r->Err_0 is RdfParsing && error_detail(r->Err_0) == m,
        },
        _ => parse_outcome(content, format, r),
    }
}

/// Reads the content of a file in the given format.
pub fn read_graph_content(content: &str, format: RdfFormat) -> (r: Result<LodGraph, LodError>)
    requires
        content@.len() < usize::MAX,
    ensures
        file_outcome(content@, format, r),
{
    match format {
        RdfFormat::TriG => parse_trig_dataset(content),
        _ => parse_graph(content, format),
    }
}

/// The format of a file: the one given, or the one its path names.
pub fn resolve_format(path: &str, format: Option<RdfFormat>) -> (r: Result<RdfFormat, LodError>)
    ensures
        match format {
            Some(f) => r == Ok::<RdfFormat, LodError>(f),
            None => {
                let e = crate::text::lower(crate::format::path_extension(path@));
                if e == "rdf"@ || e == "xml"@ {
                    r == Ok::<RdfFormat, LodError>(RdfFormat::RdfXml)
                } else if e == "trig"@ {
                    r == Ok::<RdfFormat, LodError>(RdfFormat::TriG)
                } else {
                    crate::format::parse_result_ok(e, r)
                }
            },
        },
{
    match format {
        Some(f) => Ok(f),
        None => RdfFormat::from_path(path),
    }
}

/// What writing `graph` in `format` gives. N-Triples and Turtle are the
/// sorted, renamed and deduplicated triples, line by line; JSON-LD is the
/// document of those triples as `serde_json` prints it; RDF/XML refuses
/// named graphs, and RDF/XML and TriG refuse the first triple or graph name
/// that `oxrdf` cannot represent; otherwise they are what the `oxrdfxml` and
/// `oxttl` writers write for the N-Quads lines of the normal form.
pub open spec fn written(graph: LodGraph, format: RdfFormat, r: Result<String, LodError>) -> bool {
    let all = triples_view(graph.spec_all_triples()).to_multiset();
    match format {
        RdfFormat::NTriples => r is Ok && exists|s: Seq<STriple>| #[trigger] is_sorted(s) && s.to_multiset() == all
            && r.unwrap()@ == ntriples_text(normal_form(s)),
        RdfFormat::Turtle => r is Ok && exists|s: Seq<STriple>| #[trigger] is_sorted(s) && s.to_multiset() == all
            && r.unwrap()@ == turtle_head(opt_view(graph.base), graph.prefixes.pairs()) + lines_text(normal_form(s)),
        RdfFormat::JsonLd => exists|s: Seq<STriple>| #[trigger] is_sorted(s) && s.to_multiset() == all
            && match json_pretty_text(jsonld_doc_view(graph.prefixes.pairs(), normal_form(s))) {
            Ok(t) => r is Ok && r.unwrap()@ == t,
            Err(m) => r is Err && r->Err_0 is Json && error_detail(r->Err_0) == m,
        },
        RdfFormat::RdfXml => if graph.named_graphs.spec_entries().len() > 0 {
            r is Err && r->Err_0 is Validation && error_detail(r->Err_0)
                == "RDF/XML does not support named graphs; convert the dataset to TriG first"@
        } else {
            let ts = triples_view(graph.spec_all_triples());
            match rdfxml_head_refusal(opt_view(graph.base), graph.prefixes.pairs()) {
                Some(m) => r is Err && r->Err_0 is RdfParsing && error_detail(r->Err_0) == m,
                None => match first_refusal(normal_form(sorted_of(ts))) {
                    Some(m) => r is Err && r->Err_0 is RdfParsing && error_detail(r->Err_0) == m,
                    None => match rdfxml_text(opt_view(graph.base), graph.prefixes.pairs(), normal_lines(ts)) {
                        Ok(t) => r is Ok && r.unwrap()@ == t,
                        Err(m) => r is Err && r->Err_0 is RdfParsing && error_detail(r->Err_0) == m,
                    },
                },
            }
        },
        RdfFormat::TriG => match trig_head_refusal(opt_view(graph.base), graph.prefixes.pairs()) {
            Some(m) => r is Err && r->Err_0 is RdfParsing && error_detail(r->Err_0) == m,
            None => match trig_refusal(graph) {
                Some(m) => r is Err && r->Err_0 is RdfParsing && error_detail(r->Err_0) == m,
                None => match trig_text(opt_view(graph.base), graph.prefixes.pairs(), trig_nquads(graph)) {
                    Ok(t) => r is Ok && r.unwrap()@ == t,
                    Err(m) => r is Err && r->Err_0 is RdfParsing && error_detail(r->Err_0) == m,
                },
            },
        },
    }
}

/// Writes a graph in the given format.
pub fn serialize_graph(graph: &LodGraph, format: RdfFormat) -> (r: Result<String, LodError>)
    ensures
        written(*graph, format, r),
{
    match format {
        RdfFormat::Turtle => Ok(serialize_turtle(graph)),
        RdfFormat::NTriples => Ok(serialize_ntriples(graph)),
        RdfFormat::JsonLd => serialize_jsonld(graph),
        RdfFormat::RdfXml => serialize_rdfxml(graph),
        RdfFormat::TriG => serialize_trig(graph),
    }
}

} // verus!

verus! {

/// The default-graph triples of a listing as printed, or its error.
pub open spec fn listing_triples(
    l: Result<Seq<(Seq<char>, Seq<char>, Seq<char>)>, Seq<char>>,
    printer: Printer,
) -> Result<Seq<STriple>, Seq<char>> {
    match l {
        Ok(ts) => Ok(crate::reading::printed_triples(ts, printer)),
        Err(m) => Err("RDF parsing error: "@ + m),
    }
}

/// Whether `p` is what reading a document gives, by its default graph's
/// triples or the printed error. RDF/XML and TriG reads name anonymous
/// blank nodes at random, so there `p` is any of the reads.
pub open spec fn parsed_as(content: Seq<char>, format: RdfFormat, p: Result<Seq<STriple>, Seq<char>>) -> bool {
    match format {
        RdfFormat::Turtle => p == {
            let d = crate::reading::scanned_declarations(content);
            match crate::reading::rio_turtle_listing(content, d.1) {
                Ok(ts) => Ok(crate::reading::printed_triples(ts, Printer::Rio)),
                Err(_) => match crate::document::turtle_subset(content) {
                    Ok(doc) => Ok(doc.triples),
                    Err(m) => Err("RDF parsing error: "@ + m),
                },
            }
        },
        RdfFormat::NTriples => p == listing_triples(rio_ntriples_listing(content), Printer::Rio),
        RdfFormat::RdfXml => exists|l: Result<Seq<(Seq<char>, Seq<char>, Seq<char>)>, Seq<char>>| #[trigger] read_as(
            rdfxml_listing(content),
            l,
        ) && p == listing_triples(l, Printer::Ox),
        RdfFormat::TriG => exists|l: Result<Seq<(Seq<char>, Seq<char>, Seq<char>, Seq<char>)>, Seq<char>>| #[trigger] quads_read_as(
            trig_listing(content),
            l,
        ) && p == match l {
            Ok(qs) => Ok(crate::reading::quads_dataset(qs).0),
            Err(m) => Err("RDF parsing error: "@ + m),
        },
        RdfFormat::JsonLd => p == match crate::json::json_document(content) {
            Err(m) => Err("JSON error: "@ + m),
            Ok(v) => match crate::json::jsonld_graph(v) {
                Ok((_, ts)) => Ok(ts),
                Err(m) => Err("RDF parsing error: "@ + m),
            },
        },
    }
}

/// What a read gives, by default-graph triples or printed error.
pub proof fn lemma_parsed_triples(content: Seq<char>, format: RdfFormat, r: Result<LodGraph, LodError>) -> (p: Result<
    Seq<STriple>,
    Seq<char>,
>)
    requires
        parse_outcome(content, format, r),
    ensures
        parsed_as(content, format, p),
        match p {
            Ok(ts) => r is Ok && triples_view(r.unwrap().triples@) == ts,
            Err(m) => r is Err && crate::error::error_heading(r->Err_0) + error_detail(r->Err_0) == m,
        },
{
    match format {
        RdfFormat::RdfXml => {
            let l = choose|l: Result<Seq<(Seq<char>, Seq<char>, Seq<char>)>, Seq<char>>| #[trigger] read_as(
                rdfxml_listing(content),
                l,
            ) && listing_graph(l, Printer::Ox, r);
            listing_triples(l, Printer::Ox)
        },
        RdfFormat::TriG => {
            let l = choose|l: Result<Seq<(Seq<char>, Seq<char>, Seq<char>, Seq<char>)>, Seq<char>>| #[trigger] quads_read_as(
                trig_listing(content),
                l,
            ) && match l {
                Ok(qs) => r is Ok && holds_quads(r.unwrap(), qs) && r.unwrap().base is None
                    && r.unwrap().prefixes.spec_entries().len() == 0,
                Err(m) => r is Err && r->Err_0 is RdfParsing && error_detail(r->Err_0) == m,
            };
            match l {
                Ok(qs) => Ok(crate::reading::quads_dataset(qs).0),
                Err(m) => Err("RDF parsing error: "@ + m),
            }
        },
        RdfFormat::Turtle => {
            let d = crate::reading::scanned_declarations(content);
            match crate::reading::rio_turtle_listing(content, d.1) {
                Ok(ts) => Ok(crate::reading::printed_triples(ts, Printer::Rio)),
                Err(_) => match crate::document::turtle_subset(content) {
                    Ok(doc) => Ok(doc.triples),
                    Err(m) => Err("RDF parsing error: "@ + m),
                },
            }
        },
        RdfFormat::NTriples => listing_triples(rio_ntriples_listing(content), Printer::Rio),
        RdfFormat::JsonLd => match crate::json::json_document(content) {
            Err(m) => Err("JSON error: "@ + m),
            Ok(v) => match crate::json::jsonld_graph(v) {
                Ok((_, ts)) => Ok(ts),
                Err(m) => Err("RDF parsing error: "@ + m),
            },
        },
    }
}

} // verus!
