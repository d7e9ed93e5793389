//! Reading RDF documents: Turtle and N-Triples through `rio_turtle`, RDF/XML
//! through `oxrdfxml`, TriG through `oxttl`, with the built-in Turtle reader
//! as a fallback for Turtle that `rio_turtle` refuses.
use vstd::prelude::*;
use rio_api::parser::TriplesParser;
use crate::model::{Node, SNode, STriple, Triple, SortedMap, LodGraph, triples_view, opt_view, vpush, pair_view, vinserted, lemma_pair_view_inserted, vkey_index, vinsertion_index};
use crate::text::{chars_of, string_of, contains_seq, contains_lit};
use crate::lexer::turtle_statements;
use crate::printed::{Printer, printed_node, node_of_printed};
use crate::document::{declaration_steps, scan_turtle_declarations, turtle_subset, parse_turtle_subset, holds_doc, line_error, DocState};
use crate::error::{LodError, error_heading, error_detail};
use crate::terms::has_prefix;

verus! {

/// Triples as the parsers print them: subject, predicate IRI, object.
pub open spec fn listing_view(v: Seq<(String, String, String)>) -> Seq<(Seq<char>, Seq<char>, Seq<char>)> {
    v.map_values(|t: (String, String, String)| (t.0@, t.1@, t.2@))
}

pub open spec fn listing_result(
    r: Result<Vec<(String, String, String)>, String>,
) -> Result<Seq<(Seq<char>, Seq<char>, Seq<char>)>, Seq<char>> {
    match r {
        Ok(v) => Ok(listing_view(v@)),
        Err(e) => Err(e@),
    }
}

/// Quads as the TriG parser prints them: subject, predicate IRI, object, graph name.
pub open spec fn quad_view(v: Seq<(String, String, String, String)>) -> Seq<(Seq<char>, Seq<char>, Seq<char>, Seq<char>)> {
    v.map_values(|t: (String, String, String, String)| (t.0@, t.1@, t.2@, t.3@))
}

pub open spec fn quad_result(
    r: Result<Vec<(String, String, String, String)>, String>,
) -> Result<Seq<(Seq<char>, Seq<char>, Seq<char>, Seq<char>)>, Seq<char>> {
    match r {
        Ok(v) => Ok(quad_view(v@)),
        Err(e) => Err(e@),
    }
}

/// What `rio_turtle::TurtleParser` reads from a document, given the base IRI
/// (dropped where `oxiri::Iri::parse` refuses it): every triple as printed,
/// or the message of the first error.
pub uninterp spec fn rio_turtle_listing(
    content: Seq<char>,
    base: Option<Seq<char>>,
) -> Result<Seq<(Seq<char>, Seq<char>, Seq<char>)>, Seq<char>>;

/// What `rio_turtle::NTriplesParser` reads from a document.
pub uninterp spec fn rio_ntriples_listing(content: Seq<char>) -> Result<
    Seq<(Seq<char>, Seq<char>, Seq<char>)>,
    Seq<char>,
>;

/// What `oxrdfxml::RdfXmlParser` reads from a document, every triple as
/// printed, or the message of the first error. The parser names anonymous
/// nodes with blank nodes drawn at random, so a read gives this listing only
/// up to the names of blank nodes (see `read_as`).
pub uninterp spec fn rdfxml_listing(content: Seq<char>) -> Result<Seq<(Seq<char>, Seq<char>, Seq<char>)>, Seq<char>>;

/// What `oxttl::TriGParser` reads from a document: every quad as printed
/// (the default graph printed as `DEFAULT`), or the message of the first
/// error. Anonymous blank nodes are drawn at random, so a read gives this
/// listing only up to the names of blank nodes (see `quads_read_as`).
pub uninterp spec fn trig_listing(content: Seq<char>) -> Result<
    Seq<(Seq<char>, Seq<char>, Seq<char>, Seq<char>)>,
    Seq<char>,
>;

/// Whether printed term `b` is printed term `a` with its blank node renamed
/// by `f`: a blank node goes to a blank node, a quoted triple to a quoted
/// triple, any other term stays.
pub open spec fn term_renamed(a: Seq<char>, b: Seq<char>, f: spec_fn(Seq<char>) -> Seq<char>) -> bool {
    if has_prefix(a, "_:"@) {
        b == f(a) && has_prefix(b, "_:"@)
    } else if has_prefix(a, "<<"@) {
        has_prefix(b, "<<"@)
    } else {
        b == a
    }
}

/// Whether the printed triples `v` are `c` with blank nodes renamed by `f`.
pub open spec fn listing_renamed(
    c: Seq<(Seq<char>, Seq<char>, Seq<char>)>,
    v: Seq<(Seq<char>, Seq<char>, Seq<char>)>,
    f: spec_fn(Seq<char>) -> Seq<char>,
) -> bool {
    &&& c.len() == v.len()
    &&& forall|i: int|
        0 <= i < c.len() ==> term_renamed(c[i].0, #[trigger] v[i].0, f) && v[i].1 == c[i].1 && term_renamed(
            c[i].2,
            v[i].2,
            f,
        )
}

/// Whether the printed quads `v` are `c` with blank nodes renamed by `f`.
pub open spec fn quads_renamed(
    c: Seq<(Seq<char>, Seq<char>, Seq<char>, Seq<char>)>,
    v: Seq<(Seq<char>, Seq<char>, Seq<char>, Seq<char>)>,
    f: spec_fn(Seq<char>) -> Seq<char>,
) -> bool {
    &&& c.len() == v.len()
    &&& forall|i: int|
        0 <= i < c.len() ==> term_renamed(c[i].0, #[trigger] v[i].0, f) && v[i].1 == c[i].1 && term_renamed(
            c[i].2,
            v[i].2,
            f,
        ) && term_renamed(c[i].3, v[i].3, f)
}

/// Whether a read `l` is the listing `c` up to the names of blank nodes: the
/// same error, or the same triples with blank nodes renamed.
pub open spec fn read_as(
    c: Result<Seq<(Seq<char>, Seq<char>, Seq<char>)>, Seq<char>>,
    l: Result<Seq<(Seq<char>, Seq<char>, Seq<char>)>, Seq<char>>,
) -> bool {
    match c {
        Err(m) => l == Err::<Seq<(Seq<char>, Seq<char>, Seq<char>)>, Seq<char>>(m),
        Ok(ts) => l matches Ok(v) && exists|f: spec_fn(Seq<char>) -> Seq<char>| #[trigger] listing_renamed(ts, v, f),
    }
}

/// Whether a read `l` is the quad listing `c` up to the names of blank nodes.
pub open spec fn quads_read_as(
    c: Result<Seq<(Seq<char>, Seq<char>, Seq<char>, Seq<char>)>, Seq<char>>,
    l: Result<Seq<(Seq<char>, Seq<char>, Seq<char>, Seq<char>)>, Seq<char>>,
) -> bool {
    match c {
        Err(m) => l == Err::<Seq<(Seq<char>, Seq<char>, Seq<char>, Seq<char>)>, Seq<char>>(m),
        Ok(qs) => l matches Ok(v) && exists|f: spec_fn(Seq<char>) -> Seq<char>| #[trigger] quads_renamed(qs, v, f),
    }
}

/// The base IRI that `oxttl::TriGParser` holds after reading a document.
pub uninterp spec fn trig_base(content: Seq<char>) -> Option<Seq<char>>;

/// The prefix declarations that `oxttl::TriGParser` holds after reading a document.
pub uninterp spec fn trig_prefixes(content: Seq<char>) -> Set<(Seq<char>, Seq<char>)>;

/// Runs `rio_turtle::TurtleParser` on `content`, the base IRI parsed by
/// `oxiri::Iri::parse` (and left out where that fails), printing each triple
/// with the parser's `Display`. Claimed: the result is `rio_turtle_listing`
/// of the arguments.
#[verifier::external_body]
fn rio_turtle_read(content: &str, base: Option<String>) -> (r: Result<Vec<(String, String, String)>, String>)
    ensures
        listing_result(r) == rio_turtle_listing(content@, opt_view(base)),
{
    let mut out = Vec::new();
    let base_iri = base.and_then(|b| oxiri::Iri::parse(b).ok());
    let mut parser = rio_turtle::TurtleParser::new(std::io::Cursor::new(content.as_bytes()), base_iri);
    let res = parser.parse_all(&mut |t| {
        out.push((t.subject.to_string(), t.predicate.iri.to_string(), t.object.to_string()));
        Ok(()) as Result<(), rio_turtle::TurtleError>
    });
    res.map(|_| out).map_err(|e| e.to_string())
}

/// Runs `rio_turtle::NTriplesParser` on `content`, printing each triple with
/// the parser's `Display`. Claimed: the result is `rio_ntriples_listing` of
/// the content.
#[verifier::external_body]
fn rio_ntriples_read(content: &str) -> (r: Result<Vec<(String, String, String)>, String>)
    ensures
        listing_result(r) == rio_ntriples_listing(content@),
{
    let mut out = Vec::new();
    let mut parser = rio_turtle::NTriplesParser::new(std::io::Cursor::new(content.as_bytes()));
    let res = parser.parse_all(&mut |t| {
        out.push((t.subject.to_string(), t.predicate.iri.to_string(), t.object.to_string()));
        Ok(()) as Result<(), rio_turtle::TurtleError>
    });
    res.map(|_| out).map_err(|e| e.to_string())
}

/// Runs `oxrdfxml::RdfXmlParser` on the bytes of `content` up to the first
/// error, printing each triple's terms with `oxrdf`'s `Display`. Claimed: the
/// result is `rdfxml_listing` of the content up to the names of blank nodes
/// (the same error, or the same triples with blank nodes renamed).
#[verifier::external_body]
fn rdfxml_read(content: &str) -> (r: Result<Vec<(String, String, String)>, String>)
    ensures
        read_as(rdfxml_listing(content@), listing_result(r)),
{
    oxrdfxml::RdfXmlParser::new().for_slice(content.as_bytes()).map(|t| {
        t.map(|t| (t.subject.to_string(), t.predicate.as_str().to_string(), t.object.to_string())).map_err(
            |e| e.to_string(),
        )
    }).collect()
}

/// Runs `oxttl::TriGParser` on the bytes of `content` up to the first error,
/// printing each quad's terms with `oxrdf`'s `Display`, then asks the parser
/// for its base IRI and prefixes. Claimed: the quads are `trig_listing` of
/// the content up to the names of blank nodes, the base `trig_base`, the
/// prefixes are the set
/// `trig_prefixes` with no name twice (the parser keeps them in a hash map,
/// whose order is not stated).
#[verifier::external_body]
fn trig_read(content: &str) -> (r: (Result<Vec<(String, String, String, String)>, String>, Option<String>, Vec<(String, String)>))
    ensures
        quads_read_as(trig_listing(content@), quad_result(r.0)),
        opt_view(r.1) == trig_base(content@),
        pair_view(r.2@).to_set() == trig_prefixes(content@),
        forall|i: int, j: int| 0 <= i < j < r.2@.len() ==> #[trigger] r.2@[i].0@ != #[trigger] r.2@[j].0@,
{
    let mut parser = oxttl::TriGParser::new().for_slice(content.as_bytes());
    let quads = parser.by_ref().map(|q| {
        q.map(|q| (q.subject.to_string(), q.predicate.as_str().to_string(), q.object.to_string(), q.graph_name.to_string()))
            .map_err(|e| e.to_string())
    }).collect();
    let base = parser.base_iri().map(|b| b.to_string());
    let prefixes = parser.prefixes().map(|(p, i)| (p.to_string(), i.to_string())).collect();
    (quads, base, prefixes)
}

pub open spec fn star_subject() -> Seq<char> {
    "_:rdfstar_subject"@
}

pub open spec fn star_object() -> Seq<char> {
    "_:rdfstar_object"@
}

/// The triple a printed triple stands for.
pub open spec fn printed_triple(t: (Seq<char>, Seq<char>, Seq<char>), printer: Printer) -> STriple {
    STriple {
        subject: printed_node(t.0, printer, star_subject()),
        predicate: t.1,
        object: printed_node(t.2, printer, star_object()),
    }
}

pub open spec fn printed_triples(l: Seq<(Seq<char>, Seq<char>, Seq<char>)>, printer: Printer) -> Seq<STriple> {
    l.map_values(|t: (Seq<char>, Seq<char>, Seq<char>)| printed_triple(t, printer))
}

/// The triples that printed triples stand for.
pub fn triples_of_listing(l: &Vec<(String, String, String)>, printer: Printer) -> (r: Vec<Triple>)
    ensures
        triples_view(r@) == printed_triples(listing_view(l@), printer),
{
    let mut r: Vec<Triple> = Vec::new();
    let mut i: usize = 0;
    while i < l.len()
        invariant
            i <= l@.len(),
            triples_view(r@) == printed_triples(listing_view(l@), printer).take(i as int),
        decreases l@.len() - i,
    {
        let t = Triple {
            subject: node_of_printed(l[i].0.as_str(), printer, "_:rdfstar_subject"),
            predicate: l[i].1.clone(),
            object: node_of_printed(l[i].2.as_str(), printer, "_:rdfstar_object"),
        };
        let ghost before = r@;
        r.push(t);
        proof {
            assert(listing_view(l@)[i as int] == (l@[i as int].0@, l@[i as int].1@, l@[i as int].2@));
            assert(t@ == printed_triple(listing_view(l@)[i as int], printer));
            assert(triples_view(r@) =~= triples_view(before).push(t@));
            assert(triples_view(r@) =~= printed_triples(listing_view(l@), printer).take(i + 1));
        }
        i = i + 1;
    }
    proof {
        assert(printed_triples(listing_view(l@), printer).take(i as int) =~= printed_triples(listing_view(l@), printer));
    }
    r
}

/// A dataset that holds only `triples` in its default graph.
pub open spec fn only_triples(g: LodGraph, triples: Seq<STriple>) -> bool {
    &&& g.base is None
    &&& g.prefixes.spec_entries().len() == 0
    &&& triples_view(g.triples@) == triples
    &&& g.named_graphs.spec_entries().len() == 0
}

/// The outcome of reading a listing: its triples, or a parsing error with
/// the parser's message.
pub open spec fn listing_graph(
    l: Result<Seq<(Seq<char>, Seq<char>, Seq<char>)>, Seq<char>>,
    printer: Printer,
    r: Result<LodGraph, LodError>,
) -> bool {
    match l {
        Ok(ts) => r is Ok && only_triples(r.unwrap(), printed_triples(ts, printer)),
        Err(m) => r is Err && r->Err_0 is RdfParsing && error_detail(r->Err_0) == m,
    }
}

/// The graph of a listing as a parser printed it: its triples, or the
/// parser's error as a parsing error.
pub fn graph_of_listing(l: Result<Vec<(String, String, String)>, String>, printer: Printer) -> (r: Result<LodGraph, LodError>)
    ensures
        listing_graph(listing_result(l), printer, r),
{
    match l {
        Ok(ts) => {
            let mut g = LodGraph::new();
            g.triples = triples_of_listing(&ts, printer);
            Ok(g)
        },
        Err(e) => Err(LodError::RdfParsing(e)),
    }
}

/// Reads an N-Triples document.
pub fn parse_line_based_rdf(content: &str) -> (r: Result<LodGraph, LodError>)
    ensures
        listing_graph(rio_ntriples_listing(content@), Printer::Rio, r),
{
    graph_of_listing(rio_ntriples_read(content), Printer::Rio)
}

/// Reads an RDF/XML document.
pub fn parse_rdfxml_content(content: &str) -> (r: Result<LodGraph, LodError>)
    ensures
        exists|l: Result<Seq<(Seq<char>, Seq<char>, Seq<char>)>, Seq<char>>| #[trigger] read_as(rdfxml_listing(content@), l)
            && listing_graph(l, Printer::Ox, r),
{
    let l = rdfxml_read(content);
    let r = graph_of_listing(l, Printer::Ox);
    assert(read_as(rdfxml_listing(content@), listing_result(l)) && listing_graph(listing_result(l), Printer::Ox, r));
    r
}

/// The declarations that the built-in reader finds in a document, whatever
/// else it holds.
pub open spec fn scanned_declarations(content: Seq<char>) -> (Seq<(Seq<char>, Seq<char>)>, Option<Seq<char>>) {
    declaration_steps(turtle_statements(content), 0, seq![], None)
}

/// Reads a Turtle document with `rio_turtle`, after recording the prefix and
/// base declarations that the built-in reader finds in it; the base found
/// is handed to `rio_turtle`.
pub fn parse_turtle_with_rio(content: &str) -> (r: Result<LodGraph, LodError>)
    requires
        content@.len() < usize::MAX,
    ensures
        ({
            let d = scanned_declarations(content@);
            match rio_turtle_listing(content@, d.1) {
                Ok(ts) => r is Ok && holds_doc(r.unwrap(), DocState { prefixes: d.0, base: d.1, triples: printed_triples(ts, Printer::Rio), next: 0 }),
                Err(m) => r is Err && r->Err_0 is RdfParsing && error_detail(r->Err_0) == m,
            }
        }),
{
    let mut graph = LodGraph::new();
    proof {
        assert(graph.prefixes.pairs() =~= Seq::<(Seq<char>, Seq<char>)>::empty());
    }
    scan_turtle_declarations(content, &mut graph);
    let base = match &graph.base {
        Some(b) => Some(b.clone()),
        None => None,
    };
    match rio_turtle_read(content, base) {
        Ok(ts) => {
            graph.triples = triples_of_listing(&ts, Printer::Rio);
            Ok(graph)
        },
        Err(e) => Err(LodError::RdfParsing(e)),
    }
}

} // verus!

verus! {

/// The named graph a printed graph name stands for; `None` for the default graph.
pub open spec fn graph_key(g: Seq<char>) -> Option<Seq<char>> {
    if g == "DEFAULT"@ {
        None
    } else if has_prefix(g, "<"@) && g.len() >= 2 {
        Some(g.subrange(1, g.len() - 1))
    } else {
        Some(g)
    }
}

/// The default graph and the named graphs that printed quads fill.
pub open spec fn quads_dataset(qs: Seq<(Seq<char>, Seq<char>, Seq<char>, Seq<char>)>) -> (
    Seq<STriple>,
    Seq<(Seq<char>, Seq<STriple>)>,
)
    decreases qs.len(),
{
    if qs.len() == 0 {
        (seq![], seq![])
    } else {
        let (d, n) = quads_dataset(qs.drop_last());
        let q = qs.last();
        let t = printed_triple((q.0, q.1, q.2), Printer::Ox);
        match graph_key(q.3) {
            None => (d.push(t), n),
            Some(k) => (d, vpush(n, k, t)),
        }
    }
}

/// Whether `g` holds exactly the dataset that printed quads fill.
pub open spec fn holds_quads(g: LodGraph, qs: Seq<(Seq<char>, Seq<char>, Seq<char>, Seq<char>)>) -> bool {
    &&& triples_view(g.triples@) == quads_dataset(qs).0
    &&& g.named_graphs.graphs() == quads_dataset(qs).1
}

fn graph_name_key(g: &str) -> (r: Option<String>)
    ensures
        opt_view(r) == graph_key(g@),
{
    let gc = chars_of(g);
    let n = gc.len();
    proof {
        reveal_strlit("<");
    }
    if crate::text::is_literal(&gc, "DEFAULT") {
        None
    } else if crate::terms::has_prefix_lit(&gc, "<") && n >= 2 {
        Some(string_of(&gc[1..n - 1]))
    } else {
        Some(string_of(&gc))
    }
}

/// Fills a dataset with printed quads: each quad's triple goes to the
/// default graph or to the named graph that its graph name stands for.
pub fn dataset_of_quads(qs: &Vec<(String, String, String, String)>, graph: &mut LodGraph)
    requires
        old(graph).triples@.len() == 0,
        old(graph).named_graphs.spec_entries().len() == 0,
    ensures
        holds_quads(*final(graph), quad_view(qs@)),
        final(graph).base == old(graph).base,
        final(graph).prefixes.spec_entries() == old(graph).prefixes.spec_entries(),
{
    let ghost qv = quad_view(qs@);
    let mut i: usize = 0;
    proof {
        assert(triples_view(graph.triples@) =~= quads_dataset(qv.take(0)).0);
        assert(graph.named_graphs.graphs() =~= quads_dataset(qv.take(0)).1);
    }
    while i < qs.len()
        invariant
            i <= qs@.len(),
            qv == quad_view(qs@),
            holds_quads(*graph, qv.take(i as int)),
            graph.base == old(graph).base,
            graph.prefixes.spec_entries() == old(graph).prefixes.spec_entries(),
        decreases qs@.len() - i,
    {
        let q = &qs[i];
        let t = Triple {
            subject: node_of_printed(q.0.as_str(), Printer::Ox, "_:rdfstar_subject"),
            predicate: q.1.clone(),
            object: node_of_printed(q.2.as_str(), Printer::Ox, "_:rdfstar_object"),
        };
        proof {
            assert(qv.take(i + 1).drop_last() =~= qv.take(i as int));
            assert(qv.take(i + 1).last() == qv[i as int]);
            assert(qv[i as int] == (q.0@, q.1@, q.2@, q.3@));
            assert(t@ == printed_triple((q.0@, q.1@, q.2@), Printer::Ox));
        }
        match graph_name_key(q.3.as_str()) {
            None => {
                let ghost before = graph.triples@;
                graph.triples.push(t);
                proof {
                    assert(triples_view(graph.triples@) =~= triples_view(before).push(t@));
                }
            },
            Some(k) => {
                graph.named_graphs.push_item(k, t);
            },
        }
        i = i + 1;
    }
    proof {
        assert(qv.take(i as int) =~= qv);
    }
}

/// Reads a TriG document into its default and named graphs.
pub fn parse_trig_content(content: &str) -> (r: Result<LodGraph, LodError>)
    ensures
        exists|l: Result<Seq<(Seq<char>, Seq<char>, Seq<char>, Seq<char>)>, Seq<char>>| #[trigger] quads_read_as(
            trig_listing(content@),
            l,
        ) && match l {
            Ok(qs) => r is Ok && holds_quads(r.unwrap(), qs) && r.unwrap().base is None
                && r.unwrap().prefixes.spec_entries().len() == 0,
            Err(m) => r is Err && r->Err_0 is RdfParsing && error_detail(r->Err_0) == m,
        },
{
    let (quads, _base, _prefixes) = trig_read(content);
    let ghost l = quad_result(quads);
    assert(quads_read_as(trig_listing(content@), l));
    match quads {
        Ok(qs) => {
            let mut g = LodGraph::new();
            dataset_of_quads(&qs, &mut g);
            Ok(g)
        },
        Err(e) => Err(LodError::RdfParsing(e)),
    }
}

} // verus!

verus! {

/// The pairs after storing each pair of `l` in turn.
pub open spec fn stored_all(l: Seq<(Seq<char>, Seq<char>)>) -> Seq<(Seq<char>, Seq<char>)>
    decreases l.len(),
{
    if l.len() == 0 {
        seq![]
    } else {
        vinserted(stored_all(l.drop_last()), l.last().0, l.last().1)
    }
}

pub proof fn lemma_vkey_index_absent<W>(e: Seq<(Seq<char>, W)>, k: Seq<char>)
    requires
        forall|j: int| 0 <= j < e.len() ==> #[trigger] e[j].0 != k,
    ensures
        vkey_index(e, k) is None,
    decreases e.len(),
{
    if e.len() > 0 {
        assert forall|j: int| 0 <= j < e.drop_first().len() implies #[trigger] e.drop_first()[j].0 != k by {
            assert(e.drop_first()[j] == e[j + 1]);
        }
        lemma_vkey_index_absent(e.drop_first(), k);
    }
}

pub proof fn lemma_vinsertion_index_bounds<W>(e: Seq<(Seq<char>, W)>, k: Seq<char>)
    ensures
        0 <= vinsertion_index(e, k) <= e.len(),
    decreases e.len(),
{
    if e.len() > 0 {
        lemma_vinsertion_index_bounds(e.drop_first(), k);
    }
}

/// Storing pairs with distinct keys keeps exactly those pairs.
pub proof fn lemma_stored_all(l: Seq<(Seq<char>, Seq<char>)>)
    requires
        forall|i: int, j: int| 0 <= i < j < l.len() ==> #[trigger] l[i].0 != #[trigger] l[j].0,
    ensures
        stored_all(l).to_set() == l.to_set(),
    decreases l.len(),
{
    if l.len() == 0 {
        assert(stored_all(l).to_set() =~= l.to_set());
    } else {
        let p = l.drop_last();
        let x = l.last();
        assert forall|i: int, j: int| 0 <= i < j < p.len() implies #[trigger] p[i].0 != #[trigger] p[j].0 by {
            assert(p[i] == l[i]);
            assert(p[j] == l[j]);
        }
        lemma_stored_all(p);
        let s = stored_all(p);
        assert forall|j: int| 0 <= j < s.len() implies #[trigger] s[j].0 != x.0 by {
            assert(s.to_set().contains(s[j]));
            assert(p.to_set().contains(s[j]));
            let i = choose|i: int| 0 <= i < p.len() && p[i] == s[j];
            assert(l[i] == p[i]);
            assert(l[l.len() - 1] == x);
        }
        lemma_vkey_index_absent(s, x.0);
        lemma_vinsertion_index_bounds(s, x.0);
        let q = vinsertion_index(s, x.0);
        assert(stored_all(l) == s.insert(q, x));
        assert forall|y: (Seq<char>, Seq<char>)| #[trigger] stored_all(l).to_set().contains(y) == l.to_set().contains(y) by {
            if stored_all(l).to_set().contains(y) {
                let j = choose|j: int| 0 <= j < s.len() + 1 && s.insert(q, x)[j] == y;
                if j < q {
                    assert(s.to_set().contains(s[j]));
                    assert(p.to_set().contains(y));
                    let i = choose|i: int| 0 <= i < p.len() && p[i] == y;
                    assert(l[i] == y);
                } else if j == q {
                    assert(l[l.len() - 1] == y);
                } else {
                    assert(s.to_set().contains(s[j - 1]));
                    assert(p.to_set().contains(y));
                    let i = choose|i: int| 0 <= i < p.len() && p[i] == y;
                    assert(l[i] == y);
                }
            }
            if l.to_set().contains(y) {
                let i = choose|i: int| 0 <= i < l.len() && l[i] == y;
                if i == l.len() - 1 {
                    assert(s.insert(q, x)[q] == y);
                } else {
                    assert(p[i] == y);
                    assert(p.to_set().contains(y));
                    assert(s.to_set().contains(y));
                    let j = choose|j: int| 0 <= j < s.len() && s[j] == y;
                    if j < q {
                        assert(s.insert(q, x)[j] == y);
                    } else {
                        assert(s.insert(q, x)[j + 1] == y);
                    }
                }
            }
        }
        assert(stored_all(l).to_set() =~= l.to_set());
    }
}

/// Reads a TriG document into its default and named graphs, with the base
/// IRI and prefixes that the parser saw.
pub fn parse_trig_dataset(content: &str) -> (r: Result<LodGraph, LodError>)
    ensures
        exists|l: Result<Seq<(Seq<char>, Seq<char>, Seq<char>, Seq<char>)>, Seq<char>>| #[trigger] quads_read_as(
            trig_listing(content@),
            l,
        ) && match l {
            Ok(qs) => r is Ok && holds_quads(r.unwrap(), qs) && opt_view(r.unwrap().base) == trig_base(content@)
                && r.unwrap().prefixes.pairs().to_set() == trig_prefixes(content@),
            Err(m) => r is Err && r->Err_0 is RdfParsing && error_detail(r->Err_0) == m,
        },
{
    let (quads, base, prefixes) = trig_read(content);
    let ghost lq = quad_result(quads);
    assert(quads_read_as(trig_listing(content@), lq));
    match quads {
        Ok(qs) => {
            let mut g = LodGraph::new();
            dataset_of_quads(&qs, &mut g);
            g.base = base;
            let ghost l = pair_view(prefixes@);
            let mut i: usize = 0;
            proof {
                assert(g.prefixes.pairs() =~= stored_all(l.take(0)));
            }
            while i < prefixes.len()
                invariant
                    i <= prefixes@.len(),
                    l == pair_view(prefixes@),
                    g.prefixes.pairs() == stored_all(l.take(i as int)),
                    holds_quads(g, quad_view(qs@)),
                    lq == quad_result(Ok(qs)),
                    quads_read_as(trig_listing(content@), lq),
                    opt_view(g.base) == trig_base(content@),
                decreases prefixes@.len() - i,
            {
                let ghost e0 = g.prefixes.spec_entries();
                let k = prefixes[i].0.clone();
                let v = prefixes[i].1.clone();
                g.prefixes.insert(k, v);
                proof {
                    lemma_pair_view_inserted(e0, k, v);
                    assert(l.take(i + 1).drop_last() =~= l.take(i as int));
                    assert(l.take(i + 1).last() == (k@, v@));
                }
                i = i + 1;
            }
            proof {
                assert(l.take(i as int) =~= l);
                assert forall|a: int, b: int| 0 <= a < b < l.len() implies #[trigger] l[a].0 != #[trigger] l[b].0 by {
                    assert(l[a].0 == prefixes@[a].0@);
                    assert(l[b].0 == prefixes@[b].0@);
                }
                lemma_stored_all(l);
            }
            Ok(g)
        },
        Err(e) => Err(LodError::RdfParsing(e)),
    }
}

} // verus!

verus! {

/// What reading Turtle gives: `rio_turtle`'s triples where it accepts the
/// document, otherwise what the built-in reader makes of it.
pub open spec fn turtle_outcome(content: Seq<char>, r: Result<LodGraph, LodError>) -> bool {
    let d = scanned_declarations(content);
    match rio_turtle_listing(content, d.1) {
        Ok(ts) => r is Ok && holds_doc(
            r.unwrap(),
            DocState { prefixes: d.0, base: d.1, triples: printed_triples(ts, Printer::Rio), next: 0 },
        ),
        Err(_) => match turtle_subset(content) {
            Ok(doc) => r is Ok && holds_doc(r.unwrap(), doc),
            Err(m) => r is Err && r->Err_0 is RdfParsing && error_detail(r->Err_0) == m,
        },
    }
}

/// Reads a Turtle document: with `rio_turtle` first; where it refuses the
/// document, with the built-in reader, whose line-numbered errors are kept.
pub fn parse_turtle_rdf(content: &str) -> (r: Result<LodGraph, LodError>)
    requires
        content@.len() < usize::MAX,
    ensures
        turtle_outcome(content@, r),
{
    match parse_turtle_with_rio(content) {
        Ok(g) => Ok(g),
        Err(rio_error) => match parse_turtle_subset(content) {
            Ok(g) => Ok(g),
            Err(subset_error) => {
                let text = subset_error.to_string();
                let tc = chars_of(text.as_str());
                proof {
                    crate::document::lemma_subset_error_line(turtle_statements(content@), 0, crate::document::doc_start());
                    reveal_strlit("RDF parsing error: ");
                    reveal_strlit("line ");
                    let m = error_detail(subset_error);
                    assert(tc@.subrange(19, 24) =~= "line "@) by {
                        assert(tc@ =~= "RDF parsing error: "@ + m);
                        assert(m.subrange(0, 5) =~= "line "@);
                    }
                    crate::text::lemma_occurs_found(tc@, "line "@, 0, 19);
                }
                if contains_lit(&tc, "line ") {
                    Err(subset_error)
                } else {
                    Err(rio_error)
                }
            },
        },
    }
}

} // verus!
