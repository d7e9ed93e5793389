//! Writing RDF/XML and TriG: the terms are checked against `oxrdf`, and the
//! quads in normal form, as N-Quads text, are handed to the `oxrdfxml` and
//! `oxttl` writers.
use vstd::prelude::*;
use crate::model::{Node, SNode, STriple, Triple, SortedMap, LodGraph, triples_view, opt_view, pair_view};
use crate::writing::{lines_text, node_nt, push_lines, push_node};
use crate::text::push_lit;
use crate::text::{chars_of, string_of};
use crate::terms::{has_prefix, has_prefix_lit};
use crate::normal::{normalized_triples, normal_form, is_sorted};
use crate::error::{LodError, error_detail};

verus! {

#[verifier::external_type_specification]
#[verifier::external_body]
pub struct ExNamedNode(oxrdf::NamedNode);

#[verifier::external_type_specification]
#[verifier::external_body]
pub struct ExBlankNode(oxrdf::BlankNode);

/// The message with which `oxrdf::NamedNode::new` refuses an IRI; nothing
/// where it accepts it.
pub uninterp spec fn iri_refusal(iri: Seq<char>) -> Option<Seq<char>>;

/// The message with which `oxrdf::BlankNode::new` refuses a label; nothing
/// where it accepts it.
pub uninterp spec fn blank_refusal(id: Seq<char>) -> Option<Seq<char>>;

/// `oxrdf::NamedNode::new`, its error printed. Claimed: it fails exactly
/// where `iri_refusal` gives a message, with that message.
#[verifier::external_body]
fn named_node(iri: &str) -> (r: Result<oxrdf::NamedNode, String>)
    ensures
        match r {
            Ok(_) => iri_refusal(iri@) is None,
            Err(e) => iri_refusal(iri@) == Some(e@),
        },
{
    oxrdf::NamedNode::new(iri).map_err(|e| e.to_string())
}

/// `oxrdf::BlankNode::new`, its error printed. Claimed: it fails exactly
/// where `blank_refusal` gives a message, with that message.
#[verifier::external_body]
fn blank_node(id: &str) -> (r: Result<oxrdf::BlankNode, String>)
    ensures
        match r {
            Ok(_) => blank_refusal(id@) is None,
            Err(e) => blank_refusal(id@) == Some(e@),
        },
{
    oxrdf::BlankNode::new(id).map_err(|e| e.to_string())
}

/// The text that `oxttl::TriGSerializer` writes, given the base IRI and
/// prefixes, for the quads of an N-Quads document as the lenient
/// `oxttl::NQuadsParser` reads them, or the message of the first error (of
/// the reader or of the writer).
pub uninterp spec fn trig_text(
    base: Option<Seq<char>>,
    prefixes: Seq<(Seq<char>, Seq<char>)>,
    nquads: Seq<char>,
) -> Result<Seq<char>, Seq<char>>;

/// The text that `oxrdfxml::RdfXmlSerializer` writes, given the base IRI
/// and prefixes, for the triples of an N-Quads document (of its default
/// graph) as the lenient `oxttl::NQuadsParser` reads them, or the message of
/// the first error.
pub uninterp spec fn rdfxml_text(
    base: Option<Seq<char>>,
    prefixes: Seq<(Seq<char>, Seq<char>)>,
    nquads: Seq<char>,
) -> Result<Seq<char>, Seq<char>>;

/// The message of the first refusal by `oxttl::TriGSerializer` of a base
/// IRI (`with_base_iri`) and then of the prefixes in order (`with_prefix`);
/// nothing where it takes them all.
pub uninterp spec fn trig_head_refusal(base: Option<Seq<char>>, prefixes: Seq<(Seq<char>, Seq<char>)>) -> Option<
    Seq<char>,
>;

/// The message of the first refusal by `oxrdfxml::RdfXmlSerializer` of a
/// base IRI (`with_base_iri`) and then of the prefixes in order
/// (`with_prefix`); nothing where it takes them all.
pub uninterp spec fn rdfxml_head_refusal(base: Option<Seq<char>>, prefixes: Seq<(Seq<char>, Seq<char>)>) -> Option<
    Seq<char>,
>;

/// Gives a new `oxttl::TriGSerializer` the base IRI and then the prefixes,
/// stopping at the first refusal, and returns its message. Claimed: the
/// result is `trig_head_refusal` of the arguments.
#[verifier::external_body]
fn trig_head_check(base: Option<String>, prefixes: Vec<(String, String)>) -> (r: Result<(), String>)
    ensures
        match r {
            Ok(()) => trig_head_refusal(opt_view(base), pair_view(prefixes@)) is None,
            Err(e) => trig_head_refusal(opt_view(base), pair_view(prefixes@)) == Some(e@),
        },
{
    let mut ser = oxttl::TriGSerializer::new();
    if let Some(b) = base {
        ser = ser.with_base_iri(b).map_err(|e| e.to_string())?;
    }
    for (p, i) in prefixes {
        ser = ser.with_prefix(p, i).map_err(|e| e.to_string())?;
    }
    Ok(())
}

/// Gives a new `oxrdfxml::RdfXmlSerializer` the base IRI and then the
/// prefixes, stopping at the first refusal, and returns its message.
/// Claimed: the result is `rdfxml_head_refusal` of the arguments.
#[verifier::external_body]
fn rdfxml_head_check(base: Option<String>, prefixes: Vec<(String, String)>) -> (r: Result<(), String>)
    ensures
        match r {
            Ok(()) => rdfxml_head_refusal(opt_view(base), pair_view(prefixes@)) is None,
            Err(e) => rdfxml_head_refusal(opt_view(base), pair_view(prefixes@)) == Some(e@),
        },
{
    let mut ser = oxrdfxml::RdfXmlSerializer::new();
    if let Some(b) = base {
        ser = ser.with_base_iri(b).map_err(|e| e.to_string())?;
    }
    for (p, i) in prefixes {
        ser = ser.with_prefix(p, i).map_err(|e| e.to_string())?;
    }
    Ok(())
}

pub open spec fn text_result(r: Result<String, String>) -> Result<Seq<char>, Seq<char>> {
    match r {
        Ok(t) => Ok(t@),
        Err(e) => Err(e@),
    }
}

/// Reads N-Quads text with `oxttl::NQuadsParser` in lenient mode (which
/// keeps blank node labels as written and leaves language tags and IRIs
/// unchecked; tags are lowercased) and writes its quads with `oxttl::TriGSerializer`,
/// given the base IRI and prefixes; the bytes are read as UTF-8. Claimed:
/// the result is `trig_text` of the arguments.
#[verifier::external_body]
fn trig_write(base: Option<String>, prefixes: Vec<(String, String)>, nquads: &str) -> (r: Result<String, String>)
    ensures
        text_result(r) == trig_text(opt_view(base), pair_view(prefixes@), nquads@),
{
    let mut ser = oxttl::TriGSerializer::new();
    if let Some(b) = base {
        ser = ser.with_base_iri(b).map_err(|e| e.to_string())?;
    }
    for (p, i) in prefixes {
        ser = ser.with_prefix(p, i).map_err(|e| e.to_string())?;
    }
    let mut w = ser.for_writer(Vec::new());
    for q in oxttl::NQuadsParser::new().lenient().for_slice(nquads.as_bytes()) {
        w.serialize_quad(&q.map_err(|e| e.to_string())?).map_err(|e| e.to_string())?;
    }
    String::from_utf8(w.finish().map_err(|e| e.to_string())?).map_err(|e| e.to_string())
}

/// Reads N-Quads text with `oxttl::NQuadsParser` in lenient mode and
/// writes the triples of its quads with `oxrdfxml::RdfXmlSerializer`, given the base IRI and
/// prefixes; the bytes are read as UTF-8. Claimed: the result is
/// `rdfxml_text` of the arguments.
#[verifier::external_body]
fn rdfxml_write(base: Option<String>, prefixes: Vec<(String, String)>, nquads: &str) -> (r: Result<String, String>)
    ensures
        text_result(r) == rdfxml_text(opt_view(base), pair_view(prefixes@), nquads@),
{
    let mut ser = oxrdfxml::RdfXmlSerializer::new();
    if let Some(b) = base {
        ser = ser.with_base_iri(b).map_err(|e| e.to_string())?;
    }
    for (p, i) in prefixes {
        ser = ser.with_prefix(p, i).map_err(|e| e.to_string())?;
    }
    let mut w = ser.for_writer(Vec::new());
    for q in oxttl::NQuadsParser::new().lenient().for_slice(nquads.as_bytes()) {
        w.serialize_triple(q.map_err(|e| e.to_string())?.as_ref()).map_err(|e| e.to_string())?;
    }
    String::from_utf8(w.finish().map_err(|e| e.to_string())?).map_err(|e| e.to_string())
}

/// A blank node label without its `_:`.
pub open spec fn bare_label(id: Seq<char>) -> Seq<char> {
    if has_prefix(id, "_:"@) {
        id.skip(2)
    } else {
        id
    }
}

/// Why a node cannot be a subject in `oxrdf`, if it cannot.
pub open spec fn subject_refusal(n: SNode) -> Option<Seq<char>> {
    match n {
        SNode::Iri(i) => iri_refusal(i),
        SNode::Blank(b) => blank_refusal(bare_label(b)),
        SNode::Literal { .. } => Some("literal cannot be used as a subject"@),
    }
}

/// Why a node cannot be an object in `oxrdf`, if it cannot.
pub open spec fn object_refusal(n: SNode) -> Option<Seq<char>> {
    match n {
        SNode::Iri(i) => iri_refusal(i),
        SNode::Blank(b) => blank_refusal(bare_label(b)),
        SNode::Literal { datatype, lang, .. } => if lang is Some {
            None
        } else {
            match datatype {
                Some(dt) => iri_refusal(dt),
                None => None,
            }
        },
    }
}

/// Why a graph name cannot be written, if it cannot.
pub open spec fn graph_refusal(name: Seq<char>) -> Option<Seq<char>> {
    if has_prefix(name, "_:"@) {
        blank_refusal(bare_label(name))
    } else {
        iri_refusal(name)
    }
}

/// Why a triple cannot be written: its subject, predicate or object, in that order.
pub open spec fn triple_refusal(t: STriple) -> Option<Seq<char>> {
    if subject_refusal(t.subject) is Some {
        subject_refusal(t.subject)
    } else if iri_refusal(t.predicate) is Some {
        iri_refusal(t.predicate)
    } else {
        object_refusal(t.object)
    }
}

/// The first refusal among triples.
pub open spec fn first_refusal(ts: Seq<STriple>) -> Option<Seq<char>>
    decreases ts.len(),
{
    if ts.len() == 0 {
        None
    } else if first_refusal(ts.drop_last()) is Some {
        first_refusal(ts.drop_last())
    } else {
        triple_refusal(ts.last())
    }
}

fn bare(id: &String) -> (r: String)
    ensures
        r@ == bare_label(id@),
{
    let c = chars_of(id.as_str());
    proof {
        reveal_strlit("_:");
    }
    if has_prefix_lit(&c, "_:") {
        proof {
            assert(c@.subrange(2, c@.len() as int) =~= c@.skip(2));
        }
        string_of(&c[2..c.len()])
    } else {
        id.clone()
    }
}

fn parsing(e: String) -> (r: LodError)
    ensures
        r is RdfParsing && error_detail(r) == e@,
{
    LodError::RdfParsing(e)
}

fn check_subject(n: &Node) -> (r: Result<(), LodError>)
    ensures
        match subject_refusal(n@) {
            None => r is Ok,
            Some(m) => r is Err && r->Err_0 is RdfParsing && error_detail(r->Err_0) == m,
        },
{
    match n {
        Node::Iri(i) => match named_node(i.as_str()) {
            Ok(_) => Ok(()),
            Err(e) => Err(parsing(e)),
        },
        Node::Blank(b) => match blank_node(bare(b).as_str()) {
            Ok(_) => Ok(()),
            Err(e) => Err(parsing(e)),
        },
        Node::Literal { .. } => Err(parsing(string_of(&chars_of("literal cannot be used as a subject")))),
    }
}

fn check_object(n: &Node) -> (r: Result<(), LodError>)
    ensures
        match object_refusal(n@) {
            None => r is Ok,
            Some(m) => r is Err && r->Err_0 is RdfParsing && error_detail(r->Err_0) == m,
        },
{
    match n {
        Node::Iri(i) => match named_node(i.as_str()) {
            Ok(_) => Ok(()),
            Err(e) => Err(parsing(e)),
        },
        Node::Blank(b) => match blank_node(bare(b).as_str()) {
            Ok(_) => Ok(()),
            Err(e) => Err(parsing(e)),
        },
        Node::Literal { datatype, lang, .. } => match lang {
            Some(_) => Ok(()),
            None => match datatype {
                Some(dt) => match named_node(dt.as_str()) {
                    Ok(_) => Ok(()),
                    Err(e) => Err(parsing(e)),
                },
                None => Ok(()),
            },
        },
    }
}

fn check_graph(name: &String) -> (r: Result<(), LodError>)
    ensures
        match graph_refusal(name@) {
            None => r is Ok,
            Some(m) => r is Err && r->Err_0 is RdfParsing && error_detail(r->Err_0) == m,
        },
{
    let c = chars_of(name.as_str());
    if has_prefix_lit(&c, "_:") {
        match blank_node(bare(name).as_str()) {
            Ok(_) => Ok(()),
            Err(e) => Err(parsing(e)),
        }
    } else {
        match named_node(name.as_str()) {
            Ok(_) => Ok(()),
            Err(e) => Err(parsing(e)),
        }
    }
}

/// Checks that `oxrdf` accepts every term of the triples, failing at the
/// first triple that it refuses.
fn vet_triples(ts: &Vec<Triple>) -> (r: Result<(), LodError>)
    ensures
        match first_refusal(triples_view(ts@)) {
            None => r is Ok,
            Some(m) => r is Err && r->Err_0 is RdfParsing && error_detail(r->Err_0) == m,
        },
{
    let ghost tv = triples_view(ts@);
    let mut i: usize = 0;
    proof {
        assert(tv.take(0) =~= seq![]);
    }
    while i < ts.len()
        invariant
            i <= ts@.len(),
            tv == triples_view(ts@),
            first_refusal(tv.take(i as int)) is None,
        decreases ts@.len() - i,
    {
        let t = &ts[i];
        proof {
            assert(tv.take(i + 1).drop_last() =~= tv.take(i as int));
            assert(tv.take(i + 1).last() == t@);
        }
        match check_subject(&t.subject) {
            Ok(()) => {},
            Err(e) => {
                proof {
                    lemma_first_refusal_stays(tv, i as int);
                }
                return Err(e);
            },
        }
        match named_node(t.predicate.as_str()) {
            Ok(_) => {},
            Err(e) => {
                proof {
                    lemma_first_refusal_stays(tv, i as int);
                }
                return Err(parsing(e));
            },
        }
        match check_object(&t.object) {
            Ok(()) => {},
            Err(e) => {
                proof {
                    lemma_first_refusal_stays(tv, i as int);
                }
                return Err(e);
            },
        }
        i = i + 1;
    }
    proof {
        assert(tv.take(i as int) =~= tv);
    }
    Ok(())
}

/// Once a triple is refused, it stays the first refusal of every longer prefix.
proof fn lemma_first_refusal_stays(tv: Seq<STriple>, i: int)
    requires
        0 <= i < tv.len(),
        first_refusal(tv.take(i)) is None,
    ensures
        first_refusal(tv) == (if triple_refusal(tv[i]) is Some {
            triple_refusal(tv[i])
        } else {
            first_refusal(tv)
        }),
        triple_refusal(tv[i]) is Some ==> first_refusal(tv.take(i + 1)) == triple_refusal(tv[i]),
    decreases tv.len() - i,
{
    assert(tv.take(i + 1).drop_last() =~= tv.take(i));
    if triple_refusal(tv[i]) is Some {
        lemma_refusal_extends(tv, i + 1);
    }
}

proof fn lemma_refusal_extends(tv: Seq<STriple>, k: int)
    requires
        0 < k <= tv.len(),
        first_refusal(tv.take(k)) is Some,
    ensures
        first_refusal(tv) == first_refusal(tv.take(k)),
    decreases tv.len() - k,
{
    if k == tv.len() {
        assert(tv.take(k) =~= tv);
    } else {
        assert(tv.take(k + 1).drop_last() =~= tv.take(k));
        lemma_refusal_extends(tv, k + 1);
    }
}

/// The prefix declarations in key order, as (name, IRI) pairs.
fn prefix_list(prefixes: &SortedMap<String>) -> (r: Vec<(String, String)>)
    ensures
        r@ == prefixes.spec_entries(),
{
    let mut r: Vec<(String, String)> = Vec::new();
    let n = prefixes.len();
    let mut i: usize = 0;
    while i < n
        invariant
            n == prefixes.spec_entries().len(),
            i <= n,
            r@ == prefixes.spec_entries().take(i as int),
        decreases n - i,
    {
        let e = prefixes.entry_at(i);
        r.push((e.0.clone(), e.1.clone()));
        proof {
            assert(r@ =~= prefixes.spec_entries().take(i + 1));
        }
        i = i + 1;
    }
    proof {
        assert(r@ =~= prefixes.spec_entries());
    }
    r
}

/// The text of the N-Quads document of a graph's triples in normal form.
pub open spec fn normal_lines(ts: Seq<STriple>) -> Seq<char> {
    lines_text(normal_form(sorted_of(ts)))
}

fn own_base(base: &Option<String>) -> (r: Option<String>)
    ensures
        opt_view(r) == opt_view(*base),
{
    match base {
        Some(b) => Some(b.clone()),
        None => None,
    }
}

/// Writes a graph as RDF/XML: datasets with named graphs are refused, then
/// a base IRI or prefix that the writer refuses, then the first triple in
/// normal form with a term that `oxrdf` refuses; else the writer writes the
/// triples in normal form, as N-Quads lines read back, with the graph's
/// base and prefixes.
pub fn serialize_rdfxml(graph: &LodGraph) -> (r: Result<String, LodError>)
    ensures
        if graph.named_graphs.spec_entries().len() > 0 {
            r is Err && r->Err_0 is Validation && error_detail(r->Err_0)
                == "RDF/XML does not support named graphs; convert the dataset to TriG first"@
        } else {
            let all = triples_view(graph.spec_all_triples());
            match rdfxml_head_refusal(opt_view(graph.base), graph.prefixes.pairs()) {
                Some(m) => r is Err && r->Err_0 is RdfParsing && error_detail(r->Err_0) == m,
                None => match first_refusal(normal_form(sorted_of(all))) {
                    Some(m) => r is Err && r->Err_0 is RdfParsing && error_detail(r->Err_0) == m,
                    None => match rdfxml_text(opt_view(graph.base), graph.prefixes.pairs(), normal_lines(all)) {
                        Ok(t) => r is Ok && r.unwrap()@ == t,
                        Err(m) => r is Err && r->Err_0 is RdfParsing && error_detail(r->Err_0) == m,
                    },
                },
            }
        },
{
    if !graph.named_graphs.is_empty() {
        return Err(LodError::Validation(
            string_of(&chars_of("RDF/XML does not support named graphs; convert the dataset to TriG first")),
        ));
    }
    let head = prefix_list(&graph.prefixes);
    proof {
        assert(pair_view(head@) == graph.prefixes.pairs());
    }
    match rdfxml_head_check(own_base(&graph.base), head) {
        Ok(()) => {},
        Err(e) => {
            return Err(parsing(e));
        },
    }
    let ts = normalized_triples(graph);
    proof {
        let s0 = choose|s: Seq<STriple>| #[trigger] normal_form(s) == triples_view(ts@) && is_sorted(s)
            && s.to_multiset() == triples_view(graph.spec_all_triples()).to_multiset();
        lemma_sorted_of(s0, triples_view(graph.spec_all_triples()));
    }
    match vet_triples(&ts) {
        Ok(()) => {},
        Err(e) => {
            return Err(e);
        },
    }
    let mut text: Vec<char> = Vec::new();
    push_lines(&mut text, &ts);
    let nquads = string_of(&text);
    let prefixes = prefix_list(&graph.prefixes);
    proof {
        assert(pair_view(prefixes@) == graph.prefixes.pairs());
    }
    match rdfxml_write(own_base(&graph.base), prefixes, nquads.as_str()) {
        Ok(s) => Ok(s),
        Err(e) => Err(parsing(e)),
    }
}

proof fn lemma_default_only_triples(g: LodGraph)
    requires
        g.named_graphs.spec_entries().len() == 0,
    ensures
        g.spec_all_triples() == g.triples@,
{
    assert(g.named_graphs.spec_entries() =~= Seq::<(String, Vec<Triple>)>::empty());
    assert(g.spec_all_triples() =~= g.triples@);
}

/// The sorted order of a list of triples (one and only one exists).
pub open spec fn sorted_of(ts: Seq<STriple>) -> Seq<STriple> {
    choose|s: Seq<STriple>| #[trigger] is_sorted(s) && s.to_multiset() == ts.to_multiset()
}

proof fn lemma_sorted_of(s: Seq<STriple>, ts: Seq<STriple>)
    requires
        is_sorted(s),
        s.to_multiset() == ts.to_multiset(),
    ensures
        sorted_of(ts) == s,
{
    let c = sorted_of(ts);
    crate::laws::law_sorted_permutations_agree(c, s);
}

/// The first refusal among named graphs, in name order: a graph's name,
/// then its triples in normal form.
pub open spec fn named_refusal(es: Seq<(String, Vec<Triple>)>) -> Option<Seq<char>>
    decreases es.len(),
{
    if es.len() == 0 {
        None
    } else if named_refusal(es.drop_last()) is Some {
        named_refusal(es.drop_last())
    } else if graph_refusal(es.last().0@) is Some {
        graph_refusal(es.last().0@)
    } else {
        first_refusal(normal_form(sorted_of(triples_view(es.last().1@))))
    }
}

proof fn lemma_named_refusal_extends(es: Seq<(String, Vec<Triple>)>, k: int)
    requires
        0 < k <= es.len(),
        named_refusal(es.take(k)) is Some,
    ensures
        named_refusal(es) == named_refusal(es.take(k)),
    decreases es.len() - k,
{
    if k == es.len() {
        assert(es.take(k) =~= es);
    } else {
        assert(es.take(k + 1).drop_last() =~= es.take(k));
        lemma_named_refusal_extends(es, k + 1);
    }
}

/// What `oxrdf` refuses of a dataset: the first refused triple of the
/// default graph in normal form, else the first refusal among named graphs.
pub open spec fn trig_refusal(graph: LodGraph) -> Option<Seq<char>> {
    match first_refusal(normal_form(sorted_of(triples_view(graph.triples@)))) {
        Some(m) => Some(m),
        None => named_refusal(graph.named_graphs.spec_entries()),
    }
}

fn copy_triples(v: &Vec<Triple>) -> (r: Vec<Triple>)
    ensures
        r@ == v@,
{
    let own = v.clone();
    proof {
        assert forall|i: int| 0 <= i < own@.len() implies own@[i] == v@[i] by {
            assert(cloned::<Triple>(v[i], own[i]));
        }
        assert(own@ =~= v@);
    }
    own
}

/// How a graph name is written in N-Quads: a blank node label as it is,
/// an IRI between angle brackets.
pub open spec fn graph_text(name: Seq<char>) -> Seq<char> {
    if has_prefix(name, "_:"@) {
        name
    } else {
        "<"@ + name + ">"@
    }
}

/// A triple of the named graph written `g`, as one N-Quads statement.
pub open spec fn quad_line(t: STriple, g: Seq<char>) -> Seq<char> {
    node_nt(t.subject) + " <"@ + t.predicate + "> "@ + node_nt(t.object) + " "@ + g + " ."@
}

/// Each triple's N-Quads statement in the graph written `g`, each followed
/// by a line break.
pub open spec fn quad_lines(ts: Seq<STriple>, g: Seq<char>) -> Seq<char>
    decreases ts.len(),
{
    if ts.len() == 0 {
        seq![]
    } else {
        quad_lines(ts.drop_last(), g) + quad_line(ts.last(), g) + "\n"@
    }
}

/// The N-Quads lines of named graphs, graph after graph in name order, each
/// graph's triples in normal form.
pub open spec fn named_quads_text(es: Seq<(String, Vec<Triple>)>) -> Seq<char>
    decreases es.len(),
{
    if es.len() == 0 {
        seq![]
    } else {
        named_quads_text(es.drop_last()) + quad_lines(
            normal_form(sorted_of(triples_view(es.last().1@))),
            graph_text(es.last().0@),
        )
    }
}

/// The N-Quads document of a dataset: the default graph's lines, then the
/// named graphs'.
pub open spec fn trig_nquads(graph: LodGraph) -> Seq<char> {
    normal_lines(triples_view(graph.triples@)) + named_quads_text(graph.named_graphs.spec_entries())
}

fn push_quad_lines(out: &mut Vec<char>, ts: &Vec<Triple>, g: &Vec<char>)
    ensures
        final(out)@ == old(out)@ + quad_lines(triples_view(ts@), g@),
{
    let ghost o = out@;
    let ghost tv = triples_view(ts@);
    let mut i: usize = 0;
    proof {
        assert(tv.take(0) =~= seq![]);
        assert(o + quad_lines(tv.take(0), g@) =~= o);
    }
    while i < ts.len()
        invariant
            i <= ts@.len(),
            tv == triples_view(ts@),
            out@ == o + quad_lines(tv.take(i as int), g@),
        decreases ts@.len() - i,
    {
        let t = &ts[i];
        proof {
            assert(tv.take(i + 1).drop_last() =~= tv.take(i as int));
            assert(tv.take(i + 1).last() == t@);
        }
        let ghost before = out@;
        push_node(out, &t.subject);
        push_lit(out, " <");
        crate::text::push_string(out, &t.predicate);
        push_lit(out, "> ");
        push_node(out, &t.object);
        push_lit(out, " ");
        crate::text::push_all(out, g.as_slice());
        push_lit(out, " .");
        push_lit(out, "\n");
        proof {
            assert(out@ =~= before + quad_line(t@, g@) + "\n"@);
            assert(o + quad_lines(tv.take(i + 1), g@) =~= o + quad_lines(tv.take(i as int), g@) + quad_line(t@, g@)
                + "\n"@);
        }
        i = i + 1;
    }
    proof {
        assert(tv.take(i as int) =~= tv);
    }
}

fn graph_name_text(name: &String) -> (r: Vec<char>)
    ensures
        r@ == graph_text(name@),
{
    let c = chars_of(name.as_str());
    proof {
        reveal_strlit("_:");
    }
    if has_prefix_lit(&c, "_:") {
        c
    } else {
        let mut v: Vec<char> = Vec::new();
        push_lit(&mut v, "<");
        crate::text::push_all(&mut v, &c);
        push_lit(&mut v, ">");
        v
    }
}

/// Writes a dataset as TriG: a base IRI or prefix that the writer refuses
/// is refused first, then what `oxrdf` refuses (the default graph's triples
/// in normal form, then each named graph's name and triples, in name
/// order); else the writer writes the quads in normal form, as N-Quads lines
/// read back, with the dataset's base and prefixes.
pub fn serialize_trig(graph: &LodGraph) -> (r: Result<String, LodError>)
    ensures
        match trig_head_refusal(opt_view(graph.base), graph.prefixes.pairs()) {
            Some(m) => r is Err && r->Err_0 is RdfParsing && error_detail(r->Err_0) == m,
            None => match trig_refusal(*graph) {
                Some(m) => r is Err && r->Err_0 is RdfParsing && error_detail(r->Err_0) == m,
                None => match trig_text(opt_view(graph.base), graph.prefixes.pairs(), trig_nquads(*graph)) {
                    Ok(t) => r is Ok && r.unwrap()@ == t,
                    Err(m) => r is Err && r->Err_0 is RdfParsing && error_detail(r->Err_0) == m,
                },
            },
        },
{
    let head = prefix_list(&graph.prefixes);
    proof {
        assert(pair_view(head@) == graph.prefixes.pairs());
    }
    match trig_head_check(own_base(&graph.base), head) {
        Ok(()) => {},
        Err(e) => {
            return Err(parsing(e));
        },
    }
    let default_only = LodGraph {
        base: None,
        prefixes: SortedMap::new(),
        triples: copy_triples(&graph.triples),
        named_graphs: SortedMap::new(),
    };
    proof {
        lemma_default_only_triples(default_only);
    }
    let ts = normalized_triples(&default_only);
    proof {
        let s0 = choose|s: Seq<STriple>| #[trigger] normal_form(s) == triples_view(ts@) && is_sorted(s)
            && s.to_multiset() == triples_view(default_only.spec_all_triples()).to_multiset();
        lemma_sorted_of(s0, triples_view(graph.triples@));
    }
    match vet_triples(&ts) {
        Ok(()) => {},
        Err(e) => {
            return Err(e);
        },
    }
    let mut text: Vec<char> = Vec::new();
    push_lines(&mut text, &ts);
    let ghost es = graph.named_graphs.spec_entries();
    let n = graph.named_graphs.len();
    let mut i: usize = 0;
    proof {
        assert(es.take(0) =~= Seq::<(String, Vec<Triple>)>::empty());
        assert(text@ =~= normal_lines(triples_view(graph.triples@)) + named_quads_text(es.take(0)));
    }
    while i < n
        invariant
            n == es.len(),
            es == graph.named_graphs.spec_entries(),
            i <= n,
            trig_head_refusal(opt_view(graph.base), graph.prefixes.pairs()) is None,
            first_refusal(normal_form(sorted_of(triples_view(graph.triples@)))) is None,
            named_refusal(es.take(i as int)) is None,
            text@ == normal_lines(triples_view(graph.triples@)) + named_quads_text(es.take(i as int)),
        decreases n - i,
    {
        let e = graph.named_graphs.entry_at(i);
        proof {
            assert(es.take(i + 1).drop_last() =~= es.take(i as int));
            assert(es.take(i + 1).last() == es[i as int]);
        }
        match check_graph(&e.0) {
            Ok(()) => {},
            Err(err) => {
                proof {
                    lemma_named_refusal_extends(es, i + 1);
                }
                return Err(err);
            },
        }
        let one = LodGraph {
            base: None,
            prefixes: SortedMap::new(),
            triples: copy_triples(&e.1),
            named_graphs: SortedMap::new(),
        };
        proof {
            lemma_default_only_triples(one);
        }
        let ts = normalized_triples(&one);
        proof {
            let si = choose|s: Seq<STriple>| #[trigger] normal_form(s) == triples_view(ts@) && is_sorted(s)
                && s.to_multiset() == triples_view(one.spec_all_triples()).to_multiset();
            lemma_sorted_of(si, triples_view(e.1@));
        }
        match vet_triples(&ts) {
            Ok(()) => {},
            Err(err) => {
                proof {
                    lemma_named_refusal_extends(es, i + 1);
                }
                return Err(err);
            },
        }
        let g = graph_name_text(&e.0);
        let ghost before = text@;
        push_quad_lines(&mut text, &ts, &g);
        proof {
            assert(text@ =~= normal_lines(triples_view(graph.triples@)) + named_quads_text(es.take(i + 1)));
        }
        i = i + 1;
    }
    proof {
        assert(es.take(i as int) =~= es);
    }
    let nquads = string_of(&text);
    let prefixes = prefix_list(&graph.prefixes);
    proof {
        assert(pair_view(prefixes@) == graph.prefixes.pairs());
    }
    match trig_write(own_base(&graph.base), prefixes, nquads.as_str()) {
        Ok(s) => Ok(s),
        Err(e) => Err(parsing(e)),
    }
}

} // verus!
