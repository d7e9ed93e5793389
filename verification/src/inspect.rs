//! Inspection: counts and distributions that summarize a graph.
use vstd::prelude::*;
use crate::model::{
    Node, SNode, STriple, Triple, SortedMap, LodGraph, InspectionReport, InspectionRequest, triples_view, count_view,
    counted, counts_at_most,
};
use crate::text::{chars_of, string_of, is_literal};
use crate::normal::{same_node, same_string, node_rank};
use crate::format::RdfFormat;
use crate::error::LodError;
use crate::parser::{parse_graph, parse_outcome, read_graph_content, file_outcome, resolve_format};

verus! {

/// Inspection of graphs.
pub struct InspectionService;

pub open spec fn rdf_type_iri() -> Seq<char> {
    "http://www.w3.org/1999/02/22-rdf-syntax-ns#type"@
}

pub open spec fn rdf_property_iri() -> Seq<char> {
    "http://www.w3.org/1999/02/22-rdf-syntax-ns#Property"@
}

/// The values of a sequence, each once, in order of first appearance.
pub open spec fn distinct<T>(s: Seq<T>) -> Seq<T>
    decreases s.len(),
{
    if s.len() == 0 {
        seq![]
    } else {
        let d = distinct(s.drop_last());
        if d.contains(s.last()) {
            d
        } else {
            d.push(s.last())
        }
    }
}

pub open spec fn subjects_of(ts: Seq<STriple>) -> Seq<SNode> {
    ts.map_values(|t: STriple| t.subject)
}

pub open spec fn objects_of(ts: Seq<STriple>) -> Seq<SNode> {
    ts.map_values(|t: STriple| t.object)
}

pub open spec fn predicates_of(ts: Seq<STriple>) -> Seq<Seq<char>> {
    ts.map_values(|t: STriple| t.predicate)
}

/// How many subjects and objects are of the given kind (0 IRI, 1 literal, 2 blank node).
pub open spec fn kind_count(ts: Seq<STriple>, kind: int) -> nat
    decreases ts.len(),
{
    if ts.len() == 0 {
        0
    } else {
        kind_count(ts.drop_last(), kind) + (if node_rank(ts.last().subject) == kind {
            1nat
        } else {
            0nat
        }) + (if node_rank(ts.last().object) == kind {
            1nat
        } else {
            0nat
        })
    }
}

/// Counts of each key, in key order.
pub open spec fn tally(keys: Seq<Seq<char>>) -> Seq<(Seq<char>, nat)>
    decreases keys.len(),
{
    if keys.len() == 0 {
        seq![]
    } else {
        counted(tally(keys.drop_last()), keys.last())
    }
}

/// The classes named by `rdf:type` triples with an IRI object, in order.
pub open spec fn typed_classes(ts: Seq<STriple>) -> Seq<Seq<char>>
    decreases ts.len(),
{
    if ts.len() == 0 {
        seq![]
    } else {
        let rest = typed_classes(ts.drop_last());
        let t = ts.last();
        if t.predicate == rdf_type_iri() {
            match t.object {
                SNode::Iri(c) => rest.push(c),
                _ => rest,
            }
        } else {
            rest
        }
    }
}

/// How many counted keys are not `rdf:Property`.
pub open spec fn non_property_keys(e: Seq<(Seq<char>, nat)>) -> nat
    decreases e.len(),
{
    if e.len() == 0 {
        0
    } else {
        non_property_keys(e.drop_last()) + if e.last().0 != rdf_property_iri() {
            1nat
        } else {
            0nat
        }
    }
}

/// Whether `r` summarizes the default graph of `g`.
pub open spec fn summarizes(r: InspectionReport, g: LodGraph) -> bool {
    let ts = triples_view(g.triples@);
    &&& r.triples == ts.len()
    &&& r.subjects == distinct(subjects_of(ts)).len()
    &&& r.predicates == distinct(predicates_of(ts)).len()
    &&& r.objects == distinct(objects_of(ts)).len()
    &&& r.iris == kind_count(ts, 0)
    &&& r.literals == kind_count(ts, 1)
    &&& r.blank_nodes == kind_count(ts, 2)
    &&& r.class_distribution.counts() == tally(typed_classes(ts))
    &&& r.property_distribution.counts() == tally(predicates_of(ts))
    &&& r.classes == non_property_keys(tally(typed_classes(ts)))
    &&& r.properties == r.predicates
    &&& r.prefixes.spec_entries() == g.prefixes.spec_entries()
}

pub proof fn lemma_distinct_len<T>(s: Seq<T>)
    ensures
        distinct(s).len() <= s.len(),
    decreases s.len(),
{
    if s.len() > 0 {
        lemma_distinct_len(s.drop_last());
    }
}

pub proof fn lemma_kind_count_bound(ts: Seq<STriple>, kind: int)
    ensures
        kind_count(ts, kind) <= 2 * ts.len(),
    decreases ts.len(),
{
    if ts.len() > 0 {
        lemma_kind_count_bound(ts.drop_last(), kind);
    }
}

pub proof fn lemma_tally_bound(keys: Seq<Seq<char>>)
    ensures
        counts_at_most(tally(keys), keys.len()),
        tally(keys).len() <= keys.len(),
    decreases keys.len(),
{
    if keys.len() > 0 {
        let p = keys.drop_last();
        lemma_tally_bound(p);
        let e = tally(p);
        crate::reading::lemma_vinsertion_index_bounds(e, keys.last());
        let e2 = tally(keys);
        match crate::model::vkey_index(e, keys.last()) {
            Some(i) => {
                lemma_vkey_index_range(e, keys.last());
                assert forall|j: int| 0 <= j < e2.len() implies #[trigger] e2[j].1 <= keys.len() by {
                    if j != i {
                        assert(e2[j] == e[j]);
                    }
                }
            },
            None => {
                let q = crate::model::vinsertion_index(e, keys.last());
                assert forall|j: int| 0 <= j < e2.len() implies #[trigger] e2[j].1 <= keys.len() by {
                    if j < q {
                        assert(e2[j] == e[j]);
                    } else if j > q {
                        assert(e2[j] == e[j - 1]);
                    }
                }
            },
        }
    }
}

pub proof fn lemma_vkey_index_range<W>(e: Seq<(Seq<char>, W)>, k: Seq<char>)
    ensures
        crate::model::vkey_index(e, k) matches Some(i) ==> 0 <= i < e.len(),
    decreases e.len(),
{
    if e.len() > 0 {
        lemma_vkey_index_range(e.drop_first(), k);
    }
}

pub proof fn lemma_non_property_bound(e: Seq<(Seq<char>, nat)>)
    ensures
        non_property_keys(e) <= e.len(),
    decreases e.len(),
{
    if e.len() > 0 {
        lemma_non_property_bound(e.drop_last());
    }
}

fn contains_node(seen: &Vec<Node>, n: &Node) -> (r: bool)
    ensures
        r == seen@.map_values(|x: Node| x@).contains(n@),
{
    let ghost sv = seen@.map_values(|x: Node| x@);
    let mut k: usize = 0;
    while k < seen.len()
        invariant
            k <= seen@.len(),
            sv == seen@.map_values(|x: Node| x@),
            forall|j: int| 0 <= j < k ==> sv[j] != n@,
        decreases seen@.len() - k,
    {
        if same_node(&seen[k], n) {
            proof {
                assert(sv[k as int] == n@);
            }
            return true;
        }
        k = k + 1;
    }
    false
}

fn contains_text(seen: &Vec<String>, s: &String) -> (r: bool)
    ensures
        r == seen@.map_values(|x: String| x@).contains(s@),
{
    let ghost sv = seen@.map_values(|x: String| x@);
    let mut k: usize = 0;
    while k < seen.len()
        invariant
            k <= seen@.len(),
            sv == seen@.map_values(|x: String| x@),
            forall|j: int| 0 <= j < k ==> sv[j] != s@,
        decreases seen@.len() - k,
    {
        if same_string(&seen[k], s) {
            proof {
                assert(sv[k as int] == s@);
            }
            return true;
        }
        k = k + 1;
    }
    false
}

/// The distinct nodes among the subjects (`objects` false) or objects of triples.
fn distinct_nodes(ts: &Vec<Triple>, objects: bool) -> (r: usize)
    ensures
        r == distinct(if objects {
            objects_of(triples_view(ts@))
        } else {
            subjects_of(triples_view(ts@))
        }).len(),
{
    let ghost tv = triples_view(ts@);
    let ghost ns = if objects {
        objects_of(tv)
    } else {
        subjects_of(tv)
    };
    let mut seen: Vec<Node> = Vec::new();
    let mut i: usize = 0;
    proof {
        assert(ns.take(0) =~= seq![]);
        assert(seen@.map_values(|x: Node| x@) =~= seq![]);
    }
    while i < ts.len()
        invariant
            i <= ts@.len(),
            tv == triples_view(ts@),
            ns == (if objects {
                objects_of(tv)
            } else {
                subjects_of(tv)
            }),
            seen@.map_values(|x: Node| x@) == distinct(ns.take(i as int)),
        decreases ts@.len() - i,
    {
        let n = if objects {
            &ts[i].object
        } else {
            &ts[i].subject
        };
        proof {
            assert(ns.take(i + 1).drop_last() =~= ns.take(i as int));
            assert(ns.take(i + 1).last() == n@);
        }
        if !contains_node(&seen, n) {
            let ghost b = seen@;
            seen.push(n.clone());
            proof {
                assert(seen@.map_values(|x: Node| x@) =~= b.map_values(|x: Node| x@).push(n@));
            }
        }
        i = i + 1;
    }
    proof {
        assert(ns.take(i as int) =~= ns);
        assert(seen@.map_values(|x: Node| x@).len() == seen@.len());
    }
    seen.len()
}

/// The distinct predicates of triples.
fn distinct_predicates(ts: &Vec<Triple>) -> (r: usize)
    ensures
        r == distinct(predicates_of(triples_view(ts@))).len(),
{
    let ghost ps = predicates_of(triples_view(ts@));
    let mut seen: Vec<String> = Vec::new();
    let mut i: usize = 0;
    proof {
        assert(ps.take(0) =~= seq![]);
        assert(seen@.map_values(|x: String| x@) =~= seq![]);
    }
    while i < ts.len()
        invariant
            i <= ts@.len(),
            ps == predicates_of(triples_view(ts@)),
            seen@.map_values(|x: String| x@) == distinct(ps.take(i as int)),
        decreases ts@.len() - i,
    {
        let p = &ts[i].predicate;
        proof {
            assert(ps.take(i + 1).drop_last() =~= ps.take(i as int));
            assert(ps.take(i + 1).last() == p@);
        }
        if !contains_text(&seen, p) {
            let ghost b = seen@;
            seen.push(p.clone());
            proof {
                assert(seen@.map_values(|x: String| x@) =~= b.map_values(|x: String| x@).push(p@));
            }
        }
        i = i + 1;
    }
    proof {
        assert(ps.take(i as int) =~= ps);
        assert(seen@.map_values(|x: String| x@).len() == seen@.len());
    }
    seen.len()
}

/// Counts a node into the IRI, literal or blank node tally.
pub fn count_node(n: &Node, iris: &mut usize, literals: &mut usize, blank_nodes: &mut usize)
    requires
        node_rank(n@) == 0 ==> *old(iris) < usize::MAX,
        node_rank(n@) == 1 ==> *old(literals) < usize::MAX,
        node_rank(n@) == 2 ==> *old(blank_nodes) < usize::MAX,
    ensures
        *final(iris) == *old(iris) + if node_rank(n@) == 0 {
            1int
        } else {
            0int
        },
        *final(literals) == *old(literals) + if node_rank(n@) == 1 {
            1int
        } else {
            0int
        },
        *final(blank_nodes) == *old(blank_nodes) + if node_rank(n@) == 2 {
            1int
        } else {
            0int
        },
{
    match n {
        Node::Iri(_) => *iris = *iris + 1,
        Node::Literal { .. } => *literals = *literals + 1,
        Node::Blank(_) => *blank_nodes = *blank_nodes + 1,
    }
}

} // verus!

verus! {

/// Whether a predicate is `rdf:type`.
fn is_rdf_type(p: &String) -> (r: bool)
    ensures
        r == (p@ == rdf_type_iri()),
{
    is_literal(&chars_of(p.as_str()), "http://www.w3.org/1999/02/22-rdf-syntax-ns#type")
}

/// Counts the keys that are not `rdf:Property`.
fn classes_count(dist: &SortedMap<usize>) -> (r: usize)
    ensures
        r == non_property_keys(dist.counts()),
{
    let ghost e = dist.counts();
    let n = dist.len();
    let mut c: usize = 0;
    let mut i: usize = 0;
    proof {
        assert(e.take(0) =~= seq![]);
    }
    while i < n
        invariant
            i <= n,
            n == e.len(),
            e == dist.counts(),
            c == non_property_keys(e.take(i as int)),
            c <= i,
        decreases n - i,
    {
        let entry = dist.entry_at(i);
        proof {
            assert(e.take(i + 1).drop_last() =~= e.take(i as int));
            assert(e.take(i + 1).last() == e[i as int]);
            assert(e[i as int] == (entry.0@, entry.1 as nat));
        }
        if !is_literal(&chars_of(entry.0.as_str()), "http://www.w3.org/1999/02/22-rdf-syntax-ns#Property") {
            c = c + 1;
        }
        i = i + 1;
    }
    proof {
        assert(e.take(i as int) =~= e);
    }
    c
}

impl InspectionService {
    /// Summarizes the default graph of `graph`: numbers of triples, distinct
    /// subjects, predicates and objects, IRIs, literals and blank nodes among
    /// subjects and objects, the classes that `rdf:type` names and how often,
    /// and how often each predicate occurs.
    pub fn inspect_graph(&self, graph: LodGraph) -> (r: InspectionReport)
        requires
            graph.triples@.len() < usize::MAX / 2,
        ensures
            summarizes(r, graph),
    {
        let ghost tv = triples_view(graph.triples@);
        let mut iris: usize = 0;
        let mut literals: usize = 0;
        let mut blank_nodes: usize = 0;
        let mut class_distribution: SortedMap<usize> = SortedMap::new();
        let mut property_distribution: SortedMap<usize> = SortedMap::new();
        let mut i: usize = 0;
        proof {
            assert(tv.take(0) =~= seq![]);
            assert(class_distribution.counts() =~= seq![]);
            assert(property_distribution.counts() =~= seq![]);
        }
        while i < graph.triples.len()
            invariant
                i <= graph.triples@.len() < usize::MAX / 2,
                tv == triples_view(graph.triples@),
                iris == kind_count(tv.take(i as int), 0),
                literals == kind_count(tv.take(i as int), 1),
                blank_nodes == kind_count(tv.take(i as int), 2),
                class_distribution.counts() == tally(typed_classes(tv.take(i as int))),
                property_distribution.counts() == tally(predicates_of(tv.take(i as int))),
            decreases graph.triples@.len() - i,
        {
            let t = &graph.triples[i];
            proof {
                assert(tv.take(i + 1).drop_last() =~= tv.take(i as int));
                assert(tv.take(i + 1).last() == t@);
                lemma_kind_count_bound(tv.take(i as int), 0);
                lemma_kind_count_bound(tv.take(i as int), 1);
                lemma_kind_count_bound(tv.take(i as int), 2);
                lemma_tally_bound(typed_classes(tv.take(i as int)));
                lemma_typed_classes_len(tv.take(i as int));
                lemma_tally_bound(predicates_of(tv.take(i as int)));
                assert(predicates_of(tv.take(i + 1)) =~= predicates_of(tv.take(i as int)).push(t.predicate@));
                assert(predicates_of(tv.take(i + 1)).drop_last() =~= predicates_of(tv.take(i as int)));
            }
            count_node(&t.subject, &mut iris, &mut literals, &mut blank_nodes);
            count_node(&t.object, &mut iris, &mut literals, &mut blank_nodes);
            property_distribution.increment(t.predicate.clone());
            if is_rdf_type(&t.predicate) {
                match &t.object {
                    Node::Iri(c) => {
                        class_distribution.increment(c.clone());
                        proof {
                            assert(typed_classes(tv.take(i + 1)).drop_last() =~= typed_classes(tv.take(i as int)));
                        }
                    },
                    _ => {},
                }
            }
            i = i + 1;
        }
        proof {
            assert(tv.take(i as int) =~= tv);
            lemma_tally_bound(typed_classes(tv));
            lemma_typed_classes_len(tv);
        }
        let classes = classes_count(&class_distribution);
        let subjects = distinct_nodes(&graph.triples, false);
        let objects = distinct_nodes(&graph.triples, true);
        let predicates = distinct_predicates(&graph.triples);
        InspectionReport {
            triples: graph.triples.len(),
            subjects,
            predicates,
            objects,
            iris,
            literals,
            blank_nodes,
            classes,
            properties: predicates,
            prefixes: graph.prefixes,
            class_distribution,
            property_distribution,
        }
    }
}

pub proof fn lemma_typed_classes_len(ts: Seq<STriple>)
    ensures
        typed_classes(ts).len() <= ts.len(),
    decreases ts.len(),
{
    if ts.len() > 0 {
        lemma_typed_classes_len(ts.drop_last());
    }
}

} // verus!

verus! {

/// The message for a graph whose counts would not fit in a `usize`.
pub open spec fn too_large() -> Seq<char> {
    "graph too large to inspect"@
}

/// Whether `r` is the inspection of a graph that reading gave as `g`.
pub open spec fn inspection_of(g: Result<LodGraph, LodError>, r: Result<InspectionReport, LodError>) -> bool {
    match g {
        Err(e) => r == Err::<InspectionReport, LodError>(e),
        Ok(graph) => if graph.triples@.len() < usize::MAX / 2 {
            r is Ok && summarizes(r.unwrap(), graph)
        } else {
            r matches Err(LodError::Validation(m)) && m@ == too_large()
        },
    }
}

impl InspectionService {
    fn inspect_read(&self, g: Result<LodGraph, LodError>) -> (r: Result<InspectionReport, LodError>)
        ensures
            forall|orig: Result<LodGraph, LodError>| orig == g ==> inspection_of(orig, r),
    {
        match g {
            Err(e) => Err(e),
            Ok(graph) => {
                if graph.triples.len() >= usize::MAX / 2 {
                    return Err(LodError::Validation(string_of(&chars_of("graph too large to inspect"))));
                }
                Ok(self.inspect_graph(graph))
            },
        }
    }

    /// Reads a document and summarizes its default graph.
    pub fn inspect_content(&self, content: &str, format: RdfFormat) -> (r: Result<InspectionReport, LodError>)
        requires
            content@.len() < usize::MAX,
        ensures
            content_inspection(content@, format, r),
    {
        let g = parse_graph(content, format);
        let ghost gg = g;
        let r = self.inspect_read(g);
        assert(parse_outcome(content@, format, gg) && inspection_of(gg, r));
        r
    }

    /// Summarizes the graph a request names: `content` is what reading its
    /// file gave. The format named in the request is checked first, then the
    /// one its path names where it names none, then the read.
    pub fn inspect(&self, req: InspectionRequest, content: Result<String, LodError>) -> (r: Result<
        InspectionReport,
        LodError,
    >)
        requires
            content matches Ok(c) ==> c@.len() < usize::MAX,
        ensures
            request_inspection(req, content, r),
    {
        let fmt = match &req.input_format {
            Some(s) => match RdfFormat::parse(s.as_str()) {
                Ok(f) => Some(f),
                Err(e) => {
                    return Err(e);
                },
            },
            None => None,
        };
        let f = match resolve_format(req.input_path.as_str(), fmt) {
            Ok(f) => f,
            Err(e) => {
                return Err(e);
            },
        };
        let c = match content {
            Ok(c) => c,
            Err(e) => {
                return Err(e);
            },
        };
        let g = read_graph_content(c.as_str(), f);
        let ghost gg = g;
        let r = self.inspect_read(g);
        assert(file_outcome(c@, f, gg) && inspection_of(gg, r));
        r
    }
}

} // verus!

verus! {

/// What inspecting a document gives.
pub open spec fn content_inspection(content: Seq<char>, format: RdfFormat, r: Result<InspectionReport, LodError>) -> bool {
    exists|g: Result<LodGraph, LodError>| #[trigger] parse_outcome(content, format, g) && inspection_of(g, r)
}

/// What inspecting the file a request names gives.
pub open spec fn request_inspection(req: InspectionRequest, content: Result<String, LodError>, r: Result<InspectionReport, LodError>) -> bool {
    match crate::convert::side_format(req.input_format, req.input_path@) {
        Err(key) => r matches Err(LodError::UnsupportedFormat(s)) && s@ == key,
        Ok(f) => match content {
            Err(e) => r == Err::<InspectionReport, LodError>(e),
            Ok(c) => exists|g: Result<LodGraph, LodError>| #[trigger] file_outcome(c@, f, g) && inspection_of(g, r),
        },
    }
}

} // verus!
