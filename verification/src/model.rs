//! The RDF graph model and the request / report types shared by the services.
use vstd::prelude::*;
use crate::text::{chars_of, chars_of_string, chars_eq, compare_chars, seq_lt, lemma_seq_order_eq, lemma_seq_order_range, lemma_seq_order_antisym, lemma_seq_lt_trans};

verus! {

/// An RDF term.
#[derive(Debug, PartialEq, Eq, PartialOrd, Ord)]
pub enum Node {
    /// A resolved IRI node.
    Iri(String),
    /// A literal value with optional datatype and language tag.
    Literal { value: String, datatype: Option<String>, lang: Option<String> },
    /// A blank node identifier.
    Blank(String),
}

/// The mathematical value of a [`Node`]: its strings as character sequences.
pub enum SNode {
    Iri(Seq<char>),
    Literal { value: Seq<char>, datatype: Option<Seq<char>>, lang: Option<Seq<char>> },
    Blank(Seq<char>),
}

pub open spec fn opt_view(o: Option<String>) -> Option<Seq<char>> {
    match o {
        Some(s) => Some(s@),
        None => None,
    }
}

impl View for Node {
    type V = SNode;

    open spec fn view(&self) -> SNode {
        match self {
            Node::Iri(s) => SNode::Iri(s@),
            Node::Literal { value, datatype, lang } => SNode::Literal {
                value: value@,
                datatype: opt_view(*datatype),
                lang: opt_view(*lang),
            },
            Node::Blank(s) => SNode::Blank(s@),
        }
    }
}

pub fn clone_opt_string(o: &Option<String>) -> (r: Option<String>)
    ensures
        r == *o,
{
    match o {
        Some(s) => Some(s.clone()),
        None => None,
    }
}

impl Clone for Node {
    fn clone(&self) -> (r: Self)
        ensures
            r == *self,
    {
        match self {
            Node::Iri(s) => Node::Iri(s.clone()),
            Node::Literal { value, datatype, lang } => Node::Literal {
                value: value.clone(),
                datatype: clone_opt_string(datatype),
                lang: clone_opt_string(lang),
            },
            Node::Blank(s) => Node::Blank(s.clone()),
        }
    }
}

/// An RDF triple; the predicate is an IRI.
#[derive(Debug, PartialEq, Eq, PartialOrd, Ord)]
pub struct Triple {
    pub subject: Node,
    pub predicate: String,
    pub object: Node,
}

pub struct STriple {
    pub subject: SNode,
    pub predicate: Seq<char>,
    pub object: SNode,
}

impl View for Triple {
    type V = STriple;

    open spec fn view(&self) -> STriple {
        STriple { subject: self.subject@, predicate: self.predicate@, object: self.object@ }
    }
}

impl Clone for Triple {
    fn clone(&self) -> (r: Self)
        ensures
            r == *self,
    {
        Triple {
            subject: self.subject.clone(),
            predicate: self.predicate.clone(),
            object: self.object.clone(),
        }
    }
}

/// The views of a list of triples.
pub open spec fn triples_view(v: Seq<Triple>) -> Seq<STriple> {
    v.map_values(|t: Triple| t@)
}

/// A map keyed by strings whose entries are kept in ascending key order, each
/// key at most once: the order and uniqueness that a `BTreeMap<String, V>` gives.
#[derive(Debug)]
pub struct SortedMap<V> {
    entries: Vec<(String, V)>,
}

/// Keys strictly ascending.
pub open spec fn keys_ascending<V>(e: Seq<(String, V)>) -> bool {
    forall|i: int, j: int| 0 <= i < j < e.len() ==> seq_lt(#[trigger] e[i].0@, #[trigger] e[j].0@)
}

/// Number of entries whose key is below `k`: where `k` is inserted.
pub open spec fn insertion_index<V>(e: Seq<(String, V)>, k: Seq<char>) -> int
    decreases e.len(),
{
    if e.len() == 0 {
        0
    } else if seq_lt(e[0].0@, k) {
        1 + insertion_index(e.drop_first(), k)
    } else {
        0
    }
}

/// Index of the first entry with key `k`, if there is one.
pub open spec fn key_index<V>(e: Seq<(String, V)>, k: Seq<char>) -> Option<int>
    decreases e.len(),
{
    if e.len() == 0 {
        None
    } else if e[0].0@ == k {
        Some(0)
    } else {
        match key_index(e.drop_first(), k) {
            Some(i) => Some(i + 1),
            None => None,
        }
    }
}

pub proof fn lemma_key_index<V>(e: Seq<(String, V)>, k: Seq<char>)
    ensures
        match key_index(e, k) {
            Some(i) => 0 <= i < e.len() && e[i].0@ == k && forall|j: int|
                0 <= j < i ==> #[trigger] e[j].0@ != k,
            None => forall|j: int| 0 <= j < e.len() ==> #[trigger] e[j].0@ != k,
        },
    decreases e.len(),
{
    if e.len() > 0 && e[0].0@ != k {
        let t = e.drop_first();
        lemma_key_index(t, k);
        match key_index(t, k) {
            Some(i) => {
                assert forall|j: int| 0 <= j < i + 1 implies #[trigger] e[j].0@ != k by {
                    if j > 0 {
                        assert(e[j] == t[j - 1]);
                    }
                }
                assert(e[i + 1] == t[i]);
            },
            None => {
                assert forall|j: int| 0 <= j < e.len() implies #[trigger] e[j].0@ != k by {
                    if j > 0 {
                        assert(e[j] == t[j - 1]);
                    }
                }
            },
        }
    }
}

/// The entries after `insert(k, v)`: the value replaced where `k` is present,
/// the entry added at its place in key order where it is not.
pub open spec fn inserted<V>(e: Seq<(String, V)>, k: String, v: V) -> Seq<(String, V)> {
    match key_index(e, k@) {
        Some(i) => e.update(i, (e[i].0, v)),
        None => e.insert(insertion_index(e, k@), (k, v)),
    }
}

impl<V> SortedMap<V> {
    #[verifier::type_invariant]
    spec fn inv(&self) -> bool {
        keys_ascending(self.entries@)
    }

    /// The entries, in ascending key order.
    pub closed spec fn spec_entries(&self) -> Seq<(String, V)> {
        self.entries@
    }

    pub fn new() -> (m: Self)
        ensures
            m.spec_entries() == Seq::<(String, V)>::empty(),
    {
        SortedMap { entries: Vec::new() }
    }

    pub fn len(&self) -> (n: usize)
        ensures
            n == self.spec_entries().len(),
    {
        self.entries.len()
    }

    pub fn is_empty(&self) -> (b: bool)
        ensures
            b == (self.spec_entries().len() == 0),
    {
        self.entries.len() == 0
    }

    /// The entry at position `i` in key order.
    pub fn entry_at(&self, i: usize) -> (r: &(String, V))
        requires
            i < self.spec_entries().len(),
        ensures
            *r == self.spec_entries()[i as int],
    {
        &self.entries[i]
    }

    /// Position of the entry with the given key.
    pub fn find(&self, key: &[char]) -> (r: Option<usize>)
        ensures
            match r {
                Some(i) => i < self.spec_entries().len() && self.spec_entries()[i as int].0@ == key@
                    && key_index(self.spec_entries(), key@) == Some(i as int),
                None => key_index(self.spec_entries(), key@) is None,
            },
    {
        proof {
            use_type_invariant(self);
        }
        let mut i: usize = 0;
        while i < self.entries.len()
            invariant
                i <= self.entries@.len(),
                forall|k: int| 0 <= k < i ==> self.entries@[k].0@ != key@,
                keys_ascending(self.entries@),
            decreases self.entries@.len() - i,
        {
            let kc = chars_of_string(&self.entries[i].0);
            if chars_eq(&kc, key) {
                proof {
                    Self::lemma_key_index_unique(self.entries@, i as int, key@);
                }
                return Some(i);
            }
            i = i + 1;
        }
        proof {
            lemma_key_index(self.entries@, key@);
        }
        None
    }

    /// The value stored under `key`.
    pub fn get(&self, key: &str) -> (r: Option<&V>)
        ensures
            match key_index(self.spec_entries(), key@) {
                Some(i) => r == Some(&self.spec_entries()[i].1),
                None => r is None,
            },
    {
        proof {
            use_type_invariant(self);
        }
        let kc = chars_of(key);
        match self.find(&kc) {
            Some(i) => {
                proof {
                    Self::lemma_key_index_unique(self.entries@, i as int, key@);
                }
                Some(&self.entries[i].1)
            },
            None => None,
        }
    }

    proof fn lemma_key_index_unique(e: Seq<(String, V)>, i: int, k: Seq<char>)
        requires
            keys_ascending(e),
            0 <= i < e.len(),
            e[i].0@ == k,
        ensures
            key_index(e, k) == Some(i),
    {
        lemma_key_index(e, k);
        match key_index(e, k) {
            Some(j) => {
                if j != i {
                    if j < i {
                        assert(seq_lt(e[j].0@, e[i].0@));
                    } else {
                        assert(seq_lt(e[i].0@, e[j].0@));
                    }
                    lemma_seq_order_eq(k, k);
                }
            },
            None => {
                assert(e[i].0@ != k);
            },
        }
    }

    /// Stores `value` under `key`, replacing the value already there.
    pub fn insert(&mut self, key: String, value: V)
        ensures
            final(self).spec_entries() == inserted(old(self).spec_entries(), key, value),
    {
        proof {
            use_type_invariant(&*self);
        }
        let kc = chars_of_string(&key);
        let ghost e = self.entries@;
        match self.find(&kc) {
            Some(i) => {
                proof {
                    Self::lemma_key_index_unique(self.entries@, i as int, key@);
                }
                let mut entries = Vec::new();
                std::mem::swap(&mut entries, &mut self.entries);
                let old_key = entries[i].0.clone();
                entries.set(i, (old_key, value));
                proof {
                    assert forall|a: int, b: int| 0 <= a < b < entries@.len() implies seq_lt(
                        #[trigger] entries@[a].0@,
                        #[trigger] entries@[b].0@,
                    ) by {
                        assert(entries@[a].0 == e[a].0);
                        assert(entries@[b].0 == e[b].0);
                    }
                }
                self.entries = entries;
            },
            None => {
                let mut p: usize = 0;
                proof {
                    assert(e.skip(0) =~= e);
                }
                while p < self.entries.len() && compare_chars(
                    &chars_of_string(&self.entries[p].0),
                    &kc,
                ) < 0
                    invariant
                        p <= e.len(),
                        self.entries@ == e,
                        kc@ == key@,
                        keys_ascending(e),
                        forall|k: int| 0 <= k < p ==> seq_lt(#[trigger] e[k].0@, key@),
                        insertion_index(e, key@) == p + insertion_index(e.skip(p as int), key@),
                    decreases e.len() - p,
                {
                    proof {
                        assert(e.skip(p as int).drop_first() =~= e.skip(p + 1));
                        assert(e.skip(p as int)[0] == e[p as int]);
                    }
                    p = p + 1;
                }
                proof {
                    if p < e.len() {
                        assert(e.skip(p as int)[0] == e[p as int]);
                        lemma_seq_order_range(e[p as int].0@, key@);
                    }
                    assert(insertion_index(e, key@) == p);
                }
                let mut entries = Vec::new();
                std::mem::swap(&mut entries, &mut self.entries);
                entries.insert(p, (key, value));
                proof {
                    lemma_key_index(e, kc@);
                    assert forall|a: int, b: int| 0 <= a < b < entries@.len() implies seq_lt(
                        #[trigger] entries@[a].0@,
                        #[trigger] entries@[b].0@,
                    ) by {
                        let ka = entries@[a].0@;
                        let kb = entries@[b].0@;
                        if a < p && b == p {
                        } else if a < p && b > p {
                            assert(entries@[b] == e[b - 1]);
                            assert(entries@[a] == e[a]);
                        } else if a == p {
                            assert(entries@[b] == e[b - 1]);
                            // key is not below e[p] and differs from it
                            assert(!seq_lt(e[p as int].0@, key@));
                            lemma_seq_order_range(e[p as int].0@, key@);
                            lemma_seq_order_eq(e[p as int].0@, key@);
                            if e[p as int].0@ == key@ {
                                assert(e[p as int].0@ == kc@);
                            }
                            lemma_seq_order_antisym(e[p as int].0@, key@);
                            if b - 1 > p {
                                lemma_seq_lt_trans(key@, e[p as int].0@, e[b - 1].0@);
                            }
                        } else if a < p {
                        } else {
                            assert(entries@[a] == e[a - 1]);
                            assert(entries@[b] == e[b - 1]);
                        }
                    }
                }
                self.entries = entries;
            },
        }
    }
}

impl<V: Clone> Clone for SortedMap<V> {
    fn clone(&self) -> (r: Self)
        ensures
            r.spec_entries().len() == self.spec_entries().len(),
            forall|k: int|
                0 <= k < self.spec_entries().len() ==> #[trigger] r.spec_entries()[k].0 == self.spec_entries()[k].0
                    && cloned::<V>(self.spec_entries()[k].1, r.spec_entries()[k].1),
    {
        proof {
            use_type_invariant(self);
        }
        let mut entries: Vec<(String, V)> = Vec::new();
        let mut i: usize = 0;
        while i < self.entries.len()
            invariant
                i <= self.entries@.len(),
                entries@.len() == i,
                keys_ascending(self.entries@),
                forall|k: int| 0 <= k < i ==> #[trigger] entries@[k].0 == self.entries@[k].0 && cloned::<V>(
                    self.entries@[k].1,
                    entries@[k].1,
                ),
            decreases self.entries@.len() - i,
        {
            let k = self.entries[i].0.clone();
            let v = self.entries[i].1.clone();
            entries.push((k, v));
            proof {
                assert(cloned::<V>(self.entries@[i as int].1, entries@[i as int].1));
            }
            i = i + 1;
        }
        proof {
            assert forall|a: int, b: int| 0 <= a < b < entries@.len() implies seq_lt(
                #[trigger] entries@[a].0@,
                #[trigger] entries@[b].0@,
            ) by {
                assert(entries@[a].0 == self.entries@[a].0);
                assert(entries@[b].0 == self.entries@[b].0);
            }
        }
        SortedMap { entries }
    }
}

} // verus!

verus! {

/// All triples of a list of named graphs, graph after graph in name order.
pub open spec fn named_triples(e: Seq<(String, Vec<Triple>)>) -> Seq<Triple>
    decreases e.len(),
{
    if e.len() == 0 {
        Seq::empty()
    } else {
        e[0].1@ + named_triples(e.drop_first())
    }
}

/// An RDF dataset: a default graph plus named graphs, with the prefixes and
/// base IRI that were declared where it came from.
#[derive(Debug)]
pub struct LodGraph {
    pub base: Option<String>,
    pub prefixes: SortedMap<String>,
    pub triples: Vec<Triple>,
    pub named_graphs: SortedMap<Vec<Triple>>,
}

impl LodGraph {
    /// Triples of the default graph followed by those of the named graphs.
    pub open spec fn spec_all_triples(&self) -> Seq<Triple> {
        self.triples@ + named_triples(self.named_graphs.spec_entries())
    }

    /// An empty dataset.
    pub fn new() -> (g: Self)
        ensures
            g.base is None,
            g.prefixes.spec_entries().len() == 0,
            g.triples@.len() == 0,
            g.named_graphs.spec_entries().len() == 0,
    {
        LodGraph { base: None, prefixes: SortedMap::new(), triples: Vec::new(), named_graphs: SortedMap::new() }
    }

    /// Every triple of the dataset: the default graph first, then each named
    /// graph in name order.
    pub fn all_triples(&self) -> (r: Vec<Triple>)
        ensures
            r@ == self.spec_all_triples(),
    {
        let mut r: Vec<Triple> = Vec::new();
        let mut i: usize = 0;
        while i < self.triples.len()
            invariant
                i <= self.triples@.len(),
                r@ == self.triples@.subrange(0, i as int),
            decreases self.triples@.len() - i,
        {
            r.push(self.triples[i].clone());
            proof {
                assert(self.triples@.subrange(0, i + 1) =~= self.triples@.subrange(0, i as int).push(
                    self.triples@[i as int],
                ));
            }
            i = i + 1;
        }
        proof {
            assert(self.triples@.subrange(0, i as int) =~= self.triples@);
        }
        let n = self.named_graphs.len();
        let ghost e = self.named_graphs.spec_entries();
        let mut g: usize = 0;
        proof {
            assert(e.skip(0) =~= e);
        }
        while g < n
            invariant
                g <= n,
                n == e.len(),
                e == self.named_graphs.spec_entries(),
                r@ + named_triples(e.skip(g as int)) == self.spec_all_triples(),
            decreases n - g,
        {
            let entry = self.named_graphs.entry_at(g);
            let ghost before = r@;
            let mut k: usize = 0;
            while k < entry.1.len()
                invariant
                    k <= entry.1@.len(),
                    r@ == before + entry.1@.subrange(0, k as int),
                decreases entry.1@.len() - k,
            {
                r.push(entry.1[k].clone());
                proof {
                    assert(entry.1@.subrange(0, k + 1) =~= entry.1@.subrange(0, k as int).push(
                        entry.1@[k as int],
                    ));
                }
                k = k + 1;
            }
            proof {
                assert(entry.1@.subrange(0, k as int) =~= entry.1@);
                assert(e.skip(g as int)[0] == e[g as int]);
                assert(e.skip(g as int).drop_first() =~= e.skip(g + 1));
                assert(named_triples(e.skip(g as int)) == e[g as int].1@ + named_triples(e.skip(g + 1)));
                assert(r@ + named_triples(e.skip(g + 1)) =~= before + named_triples(e.skip(g as int)));
            }
            g = g + 1;
        }
        proof {
            assert(e.skip(g as int).len() == 0);
            assert(r@ + named_triples(e.skip(g as int)) =~= r@);
        }
        r
    }

    /// Number of triples in the whole dataset.
    pub fn total_triples(&self) -> (n: usize)
        requires
            self.spec_all_triples().len() <= usize::MAX,
        ensures
            n == self.spec_all_triples().len(),
    {
        self.all_triples().len()
    }
}

impl Default for LodGraph {
    fn default() -> (g: Self)
        ensures
            g.base is None,
            g.prefixes.spec_entries().len() == 0,
            g.triples@.len() == 0,
            g.named_graphs.spec_entries().len() == 0,
    {
        LodGraph::new()
    }
}

/// Node metadata tailored for the browser graph renderer.
#[derive(Debug)]
pub struct VisualizationNode {
    pub id: String,
    pub label: String,
    pub node_type: String,
    pub color: String,
    pub shape: String,
}

/// Edge metadata tailored for the browser graph renderer.
#[derive(Debug)]
pub struct VisualizationEdge {
    pub id: String,
    pub source: String,
    pub target: String,
    pub label: String,
}

/// Compact graph payload used by the frontend visualizer.
#[derive(Debug)]
pub struct VisualizationGraph {
    pub nodes: Vec<VisualizationNode>,
    pub edges: Vec<VisualizationEdge>,
}

/// Summary returned by the inspection workflow.
#[derive(Debug)]
pub struct InspectionReport {
    pub triples: usize,
    pub subjects: usize,
    pub predicates: usize,
    pub objects: usize,
    pub iris: usize,
    pub literals: usize,
    pub blank_nodes: usize,
    pub classes: usize,
    pub properties: usize,
    pub prefixes: SortedMap<String>,
    pub class_distribution: SortedMap<usize>,
    pub property_distribution: SortedMap<usize>,
}

/// A validation issue produced by syntax or IRI checks.
#[derive(Debug)]
pub struct ValidationIssue {
    pub severity: String,
    pub message: String,
    pub line: Option<usize>,
    pub column: Option<usize>,
    pub token: Option<String>,
    pub suggestion: Option<String>,
    pub source: Option<String>,
    pub focus_node: Option<String>,
    pub constraint_component: Option<String>,
    pub path: Option<String>,
    pub value: Option<String>,
    pub source_shape: Option<String>,
    pub details: Option<String>,
}

/// Output formats supported for validation reports.
#[derive(Debug, Clone, Copy, PartialEq, Eq, Structural)]
pub enum ValidationReportFormat {
    Html,
    Json,
    Text,
}

/// Validation result plus the list of issues found.
#[derive(Debug)]
pub struct ValidationReport {
    pub conforms: bool,
    pub issues: Vec<ValidationIssue>,
}

/// File-to-file conversion request used by the CLI and API.
#[derive(Debug)]
pub struct ConversionRequest {
    pub input_path: String,
    pub output_path: String,
    pub source_format: Option<String>,
    pub target_format: Option<String>,
}

/// RDF inspection request used by the CLI and API.
#[derive(Debug)]
pub struct InspectionRequest {
    pub input_path: String,
    pub input_format: Option<String>,
    pub json_output: Option<String>,
}

/// Validation request used by the CLI and API.
#[derive(Debug)]
pub struct ValidationRequest {
    pub data_graph_path: String,
    pub shapes_graph_path: Option<String>,
    pub report_path: Option<String>,
    pub report_format: Option<ValidationReportFormat>,
}

/// CSV-to-RDF mapping request.
#[derive(Debug)]
pub struct MappingRequest {
    pub input_path: String,
    pub mapping_path: String,
    pub output_path: String,
    pub output_format: Option<String>,
}

/// RDF visualization request.
#[derive(Debug)]
pub struct VisualizationRequest {
    pub input_path: String,
    pub input_format: Option<String>,
    pub output_path: String,
}

} // verus!


verus! {

/// Entries taken by the character sequences of their keys and `f` of their values.
pub open spec fn keyed<V, W>(e: Seq<(String, V)>, f: spec_fn(V) -> W) -> Seq<(Seq<char>, W)> {
    e.map_values(|p: (String, V)| (p.0@, f(p.1)))
}

/// Key-value pairs of strings, taken by their character sequences.
pub open spec fn pair_view(e: Seq<(String, String)>) -> Seq<(Seq<char>, Seq<char>)> {
    keyed(e, |s: String| s@)
}

/// Index of the first pair with key `k`.
pub open spec fn vkey_index<W>(e: Seq<(Seq<char>, W)>, k: Seq<char>) -> Option<int>
    decreases e.len(),
{
    if e.len() == 0 {
        None
    } else if e[0].0 == k {
        Some(0)
    } else {
        match vkey_index(e.drop_first(), k) {
            Some(i) => Some(i + 1),
            None => None,
        }
    }
}

/// Number of pairs whose key is below `k`.
pub open spec fn vinsertion_index<W>(e: Seq<(Seq<char>, W)>, k: Seq<char>) -> int
    decreases e.len(),
{
    if e.len() == 0 {
        0
    } else if seq_lt(e[0].0, k) {
        1 + vinsertion_index(e.drop_first(), k)
    } else {
        0
    }
}

/// The pairs after storing `v` under `k`: the value replaced where `k` is
/// present, the pair added at its place in key order where it is not.
pub open spec fn vinserted<W>(e: Seq<(Seq<char>, W)>, k: Seq<char>, v: W) -> Seq<(Seq<char>, W)> {
    match vkey_index(e, k) {
        Some(i) => e.update(i, (e[i].0, v)),
        None => e.insert(vinsertion_index(e, k), (k, v)),
    }
}

pub proof fn lemma_keyed_indices<V, W>(e: Seq<(String, V)>, f: spec_fn(V) -> W, k: Seq<char>)
    ensures
        key_index(e, k) == vkey_index(keyed(e, f), k),
        insertion_index(e, k) == vinsertion_index(keyed(e, f), k),
    decreases e.len(),
{
    if e.len() > 0 {
        assert(keyed(e, f).drop_first() =~= keyed(e.drop_first(), f));
        lemma_keyed_indices(e.drop_first(), f, k);
    }
}

pub proof fn lemma_pair_view_indices(e: Seq<(String, String)>, k: Seq<char>)
    ensures
        key_index(e, k) == vkey_index(pair_view(e), k),
        insertion_index(e, k) == vinsertion_index(pair_view(e), k),
{
    lemma_keyed_indices(e, |s: String| s@, k);
}

pub proof fn lemma_insertion_index_bounds<V>(e: Seq<(String, V)>, k: Seq<char>)
    ensures
        0 <= insertion_index(e, k) <= e.len(),
    decreases e.len(),
{
    if e.len() > 0 {
        lemma_insertion_index_bounds(e.drop_first(), k);
    }
}

pub proof fn lemma_keyed_inserted<V, W>(e: Seq<(String, V)>, f: spec_fn(V) -> W, k: String, v: V)
    ensures
        keyed(inserted(e, k, v), f) == vinserted(keyed(e, f), k@, f(v)),
{
    lemma_keyed_indices(e, f, k@);
    lemma_key_index(e, k@);
    lemma_insertion_index_bounds(e, k@);
    match key_index(e, k@) {
        Some(i) => {
            assert(keyed(inserted(e, k, v), f) =~= vinserted(keyed(e, f), k@, f(v)));
        },
        None => {
            let p = insertion_index(e, k@);
            assert forall|j: int| 0 <= j < e.len() + 1 implies #[trigger] keyed(inserted(e, k, v), f)[j]
                == vinserted(keyed(e, f), k@, f(v))[j] by {
                if j < p {
                } else if j == p {
                } else {
                    assert(inserted(e, k, v)[j] == e[j - 1]);
                }
            }
            assert(keyed(inserted(e, k, v), f) =~= vinserted(keyed(e, f), k@, f(v)));
        },
    }
}

pub proof fn lemma_pair_view_inserted(e: Seq<(String, String)>, k: String, v: String)
    ensures
        pair_view(inserted(e, k, v)) == vinserted(pair_view(e), k@, v@),
{
    lemma_keyed_inserted(e, |s: String| s@, k, v);
}

impl SortedMap<String> {
    /// The stored pairs, in key order, by their character sequences.
    pub open spec fn pairs(&self) -> Seq<(Seq<char>, Seq<char>)> {
        pair_view(self.spec_entries())
    }
}

} // verus!

verus! {

/// Named graphs taken by their names' character sequences and their triples' views.
pub open spec fn named_view(e: Seq<(String, Vec<Triple>)>) -> Seq<(Seq<char>, Seq<STriple>)> {
    keyed(e, |v: Vec<Triple>| triples_view(v@))
}

/// The lists after appending `t` to the one under `k`, which is created
/// empty at its place in key order where it is missing.
pub open spec fn vpush<T>(e: Seq<(Seq<char>, Seq<T>)>, k: Seq<char>, t: T) -> Seq<(Seq<char>, Seq<T>)> {
    match vkey_index(e, k) {
        Some(i) => e.update(i, (e[i].0, e[i].1.push(t))),
        None => e.insert(vinsertion_index(e, k), (k, seq![t])),
    }
}

impl SortedMap<Vec<Triple>> {
    /// The named graphs held, by name.
    pub open spec fn graphs(&self) -> Seq<(Seq<char>, Seq<STriple>)> {
        named_view(self.spec_entries())
    }

    /// Appends `t` to the list stored under `key`, starting one where there is none.
    pub fn push_item(&mut self, key: String, t: Triple)
        ensures
            final(self).graphs() == vpush(old(self).graphs(), key@, t@),
    {
        proof {
            use_type_invariant(&*self);
        }
        let ghost e = self.entries@;
        let ghost f = |v: Vec<Triple>| triples_view(v@);
        proof {
            lemma_keyed_indices(e, f, key@);
        }
        let kc = chars_of_string(&key);
        match self.find(&kc) {
            Some(i) => {
                let mut entries = Vec::new();
                std::mem::swap(&mut entries, &mut self.entries);
                let (k, mut v) = entries.remove(i);
                v.push(t);
                entries.insert(i, (k, v));
                proof {
                    assert forall|a: int, b: int| 0 <= a < b < entries@.len() implies seq_lt(
                        #[trigger] entries@[a].0@,
                        #[trigger] entries@[b].0@,
                    ) by {
                        assert(entries@[a].0 == e[a].0);
                        assert(entries@[b].0 == e[b].0);
                    }
                    assert(triples_view(v@) =~= triples_view(e[i as int].1@).push(t@));
                    assert(named_view(entries@) =~= vpush(named_view(e), key@, t@));
                }
                self.entries = entries;
            },
            None => {
                let mut v: Vec<Triple> = Vec::new();
                v.push(t);
                proof {
                    assert(triples_view(v@) =~= seq![t@]);
                    lemma_keyed_inserted(e, f, key, v);
                }
                self.insert(key, v);
                proof {
                    assert(f(v) == seq![t@]);
                }
            },
        }
    }
}

} // verus!

verus! {

/// A validation issue by its strings' character sequences.
pub struct IssueView {
    pub severity: Seq<char>,
    pub message: Seq<char>,
    pub line: Option<usize>,
    pub column: Option<usize>,
    pub token: Option<Seq<char>>,
    pub suggestion: Option<Seq<char>>,
    pub source: Option<Seq<char>>,
    pub focus_node: Option<Seq<char>>,
    pub constraint_component: Option<Seq<char>>,
    pub path: Option<Seq<char>>,
    pub value: Option<Seq<char>>,
    pub source_shape: Option<Seq<char>>,
    pub details: Option<Seq<char>>,
}

impl View for ValidationIssue {
    type V = IssueView;

    open spec fn view(&self) -> IssueView {
        IssueView {
            severity: self.severity@,
            message: self.message@,
            line: self.line,
            column: self.column,
            token: opt_view(self.token),
            suggestion: opt_view(self.suggestion),
            source: opt_view(self.source),
            focus_node: opt_view(self.focus_node),
            constraint_component: opt_view(self.constraint_component),
            path: opt_view(self.path),
            value: opt_view(self.value),
            source_shape: opt_view(self.source_shape),
            details: opt_view(self.details),
        }
    }
}

/// Issues by their views.
pub open spec fn issues_view(v: Seq<ValidationIssue>) -> Seq<IssueView> {
    v.map_values(|i: ValidationIssue| i@)
}

/// An issue with the given severity, message, line, token, suggestion and
/// source, and nothing else.
pub open spec fn plain_issue(
    severity: Seq<char>,
    message: Seq<char>,
    line: Option<usize>,
    token: Option<Seq<char>>,
    suggestion: Option<Seq<char>>,
    source: Seq<char>,
) -> IssueView {
    IssueView {
        severity,
        message,
        line,
        column: None,
        token,
        suggestion,
        source: Some(source),
        focus_node: None,
        constraint_component: None,
        path: None,
        value: None,
        source_shape: None,
        details: None,
    }
}

} // verus!

verus! {

/// Counts taken by the character sequences of their keys.
pub open spec fn count_view(e: Seq<(String, usize)>) -> Seq<(Seq<char>, nat)> {
    keyed(e, |n: usize| n as nat)
}

/// The counts after counting `k` once more.
pub open spec fn counted(e: Seq<(Seq<char>, nat)>, k: Seq<char>) -> Seq<(Seq<char>, nat)> {
    match vkey_index(e, k) {
        Some(i) => e.update(i, (e[i].0, e[i].1 + 1)),
        None => e.insert(vinsertion_index(e, k), (k, 1nat)),
    }
}

/// Every count is at most `n`.
pub open spec fn counts_at_most(e: Seq<(Seq<char>, nat)>, n: nat) -> bool {
    forall|j: int| 0 <= j < e.len() ==> #[trigger] e[j].1 <= n
}

impl SortedMap<usize> {
    /// The counts held, by key.
    pub open spec fn counts(&self) -> Seq<(Seq<char>, nat)> {
        count_view(self.spec_entries())
    }

    /// Counts `key` once more: one more than its count, or a new count of one.
    pub fn increment(&mut self, key: String)
        requires
            counts_at_most(old(self).counts(), (usize::MAX - 1) as nat),
        ensures
            final(self).counts() == counted(old(self).counts(), key@),
    {
        proof {
            use_type_invariant(&*self);
        }
        let ghost e = self.entries@;
        let ghost f = |n: usize| n as nat;
        proof {
            lemma_keyed_indices(e, f, key@);
        }
        let kc = chars_of_string(&key);
        match self.find(&kc) {
            Some(i) => {
                proof {
                    assert(count_view(e)[i as int] == (e[i as int].0@, e[i as int].1 as nat));
                    assert(count_view(e)[i as int].1 <= (usize::MAX - 1) as nat);
                }
                let mut entries = Vec::new();
                std::mem::swap(&mut entries, &mut self.entries);
                let (k, n) = entries.remove(i);
                entries.insert(i, (k, n + 1));
                proof {
                    assert forall|a: int, b: int| 0 <= a < b < entries@.len() implies seq_lt(
                        #[trigger] entries@[a].0@,
                        #[trigger] entries@[b].0@,
                    ) by {
                        assert(entries@[a].0 == e[a].0);
                        assert(entries@[b].0 == e[b].0);
                    }
                    assert(count_view(entries@) =~= counted(count_view(e), key@));
                }
                self.entries = entries;
            },
            None => {
                proof {
                    lemma_keyed_inserted(e, f, key, 1usize);
                }
                self.insert(key, 1);
            },
        }
    }
}

} // verus!

verus! {

impl SortedMap<String> {
    /// A copy of the map.
    pub fn copy(&self) -> (r: Self)
        ensures
            r.spec_entries() == self.spec_entries(),
    {
        proof {
            use_type_invariant(self);
        }
        let mut entries: Vec<(String, String)> = Vec::new();
        let mut i: usize = 0;
        while i < self.entries.len()
            invariant
                i <= self.entries@.len(),
                entries@ == self.entries@.take(i as int),
                keys_ascending(self.entries@),
            decreases self.entries@.len() - i,
        {
            let k = self.entries[i].0.clone();
            let v = self.entries[i].1.clone();
            entries.push((k, v));
            proof {
                assert(entries@ =~= self.entries@.take(i + 1));
            }
            i = i + 1;
        }
        proof {
            assert(entries@ =~= self.entries@);
        }
        SortedMap { entries }
    }
}

} // verus!
