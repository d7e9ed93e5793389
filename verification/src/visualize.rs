//! The node-and-edge view of a graph that the browser and the HTML page draw.
use vstd::prelude::*;
use crate::model::{
    Node, SNode, STriple, Triple, SortedMap, LodGraph, VisualizationNode, VisualizationEdge, VisualizationGraph,
    triples_view, keyed, vkey_index, vinsertion_index, vinserted, lemma_keyed_indices, lemma_keyed_inserted,
};
use crate::text::{chars_of, string_of, push_all, push_lit, push_string, chars_of_string};
use crate::terms::{decimal, push_decimal};
use crate::model::VisualizationRequest;
use crate::error::LodError;
use crate::format::RdfFormat;
use crate::parser::{read_graph_content, file_outcome, resolve_format};

verus! {

/// A drawn node by its strings' character sequences.
pub struct VNode {
    pub id: Seq<char>,
    pub label: Seq<char>,
    pub node_type: Seq<char>,
    pub color: Seq<char>,
    pub shape: Seq<char>,
}

impl View for VisualizationNode {
    type V = VNode;

    open spec fn view(&self) -> VNode {
        VNode { id: self.id@, label: self.label@, node_type: self.node_type@, color: self.color@, shape: self.shape@ }
    }
}

/// A drawn edge by its strings' character sequences.
pub struct VEdge {
    pub id: Seq<char>,
    pub source: Seq<char>,
    pub target: Seq<char>,
    pub label: Seq<char>,
}

impl View for VisualizationEdge {
    type V = VEdge;

    open spec fn view(&self) -> VEdge {
        VEdge { id: self.id@, source: self.source@, target: self.target@, label: self.label@ }
    }
}

/// The label a node is drawn with: its IRI or blank node label, or
/// `literal:` and a literal's value.
pub open spec fn label_of(n: SNode) -> Seq<char> {
    match n {
        SNode::Iri(i) => i,
        SNode::Blank(b) => b,
        SNode::Literal { value, .. } => "literal:"@ + value,
    }
}

/// Index of the last `#` or `/`.
pub open spec fn last_separator(s: Seq<char>) -> Option<int>
    decreases s.len(),
{
    if s.len() == 0 {
        None
    } else if s.last() == '#' || s.last() == '/' {
        Some(s.len() - 1)
    } else {
        last_separator(s.drop_last())
    }
}

/// The short form of an IRI: the part after its last `#` or `/`, at most 42
/// characters of it.
pub open spec fn short_text(s: Seq<char>) -> Seq<char> {
    let tail = match last_separator(s) {
        Some(k) => s.skip(k + 1),
        None => s,
    };
    if tail.len() <= 42 {
        tail
    } else {
        tail.take(42)
    }
}

/// The drawn node for a graph node with a given label.
pub open spec fn node_spec(id: Seq<char>, n: SNode, has_outgoing: bool) -> VNode {
    let (t, c, s) = match n {
        SNode::Iri(_) => ("iri"@, "#4f46e5"@, "ellipse"@),
        SNode::Blank(_) => ("blank"@, "#d97706"@, "diamond"@),
        SNode::Literal { .. } => if has_outgoing {
            ("literal-hub"@, "#059669"@, "round-rectangle"@)
        } else {
            ("literal-leaf"@, "#059669"@, "round-rectangle"@)
        },
    };
    VNode { id, label: short_text(id), node_type: t, color: c, shape: s }
}

/// The drawn nodes by label, after adding `v` under `k` unless `k` is there already.
pub open spec fn put_new(e: Seq<(Seq<char>, VNode)>, k: Seq<char>, v: VNode) -> Seq<(Seq<char>, VNode)> {
    if vkey_index(e, k) is Some {
        e
    } else {
        e.insert(vinsertion_index(e, k), (k, v))
    }
}

/// The drawn nodes of triples, by label in label order: each subject and
/// object as first met; an object is drawn as having outgoing edges when its
/// label is among `subjects`.
pub open spec fn drawn_nodes(ts: Seq<STriple>, subjects: Seq<Seq<char>>) -> Seq<(Seq<char>, VNode)>
    decreases ts.len(),
{
    if ts.len() == 0 {
        seq![]
    } else {
        let e = drawn_nodes(ts.drop_last(), subjects);
        let t = ts.last();
        let sl = label_of(t.subject);
        let ol = label_of(t.object);
        let e1 = put_new(e, sl, node_spec(sl, t.subject, true));
        put_new(e1, ol, node_spec(ol, t.object, subjects.contains(ol)))
    }
}

/// The drawn edge for the triple at index `i`.
pub open spec fn edge_spec(i: int, t: STriple) -> VEdge {
    VEdge {
        id: "e"@ + decimal(i as nat),
        source: label_of(t.subject),
        target: label_of(t.object),
        label: short_text(t.predicate),
    }
}

/// Whether `g` draws the triples `ts`: one node per label, in label order,
/// and one edge per triple, in order.
pub open spec fn draws(g: VisualizationGraph, ts: Seq<STriple>) -> bool {
    let subjects = ts.map_values(|t: STriple| label_of(t.subject));
    let nodes = drawn_nodes(ts, subjects);
    &&& g.nodes@.len() == nodes.len()
    &&& forall|k: int| 0 <= k < nodes.len() ==> #[trigger] g.nodes@[k]@ == nodes[k].1
    &&& g.edges@.len() == ts.len()
    &&& forall|i: int| 0 <= i < ts.len() ==> #[trigger] g.edges@[i]@ == edge_spec(i, ts[i])
}

/// The label a node is drawn with.
pub fn node_label(n: &Node) -> (r: String)
    ensures
        r@ == label_of(n@),
{
    match n {
        Node::Iri(i) => i.clone(),
        Node::Blank(b) => b.clone(),
        Node::Literal { value, .. } => {
            let mut v = chars_of("literal:");
            push_string(&mut v, value);
            string_of(&v)
        },
    }
}

/// The short form of an IRI.
pub fn short(s: &str) -> (r: String)
    ensures
        r@ == short_text(s@),
{
    let c = chars_of(s);
    let mut i: usize = c.len();
    proof {
        assert(c@.take(c@.len() as int) =~= c@);
    }
    while i > 0 && c[i - 1] != '#' && c[i - 1] != '/'
        invariant
            i <= c@.len(),
            c@ == s@,
            last_separator(c@) == last_separator(c@.take(i as int)),
        decreases i,
    {
        proof {
            assert(c@.take(i as int).drop_last() =~= c@.take(i - 1));
        }
        i = i - 1;
    }
    proof {
        if i > 0 {
            assert(c@.take(i as int).last() == c@[i - 1]);
        } else {
            assert(c@.take(0) =~= seq![]);
        }
    }
    let tail: &[char] = &c[i..c.len()];
    proof {
        if i > 0 {
            assert(tail@ =~= c@.skip(i as int));
        } else {
            assert(tail@ =~= c@);
        }
    }
    let n = if tail.len() <= 42 {
        tail.len()
    } else {
        42
    };
    proof {
        assert(tail@.subrange(0, n as int) =~= (if tail@.len() <= 42 {
            tail@
        } else {
            tail@.take(42)
        }));
    }
    string_of(&tail[0..n])
}

fn text(s: &str) -> (r: String)
    ensures
        r@ == s@,
{
    string_of(&chars_of(s))
}

/// The drawn node for a graph node.
pub fn make_node(id: &str, node: &Node, has_outgoing: bool) -> (r: VisualizationNode)
    ensures
        r@ == node_spec(id@, node@, has_outgoing),
{
    let (t, c, s) = match node {
        Node::Iri(_) => ("iri", "#4f46e5", "ellipse"),
        Node::Blank(_) => ("blank", "#d97706", "diamond"),
        Node::Literal { .. } => if has_outgoing {
            ("literal-hub", "#059669", "round-rectangle")
        } else {
            ("literal-leaf", "#059669", "round-rectangle")
        },
    };
    VisualizationNode { id: text(id), label: short(id), node_type: text(t), color: text(c), shape: text(s) }
}

/// The drawn node for a graph node (the name the web API uses).
pub fn make_visualization_node(id: &str, node: &Node, has_outgoing: bool) -> (r: VisualizationNode)
    ensures
        r@ == node_spec(id@, node@, has_outgoing),
{
    make_node(id, node, has_outgoing)
}

} // verus!

verus! {

fn copy_node(n: &VisualizationNode) -> (r: VisualizationNode)
    ensures
        r@ == n@,
{
    VisualizationNode {
        id: n.id.clone(),
        label: n.label.clone(),
        node_type: n.node_type.clone(),
        color: n.color.clone(),
        shape: n.shape.clone(),
    }
}

pub open spec fn node_views(e: Seq<(String, VisualizationNode)>) -> Seq<(Seq<char>, VNode)> {
    keyed(e, |n: VisualizationNode| n@)
}

/// Adds a drawn node under its label unless the label is there already.
fn put_node(nodes: &mut SortedMap<VisualizationNode>, key: String, n: VisualizationNode)
    ensures
        node_views(final(nodes).spec_entries()) == put_new(node_views(old(nodes).spec_entries()), key@, n@),
{
    let ghost e = nodes.spec_entries();
    let ghost f = |x: VisualizationNode| x@;
    proof {
        lemma_keyed_indices(e, f, key@);
    }
    let kc = chars_of_string(&key);
    match nodes.find(&kc) {
        Some(_) => {},
        None => {
            proof {
                lemma_keyed_inserted(e, f, key, n);
            }
            nodes.insert(key, n);
        },
    }
}

/// Whether a label is among the labels.
fn has_label(labels: &Vec<String>, l: &String) -> (r: bool)
    ensures
        r == labels@.map_values(|x: String| x@).contains(l@),
{
    let ghost lv = labels@.map_values(|x: String| x@);
    let mut k: usize = 0;
    while k < labels.len()
        invariant
            k <= labels@.len(),
            lv == labels@.map_values(|x: String| x@),
            forall|j: int| 0 <= j < k ==> lv[j] != l@,
        decreases labels@.len() - k,
    {
        if crate::normal::same_string(&labels[k], l) {
            proof {
                assert(lv[k as int] == l@);
            }
            return true;
        }
        k = k + 1;
    }
    false
}

/// The drawing of triples: one node per label, one edge per triple.
pub fn draw_triples(ts: &Vec<Triple>) -> (r: VisualizationGraph)
    ensures
        draws(r, triples_view(ts@)),
{
    let ghost tv = triples_view(ts@);
    let mut labels: Vec<String> = Vec::new();
    let mut i: usize = 0;
    while i < ts.len()
        invariant
            i <= ts@.len(),
            tv == triples_view(ts@),
            labels@.map_values(|x: String| x@) == tv.map_values(|t: STriple| label_of(t.subject)).take(i as int),
        decreases ts@.len() - i,
    {
        let l = node_label(&ts[i].subject);
        let ghost b = labels@;
        labels.push(l);
        proof {
            assert(tv[i as int] == ts@[i as int]@);
            assert(labels@.map_values(|x: String| x@) =~= b.map_values(|x: String| x@).push(l@));
            assert(labels@.map_values(|x: String| x@) =~= tv.map_values(|t: STriple| label_of(t.subject)).take(i + 1));
        }
        i = i + 1;
    }
    let ghost subjects = tv.map_values(|t: STriple| label_of(t.subject));
    proof {
        assert(subjects.take(i as int) =~= subjects);
    }
    let mut nodes: SortedMap<VisualizationNode> = SortedMap::new();
    let mut edges: Vec<VisualizationEdge> = Vec::new();
    let mut j: usize = 0;
    proof {
        assert(tv.take(0) =~= seq![]);
        assert(node_views(nodes.spec_entries()) =~= seq![]);
    }
    while j < ts.len()
        invariant
            j <= ts@.len(),
            tv == triples_view(ts@),
            labels@.map_values(|x: String| x@) == subjects,
            subjects == tv.map_values(|t: STriple| label_of(t.subject)),
            node_views(nodes.spec_entries()) == drawn_nodes(tv.take(j as int), subjects),
            edges@.len() == j,
            forall|k: int| 0 <= k < j ==> #[trigger] edges@[k]@ == edge_spec(k, tv[k]),
        decreases ts@.len() - j,
    {
        let t = &ts[j];
        proof {
            assert(tv.take(j + 1).drop_last() =~= tv.take(j as int));
            assert(tv.take(j + 1).last() == t@);
        }
        let sl = node_label(&t.subject);
        let ol = node_label(&t.object);
        put_node(&mut nodes, sl.clone(), make_node(sl.as_str(), &t.subject, true));
        let out = has_label(&labels, &ol);
        put_node(&mut nodes, ol.clone(), make_node(ol.as_str(), &t.object, out));
        let mut id = chars_of("e");
        push_decimal(j, &mut id);
        let e = VisualizationEdge { id: string_of(&id), source: sl, target: ol, label: short(t.predicate.as_str()) };
        proof {
            assert(e@ == edge_spec(j as int, tv[j as int]));
        }
        edges.push(e);
        j = j + 1;
    }
    proof {
        assert(tv.take(j as int) =~= tv);
    }
    let mut out_nodes: Vec<VisualizationNode> = Vec::new();
    let n = nodes.len();
    let ghost nv = node_views(nodes.spec_entries());
    let mut k: usize = 0;
    while k < n
        invariant
            k <= n,
            n == nodes.spec_entries().len(),
            nv == node_views(nodes.spec_entries()),
            out_nodes@.len() == k,
            forall|m: int| 0 <= m < k ==> #[trigger] out_nodes@[m]@ == nv[m].1,
        decreases n - k,
    {
        let entry = nodes.entry_at(k);
        proof {
            assert(nv[k as int] == (entry.0@, entry.1@));
        }
        out_nodes.push(copy_node(&entry.1));
        k = k + 1;
    }
    VisualizationGraph { nodes: out_nodes, edges }
}

/// The drawing of all triples of a dataset, the default graph first.
pub fn build_visualization_graph(graph: &LodGraph) -> (r: VisualizationGraph)
    ensures
        draws(r, triples_view(graph.spec_all_triples())),
{
    let all = graph.all_triples();
    draw_triples(&all)
}

} // verus!

verus! {

/// The page before the drawing's JSON.
pub const PAGE_HEAD: &'static str = r##"<!doctype html>
<html lang="en">
<head>
<meta charset="utf-8">
<meta name="viewport" content="width=device-width, initial-scale=1">
<title>LOD Graph</title>
<style>
* { box-sizing: border-box; }
:root {
  --bg: #f8fafc;
  --panel: rgba(255,255,255,0.94);
  --panel-border: #e2e8f0;
  --text: #1e293b;
  --muted: #64748b;
  --accent: #4f46e5;
}
html, body { margin: 0; height: 100%; }
body {
  font-family: system-ui, -apple-system, "Segoe UI", sans-serif;
  background: radial-gradient(circle at top, #ffffff 0%, var(--bg) 70%);
  color: var(--text);
  overflow: hidden;
}
#app { width: 100vw; height: 100vh; position: relative; }
#cy {
  width: 100%;
  height: 100%;
  display: block;
}
.graph-node { cursor: grab; }
.graph-node:active { cursor: grabbing; }
.panel {
  position: fixed;
  z-index: 100;
  background: var(--panel);
  border: 1px solid var(--panel-border);
  border-radius: 12px;
  box-shadow: 0 6px 20px rgba(15, 23, 42, 0.08);
  backdrop-filter: blur(6px);
}
#controls-panel {
  top: 1rem;
  left: 1rem;
  padding: 0.75rem 1rem;
  max-width: 19rem;
}
#controls-panel h2 {
  margin: 0 0 0.3rem;
  font-size: 1rem;
}
#controls-panel small {
  color: var(--muted);
  font-size: 0.8rem;
  line-height: 1.4;
}
#legend-panel {
  bottom: 1rem;
  left: 1rem;
  padding: 0.7rem 0.9rem;
  font-size: 0.8rem;
  line-height: 1.6;
}
#zoom-panel {
  bottom: 1rem;
  right: 1rem;
  display: flex;
  flex-direction: column;
  gap: 0.35rem;
  padding: 0.5rem;
}
#zoom-panel button {
  width: 38px;
  height: 38px;
  border: 1px solid #cbd5e1;
  border-radius: 9px;
  background: #fff;
  color: var(--text);
  font-size: 1rem;
  cursor: pointer;
  display: flex;
  align-items: center;
  justify-content: center;
  transition: transform 0.12s, border-color 0.12s, background 0.12s, color 0.12s;
}
#zoom-panel button:hover {
  background: #eef2ff;
  border-color: var(--accent);
  color: var(--accent);
  transform: translateY(-1px);
}
#zoom-panel button:active {
  transform: translateY(0);
}
.legend-row {
  display: flex;
  align-items: center;
  gap: 0.55rem;
  margin: 0.22rem 0;
}
.legend-swatch {
  display: inline-block;
  width: 14px;
  height: 14px;
  border: 1px solid rgba(0,0,0,0.1);
  flex-shrink: 0;
}
.legend-swatch.circle { border-radius: 50%; }
.legend-swatch.diamond { border-radius: 2px; transform: rotate(45deg); margin: 4px; }
.legend-swatch.rect { border-radius: 3px; }
.badge {
  display: inline-block;
  font-size: 0.64rem;
  font-weight: 700;
  letter-spacing: 0.5px;
  color: var(--accent);
  background: #eef2ff;
  border-radius: 4px;
  padding: 0.12rem 0.45rem;
  vertical-align: middle;
}
.status {
  position: fixed;
  right: 1rem;
  top: 1rem;
  z-index: 100;
  padding: 0.45rem 0.75rem;
  font-size: 0.78rem;
  color: var(--muted);
}
.status strong { color: var(--accent); }
</style>
</head>
<body>
<div id="app">
  <div id="controls-panel" class="panel">
    <h2>LOD Graph Visualizer <span class="badge">RDF</span></h2>
    <small>Drag the graph to pan. Use the controls to zoom, fit, relayout, or export SVG.</small>
  </div>
  <div id="legend-panel" class="panel">
    <strong>Legend</strong>
    <div class="legend-row"><span class="legend-swatch circle" style="background:#4f46e5"></span> IRI</div>
    <div class="legend-row"><span class="legend-swatch diamond" style="background:#d97706"></span> Blank node</div>
    <div class="legend-row"><span class="legend-swatch rect" style="background:#059669"></span> Literal</div>
  </div>
  <div id="zoom-panel" class="panel">
    <button id="btn-zoom-in" title="Zoom in">+</button>
    <button id="btn-zoom-out" title="Zoom out">−</button>
    <button id="btn-fit" title="Fit graph to view">⊞</button>
    <button id="btn-reset-layout" title="Relayout graph">⟳</button>
    <button id="btn-export" title="Export as SVG">⬇</button>
  </div>
  <div id="status" class="status"><strong>Ready</strong></div>
  <svg id="cy" aria-label="LOD graph"></svg>
</div>
<script>
const GRAPH = "##;

/// The page after the drawing's JSON.
pub const PAGE_TAIL: &'static str = r##";

function shortLabel(value, limit = 28) {
  return value.split('/').pop()?.split('#').pop()?.slice(0, limit) || value.slice(0, limit);
}

function esc(value) {
  return String(value)
    .replaceAll('&', '&amp;')
    .replaceAll('<', '&lt;')
    .replaceAll('>', '&gt;')
    .replaceAll('"', '&quot;')
    .replaceAll("'", '&#39;');
}

function layoutGraph(model, width = 1000, height = 700) {
  const nodes = model.nodes.map(node => ({ ...node, x: 0, y: 0, vx: 0, vy: 0 }));
  if (!nodes.length) return { nodes, edges: model.edges, viewBox: `0 0 ${width} ${height}` };

  const indexById = new Map(nodes.map(node => [node.id, node]));
  const neighbors = new Map(nodes.map(node => [node.id, new Set()]));
  const inbound = new Map(nodes.map(node => [node.id, 0]));
  const outbound = new Map(nodes.map(node => [node.id, 0]));
  model.edges.forEach(edge => {
    if (neighbors.has(edge.source) && neighbors.has(edge.target)) {
      neighbors.get(edge.source).add(edge.target);
      neighbors.get(edge.target).add(edge.source);
      outbound.set(edge.source, (outbound.get(edge.source) || 0) + 1);
      inbound.set(edge.target, (inbound.get(edge.target) || 0) + 1);
    }
  });

  const components = [];
  const seen = new Set();
  for (const node of nodes) {
    if (seen.has(node.id)) continue;
    const queue = [node.id];
    const component = [];
    seen.add(node.id);
    while (queue.length) {
      const id = queue.shift();
      const cur = indexById.get(id);
      if (!cur) continue;
      component.push(cur);
      neighbors.get(id)?.forEach(next => {
        if (!seen.has(next)) {
          seen.add(next);
          queue.push(next);
        }
      });
    }
    components.push(component);
  }

  const isLiteral = node => node?.nodeType === 'literal' || node?.nodeType?.startsWith('literal');
  const degree = id => (neighbors.get(id)?.size || 0) + (outbound.get(id) || 0) * 1.5 - (inbound.get(id) || 0) * 0.25;
  const rootFor = component => [...component].sort((a, b) => {
    const scoreA = degree(a.id) - (isLiteral(a) ? 100 : 0);
    const scoreB = degree(b.id) - (isLiteral(b) ? 100 : 0);
    const diff = scoreB - scoreA;
    return diff !== 0 ? diff : a.id.localeCompare(b.id);
  })[0];

  function buildHubAndSpokeLayout(component, centerX, centerY, rotation = -Math.PI / 2) {
    const componentSet = new Set(component.map(node => node.id));
    const root = rootFor(component);
    const parent = new Map([[root.id, null]]);
    const depth = new Map([[root.id, 0]]);
    const queue = [root.id];
    const children = new Map(component.map(node => [node.id, []]));

    while (queue.length) {
      const id = queue.shift();
      const nextDepth = depth.get(id) + 1;
      const nexts = [...(neighbors.get(id) || [])]
        .filter(next => componentSet.has(next) && !parent.has(next))
        .sort((a, b) => {
          const diff = degree(b) - degree(a);
          return diff !== 0 ? diff : a.localeCompare(b);
        });
      nexts.forEach(next => {
        parent.set(next, id);
        depth.set(next, nextDepth);
        children.get(id)?.push(next);
        queue.push(next);
      });
    }

    component.forEach(node => {
      if (!parent.has(node.id)) {
        parent.set(node.id, root.id);
        depth.set(node.id, 1);
        children.get(root.id)?.push(node.id);
      }
    });

    component.forEach(node => {
      if (isLiteral(node)) {
        const parentId = parent.get(node.id);
        const baseDepth = parentId ? (depth.get(parentId) || 1) + 1 : 2;
        depth.set(node.id, Math.max(depth.get(node.id) || 0, baseDepth));
      }
    });

    const subtree = new Map();
    function size(id) {
      const kids = (children.get(id) || []).slice().sort((a, b) => {
        const diff = degree(b) - degree(a);
        return diff !== 0 ? diff : a.localeCompare(b);
      });
      children.set(id, kids);
      const total = 1 + kids.reduce((sum, kid) => sum + size(kid), 0);
      subtree.set(id, total);
      return total;
    }
    size(root.id);

    const placements = new Map([[root.id, { x: centerX, y: centerY }]]);
    const ringStep = Math.max(58, Math.min(width, height) * 0.105);

    function place(id, startAngle, endAngle, d) {
      const span = endAngle - startAngle;
      const angle = d === 0 ? rotation : startAngle + span / 2;
      const radius = d === 0 ? 0 : Math.max(d * ringStep, 34 + d * 8);
      placements.set(id, {
        x: centerX + Math.cos(angle) * radius,
        y: centerY + Math.sin(angle) * radius,
      });
      const kids = children.get(id) || [];
      if (!kids.length) return;
      const total = kids.reduce((sum, kid) => sum + (subtree.get(kid) || 1), 0) || kids.length;
      const usable = span * 0.88;
      const gap = (span - usable) / 2;
      let cursor = startAngle + gap;
      kids.forEach((kid, index) => {
        const weight = (subtree.get(kid) || 1) / total;
        const slice = Math.max((Math.PI / 42), usable * weight);
        const nextStart = cursor;
        const nextEnd = index === kids.length - 1 ? startAngle + span - gap : cursor + slice;
        place(kid, nextStart, nextEnd, d + 1);
        cursor = nextEnd;
      });
    }

    place(root.id, rotation - Math.PI, rotation + Math.PI, 0);

    component.forEach(node => {
      const p = placements.get(node.id) || { x: centerX, y: centerY };
      node.x = p.x;
      node.y = p.y;
    });
  }

  const orbit = Math.max(120, Math.min(width, height) * 0.20);
  components.forEach((component, compIndex) => {
    const angle = components.length > 1
      ? (compIndex / components.length) * Math.PI * 2 - Math.PI / 2
      : 0;
    const centerX = components.length > 1 ? width / 2 + Math.cos(angle) * orbit : width / 2;
    const centerY = components.length > 1 ? height / 2 + Math.sin(angle) * orbit * 0.60 : height / 2;
    buildHubAndSpokeLayout(component, centerX, centerY, angle);
  });

  const padding = Math.max(60, Math.min(width, height) * 0.08);
  let minX = Infinity, maxX = -Infinity, minY = Infinity, maxY = -Infinity;
  nodes.forEach(node => {
    minX = Math.min(minX, node.x);
    maxX = Math.max(maxX, node.x);
    minY = Math.min(minY, node.y);
    maxY = Math.max(maxY, node.y);
  });
  const usedW = Math.max(1, maxX - minX);
  const usedH = Math.max(1, maxY - minY);
  const fit = Math.min((width - padding * 2) / usedW, (height - padding * 2) / usedH, 1);
  const cx = (minX + maxX) / 2;
  const cy = (minY + maxY) / 2;
  nodes.forEach(node => {
    node.x = width / 2 + (node.x - cx) * fit;
    node.y = height / 2 + (node.y - cy) * fit;
  });
  return {
    nodes,
    edges: model.edges,
    viewBox: `0 0 ${width} ${height}`,
  };
}

function nodeRadius(node) {
  if (node.shape === 'diamond') return 14;
  if (node.shape === 'round-rectangle') return 22;
  return 14;
}

function edgePath(source, target) {
  const dx = target.x - source.x;
  const dy = target.y - source.y;
  const dist = Math.sqrt(dx * dx + dy * dy) || 1;
  const sx = source.x + (dx / dist) * nodeRadius(source);
  const sy = source.y + (dy / dist) * nodeRadius(source);
  const tx = target.x - (dx / dist) * nodeRadius(target);
  const ty = target.y - (dy / dist) * nodeRadius(target);
  const midX = (sx + tx) / 2;
  const midY = (sy + ty) / 2;
  const offset = Math.max(10, Math.min(45, dist * 0.12));
  const perpX = (-dy / dist) * offset;
  const perpY = (dx / dist) * offset;
  return {
    d: `M ${sx} ${sy} Q ${midX + perpX} ${midY + perpY} ${tx} ${ty}`,
    lx: midX + perpX,
    ly: midY + perpY - 4,
  };
}

function svgNode(node) {
  const labelY = node.shape === 'round-rectangle' ? 26 : 22;
  const common = `transform="translate(${node.x} ${node.y})" data-node-id="${esc(node.id)}" class="graph-node"`;
  if (node.shape === 'diamond') {
    return `
      <g ${common}>
        <title>${esc(node.id)}</title>
        <polygon points="0,-14 14,0 0,14 -14,0" fill="${node.color}" stroke="${node.color}" stroke-width="1.5" opacity="0.92"></polygon>
        <text x="0" y="${labelY}" text-anchor="middle" class="glabel">${esc(node.label)}</text>
      </g>`;
  }
  if (node.shape === 'round-rectangle') {
    return `
      <g ${common}>
        <title>${esc(node.id)}</title>
        <rect x="-22" y="-13" width="44" height="26" rx="7" ry="7" fill="${node.color}" stroke="${node.color}" stroke-width="1.5" opacity="0.92"></rect>
        <text x="0" y="${labelY}" text-anchor="middle" class="glabel">${esc(node.label)}</text>
      </g>`;
  }
  return `
    <g ${common}>
      <title>${esc(node.id)}</title>
      <circle r="14" fill="${node.color}" stroke="${node.color}" stroke-width="1.5" opacity="0.92"></circle>
      <text x="0" y="${labelY}" text-anchor="middle" class="glabel">${esc(node.label)}</text>
    </g>`;
}

function drawGraph(graph) {
  const svg = document.getElementById('cy');
  const vb = graph.viewBox;

  svg.setAttribute('viewBox', vb);
  svg.setAttribute('preserveAspectRatio', 'xMidYMid meet');
  svg.innerHTML = `
    <defs>
      <marker id="g-arrow" viewBox="0 0 10 10" refX="8" refY="5" markerWidth="6" markerHeight="6" orient="auto-start-reverse">
        <path d="M 0 0 L 10 5 L 0 10 z" fill="#94a3b8"></path>
      </marker>
      <filter id="g-shadow" x="-20%" y="-20%" width="140%" height="140%">
        <feDropShadow dx="0" dy="2" stdDeviation="2" flood-color="#94a3b8" flood-opacity="0.18"></feDropShadow>
      </filter>
      <style>
        .glabel { fill: #1f2937; font-size: 10px; font-weight: 600; paint-order: stroke; stroke: rgba(255,255,255,0.85); stroke-width: 3px; stroke-linejoin: round; pointer-events: none; }
        .gedge { stroke: #cbd5e1; stroke-width: 1.5px; fill: none; opacity: 0.95; }
        .gedge-label { fill: #64748b; font-size: 8px; font-weight: 600; paint-order: stroke; stroke: rgba(255,255,255,0.9); stroke-width: 3px; stroke-linejoin: round; pointer-events: none; }
      </style>
    </defs>
    ${graph.edges.map(edge => {
      const source = graph.nodes.find(node => node.id === edge.source);
      const target = graph.nodes.find(node => node.id === edge.target);
      if (!source || !target) return '';
      const path = edgePath(source, target);
      return `
        <g>
          <title>${esc(`${edge.label}: ${source.id} -> ${target.id}`)}</title>
          <path d="${path.d}" class="gedge" marker-end="url(#g-arrow)"></path>
          <text x="${path.lx}" y="${path.ly}" text-anchor="middle" class="gedge-label">${esc(edge.label)}</text>
        </g>`;
    }).join('')}
    ${graph.nodes.map(svgNode).join('')}
  `;
  return graph;
}

function relayoutGraph(model) {
  const { width, height } = currentViewport();
  currentGraph = layoutGraph(model, width, height);
  drawGraph(currentGraph);
  return currentGraph;
}

function setStatus(message) {
  const status = document.getElementById('status');
  if (status) status.innerHTML = `<strong>${message}</strong>`;
}

function currentSvg() {
  return document.getElementById('cy');
}

function currentViewport() {
  const svg = currentSvg();
  return {
    width: Math.max(640, svg?.clientWidth || window.innerWidth || 1000),
    height: Math.max(360, svg?.clientHeight || window.innerHeight || 700),
  };
}

function downloadSvg(svgNode, filename = 'lod-graph.svg') {
  if (!svgNode) return;
  const clone = svgNode.cloneNode(true);
  const serializer = new XMLSerializer();
  const source = serializer.serializeToString(clone);
  const blob = new Blob([source], { type: 'image/svg+xml;charset=utf-8' });
  const url = URL.createObjectURL(blob);
  const a = document.createElement('a');
  a.href = url;
  a.download = filename;
  document.body.appendChild(a);
  a.click();
  document.body.removeChild(a);
  URL.revokeObjectURL(url);
}

let zoom = 1;
let currentGraph = relayoutGraph(GRAPH);
let dragState = null;

function applyZoom() {
  const svg = currentSvg();
  if (!svg || !currentGraph?.viewBox) return;
  const [x, y, w, h] = currentGraph.viewBox.split(' ').map(Number);
  const cx = x + w / 2;
  const cy = y + h / 2;
  const zw = w / zoom;
  const zh = h / zoom;
  svg.setAttribute('viewBox', `${cx - zw / 2} ${cy - zh / 2} ${zw} ${zh}`);
}

function svgPoint(svg, clientX, clientY) {
  const pt = svg.createSVGPoint();
  pt.x = clientX;
  pt.y = clientY;
  return pt.matrixTransform(svg.getScreenCTM().inverse());
}

function beginDrag(evt) {
  const svg = currentSvg();
  const nodeEl = evt.target.closest?.('[data-node-id]');
  if (!svg || !nodeEl) return;
  const nodeId = nodeEl.getAttribute('data-node-id');
  const node = currentGraph.nodes.find(n => n.id === nodeId);
  if (!node) return;
  evt.preventDefault();
  evt.stopPropagation();
  const p = svgPoint(svg, evt.clientX, evt.clientY);
  dragState = {
    id: nodeId,
    pointerId: evt.pointerId,
    startX: p.x,
    startY: p.y,
    nodeX: node.x,
    nodeY: node.y,
  };
  svg.setPointerCapture?.(evt.pointerId);
}

function moveDrag(evt) {
  const svg = currentSvg();
  if (!svg || !dragState || evt.pointerId !== dragState.pointerId) return;
  evt.preventDefault();
  const p = svgPoint(svg, evt.clientX, evt.clientY);
  const nextX = dragState.nodeX + (p.x - dragState.startX);
  const nextY = dragState.nodeY + (p.y - dragState.startY);
  currentGraph.nodes = currentGraph.nodes.map(node => node.id === dragState.id ? { ...node, x: nextX, y: nextY } : node);
  drawGraph(currentGraph);
  applyZoom();
}

function endDrag(evt) {
  const svg = currentSvg();
  if (!svg || !dragState || evt.pointerId !== dragState.pointerId) return;
  dragState = null;
  svg.releasePointerCapture?.(evt.pointerId);
}

document.getElementById('btn-zoom-in').addEventListener('click', () => {
  zoom = Math.min(3, zoom * 1.2);
  applyZoom();
});
document.getElementById('btn-zoom-out').addEventListener('click', () => {
  zoom = Math.max(0.5, zoom / 1.2);
  applyZoom();
});
document.getElementById('btn-fit').addEventListener('click', () => {
  zoom = 1;
  applyZoom();
});
document.getElementById('btn-reset-layout').addEventListener('click', () => {
  relayoutGraph(GRAPH);
  zoom = 1;
  applyZoom();
  setStatus('Relayout complete');
});
document.getElementById('btn-export').addEventListener('click', () => {
  const svg = currentSvg();
  if (!svg) return;
  const clone = svg.cloneNode(true);
  const style = document.createElementNS('http://www.w3.org/2000/svg', 'style');
  style.textContent = `
    .glabel { fill: #1f2937; font-size: 10px; font-weight: 600; paint-order: stroke; stroke: rgba(255,255,255,0.85); stroke-width: 3px; stroke-linejoin: round; pointer-events: none; }
    .gedge { stroke: #cbd5e1; stroke-width: 1.5px; fill: none; opacity: 0.95; }
    .gedge-label { fill: #64748b; font-size: 8px; font-weight: 600; paint-order: stroke; stroke: rgba(255,255,255,0.9); stroke-width: 3px; stroke-linejoin: round; pointer-events: none; }
  `;
  clone.insertBefore(style, clone.firstChild);
  downloadSvg(clone, 'lod-graph.svg');
  setStatus('SVG exported');
});

const svg = currentSvg();
svg.addEventListener('pointerdown', beginDrag);
svg.addEventListener('pointermove', moveDrag);
svg.addEventListener('pointerup', endDrag);
svg.addEventListener('pointerleave', endDrag);
window.addEventListener('resize', () => {
  if (dragState) return;
  relayoutGraph(GRAPH);
  applyZoom();
});
</script>
</body>
</html>"##;

/// The self-contained HTML page that draws a graph given as JSON.
pub fn html(elements_json: &str) -> (r: String)
    ensures
        r@ == PAGE_HEAD@ + elements_json@ + PAGE_TAIL@,
{
    let mut out = chars_of(PAGE_HEAD);
    push_lit(&mut out, elements_json);
    push_lit(&mut out, PAGE_TAIL);
    string_of(&out)
}

} // verus!

verus! {

/// Drawing graphs as HTML pages.
pub struct VisualizationService;

impl VisualizationService {
    /// The drawing of the graph a request names: `content` is what reading
    /// its file gave. The format named in the request is checked first, then
    /// the one its path names where it names none, then the read.
    pub fn visualize(&self, req: VisualizationRequest, content: Result<String, LodError>) -> (r: Result<
        VisualizationGraph,
        LodError,
    >)
        requires
            content matches Ok(c) ==> c@.len() < usize::MAX,
        ensures
            drawing_outcome(req, content, r),
    {
        let fmt = match &req.input_format {
            Some(s) => match RdfFormat::parse(s.as_str()) {
                Ok(f) => Some(f),
                Err(e) => {
                    return Err(e);
                },
            },
            None => None,
        };
        let f = match resolve_format(req.input_path.as_str(), fmt) {
            Ok(f) => f,
            Err(e) => {
                return Err(e);
            },
        };
        let c = match content {
            Ok(c) => c,
            Err(e) => {
                return Err(e);
            },
        };
        let g = read_graph_content(c.as_str(), f);
        let ghost gg = g;
        let r = match g {
            Ok(graph) => Ok(build_visualization_graph(&graph)),
            Err(e) => Err(e),
        };
        assert(file_outcome(c@, f, gg));
        r
    }
}

} // verus!

verus! {

/// What drawing the file a request names gives.
pub open spec fn drawing_outcome(req: VisualizationRequest, content: Result<String, LodError>, r: Result<VisualizationGraph, LodError>) -> bool {
    match crate::convert::side_format(req.input_format, req.input_path@) {
        Err(key) => r matches Err(LodError::UnsupportedFormat(s)) && s@ == key,
        Ok(f) => match content {
            Err(e) => r == Err::<VisualizationGraph, LodError>(e),
            Ok(c) => exists|g: Result<LodGraph, LodError>| #[trigger] file_outcome(c@, f, g) && match g {
                Ok(graph) => r is Ok && draws(r.unwrap(), triples_view(graph.spec_all_triples())),
                Err(e) => r == Err::<VisualizationGraph, LodError>(e),
            },
        },
    }
}

} // verus!
