//! Writing graphs: N-Triples and Turtle text, JSON-LD through `serde_json`,
//! RDF/XML through `oxrdfxml` and TriG through `oxttl`.
use vstd::prelude::*;
use crate::model::{Node, SNode, STriple, Triple, SortedMap, LodGraph, triples_view, opt_view, pair_view};
use crate::text::{chars_of, string_of, push_all, push_lit, push_string};
use crate::normal::{normalized_triples, normal_form, is_sorted};
use crate::json::{JsonValue, JsonView, jview, jentries, jviews, lemma_jentries, lemma_jviews, json_pretty, json_pretty_text};
use crate::error::{LodError, error_detail};

verus! {

/// The escape of one character inside a quoted literal: backslash, quote,
/// line feed and carriage return are escaped, so that the literal stays on
/// one line; every other character, a tab among them, is written as it is.
pub open spec fn escape_char(c: char) -> Seq<char> {
    if c == '\\' {
        seq!['\\', '\\']
    } else if c == '"' {
        seq!['\\', '"']
    } else if c == '\n' {
        seq!['\\', 'n']
    } else if c == '\r' {
        seq!['\\', 'r']
    } else {
        seq![c]
    }
}

/// A literal's text with backslashes, quotes and line breaks escaped.
pub open spec fn nt_escape(s: Seq<char>) -> Seq<char>
    decreases s.len(),
{
    if s.len() == 0 {
        seq![]
    } else {
        nt_escape(s.drop_last()) + escape_char(s.last())
    }
}

/// A node in N-Triples form.
pub open spec fn node_nt(n: SNode) -> Seq<char> {
    match n {
        SNode::Iri(i) => "<"@ + i + ">"@,
        SNode::Blank(b) => b,
        SNode::Literal { value, datatype, lang } => {
            let q = "\""@ + nt_escape(value) + "\""@;
            match lang {
                Some(l) => q + "@"@ + l,
                None => match datatype {
                    Some(dt) => q + "^^<"@ + dt + ">"@,
                    None => q,
                },
            }
        },
    }
}

/// A triple as one N-Triples statement.
pub open spec fn triple_line(t: STriple) -> Seq<char> {
    node_nt(t.subject) + " <"@ + t.predicate + "> "@ + node_nt(t.object) + " ."@
}

/// Each triple's statement followed by a line break.
pub open spec fn lines_text(ts: Seq<STriple>) -> Seq<char>
    decreases ts.len(),
{
    if ts.len() == 0 {
        seq![]
    } else {
        lines_text(ts.drop_last()) + triple_line(ts.last()) + "\n"@
    }
}

/// An N-Triples document: the statements joined by line breaks, with a
/// final line break (a lone line break for no triples).
pub open spec fn ntriples_text(ts: Seq<STriple>) -> Seq<char> {
    if ts.len() == 0 {
        "\n"@
    } else {
        lines_text(ts)
    }
}

/// The prefix declarations of a Turtle document, one per line.
pub open spec fn prefix_lines(ps: Seq<(Seq<char>, Seq<char>)>) -> Seq<char>
    decreases ps.len(),
{
    if ps.len() == 0 {
        seq![]
    } else {
        prefix_lines(ps.drop_last()) + "@prefix "@ + ps.last().0 + ": <"@ + ps.last().1 + "> .\n"@
    }
}

/// The head of a Turtle document: base and prefixes, then a blank line if
/// either was written.
pub open spec fn turtle_head(base: Option<Seq<char>>, ps: Seq<(Seq<char>, Seq<char>)>) -> Seq<char> {
    let b = match base {
        Some(x) => "@base <"@ + x + "> .\n"@,
        None => seq![],
    };
    b + prefix_lines(ps) + if ps.len() > 0 || base is Some {
        "\n"@
    } else {
        seq![]
    }
}

fn push_escaped(out: &mut Vec<char>, s: &String)
    ensures
        final(out)@ == old(out)@ + nt_escape(s@),
{
    let c = chars_of(s.as_str());
    let ghost o = out@;
    let mut i: usize = 0;
    proof {
        assert(c@.take(0) =~= seq![]);
        assert(o + nt_escape(c@.take(0)) =~= o);
    }
    while i < c.len()
        invariant
            i <= c@.len(),
            c@ == s@,
            out@ == o + nt_escape(c@.take(i as int)),
        decreases c@.len() - i,
    {
        let ch = c[i];
        proof {
            assert(c@.take(i + 1).drop_last() =~= c@.take(i as int));
            assert(c@.take(i + 1).last() == ch);
        }
        let ghost before = out@;
        if ch == '\\' {
            out.push('\\');
            out.push('\\');
        } else if ch == '"' {
            out.push('\\');
            out.push('"');
        } else if ch == '\n' {
            out.push('\\');
            out.push('n');
        } else if ch == '\r' {
            out.push('\\');
            out.push('r');
        } else {
            out.push(ch);
        }
        proof {
            assert(out@ =~= before + escape_char(ch));
            assert(o + nt_escape(c@.take(i + 1)) =~= o + nt_escape(c@.take(i as int)) + escape_char(ch));
        }
        i = i + 1;
    }
    proof {
        assert(c@.take(i as int) =~= c@);
    }
}

pub(crate) fn push_node(out: &mut Vec<char>, n: &Node)
    ensures
        final(out)@ == old(out)@ + node_nt(n@),
{
    let ghost o = out@;
    match n {
        Node::Iri(i) => {
            push_lit(out, "<");
            push_string(out, i);
            push_lit(out, ">");
            assert(out@ =~= o + node_nt(n@));
        },
        Node::Blank(b) => {
            push_string(out, b);
        },
        Node::Literal { value, datatype, lang } => {
            push_lit(out, "\"");
            push_escaped(out, value);
            push_lit(out, "\"");
            match lang {
                Some(l) => {
                    push_lit(out, "@");
                    push_string(out, l);
                },
                None => match datatype {
                    Some(dt) => {
                        push_lit(out, "^^<");
                        push_string(out, dt);
                        push_lit(out, ">");
                    },
                    None => {},
                },
            }
            assert(out@ =~= o + node_nt(n@));
        },
    }
}

/// A node in N-Triples form (Turtle writes nodes the same way).
pub fn node_to_nt(n: &Node) -> (r: String)
    ensures
        r@ == node_nt(n@),
{
    let mut out: Vec<char> = Vec::new();
    push_node(&mut out, n);
    assert(out@ =~= node_nt(n@));
    string_of(&out)
}

/// A node in Turtle form.
pub fn node_to_turtle(n: &Node) -> (r: String)
    ensures
        r@ == node_nt(n@),
{
    node_to_nt(n)
}

pub(crate) fn push_lines(out: &mut Vec<char>, ts: &Vec<Triple>)
    ensures
        final(out)@ == old(out)@ + lines_text(triples_view(ts@)),
{
    let ghost o = out@;
    let ghost tv = triples_view(ts@);
    let mut i: usize = 0;
    proof {
        assert(tv.take(0) =~= seq![]);
        assert(o + lines_text(tv.take(0)) =~= o);
    }
    while i < ts.len()
        invariant
            i <= ts@.len(),
            tv == triples_view(ts@),
            out@ == o + lines_text(tv.take(i as int)),
        decreases ts@.len() - i,
    {
        let t = &ts[i];
        proof {
            assert(tv.take(i + 1).drop_last() =~= tv.take(i as int));
            assert(tv.take(i + 1).last() == t@);
        }
        let ghost before = out@;
        push_node(out, &t.subject);
        push_lit(out, " <");
        push_string(out, &t.predicate);
        push_lit(out, "> ");
        push_node(out, &t.object);
        push_lit(out, " .");
        push_lit(out, "\n");
        proof {
            assert(out@ =~= before + triple_line(t@) + "\n"@);
            assert(o + lines_text(tv.take(i + 1)) =~= o + lines_text(tv.take(i as int)) + triple_line(t@) + "\n"@);
        }
        i = i + 1;
    }
    proof {
        assert(tv.take(i as int) =~= tv);
    }
}

/// Writes a graph as N-Triples, in normal form.
pub fn serialize_ntriples(graph: &LodGraph) -> (r: String)
    ensures
        exists|s: Seq<STriple>| #[trigger] is_sorted(s) && s.to_multiset()
            == triples_view(graph.spec_all_triples()).to_multiset() && r@ == ntriples_text(normal_form(s)),
{
    let ts = normalized_triples(graph);
    let mut out: Vec<char> = Vec::new();
    if ts.len() == 0 {
        push_lit(&mut out, "\n");
    } else {
        push_lines(&mut out, &ts);
    }
    proof {
        assert(out@ =~= ntriples_text(triples_view(ts@)));
    }
    string_of(&out)
}

fn push_head(out: &mut Vec<char>, graph: &LodGraph)
    ensures
        final(out)@ == old(out)@ + turtle_head(opt_view(graph.base), graph.prefixes.pairs()),
{
    let ghost o = out@;
    match &graph.base {
        Some(b) => {
            push_lit(out, "@base <");
            push_string(out, b);
            push_lit(out, "> .\n");
        },
        None => {},
    }
    let ghost after_base = out@;
    let ghost ps = graph.prefixes.pairs();
    let n = graph.prefixes.len();
    let mut i: usize = 0;
    proof {
        assert(ps.take(0) =~= seq![]);
        assert(after_base + prefix_lines(ps.take(0)) =~= after_base);
    }
    while i < n
        invariant
            i <= n,
            n == ps.len(),
            ps == graph.prefixes.pairs(),
            out@ == after_base + prefix_lines(ps.take(i as int)),
        decreases n - i,
    {
        let e = graph.prefixes.entry_at(i);
        proof {
            assert(ps.take(i + 1).drop_last() =~= ps.take(i as int));
            assert(ps.take(i + 1).last() == (e.0@, e.1@));
        }
        let ghost before = out@;
        push_lit(out, "@prefix ");
        push_string(out, &e.0);
        push_lit(out, ": <");
        push_string(out, &e.1);
        push_lit(out, "> .\n");
        proof {
            assert(after_base + prefix_lines(ps.take(i + 1)) =~= before + "@prefix "@ + e.0@ + ": <"@ + e.1@ + "> .\n"@);
        }
        i = i + 1;
    }
    proof {
        assert(ps.take(i as int) =~= ps);
    }
    if n > 0 || graph.base.is_some() {
        push_lit(out, "\n");
    }
    proof {
        assert(out@ =~= o + turtle_head(opt_view(graph.base), ps));
    }
}

/// Writes a graph as Turtle: base and prefix declarations, then the
/// triples in normal form, one statement per line.
pub fn serialize_turtle(graph: &LodGraph) -> (r: String)
    ensures
        exists|s: Seq<STriple>| #[trigger] is_sorted(s) && s.to_multiset()
            == triples_view(graph.spec_all_triples()).to_multiset() && r@ == turtle_head(
            opt_view(graph.base),
            graph.prefixes.pairs(),
        ) + lines_text(normal_form(s)),
{
    let mut out: Vec<char> = Vec::new();
    push_head(&mut out, graph);
    let ts = normalized_triples(graph);
    push_lines(&mut out, &ts);
    string_of(&out)
}

} // verus!

verus! {

// ---------------------------------------------------------------------------
// JSON-LD
// ---------------------------------------------------------------------------

/// The `@id` a node is written with: its IRI, its label or a literal's value.
pub open spec fn node_id_text(n: SNode) -> Seq<char> {
    match n {
        SNode::Iri(i) => i,
        SNode::Blank(b) => b,
        SNode::Literal { value, .. } => value,
    }
}

pub open spec fn is_str(v: JsonValue, s: Seq<char>) -> bool {
    v matches JsonValue::Str(x) && x@ == s
}

/// Whether `v` is the JSON object written for a property value.
pub open spec fn object_json_is(v: JsonValue, n: SNode) -> bool {
    match v {
        JsonValue::Object(es) => match n {
            SNode::Iri(i) => es@.len() == 1 && es@[0].0@ == "@id"@ && is_str(es@[0].1, i),
            SNode::Blank(b) => es@.len() == 1 && es@[0].0@ == "@id"@ && is_str(es@[0].1, b),
            SNode::Literal { value, datatype, lang } => {
                let k = if datatype is Some {
                    2int
                } else {
                    1int
                };
                &&& es@.len() == k + if lang is Some {
                    1int
                } else {
                    0int
                }
                &&& es@[0].0@ == "@value"@ && is_str(es@[0].1, value)
                &&& datatype matches Some(dt) ==> es@[1].0@ == "@type"@ && is_str(es@[1].1, dt)
                &&& lang matches Some(l) ==> es@[k].0@ == "@language"@ && is_str(es@[k].1, l)
            },
        },
        _ => false,
    }
}

/// Whether `v` is the node object written for a triple.
pub open spec fn node_json_is(v: JsonValue, t: STriple) -> bool {
    v matches JsonValue::Object(es) && es@.len() == 2 && es@[0].0@ == "@id"@ && is_str(es@[0].1, node_id_text(t.subject))
        && es@[1].0@ == t.predicate && object_json_is(es@[1].1, t.object)
}

/// Whether `v` is the JSON-LD document written for prefixes and triples:
/// `{"@context": {prefix: iri, ...}, "@graph": [node, ...]}`.
pub open spec fn jsonld_doc_is(v: JsonValue, ps: Seq<(Seq<char>, Seq<char>)>, ts: Seq<STriple>) -> bool {
    &&& v matches JsonValue::Object(es) && es@.len() == 2
    &&& v->Object_0@[0].0@ == "@context"@
    &&& v->Object_0@[0].1 matches JsonValue::Object(cs) && cs@.len() == ps.len() && forall|i: int|
        0 <= i < ps.len() ==> #[trigger] cs@[i].0@ == ps[i].0 && is_str(cs@[i].1, ps[i].1)
    &&& v->Object_0@[1].0@ == "@graph"@
    &&& v->Object_0@[1].1 matches JsonValue::Array(items) && items@.len() == ts.len() && forall|i: int|
        0 <= i < ts.len() ==> node_json_is(#[trigger] items@[i], ts[i])
}

/// The JSON object written for a property value, as plain values.
pub open spec fn object_view(n: SNode) -> JsonView {
    match n {
        SNode::Iri(i) => JsonView::Object(seq![("@id"@, JsonView::Str(i))]),
        SNode::Blank(b) => JsonView::Object(seq![("@id"@, JsonView::Str(b))]),
        SNode::Literal { value, datatype, lang } => JsonView::Object(
            seq![("@value"@, JsonView::Str(value))] + match datatype {
                Some(dt) => seq![("@type"@, JsonView::Str(dt))],
                None => seq![],
            } + match lang {
                Some(l) => seq![("@language"@, JsonView::Str(l))],
                None => seq![],
            },
        ),
    }
}

/// The node object written for a triple, as plain values.
pub open spec fn node_view(t: STriple) -> JsonView {
    JsonView::Object(seq![("@id"@, JsonView::Str(node_id_text(t.subject))), (t.predicate, object_view(t.object))])
}

/// The JSON-LD document written for prefixes and triples, as plain values:
/// `{"@context": {prefix: iri, ...}, "@graph": [node, ...]}`.
pub open spec fn jsonld_doc_view(ps: Seq<(Seq<char>, Seq<char>)>, ts: Seq<STriple>) -> JsonView {
    JsonView::Object(
        seq![
            ("@context"@, JsonView::Object(ps.map_values(|p: (Seq<char>, Seq<char>)| (p.0, JsonView::Str(p.1))))),
            ("@graph"@, JsonView::Array(ts.map_values(|t: STriple| node_view(t)))),
        ],
    )
}

proof fn lemma_object_view(v: JsonValue, n: SNode)
    requires
        object_json_is(v, n),
    ensures
        jview(v) == object_view(n),
{
    let es = v->Object_0@;
    lemma_jentries(es, es.len());
    let got = jentries(es, es.len());
    match n {
        SNode::Literal { value, datatype, lang } => {
            let want = seq![("@value"@, JsonView::Str(value))] + match datatype {
                Some(dt) => seq![("@type"@, JsonView::Str(dt))],
                None => seq![],
            } + match lang {
                Some(l) => seq![("@language"@, JsonView::Str(l))],
                None => seq![],
            };
            assert(got =~= want);
        },
        _ => {
            assert(got =~= seq![("@id"@, jview(es[0].1))]);
        },
    }
}

proof fn lemma_node_view(v: JsonValue, t: STriple)
    requires
        node_json_is(v, t),
    ensures
        jview(v) == node_view(t),
{
    let es = v->Object_0@;
    lemma_jentries(es, es.len());
    lemma_object_view(es[1].1, t.object);
    assert(jentries(es, es.len()) =~= seq![
        ("@id"@, JsonView::Str(node_id_text(t.subject))),
        (t.predicate, object_view(t.object)),
    ]);
}

/// The document written is the JSON-LD document of the prefixes and
/// triples, whatever strings hold its text.
proof fn lemma_doc_view(v: JsonValue, ps: Seq<(Seq<char>, Seq<char>)>, ts: Seq<STriple>)
    requires
        jsonld_doc_is(v, ps, ts),
    ensures
        jview(v) == jsonld_doc_view(ps, ts),
{
    let es = v->Object_0@;
    lemma_jentries(es, es.len());
    let cs = es[0].1->Object_0@;
    lemma_jentries(cs, cs.len());
    let items = es[1].1->Array_0@;
    lemma_jviews(items, items.len());
    assert(jentries(cs, cs.len()) =~= ps.map_values(|p: (Seq<char>, Seq<char>)| (p.0, JsonView::Str(p.1))));
    assert forall|i: int| 0 <= i < ts.len() implies #[trigger] jviews(items, items.len())[i] == node_view(ts[i]) by {
        lemma_node_view(items[i], ts[i]);
    }
    assert(jviews(items, items.len()) =~= ts.map_values(|t: STriple| node_view(t)));
    assert(jentries(es, es.len()) =~= seq![
        ("@context"@, JsonView::Object(ps.map_values(|p: (Seq<char>, Seq<char>)| (p.0, JsonView::Str(p.1))))),
        ("@graph"@, JsonView::Array(ts.map_values(|t: STriple| node_view(t)))),
    ]);
}

fn text(s: &str) -> (r: String)
    ensures
        r@ == s@,
{
    string_of(&chars_of(s))
}

/// The `@id` a node is written with.
pub fn node_id(n: &Node) -> (r: String)
    ensures
        r@ == node_id_text(n@),
{
    match n {
        Node::Iri(i) => i.clone(),
        Node::Blank(b) => b.clone(),
        Node::Literal { value, .. } => value.clone(),
    }
}

/// The JSON object written for a property value.
pub fn object_json(n: &Node) -> (r: JsonValue)
    ensures
        object_json_is(r, n@),
{
    match n {
        Node::Iri(i) => JsonValue::Object(vec![(text("@id"), JsonValue::Str(i.clone()))]),
        Node::Blank(b) => JsonValue::Object(vec![(text("@id"), JsonValue::Str(b.clone()))]),
        Node::Literal { value, datatype, lang } => {
            let mut es: Vec<(String, JsonValue)> = Vec::new();
            es.push((text("@value"), JsonValue::Str(value.clone())));
            match datatype {
                Some(dt) => es.push((text("@type"), JsonValue::Str(dt.clone()))),
                None => {},
            }
            match lang {
                Some(l) => es.push((text("@language"), JsonValue::Str(l.clone()))),
                None => {},
            }
            JsonValue::Object(es)
        },
    }
}

/// The JSON-LD document for a graph's prefixes and triples.
pub fn jsonld_document(prefixes: &SortedMap<String>, ts: &Vec<Triple>) -> (r: JsonValue)
    ensures
        jsonld_doc_is(r, prefixes.pairs(), triples_view(ts@)),
{
    let ghost ps = prefixes.pairs();
    let mut cs: Vec<(String, JsonValue)> = Vec::new();
    let n = prefixes.len();
    let mut i: usize = 0;
    while i < n
        invariant
            i <= n,
            n == ps.len(),
            ps == prefixes.pairs(),
            cs@.len() == i,
            forall|k: int| 0 <= k < i ==> #[trigger] cs@[k].0@ == ps[k].0 && is_str(cs@[k].1, ps[k].1),
        decreases n - i,
    {
        let e = prefixes.entry_at(i);
        proof {
            assert(ps[i as int] == (e.0@, e.1@));
        }
        cs.push((e.0.clone(), JsonValue::Str(e.1.clone())));
        i = i + 1;
    }
    let ghost tv = triples_view(ts@);
    let mut items: Vec<JsonValue> = Vec::new();
    let mut j: usize = 0;
    while j < ts.len()
        invariant
            j <= ts@.len(),
            tv == triples_view(ts@),
            items@.len() == j,
            forall|k: int| 0 <= k < j ==> node_json_is(#[trigger] items@[k], tv[k]),
        decreases ts@.len() - j,
    {
        let t = &ts[j];
        let node = JsonValue::Object(vec![(text("@id"), JsonValue::Str(node_id(&t.subject))), (t.predicate.clone(), object_json(&t.object))]);
        proof {
            assert(tv[j as int] == t@);
        }
        items.push(node);
        j = j + 1;
    }
    JsonValue::Object(vec![(text("@context"), JsonValue::Object(cs)), (text("@graph"), JsonValue::Array(items))])
}

/// Writes a graph as JSON-LD: its prefixes as the `@context`, each triple
/// of its normal form as one node object of the `@graph`.
pub fn serialize_jsonld(graph: &LodGraph) -> (r: Result<String, LodError>)
    ensures
        exists|s: Seq<STriple>| #[trigger] is_sorted(s) && s.to_multiset() == triples_view(graph.spec_all_triples()).to_multiset()
            && match json_pretty_text(jsonld_doc_view(graph.prefixes.pairs(), normal_form(s))) {
                Ok(t) => r is Ok && r.unwrap()@ == t,
                Err(m) => r is Err && r->Err_0 is Json && error_detail(r->Err_0) == m,
            },
{
    let ts = normalized_triples(graph);
    let v = jsonld_document(&graph.prefixes, &ts);
    proof {
        lemma_doc_view(v, graph.prefixes.pairs(), triples_view(ts@));
    }
    match json_pretty(&v) {
        Ok(t) => Ok(t),
        Err(e) => Err(LodError::Json(e)),
    }
}

} // verus!
