//! JSON documents as the library sees them, read and written with
//! `serde_json`, and the JSON-LD subset of the workbench built on them.
use vstd::prelude::*;
use crate::model::{Node, SNode, STriple, Triple, SortedMap, LodGraph, triples_view, opt_view, pair_view, lemma_pair_view_inserted};
use crate::text::{chars_of, string_of};
use crate::error::{LodError, error_detail};
use crate::reading::stored_all;

verus! {

#[verifier::external_type_specification]
#[verifier::external_body]
pub struct ExJsonValue(serde_json::Value);

/// A JSON value. Numbers are kept as their JSON text; an object's members
/// are kept in the order `serde_json` gives them.
#[derive(Debug)]
pub enum JsonValue {
    Null,
    Bool(bool),
    Number(String),
    Str(String),
    Array(Vec<JsonValue>),
    Object(Vec<(String, JsonValue)>),
}

/// A JSON value as plain values: strings as their characters.
pub enum JsonView {
    Null,
    Bool(bool),
    Number(Seq<char>),
    Str(Seq<char>),
    Array(Seq<JsonView>),
    Object(Seq<(Seq<char>, JsonView)>),
}

/// The plain view of a JSON value.
pub open spec fn jview(v: JsonValue) -> JsonView
    decreases v, 0nat,
{
    match v {
        JsonValue::Null => JsonView::Null,
        JsonValue::Bool(b) => JsonView::Bool(b),
        JsonValue::Number(n) => JsonView::Number(n@),
        JsonValue::Str(x) => JsonView::Str(x@),
        JsonValue::Array(a) => {
            proof {
                assert(decreases_to!(v => a));
                assert(decreases_to!(a => a@));
            }
            JsonView::Array(jviews(a@, a@.len()))
        },
        JsonValue::Object(es) => {
            proof {
                assert(decreases_to!(v => es));
                assert(decreases_to!(es => es@));
            }
            JsonView::Object(jentries(es@, es@.len()))
        },
    }
}

/// The views of the first `n` values.
pub open spec fn jviews(s: Seq<JsonValue>, n: nat) -> Seq<JsonView>
    decreases s, n,
{
    if n == 0 || n > s.len() {
        seq![]
    } else {
        proof {
            assert(decreases_to!(s => s[n - 1]));
        }
        jviews(s, (n - 1) as nat).push(jview(s[n - 1]))
    }
}

/// The views of the first `n` members.
pub open spec fn jentries(s: Seq<(String, JsonValue)>, n: nat) -> Seq<(Seq<char>, JsonView)>
    decreases s, n,
{
    if n == 0 || n > s.len() {
        seq![]
    } else {
        proof {
            assert(decreases_to!(s => s[n - 1]));
            assert(decreases_to!(s[n - 1] => s[n - 1].1));
        }
        jentries(s, (n - 1) as nat).push((s[n - 1].0@, jview(s[n - 1].1)))
    }
}

pub proof fn lemma_jviews(s: Seq<JsonValue>, n: nat)
    requires
        n <= s.len(),
    ensures
        jviews(s, n).len() == n,
        forall|i: int| 0 <= i < n ==> #[trigger] jviews(s, n)[i] == jview(s[i]),
    decreases n,
{
    if n > 0 {
        lemma_jviews(s, (n - 1) as nat);
    }
}

pub proof fn lemma_jentries(s: Seq<(String, JsonValue)>, n: nat)
    requires
        n <= s.len(),
    ensures
        jentries(s, n).len() == n,
        forall|i: int| 0 <= i < n ==> #[trigger] jentries(s, n)[i] == (s[i].0@, jview(s[i].1)),
    decreases n,
{
    if n > 0 {
        lemma_jentries(s, (n - 1) as nat);
    }
}

/// What `serde_json::from_str` reads from a document, or its error message.
pub uninterp spec fn json_document(content: Seq<char>) -> Result<JsonValue, Seq<char>>;

/// The text `serde_json::to_string_pretty` writes for a value (given by its
/// view), or its error message.
pub uninterp spec fn json_pretty_text(v: JsonView) -> Result<Seq<char>, Seq<char>>;

/// Converts a `serde_json::Value` into the library's value, member for
/// member; numbers become their `Display` text. Nothing is claimed of it.
#[verifier::external_body]
fn from_serde(v: &serde_json::Value) -> JsonValue {
    match v {
        serde_json::Value::Null => JsonValue::Null,
        serde_json::Value::Bool(b) => JsonValue::Bool(*b),
        serde_json::Value::Number(n) => JsonValue::Number(n.to_string()),
        serde_json::Value::String(s) => JsonValue::Str(s.clone()),
        serde_json::Value::Array(a) => JsonValue::Array(a.iter().map(from_serde).collect()),
        serde_json::Value::Object(m) => JsonValue::Object(m.iter().map(|(k, x)| (k.clone(), from_serde(x))).collect()),
    }
}

/// Converts the library's value into a `serde_json::Value`, member for
/// member; a number's text is read back with `serde_json::from_str`. Nothing
/// is claimed of it.
#[verifier::external_body]
fn to_serde(v: &JsonValue) -> serde_json::Value {
    match v {
        JsonValue::Null => serde_json::Value::Null,
        JsonValue::Bool(b) => serde_json::Value::Bool(*b),
        JsonValue::Number(n) => serde_json::from_str(n).unwrap_or(serde_json::Value::Null),
        JsonValue::Str(s) => serde_json::Value::String(s.clone()),
        JsonValue::Array(a) => serde_json::Value::Array(a.iter().map(to_serde).collect()),
        JsonValue::Object(m) => serde_json::Value::Object(m.iter().map(|(k, x)| (k.clone(), to_serde(x))).collect()),
    }
}

/// Runs `serde_json::from_str` on `content` and converts the value member
/// for member. Claimed: the result is `json_document` of the content.
#[verifier::external_body]
pub(crate) fn json_parse(content: &str) -> (r: Result<JsonValue, String>)
    ensures
        match r {
            Ok(v) => json_document(content@) == Ok::<JsonValue, Seq<char>>(v),
            Err(e) => json_document(content@) == Err::<JsonValue, Seq<char>>(e@),
        },
{
    serde_json::from_str::<serde_json::Value>(content).map(|v| from_serde(&v)).map_err(|e| e.to_string())
}

/// Converts the value member for member (later members replacing earlier
/// ones of the same name) and runs `serde_json::to_string_pretty` on it.
/// Claimed: the result is `json_pretty_text` of the value's view.
#[verifier::external_body]
pub(crate) fn json_pretty(v: &JsonValue) -> (r: Result<String, String>)
    ensures
        match r {
            Ok(s) => json_pretty_text(jview(*v)) == Ok::<Seq<char>, Seq<char>>(s@),
            Err(e) => json_pretty_text(jview(*v)) == Err::<Seq<char>, Seq<char>>(e@),
        },
{
    serde_json::to_string_pretty(&to_serde(v)).map_err(|e| e.to_string())
}

/// The first member of an object with the given name.
pub open spec fn member_in(es: Seq<(String, JsonValue)>, k: Seq<char>) -> Option<JsonValue>
    decreases es.len(),
{
    if es.len() == 0 {
        None
    } else if es[0].0@ == k {
        Some(es[0].1)
    } else {
        member_in(es.drop_first(), k)
    }
}

/// `value.get(k)`: the member named `k` of an object; nothing for other values.
pub open spec fn jget(v: JsonValue, k: Seq<char>) -> Option<JsonValue> {
    match v {
        JsonValue::Object(es) => member_in(es@, k),
        _ => None,
    }
}

/// `as_str` of an optional value.
pub open spec fn jstr(v: Option<JsonValue>) -> Option<Seq<char>> {
    match v {
        Some(JsonValue::Str(s)) => Some(s@),
        _ => None,
    }
}

fn member<'a>(es: &'a Vec<(String, JsonValue)>, k: &str) -> (r: Option<&'a JsonValue>)
    ensures
        match member_in(es@, k@) {
            Some(x) => r == Some(&x),
            None => r is None,
        },
{
    let kc = chars_of(k);
    let mut i: usize = 0;
    proof {
        assert(es@.skip(0) =~= es@);
    }
    while i < es.len()
        invariant
            i <= es@.len(),
            kc@ == k@,
            member_in(es@, k@) == member_in(es@.skip(i as int), k@),
        decreases es@.len() - i,
    {
        proof {
            assert(es@.skip(i as int).drop_first() =~= es@.skip(i + 1));
            assert(es@.skip(i as int)[0] == es@[i as int]);
        }
        let ec = chars_of(es[i].0.as_str());
        if crate::text::chars_eq(&ec, &kc) {
            return Some(&es[i].1);
        }
        i = i + 1;
    }
    None
}

/// `value.get(k)`.
pub fn json_get<'a>(v: &'a JsonValue, k: &str) -> (r: Option<&'a JsonValue>)
    ensures
        match jget(*v, k@) {
            Some(x) => r == Some(&x),
            None => r is None,
        },
{
    match v {
        JsonValue::Object(es) => member(es, k),
        _ => None,
    }
}

/// `as_str` of an optional value, copied.
pub fn json_str(v: Option<&JsonValue>) -> (r: Option<String>)
    ensures
        opt_view(r) == jstr(match v {
            Some(x) => Some(*x),
            None => None,
        }),
{
    match v {
        Some(JsonValue::Str(s)) => Some(s.clone()),
        _ => None,
    }
}

} // verus!

verus! {

// ---------------------------------------------------------------------------
// The JSON-LD subset
// ---------------------------------------------------------------------------

/// The string-valued members of an object, in order.
pub open spec fn string_members(es: Seq<(String, JsonValue)>) -> Seq<(Seq<char>, Seq<char>)>
    decreases es.len(),
{
    if es.len() == 0 {
        seq![]
    } else {
        let rest = string_members(es.drop_last());
        match es.last().1 {
            JsonValue::Str(s) => rest.push((es.last().0@, s@)),
            _ => rest,
        }
    }
}

/// The prefixes that a document's `@context` object declares.
pub open spec fn context_prefixes(v: JsonValue) -> Seq<(Seq<char>, Seq<char>)> {
    match jget(v, "@context"@) {
        Some(JsonValue::Object(es)) => stored_all(string_members(es@)),
        _ => seq![],
    }
}

/// The node a property value stands for: `{"@id": ..}`, `{"@value": ..}`
/// with optional `@type` and `@language`, or a plain string.
pub open spec fn property_object(val: JsonValue) -> Option<SNode> {
    if jstr(jget(val, "@id"@)) is Some {
        Some(SNode::Iri(jstr(jget(val, "@id"@)).unwrap()))
    } else if jstr(jget(val, "@value"@)) is Some {
        Some(
            SNode::Literal {
                value: jstr(jget(val, "@value"@)).unwrap(),
                datatype: jstr(jget(val, "@type"@)),
                lang: jstr(jget(val, "@language"@)),
            },
        )
    } else {
        match val {
            JsonValue::Str(s) => Some(SNode::Literal { value: s@, datatype: None, lang: None }),
            _ => None,
        }
    }
}

/// The triples of one node object's members, `@id` aside, in member order.
pub open spec fn member_triples(subject: Seq<char>, es: Seq<(String, JsonValue)>) -> Seq<STriple>
    decreases es.len(),
{
    if es.len() == 0 {
        seq![]
    } else {
        let rest = member_triples(subject, es.drop_last());
        let (pred, val) = es.last();
        if pred@ == "@id"@ {
            rest
        } else {
            match property_object(val) {
                Some(o) => rest.push(STriple { subject: SNode::Iri(subject), predicate: pred@, object: o }),
                None => rest,
            }
        }
    }
}

/// The triples of the `@graph` items, or the first item's complaint.
pub open spec fn items_triples(items: Seq<JsonValue>) -> Result<Seq<STriple>, Seq<char>>
    decreases items.len(),
{
    if items.len() == 0 {
        Ok(seq![])
    } else {
        match items_triples(items.drop_last()) {
            Err(m) => Err(m),
            Ok(ts) => match items.last() {
                JsonValue::Object(es) => match jstr(member_in(es@, "@id"@)) {
                    Some(sid) => Ok(ts + member_triples(sid, es@)),
                    None => Err("@graph item missing @id"@),
                },
                _ => Err("@graph item must be object"@),
            },
        }
    }
}

/// What a JSON-LD document in the workbench's subset stands for: its prefixes
/// and triples, or why it is not in the subset.
pub open spec fn jsonld_graph(v: JsonValue) -> Result<(Seq<(Seq<char>, Seq<char>)>, Seq<STriple>), Seq<char>> {
    match jget(v, "@graph"@) {
        Some(JsonValue::Array(items)) => match items_triples(items@) {
            Ok(ts) => Ok((context_prefixes(v), ts)),
            Err(m) => Err(m),
        },
        _ => Err("JSON-LD subset expects @graph array"@),
    }
}

/// Whether `r` is what reading a JSON-LD document gives.
pub open spec fn jsonld_outcome(content: Seq<char>, r: Result<LodGraph, LodError>) -> bool {
    match json_document(content) {
        Err(m) => r is Err && r->Err_0 is Json && error_detail(r->Err_0) == m,
        Ok(v) => match jsonld_graph(v) {
            Err(m) => r is Err && r->Err_0 is RdfParsing && error_detail(r->Err_0) == m,
            Ok((p, ts)) => r is Ok && r.unwrap().prefixes.pairs() == p && triples_view(r.unwrap().triples@) == ts
                && r.unwrap().base is None && r.unwrap().named_graphs.spec_entries().len() == 0,
        },
    }
}

fn property_node(val: &JsonValue) -> (r: Option<Node>)
    ensures
        match property_object(*val) {
            Some(n) => r is Some && r.unwrap()@ == n,
            None => r is None,
        },
{
    match json_str(json_get(val, "@id")) {
        Some(id) => {
            return Some(Node::Iri(id));
        },
        None => {},
    }
    match json_str(json_get(val, "@value")) {
        Some(value) => {
            let datatype = json_str(json_get(val, "@type"));
            let lang = json_str(json_get(val, "@language"));
            return Some(Node::Literal { value, datatype, lang });
        },
        None => {},
    }
    match val {
        JsonValue::Str(s) => Some(Node::Literal { value: s.clone(), datatype: None, lang: None }),
        _ => None,
    }
}

/// The graph of the workbench's JSON-LD subset that a JSON value holds.
pub fn jsonld_value_graph(v: &JsonValue) -> (r: Result<LodGraph, LodError>)
    ensures
        match jsonld_graph(*v) {
            Err(m) => r is Err && r->Err_0 is RdfParsing && error_detail(r->Err_0) == m,
            Ok((p, ts)) => r is Ok && r.unwrap().prefixes.pairs() == p && triples_view(r.unwrap().triples@) == ts
                && r.unwrap().base is None && r.unwrap().named_graphs.spec_entries().len() == 0,
        },
{
    let mut graph = LodGraph::new();
    match json_get(v, "@context") {
        Some(JsonValue::Object(es)) => {
            let ghost l = string_members(es@);
            let mut i: usize = 0;
            proof {
                assert(graph.prefixes.pairs() =~= stored_all(string_members(es@.take(0))));
            }
            while i < es.len()
                invariant
                    i <= es@.len(),
                    graph.prefixes.pairs() == stored_all(string_members(es@.take(i as int))),
                    graph.base is None,
                    graph.triples@.len() == 0,
                    graph.named_graphs.spec_entries().len() == 0,
                decreases es@.len() - i,
            {
                proof {
                    assert(es@.take(i + 1).drop_last() =~= es@.take(i as int));
                    assert(es@.take(i + 1).last() == es@[i as int]);
                }
                match &es[i].1 {
                    JsonValue::Str(s) => {
                        let ghost e0 = graph.prefixes.spec_entries();
                        let k = es[i].0.clone();
                        let val = s.clone();
                        graph.prefixes.insert(k, val);
                        proof {
                            lemma_pair_view_inserted(e0, k, val);
                            let l0 = string_members(es@.take(i as int));
                            assert(string_members(es@.take(i + 1)) == l0.push((k@, val@)));
                            assert(l0.push((k@, val@)).drop_last() =~= l0);
                        }
                    },
                    _ => {},
                }
                i = i + 1;
            }
            proof {
                assert(es@.take(i as int) =~= es@);
            }
        },
        _ => {
            proof {
                assert(graph.prefixes.pairs() =~= context_prefixes(*v));
            }
        },
    }
    let items = match json_get(v, "@graph") {
        Some(JsonValue::Array(a)) => a,
        _ => {
            return Err(LodError::RdfParsing(string_of(&chars_of("JSON-LD subset expects @graph array"))));
        },
    };
    let mut i: usize = 0;
    proof {
        assert(triples_view(graph.triples@) =~= seq![]);
        assert(items@.take(0) =~= seq![]);
    }
    while i < items.len()
        invariant
            i <= items@.len(),
            items_triples(items@.take(i as int)) == Ok::<Seq<STriple>, Seq<char>>(triples_view(graph.triples@)),
            jget(*v, "@graph"@) == Some(JsonValue::Array(*items)),
            graph.prefixes.pairs() == context_prefixes(*v),
            graph.base is None,
            graph.named_graphs.spec_entries().len() == 0,
        decreases items@.len() - i,
    {
        proof {
            assert(items@.take(i + 1).drop_last() =~= items@.take(i as int));
            assert(items@.take(i + 1).last() == items@[i as int]);
        }
        let es = match &items[i] {
            JsonValue::Object(es) => es,
            _ => {
                proof {
                    assert(items_triples(items@.take(i + 1)) == Err::<Seq<STriple>, Seq<char>>("@graph item must be object"@));
                    lemma_items_error(items@, i as int);
                }
                return Err(LodError::RdfParsing(string_of(&chars_of("@graph item must be object"))));
            },
        };
        let sid = match json_str(member(es, "@id")) {
            Some(s) => s,
            None => {
                proof {
                    assert(items_triples(items@.take(i + 1)) == Err::<Seq<STriple>, Seq<char>>("@graph item missing @id"@));
                    lemma_items_error(items@, i as int);
                }
                return Err(LodError::RdfParsing(string_of(&chars_of("@graph item missing @id"))));
            },
        };
        let ghost t0 = triples_view(graph.triples@);
        let mut j: usize = 0;
        proof {
            assert(t0 + member_triples(sid@, es@.take(0)) =~= t0);
        }
        while j < es.len()
            invariant
                j <= es@.len(),
                triples_view(graph.triples@) == t0 + member_triples(sid@, es@.take(j as int)),
                graph.prefixes.pairs() == context_prefixes(*v),
                graph.base is None,
                graph.named_graphs.spec_entries().len() == 0,
            decreases es@.len() - j,
        {
            proof {
                assert(es@.take(j + 1).drop_last() =~= es@.take(j as int));
                assert(es@.take(j + 1).last() == es@[j as int]);
                reveal_strlit("@id");
            }
            let pc = chars_of(es[j].0.as_str());
            if !crate::text::is_literal(&pc, "@id") {
                match property_node(&es[j].1) {
                    Some(o) => {
                        let ghost before = graph.triples@;
                        let t = Triple { subject: Node::Iri(sid.clone()), predicate: es[j].0.clone(), object: o };
                        graph.triples.push(t);
                        proof {
                            assert(triples_view(graph.triples@) =~= triples_view(before).push(t@));
                            assert(t0 + member_triples(sid@, es@.take(j + 1)) =~= t0 + member_triples(sid@, es@.take(j as int)).push(t@));
                        }
                    },
                    None => {},
                }
            }
            j = j + 1;
        }
        proof {
            assert(es@.take(j as int) =~= es@);
        }
        i = i + 1;
    }
    proof {
        assert(items@.take(i as int) =~= items@);
    }
    Ok(graph)
}

/// Reads a JSON-LD document of the workbench's subset: string members of
/// `@context` are prefixes, each `@graph` item is a node object whose other
/// members are its properties.
pub fn parse_jsonld_subset(content: &str) -> (r: Result<LodGraph, LodError>)
    ensures
        jsonld_outcome(content@, r),
{
    match json_parse(content) {
        Ok(v) => jsonld_value_graph(&v),
        Err(e) => Err(LodError::Json(e)),
    }
}

/// Once an item fails, the whole list fails.
proof fn lemma_items_error(items: Seq<JsonValue>, i: int)
    requires
        0 <= i < items.len(),
        items_triples(items.take(i + 1)) is Err,
    ensures
        items_triples(items) is Err,
        items_triples(items) == items_triples(items.take(i + 1)),
    decreases items.len() - i,
{
    if i + 1 < items.len() {
        assert(items.take(i + 2).drop_last() =~= items.take(i + 1));
        lemma_items_error(items, i + 1);
    } else {
        assert(items.take(i + 1) =~= items);
    }
}

} // verus!
