//! The normal form in which graphs are written: triples sorted, blank
//! nodes renamed `_:b0`, `_:b1`, ... in order of appearance, repeated
//! triples dropped.
use vstd::prelude::*;
use crate::model::{Node, SNode, STriple, Triple, LodGraph, triples_view, vkey_index, pair_view};
use crate::text::{seq_order, compare_chars, chars_of, chars_of_string, chars_eq, string_of, lemma_seq_order_antisym, lemma_seq_order_eq};
use crate::terms::{decimal, push_decimal};

verus! {

/// Option order: nothing first.
pub open spec fn opt_order(a: Option<Seq<char>>, b: Option<Seq<char>>) -> int {
    match (a, b) {
        (None, None) => 0,
        (None, Some(_)) => -1,
        (Some(_), None) => 1,
        (Some(x), Some(y)) => seq_order(x, y),
    }
}

/// The first of three comparisons that is not a tie.
pub open spec fn lex3(a: int, b: int, c: int) -> int {
    if a != 0 {
        a
    } else if b != 0 {
        b
    } else {
        c
    }
}

/// IRIs first, then literals, then blank nodes.
pub open spec fn node_rank(n: SNode) -> int {
    match n {
        SNode::Iri(_) => 0,
        SNode::Literal { .. } => 1,
        SNode::Blank(_) => 2,
    }
}

/// The order of nodes: by kind, then by their strings field by field.
pub open spec fn node_order(a: SNode, b: SNode) -> int {
    if node_rank(a) < node_rank(b) {
        -1
    } else if node_rank(a) > node_rank(b) {
        1
    } else {
        match (a, b) {
            (SNode::Iri(x), SNode::Iri(y)) => seq_order(x, y),
            (SNode::Blank(x), SNode::Blank(y)) => seq_order(x, y),
            (
                SNode::Literal { value: v1, datatype: d1, lang: l1 },
                SNode::Literal { value: v2, datatype: d2, lang: l2 },
            ) => lex3(seq_order(v1, v2), opt_order(d1, d2), opt_order(l1, l2)),
            _ => 0,
        }
    }
}

/// The order of triples: by subject, predicate, then object.
pub open spec fn triple_order(a: STriple, b: STriple) -> int {
    lex3(node_order(a.subject, b.subject), seq_order(a.predicate, b.predicate), node_order(a.object, b.object))
}

pub open spec fn triple_le(a: STriple, b: STriple) -> bool {
    triple_order(a, b) <= 0
}

/// Each triple is at most the next.
pub open spec fn is_sorted(s: Seq<STriple>) -> bool {
    forall|i: int| 0 <= i < s.len() - 1 ==> triple_le(#[trigger] s[i], s[i + 1])
}

pub proof fn lemma_node_order_antisym(a: SNode, b: SNode)
    ensures
        node_order(a, b) == -node_order(b, a),
        node_order(a, b) == 0 ==> a == b,
{
    match (a, b) {
        (SNode::Iri(x), SNode::Iri(y)) => {
            lemma_seq_order_antisym(x, y);
            lemma_seq_order_eq(x, y);
        },
        (SNode::Blank(x), SNode::Blank(y)) => {
            lemma_seq_order_antisym(x, y);
            lemma_seq_order_eq(x, y);
        },
        (
            SNode::Literal { value: v1, datatype: d1, lang: l1 },
            SNode::Literal { value: v2, datatype: d2, lang: l2 },
        ) => {
            lemma_seq_order_antisym(v1, v2);
            lemma_seq_order_eq(v1, v2);
            match (d1, d2) {
                (Some(x), Some(y)) => {
                    lemma_seq_order_antisym(x, y);
                    lemma_seq_order_eq(x, y);
                },
                _ => {},
            }
            match (l1, l2) {
                (Some(x), Some(y)) => {
                    lemma_seq_order_antisym(x, y);
                    lemma_seq_order_eq(x, y);
                },
                _ => {},
            }
        },
        _ => {},
    }
}

pub proof fn lemma_triple_order_antisym(a: STriple, b: STriple)
    ensures
        triple_order(a, b) == -triple_order(b, a),
        triple_order(a, b) == 0 ==> a == b,
{
    lemma_node_order_antisym(a.subject, b.subject);
    lemma_node_order_antisym(a.object, b.object);
    lemma_seq_order_antisym(a.predicate, b.predicate);
    lemma_seq_order_eq(a.predicate, b.predicate);
}

fn compare_strings(a: &String, b: &String) -> (r: i8)
    ensures
        r as int == seq_order(a@, b@),
{
    compare_chars(&chars_of_string(a), &chars_of_string(b))
}

fn compare_opt(a: &Option<String>, b: &Option<String>) -> (r: i8)
    ensures
        r as int == opt_order(crate::model::opt_view(*a), crate::model::opt_view(*b)),
{
    match (a, b) {
        (None, None) => 0,
        (None, Some(_)) => -1,
        (Some(_), None) => 1,
        (Some(x), Some(y)) => compare_strings(x, y),
    }
}

fn rank(n: &Node) -> (r: u8)
    ensures
        r as int == node_rank(n@),
{
    match n {
        Node::Iri(_) => 0,
        Node::Literal { .. } => 1,
        Node::Blank(_) => 2,
    }
}

/// Three-way comparison of nodes.
pub fn compare_node(a: &Node, b: &Node) -> (r: i8)
    ensures
        r as int == node_order(a@, b@),
{
    let ra = rank(a);
    let rb = rank(b);
    if ra < rb {
        return -1;
    }
    if ra > rb {
        return 1;
    }
    match (a, b) {
        (Node::Iri(x), Node::Iri(y)) => compare_strings(x, y),
        (Node::Blank(x), Node::Blank(y)) => compare_strings(x, y),
        (Node::Literal { value: v1, datatype: d1, lang: l1 }, Node::Literal { value: v2, datatype: d2, lang: l2 }) => {
            let c = compare_strings(v1, v2);
            if c != 0 {
                return c;
            }
            let c = compare_opt(d1, d2);
            if c != 0 {
                return c;
            }
            compare_opt(l1, l2)
        },
        _ => 0,
    }
}

/// Three-way comparison of triples.
pub fn compare_triple(a: &Triple, b: &Triple) -> (r: i8)
    ensures
        r as int == triple_order(a@, b@),
{
    let c = compare_node(&a.subject, &b.subject);
    if c != 0 {
        return c;
    }
    let c = compare_strings(&a.predicate, &b.predicate);
    if c != 0 {
        return c;
    }
    compare_node(&a.object, &b.object)
}

/// The triples of `v` in order: insertion of each after those not above it.
pub fn sort_triples(v: &Vec<Triple>) -> (r: Vec<Triple>)
    ensures
        is_sorted(triples_view(r@)),
        triples_view(r@).to_multiset() == triples_view(v@).to_multiset(),
{
    broadcast use vstd::seq_lib::group_to_multiset_ensures;
    let mut r: Vec<Triple> = Vec::new();
    let mut i: usize = 0;
    proof {
        assert(triples_view(r@) =~= triples_view(v@).take(0));
    }
    while i < v.len()
        invariant
            i <= v@.len(),
            is_sorted(triples_view(r@)),
            triples_view(r@).to_multiset() == triples_view(v@).take(i as int).to_multiset(),
        decreases v@.len() - i,
    {
        let t = v[i].clone();
        let mut p: usize = 0;
        while p < r.len() && compare_triple(&t, &r[p]) >= 0
            invariant
                p <= r@.len(),
                t@ == v@[i as int]@,
                forall|k: int| 0 <= k < p ==> triple_order(t@, #[trigger] r@[k]@) >= 0,
            decreases r@.len() - p,
        {
            p = p + 1;
        }
        let ghost old_r = r@;
        let ghost ov = triples_view(old_r);
        r.insert(p, t.clone());
        proof {
            let nv = triples_view(r@);
            assert(nv =~= ov.insert(p as int, t@));
            assert forall|k: int| 0 <= k < nv.len() - 1 implies triple_le(#[trigger] nv[k], nv[k + 1]) by {
                if k + 1 < p {
                    assert(nv[k] == ov[k] && nv[k + 1] == ov[k + 1]);
                } else if k + 1 == p {
                    assert(nv[k] == ov[k]);
                    assert(triple_order(t@, old_r[k]@) >= 0);
                    lemma_triple_order_antisym(t@, ov[k]);
                } else if k == p {
                    assert(nv[k + 1] == ov[p as int]);
                    assert(triple_order(t@, ov[p as int]) < 0);
                } else {
                    assert(nv[k] == ov[k - 1] && nv[k + 1] == ov[k]);
                }
            }
            assert(triples_view(v@).take(i + 1) =~= triples_view(v@).take(i as int).push(t@));
            vstd::seq_lib::to_multiset_insert(ov, p as int, t@);
            vstd::seq_lib::to_multiset_build(triples_view(v@).take(i as int), t@);
        }
        i = i + 1;
    }
    proof {
        assert(triples_view(v@).take(i as int) =~= triples_view(v@));
    }
    r
}

} // verus!

verus! {

/// The new label of a blank node under a renaming.
pub open spec fn renamed(map: Seq<(Seq<char>, Seq<char>)>, id: Seq<char>) -> Option<Seq<char>> {
    match vkey_index(map, id) {
        Some(i) => Some(map[i].1),
        None => None,
    }
}

/// The label given to the `n`th blank node met.
pub open spec fn normal_label(n: nat) -> Seq<char> {
    seq!['_', ':', 'b'] + decimal(n)
}

/// Renaming one node: a blank node keeps the label it was given, or gets the
/// next one; other nodes stay.
pub open spec fn rename_node(n: SNode, map: Seq<(Seq<char>, Seq<char>)>) -> (SNode, Seq<(Seq<char>, Seq<char>)>) {
    match n {
        SNode::Blank(id) => match renamed(map, id) {
            Some(x) => (SNode::Blank(x), map),
            None => (SNode::Blank(normal_label(map.len())), map.push((id, normal_label(map.len())))),
        },
        _ => (n, map),
    }
}

/// Renaming the blank nodes of triples, subject before object, in order.
pub open spec fn rename_all(ts: Seq<STriple>) -> (Seq<STriple>, Seq<(Seq<char>, Seq<char>)>)
    decreases ts.len(),
{
    if ts.len() == 0 {
        (seq![], seq![])
    } else {
        let (prev, m) = rename_all(ts.drop_last());
        let t = ts.last();
        let (s, m1) = rename_node(t.subject, m);
        let (o, m2) = rename_node(t.object, m1);
        (prev.push(STriple { subject: s, predicate: t.predicate, object: o }), m2)
    }
}

/// Without consecutive repeats, the first of each run kept.
pub open spec fn dedup<T>(s: Seq<T>) -> Seq<T>
    decreases s.len(),
{
    if s.len() == 0 {
        s
    } else if s.len() >= 2 && s.last() == s[s.len() - 2] {
        dedup(s.drop_last())
    } else {
        dedup(s.drop_last()).push(s.last())
    }
}

/// The normal form of sorted triples.
pub open spec fn normal_form(sorted: Seq<STriple>) -> Seq<STriple> {
    dedup(rename_all(sorted).0)
}

/// Whether two strings hold the same characters.
pub fn same_string(a: &String, b: &String) -> (r: bool)
    ensures
        r == (a@ == b@),
{
    chars_eq(&chars_of_string(a), &chars_of_string(b))
}

fn same_opt(a: &Option<String>, b: &Option<String>) -> (r: bool)
    ensures
        r == (crate::model::opt_view(*a) == crate::model::opt_view(*b)),
{
    match (a, b) {
        (None, None) => true,
        (Some(x), Some(y)) => same_string(x, y),
        _ => false,
    }
}

/// Whether two nodes are the same.
pub fn same_node(a: &Node, b: &Node) -> (r: bool)
    ensures
        r == (a@ == b@),
{
    match (a, b) {
        (Node::Iri(x), Node::Iri(y)) => same_string(x, y),
        (Node::Blank(x), Node::Blank(y)) => same_string(x, y),
        (Node::Literal { value: v1, datatype: d1, lang: l1 }, Node::Literal { value: v2, datatype: d2, lang: l2 }) => {
            same_string(v1, v2) && same_opt(d1, d2) && same_opt(l1, l2)
        },
        _ => false,
    }
}

/// Whether two triples are the same.
pub fn same_triple(a: &Triple, b: &Triple) -> (r: bool)
    ensures
        r == (a@ == b@),
{
    same_node(&a.subject, &b.subject) && same_string(&a.predicate, &b.predicate) && same_node(&a.object, &b.object)
}

pub proof fn lemma_vkey_index_first<W>(e: Seq<(Seq<char>, W)>, k: Seq<char>, i: int)
    requires
        0 <= i < e.len(),
        e[i].0 == k,
        forall|j: int| 0 <= j < i ==> #[trigger] e[j].0 != k,
    ensures
        vkey_index(e, k) == Some(i),
    decreases i,
{
    if i > 0 {
        assert forall|j: int| 0 <= j < i - 1 implies #[trigger] e.drop_first()[j].0 != k by {
            assert(e.drop_first()[j] == e[j + 1]);
        }
        lemma_vkey_index_first(e.drop_first(), k, i - 1);
    }
}

fn find_label(map: &Vec<(String, String)>, id: &String) -> (r: Option<usize>)
    ensures
        match r {
            Some(i) => vkey_index(pair_view(map@), id@) == Some(i as int) && i < map@.len(),
            None => vkey_index(pair_view(map@), id@) is None,
        },
{
    let ghost pv = pair_view(map@);
    let mut i: usize = 0;
    while i < map.len()
        invariant
            i <= map@.len(),
            pv == pair_view(map@),
            forall|j: int| 0 <= j < i ==> #[trigger] pv[j].0 != id@,
        decreases map@.len() - i,
    {
        proof {
            assert(pv[i as int] == (map@[i as int].0@, map@[i as int].1@));
        }
        if same_string(&map[i].0, id) {
            proof {
                lemma_vkey_index_first(pv, id@, i as int);
            }
            return Some(i);
        }
        i = i + 1;
    }
    proof {
        crate::reading::lemma_vkey_index_absent(pv, id@);
    }
    None
}

/// Renames a node, extending the renaming where a blank node is new.
pub fn rename_blank(n: &Node, map: &mut Vec<(String, String)>) -> (r: Node)
    ensures
        (r@, pair_view(final(map)@)) == rename_node(n@, pair_view(old(map)@)),
{
    let ghost m0 = pair_view(map@);
    match n {
        Node::Blank(id) => {
            match find_label(map, id) {
                Some(i) => {
                    proof {
                        assert(m0[i as int] == (map@[i as int].0@, map@[i as int].1@));
                        assert(renamed(m0, id@) == Some(map@[i as int].1@));
                    }
                    Node::Blank(map[i].1.clone())
                },
                None => {
                    let mut v = chars_of("_:b");
                    push_decimal(map.len(), &mut v);
                    let label = string_of(&v);
                    proof {
                        reveal_strlit("_:b");
                        assert(v@ =~= normal_label(map@.len() as nat));
                    }
                    map.push((id.clone(), label.clone()));
                    proof {
                        assert(pair_view(map@) =~= m0.push((id@, label@)));
                        assert(m0.len() == old(map)@.len());
                        assert(renamed(m0, id@) is None);
                        assert(rename_node(n@, m0) == (SNode::Blank(normal_label(m0.len())), m0.push((id@, normal_label(m0.len())))));
                    }
                    Node::Blank(label)
                },
            }
        },
        _ => n.clone(),
    }
}

/// Renames the blank nodes of triples in order of appearance.
pub fn rename_blanks(ts: &mut Vec<Triple>)
    ensures
        triples_view(final(ts)@) == rename_all(triples_view(old(ts)@)).0,
{
    let ghost tv = triples_view(ts@);
    let mut map: Vec<(String, String)> = Vec::new();
    let mut i: usize = 0;
    proof {
        assert(tv.take(0) =~= seq![]);
        assert(pair_view(map@) =~= seq![]);
    }
    while i < ts.len()
        invariant
            i <= ts@.len(),
            ts@.len() == tv.len(),
            tv == triples_view(old(ts)@),
            triples_view(ts@).take(i as int) == rename_all(tv.take(i as int)).0,
            pair_view(map@) == rename_all(tv.take(i as int)).1,
            forall|k: int| i <= k < ts@.len() ==> #[trigger] ts@[k]@ == tv[k],
        decreases ts@.len() - i,
    {
        let mut t = ts[i].clone();
        assert(t@ == tv[i as int]);
        let ghost t0 = t@;
        let s = rename_blank(&t.subject, &mut map);
        let o = rename_blank(&t.object, &mut map);
        let nt = Triple { subject: s, predicate: t.predicate.clone(), object: o };
        let ghost before = ts@;
        ts.set(i, nt);
        proof {
            assert(tv.take(i + 1).drop_last() =~= tv.take(i as int));
            assert(tv.take(i + 1).last() == t0);
            assert(triples_view(ts@).take(i + 1) =~= triples_view(before).take(i as int).push(nt@));
            assert forall|k: int| i + 1 <= k < ts@.len() implies #[trigger] ts@[k]@ == tv[k] by {
                assert(ts@[k] == before[k]);
            }
        }
        i = i + 1;
    }
    proof {
        assert(tv.take(i as int) =~= tv);
        assert(triples_view(ts@).take(i as int) =~= triples_view(ts@));
    }
}

/// Drops consecutive repeats, keeping the first of each run.
pub fn dedup_triples(ts: &Vec<Triple>) -> (r: Vec<Triple>)
    ensures
        triples_view(r@) == dedup(triples_view(ts@)),
{
    let ghost tv = triples_view(ts@);
    let mut r: Vec<Triple> = Vec::new();
    let mut i: usize = 0;
    proof {
        assert(tv.take(0) =~= seq![]);
        assert(triples_view(r@) =~= seq![]);
    }
    while i < ts.len()
        invariant
            i <= ts@.len(),
            tv == triples_view(ts@),
            triples_view(r@) == dedup(tv.take(i as int)),
        decreases ts@.len() - i,
    {
        proof {
            assert(tv.take(i + 1).drop_last() =~= tv.take(i as int));
            assert(tv.take(i + 1).last() == ts@[i as int]@);
            if i >= 1 {
                assert(tv.take(i + 1)[i - 1] == ts@[i - 1]@);
            }
        }
        if i == 0 || !same_triple(&ts[i], &ts[i - 1]) {
            let ghost before = r@;
            r.push(ts[i].clone());
            proof {
                assert(triples_view(r@) =~= triples_view(before).push(ts@[i as int]@));
            }
        }
        i = i + 1;
    }
    proof {
        assert(tv.take(i as int) =~= tv);
    }
    r
}

/// The triples of a graph in sorted order.
pub fn sorted_triples(graph: &LodGraph) -> (r: Vec<Triple>)
    ensures
        is_sorted(triples_view(r@)),
        triples_view(r@).to_multiset() == triples_view(graph.spec_all_triples()).to_multiset(),
{
    let all = graph.all_triples();
    sort_triples(&all)
}

/// The triples of a graph in normal form: sorted, blank nodes renamed in
/// order of appearance, repeats dropped.
pub fn normalized_triples(graph: &LodGraph) -> (r: Vec<Triple>)
    ensures
        exists|s: Seq<STriple>| #[trigger] normal_form(s) == triples_view(r@) && is_sorted(s) && s.to_multiset()
            == triples_view(graph.spec_all_triples()).to_multiset(),
{
    let mut ts = sorted_triples(graph);
    let ghost s = triples_view(ts@);
    rename_blanks(&mut ts);
    let r = dedup_triples(&ts);
    assert(normal_form(s) == triples_view(r@));
    r
}

} // verus!
