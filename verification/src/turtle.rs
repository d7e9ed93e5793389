//! The statement-level Turtle reader: predicate-object lists, objects,
//! blank node property lists and RDF collections.
//!
//! Each reader threads a counter for fresh blank node labels and appends the
//! triples it produces for nested structures to a list, nested triples first.
use vstd::prelude::*;
use crate::model::{Node, SNode, STriple, Triple, SortedMap, triples_view};
use crate::text::{is_ws, char_is_ws, trim, trim_chars, trim_start, trim_start_chars, string_of, chars_of};
use crate::lexer::{
    strip_comment, strip_inline_comment, without_terminators, trim_trailing_terminators,
    split_top, split_top_level, views, group_of, GroupError, extract_group_content, token_end,
    take_token, fragment_scan, take_object_fragment, scan0, lemma_split_parts_len, lemma_trim_len,
    lemma_trim_start_len, lemma_group_scan_bounds, lemma_fragment_scan_bounds, lemma_token_scan_bounds,
    lemma_comment_cut_len, lemma_strip_terms_prefix, copy_chars,
};
use crate::terms::{
    expand_term, expand, literal_term, parse_literal, has_prefix, has_prefix_lit, bump, blank_label,
    fresh_blank_id, opt_seq, err_text,
};

verus! {

/// What a reader produced: its result, the blank node counter afterwards and
/// the triples it emitted for nested structures (also when it failed).
pub struct Out<T> {
    pub res: Result<T, Seq<char>>,
    pub next: usize,
    pub emitted: Seq<STriple>,
}

pub open spec fn fail<T>(m: Seq<char>, n: usize) -> Out<T> {
    Out { res: Err(m), next: n, emitted: seq![] }
}

pub open spec fn group_message(e: GroupError) -> Seq<char> {
    match e {
        GroupError::NotGrouped => "expected grouped content"@,
        GroupError::Malformed => "malformed blank node property list"@,
        GroupError::Unterminated => "unterminated blank node property list"@,
    }
}

pub open spec fn has_ws(s: Seq<char>) -> bool {
    exists|k: int| 0 <= k < s.len() && is_ws(#[trigger] s[k])
}

pub open spec fn rdf_nil() -> Seq<char> {
    "http://www.w3.org/1999/02/22-rdf-syntax-ns#nil"@
}

pub open spec fn rdf_first() -> Seq<char> {
    "http://www.w3.org/1999/02/22-rdf-syntax-ns#first"@
}

pub open spec fn rdf_rest() -> Seq<char> {
    "http://www.w3.org/1999/02/22-rdf-syntax-ns#rest"@
}

/// The items of an RDF collection's content: object fragments, each with
/// its comment removed and trimmed. Nothing when a fragment cannot be found
/// or the text does not shrink.
pub open spec fn collection_items(cursor: Seq<char>) -> Option<Seq<Seq<char>>>
    decreases cursor.len(),
{
    if trim(cursor).len() == 0 {
        Some(seq![])
    } else {
        let t = trim_start(cursor);
        match fragment_scan(scan0(), t, 0, 0) {
            None => None,
            Some((a, b)) => {
                let item = trim(strip_comment(t.subrange(a, b)));
                let next = trim_start(t.skip(b));
                if next.len() < cursor.len() {
                    match collection_items(next) {
                        Some(rest) => Some(seq![item] + rest),
                        None => None,
                    }
                } else {
                    None
                }
            },
        }
    }
}

/// Reading an object token: a blank node property list, a collection, a
/// literal, a blank node label or an IRI. A bare token may not contain
/// white space.
pub open spec fn object_spec(o0: Seq<char>, prefixes: Seq<(Seq<char>, Seq<char>)>, base: Option<Seq<char>>, n: usize) -> Out<SNode>
    decreases o0.len(), 4int, 0int,
{
    let o = without_terminators(strip_comment(o0));
    proof {
        lemma_comment_cut_len(scan0(), o0);
        lemma_trim_len(strip_comment(o0));
        lemma_strip_terms_prefix(trim(strip_comment(o0)));
    }
    if has_ws(o) && !(has_prefix(o, "<"@) || has_prefix(o, "\""@) || has_prefix(o, "["@) || has_prefix(o, "("@)
        || has_prefix(o, "_:"@)) {
        fail("unexpected whitespace in object"@, n)
    } else if has_prefix(o, "["@) {
        property_list_spec(o, prefixes, base, n)
    } else if has_prefix(o, "("@) {
        collection_spec(o, prefixes, base, n)
    } else if has_prefix(o, "\""@) {
        Out { res: literal_term(o, prefixes, base), next: n, emitted: seq![] }
    } else if has_prefix(o, "_:"@) {
        Out { res: Ok(SNode::Blank(o)), next: n, emitted: seq![] }
    } else {
        match expand_term(o, prefixes, base) {
            Ok(i) => Out { res: Ok(SNode::Iri(i)), next: n, emitted: seq![] },
            Err(m) => fail(m, n),
        }
    }
}

/// Reading `[ predicate-object list ; ... ]`: a fresh blank node that the
/// lists describe.
pub open spec fn property_list_spec(input: Seq<char>, prefixes: Seq<(Seq<char>, Seq<char>)>, base: Option<Seq<char>>, n: usize) -> Out<SNode>
    decreases input.len(), 3int, 0int,
{
    match group_of(input, '[', ']') {
        Err(e) => fail(group_message(e), n),
        Ok((inner, rest)) => if trim(rest).len() > 0 {
            fail("unexpected trailing content after blank node property list"@, n)
        } else {
            let subject = SNode::Blank(blank_label(n));
            clauses_spec(subject, split_top(trim(inner), ';'), 0, prefixes, base, bump(n), input.len(), false)
        },
    }
}

/// The clauses of a property list from index `k` on; blank clauses are
/// skipped and at least one must be present.
pub open spec fn clauses_spec(
    subject: SNode,
    clauses: Seq<Seq<char>>,
    k: int,
    prefixes: Seq<(Seq<char>, Seq<char>)>,
    base: Option<Seq<char>>,
    n: usize,
    size: nat,
    saw: bool,
) -> Out<SNode>
    decreases size, 2int, clauses.len() - k,
{
    if k >= clauses.len() || k < 0 {
        if saw {
            Out { res: Ok(subject), next: n, emitted: seq![] }
        } else {
            fail("empty blank node property list"@, n)
        }
    } else {
        let c = trim(strip_comment(clauses[k]));
        if c.len() == 0 {
            clauses_spec(subject, clauses, k + 1, prefixes, base, n, size, saw)
        } else if c.len() < size {
            let p = pol_spec(subject, c, prefixes, base, n);
            match p.res {
                Err(m) => Out { res: Err(m), next: p.next, emitted: p.emitted },
                Ok(_) => {
                    let r = clauses_spec(subject, clauses, k + 1, prefixes, base, p.next, size, true);
                    Out { res: r.res, next: r.next, emitted: p.emitted + r.emitted }
                },
            }
        } else {
            fail(seq![], n)
        }
    }
}

/// Reading `predicate object, object, ...` about `subject`: one triple per
/// object, after the triples that each object's own structure produces.
pub open spec fn pol_spec(subject: SNode, text0: Seq<char>, prefixes: Seq<(Seq<char>, Seq<char>)>, base: Option<Seq<char>>, n: usize) -> Out<()>
    decreases text0.len(), 1int, 0int,
{
    let text = without_terminators(strip_comment(text0));
    let t = trim_start(text);
    if text.len() == 0 || t.len() == 0 {
        fail("missing predicate"@, n)
    } else {
        let k = token_end(t);
        match expand_term(t.take(k), prefixes, base) {
            Err(m) => fail(m, n),
            Ok(predicate) => {
                let objects = split_top(trim(t.skip(k)), ',');
                if objects.len() == 0 {
                    fail("missing object"@, n)
                } else {
                    objects_spec(subject, predicate, objects, 0, prefixes, base, n, text0.len())
                }
            },
        }
    }
}

/// The objects of a predicate from index `j` on.
pub open spec fn objects_spec(
    subject: SNode,
    predicate: Seq<char>,
    objects: Seq<Seq<char>>,
    j: int,
    prefixes: Seq<(Seq<char>, Seq<char>)>,
    base: Option<Seq<char>>,
    n: usize,
    size: nat,
) -> Out<()>
    decreases size, 0int, objects.len() - j,
{
    if j >= objects.len() || j < 0 {
        Out { res: Ok(()), next: n, emitted: seq![] }
    } else {
        let obj = without_terminators(objects[j]);
        if obj.len() == 0 {
            fail("missing object"@, n)
        } else if obj.len() < size {
            let o = object_spec(obj, prefixes, base, n);
            match o.res {
                Err(m) => Out { res: Err(m), next: o.next, emitted: o.emitted },
                Ok(node) => {
                    let r = objects_spec(subject, predicate, objects, j + 1, prefixes, base, o.next, size);
                    Out {
                        res: r.res,
                        next: r.next,
                        emitted: o.emitted.push(STriple { subject, predicate, object: node }) + r.emitted,
                    }
                },
            }
        } else {
            fail(seq![], n)
        }
    }
}

/// Reading `( item item ... )`: rdf:nil for an empty collection, otherwise
/// the first cell of a chain of rdf:first / rdf:rest cells.
pub open spec fn collection_spec(input: Seq<char>, prefixes: Seq<(Seq<char>, Seq<char>)>, base: Option<Seq<char>>, n: usize) -> Out<SNode>
    decreases input.len(), 3int, 0int,
{
    match group_of(input, '(', ')') {
        Err(e) => fail(group_message(e), n),
        Ok((inner, rest)) => if trim(rest).len() > 0 {
            fail("unexpected trailing content after RDF collection"@, n)
        } else {
            match collection_items(trim(inner)) {
                None => fail("malformed RDF collection"@, n),
                Some(items) => if items.len() == 0 {
                    Out { res: Ok(SNode::Iri(rdf_nil())), next: n, emitted: seq![] }
                } else {
                    let head = SNode::Blank(blank_label(n));
                    let r = items_spec(head, items, 0, prefixes, base, bump(n), input.len());
                    Out {
                        res: match r.res {
                            Ok(_) => Ok(head),
                            Err(m) => Err(m),
                        },
                        next: r.next,
                        emitted: r.emitted,
                    }
                },
            }
        },
    }
}

/// The cells of a collection from item `k` on, `current` being the cell of item `k`.
pub open spec fn items_spec(
    current: SNode,
    items: Seq<Seq<char>>,
    k: int,
    prefixes: Seq<(Seq<char>, Seq<char>)>,
    base: Option<Seq<char>>,
    n: usize,
    size: nat,
) -> Out<()>
    decreases size, 2int, items.len() - k,
{
    if k >= items.len() || k < 0 {
        Out { res: Ok(()), next: n, emitted: seq![] }
    } else {
        let last = k + 1 == items.len();
        let next_node = if last {
            SNode::Iri(rdf_nil())
        } else {
            SNode::Blank(blank_label(n))
        };
        let n1 = if last {
            n
        } else {
            bump(n)
        };
        if items[k].len() < size {
            let v = object_spec(items[k], prefixes, base, n1);
            match v.res {
                Err(m) => Out { res: Err(m), next: v.next, emitted: v.emitted },
                Ok(value) => {
                    let r = items_spec(next_node, items, k + 1, prefixes, base, v.next, size);
                    Out {
                        res: r.res,
                        next: r.next,
                        emitted: v.emitted + seq![
                            STriple { subject: current, predicate: rdf_first(), object: value },
                            STriple { subject: current, predicate: rdf_rest(), object: next_node },
                        ] + r.emitted,
                    }
                },
            }
        } else {
            fail(seq![], n)
        }
    }
}

} // verus!

verus! {

/// Whether `after` extends `before` by exactly `emitted`, and the counter ended at `next`.
pub open spec fn produced<T>(out: Out<T>, next: usize, before: Seq<Triple>, after: Seq<Triple>) -> bool {
    &&& next == out.next
    &&& triples_view(after) == triples_view(before) + out.emitted
}

pub open spec fn node_result(out: Out<SNode>, r: Result<Node, String>) -> bool {
    match out.res {
        Ok(v) => r is Ok && r.unwrap()@ == v,
        Err(m) => r is Err && r->Err_0@ == m,
    }
}

pub open spec fn unit_result(out: Out<()>, r: Result<(), String>) -> bool {
    match out.res {
        Ok(_) => r is Ok,
        Err(m) => r is Err && r->Err_0@ == m,
    }
}

pub fn contains_ws(s: &[char]) -> (r: bool)
    ensures
        r == has_ws(s@),
{
    let mut i: usize = 0;
    while i < s.len()
        invariant
            i <= s@.len(),
            forall|k: int| 0 <= k < i ==> !is_ws(#[trigger] s@[k]),
        decreases s@.len() - i,
    {
        if char_is_ws(s[i]) {
            return true;
        }
        i = i + 1;
    }
    false
}

pub fn group_error_text(e: &GroupError) -> (r: String)
    ensures
        r@ == group_message(*e),
{
    match e {
        GroupError::NotGrouped => err_text("expected grouped content"),
        GroupError::Malformed => err_text("malformed blank node property list"),
        GroupError::Unterminated => err_text("unterminated blank node property list"),
    }
}

pub proof fn lemma_push_view(v: Seq<Triple>, t: Triple)
    ensures
        triples_view(v.push(t)) == triples_view(v).push(t@),
{
    assert(triples_view(v.push(t)) =~= triples_view(v).push(t@));
}

/// Reads an object token; triples of nested structures are appended to `triples`.
pub fn parse_object(
    o0: &[char],
    prefixes: &SortedMap<String>,
    base: Option<&[char]>,
    seq: &mut usize,
    triples: &mut Vec<Triple>,
) -> (r: Result<Node, String>)
    ensures
        ({
            let out = object_spec(o0@, prefixes.pairs(), opt_seq(base), *old(seq));
            &&& produced(out, *final(seq), old(triples)@, final(triples)@)
            &&& node_result(out, r)
        }),
    decreases o0@.len(), 4int,
{
    let o1 = strip_inline_comment(o0);
    let o = trim_trailing_terminators(o1);
    proof {
        reveal_strlit("<");
        reveal_strlit("\"");
        reveal_strlit("[");
        reveal_strlit("(");
        reveal_strlit("_:");
    }
    if contains_ws(o) && !(has_prefix_lit(o, "<") || has_prefix_lit(o, "\"") || has_prefix_lit(o, "[")
        || has_prefix_lit(o, "(") || has_prefix_lit(o, "_:")) {
        return Err(err_text("unexpected whitespace in object"));
    }
    if has_prefix_lit(o, "[") {
        parse_blank_node_property_list(o, prefixes, base, seq, triples)
    } else if has_prefix_lit(o, "(") {
        parse_rdf_collection(o, prefixes, base, seq, triples)
    } else if has_prefix_lit(o, "\"") {
        parse_literal(o, prefixes, base)
    } else if has_prefix_lit(o, "_:") {
        Ok(Node::Blank(string_of(o)))
    } else {
        match expand(o, prefixes, base) {
            Ok(i) => Ok(Node::Iri(string_of(&i))),
            Err(m) => Err(m),
        }
    }
}

/// Reads `[ ... ]`: a fresh blank node with the triples of its property lists.
pub fn parse_blank_node_property_list(
    input: &[char],
    prefixes: &SortedMap<String>,
    base: Option<&[char]>,
    seq: &mut usize,
    triples: &mut Vec<Triple>,
) -> (r: Result<Node, String>)
    ensures
        ({
            let out = property_list_spec(input@, prefixes.pairs(), opt_seq(base), *old(seq));
            &&& produced(out, *final(seq), old(triples)@, final(triples)@)
            &&& node_result(out, r)
        }),
    decreases input@.len(), 3int,
{
    let (inner, rest) = match extract_group_content(input, '[', ']') {
        Ok(p) => p,
        Err(e) => {
            return Err(group_error_text(&e));
        },
    };
    proof {
        let t = trim(input@);
        lemma_trim_len(input@);
        lemma_group_scan_bounds(scan0(), 0, None, t, 0, '[', ']');
    }
    if trim_chars(rest).len() > 0 {
        return Err(err_text("unexpected trailing content after blank node property list"));
    }
    let ghost n0 = *seq;
    let id = fresh_blank_id(seq);
    let subject = Node::Blank(id);
    let inner_t = trim_chars(inner);
    let clauses = split_top_level(inner_t, ';');
    let ghost cl = views(clauses@);
    let ghost size = input@.len();
    let ghost p = prefixes.pairs();
    let ghost b = opt_seq(base);
    proof {
        lemma_split_parts_len(scan0(), seq![], inner_t@, ';');
        lemma_trim_len(inner@);
    }
    let ghost full = clauses_spec(subject@, cl, 0, p, b, *seq, size, false);
    let ghost t0 = old(triples)@;
    let ghost n_entry = *old(seq);
    assert(property_list_spec(input@, p, b, n_entry) == full);
    let ghost mut acc: Seq<STriple> = seq![];
    let mut saw = false;
    let mut k: usize = 0;
    while k < clauses.len()
        invariant
            k <= clauses@.len(),
            cl == views(clauses@),
            forall|i: int| 0 <= i < cl.len() ==> #[trigger] cl[i].len() < size,
            size == input@.len(),
            p == prefixes.pairs(),
            b == opt_seq(base),
            triples_view(triples@) == triples_view(t0) + acc,
            t0 == old(triples)@,
            n_entry == *old(seq),
            property_list_spec(input@, p, b, n_entry) == full,
            full == ({
                let cur = clauses_spec(subject@, cl, k as int, p, b, *seq, size, saw);
                Out { res: cur.res, next: cur.next, emitted: acc + cur.emitted }
            }),
        decreases clauses@.len() - k,
    {
        proof {
            assert(cl[k as int] == clauses@[k as int]@);
        }
        let c0 = strip_inline_comment(&clauses[k]);
        let c = trim_chars(c0);
        proof {
            lemma_trim_len(c0@);
        }
        let ghost cur_old = clauses_spec(subject@, cl, k as int, p, b, *seq, size, saw);
        if c.len() > 0 {
            let ghost before = triples@;
            let ghost n_before = *seq;
            match parse_predicate_object_list(&subject, c, prefixes, base, seq, triples) {
                Ok(_) => {
                    proof {
                        let pc = pol_spec(subject@, c@, p, b, n_before);
                        let cur_new = clauses_spec(subject@, cl, k + 1, p, b, *seq, size, true);
                        assert(cur_old == Out { res: cur_new.res, next: cur_new.next, emitted: pc.emitted + cur_new.emitted });
                        assert(acc + (pc.emitted + cur_new.emitted) =~= (acc + pc.emitted) + cur_new.emitted);
                        acc = acc + pc.emitted;
                        assert(triples_view(triples@) =~= triples_view(t0) + acc);
                    }
                    saw = true;
                },
                Err(m) => {
                    proof {
                        let pc = pol_spec(subject@, c@, p, b, n_before);
                        assert(triples_view(triples@) =~= triples_view(t0) + (acc + pc.emitted));
                    }
                    return Err(m);
                },
            }
        } else {
            proof {
                assert(cur_old == clauses_spec(subject@, cl, k + 1, p, b, *seq, size, saw));
            }
        }
        k = k + 1;
    }
    proof {
        assert(acc + seq![] =~= acc);
    }
    if !saw {
        return Err(err_text("empty blank node property list"));
    }
    Ok(subject)
}

/// Reads `predicate object, ...` about `subject`, appending one triple per object.
pub fn parse_predicate_object_list(
    subject: &Node,
    text0: &[char],
    prefixes: &SortedMap<String>,
    base: Option<&[char]>,
    seq: &mut usize,
    triples: &mut Vec<Triple>,
) -> (r: Result<(), String>)
    ensures
        ({
            let out = pol_spec(subject@, text0@, prefixes.pairs(), opt_seq(base), *old(seq));
            &&& produced(out, *final(seq), old(triples)@, final(triples)@)
            &&& unit_result(out, r)
        }),
    decreases text0@.len(), 1int,
{
    let text1 = strip_inline_comment(text0);
    let text = trim_trailing_terminators(text1);
    if text.len() == 0 {
        return Err(err_text("missing predicate"));
    }
    let (pt, rest) = match take_token(text) {
        Some(p) => p,
        None => {
            return Err(err_text("missing predicate"));
        },
    };
    let ghost t = trim_start(text@);
    proof {
        lemma_trim_start_len(text@);
        lemma_token_scan_bounds(scan0(), t, 0);
    }
    let predicate = match expand(pt, prefixes, base) {
        Ok(pr) => string_of(&pr),
        Err(m) => {
            return Err(m);
        },
    };
    proof {
        lemma_expand_empty(prefixes.pairs(), opt_seq(base));
        if pt@.len() == 0 {
            assert(pt@ =~= Seq::<char>::empty());
        }
        assert(pt@.len() > 0);
    }
    let rest_t = trim_chars(rest);
    let objects = split_top_level(rest_t, ',');
    if objects.len() == 0 {
        return Err(err_text("missing object"));
    }
    let ghost ob = views(objects@);
    let ghost size = text0@.len();
    let ghost p = prefixes.pairs();
    let ghost b = opt_seq(base);
    proof {
        lemma_split_parts_len(scan0(), seq![], rest_t@, ',');
        lemma_trim_len(rest@);
    }
    let ghost full = objects_spec(subject@, predicate@, ob, 0, p, b, *seq, size);
    let ghost t0 = old(triples)@;
    let ghost n_entry = *old(seq);
    assert(pol_spec(subject@, text0@, p, b, n_entry) == full);
    let ghost mut acc: Seq<STriple> = seq![];
    let mut j: usize = 0;
    while j < objects.len()
        invariant
            j <= objects@.len(),
            ob == views(objects@),
            forall|i: int| 0 <= i < ob.len() ==> #[trigger] ob[i].len() < size,
            size == text0@.len(),
            p == prefixes.pairs(),
            b == opt_seq(base),
            triples_view(triples@) == triples_view(t0) + acc,
            t0 == old(triples)@,
            n_entry == *old(seq),
            pol_spec(subject@, text0@, p, b, n_entry) == full,
            full == ({
                let cur = objects_spec(subject@, predicate@, ob, j as int, p, b, *seq, size);
                Out { res: cur.res, next: cur.next, emitted: acc + cur.emitted }
            }),
        decreases objects@.len() - j,
    {
        proof {
            assert(ob[j as int] == objects@[j as int]@);
        }
        let obj = trim_trailing_terminators(&objects[j]);
        if obj.len() == 0 {
            proof {
                assert(acc + seq![] =~= acc);
            }
            return Err(err_text("missing object"));
        }
        let ghost before = triples@;
        let ghost n_before = *seq;
        let ghost cur_old = objects_spec(subject@, predicate@, ob, j as int, p, b, *seq, size);
        match parse_object(obj, prefixes, base, seq, triples) {
            Ok(node) => {
                let t = Triple { subject: subject.clone(), predicate: predicate.clone(), object: node };
                let ghost mid = triples@;
                triples.push(t);
                proof {
                    let oc = object_spec(obj@, p, b, n_before);
                    lemma_push_view(mid, t);
                    let cur_new = objects_spec(subject@, predicate@, ob, j + 1, p, b, *seq, size);
                    assert(t@ == STriple { subject: subject@, predicate: predicate@, object: node@ });
                    assert(cur_old == Out { res: cur_new.res, next: cur_new.next, emitted: oc.emitted.push(t@) + cur_new.emitted });
                    assert(acc + (oc.emitted.push(t@) + cur_new.emitted) =~= (acc + oc.emitted.push(t@)) + cur_new.emitted);
                    acc = acc + oc.emitted.push(t@);
                    assert(triples_view(triples@) =~= triples_view(t0) + acc);
                }
            },
            Err(m) => {
                proof {
                    let oc = object_spec(obj@, p, b, n_before);
                    assert(triples_view(triples@) =~= triples_view(t0) + (acc + oc.emitted));
                }
                return Err(m);
            },
        }
        j = j + 1;
    }
    proof {
        assert(acc + seq![] =~= acc);
    }
    Ok(())
}

/// Expanding the empty term always fails.
pub proof fn lemma_expand_empty(prefixes: Seq<(Seq<char>, Seq<char>)>, base: Option<Seq<char>>)
    ensures
        expand_term(seq![], prefixes, base) is Err,
{
    reveal_strlit("a");
    reveal_strlit("http://");
    reveal_strlit("https://");
}

} // verus!

verus! {

pub proof fn lemma_collection_items_len(cursor: Seq<char>)
    ensures
        collection_items(cursor) matches Some(items) ==> forall|i: int|
            0 <= i < items.len() ==> #[trigger] items[i].len() <= cursor.len(),
    decreases cursor.len(),
{
    if trim(cursor).len() != 0 {
        let t = trim_start(cursor);
        lemma_trim_start_len(cursor);
        lemma_fragment_scan_bounds(scan0(), t, 0, 0);
        match fragment_scan(scan0(), t, 0, 0) {
            None => {},
            Some((a, b)) => {
                let item = trim(strip_comment(t.subrange(a, b)));
                let next = trim_start(t.skip(b));
                lemma_comment_cut_len(scan0(), t.subrange(a, b));
                lemma_trim_len(strip_comment(t.subrange(a, b)));
                if next.len() < cursor.len() {
                    lemma_collection_items_len(next);
                    match collection_items(next) {
                        Some(rest) => {
                            let all = seq![item] + rest;
                            assert forall|i: int| 0 <= i < all.len() implies #[trigger] all[i].len()
                                <= cursor.len() by {
                                if i > 0 {
                                    assert(all[i] == rest[i - 1]);
                                }
                            }
                        },
                        None => {},
                    }
                }
            },
        }
    }
}

/// The items of a collection's content.
pub fn collect_items(cursor0: &[char]) -> (r: Option<Vec<Vec<char>>>)
    ensures
        match collection_items(cursor0@) {
            Some(items) => r is Some && views(r.unwrap()@) == items,
            None => r is None,
        },
{
    let mut items: Vec<Vec<char>> = Vec::new();
    let mut cursor: &[char] = cursor0;
    loop
        invariant
            collection_items(cursor0@) == match collection_items(cursor@) {
                Some(rest) => Some(views(items@) + rest),
                None => None::<Seq<Seq<char>>>,
            },
        decreases cursor@.len(),
    {
        if trim_chars(cursor).len() == 0 {
            proof {
                assert(views(items@) + Seq::<Seq<char>>::empty() =~= views(items@));
            }
            return Some(items);
        }
        let ghost t = trim_start(cursor@);
        let (frag, next0) = match take_object_fragment(cursor) {
            Some(p) => p,
            None => {
                return None;
            },
        };
        let f = strip_inline_comment(frag);
        let item = copy_chars(trim_chars(f));
        let next = trim_start_chars(next0);
        if next.len() >= cursor.len() {
            return None;
        }
        let ghost old_items = views(items@);
        items.push(item);
        proof {
            assert(views(items@) =~= old_items.push(item@));
            match collection_items(next@) {
                Some(rest) => {
                    assert(old_items + (seq![item@] + rest) =~= views(items@) + rest);
                },
                None => {},
            }
        }
        cursor = next;
    }
}

/// Reads `( ... )`: rdf:nil, or the first cell of a chain of cells.
pub fn parse_rdf_collection(
    input: &[char],
    prefixes: &SortedMap<String>,
    base: Option<&[char]>,
    seq: &mut usize,
    triples: &mut Vec<Triple>,
) -> (r: Result<Node, String>)
    ensures
        ({
            let out = collection_spec(input@, prefixes.pairs(), opt_seq(base), *old(seq));
            &&& produced(out, *final(seq), old(triples)@, final(triples)@)
            &&& node_result(out, r)
        }),
    decreases input@.len(), 3int,
{
    let (inner, rest) = match extract_group_content(input, '(', ')') {
        Ok(p) => p,
        Err(e) => {
            return Err(group_error_text(&e));
        },
    };
    proof {
        let t = trim(input@);
        lemma_trim_len(input@);
        lemma_group_scan_bounds(scan0(), 0, None, t, 0, '(', ')');
    }
    if trim_chars(rest).len() > 0 {
        return Err(err_text("unexpected trailing content after RDF collection"));
    }
    let inner_t = trim_chars(inner);
    let items = match collect_items(inner_t) {
        Some(v) => v,
        None => {
            return Err(err_text("malformed RDF collection"));
        },
    };
    if items.len() == 0 {
        return Ok(Node::Iri(err_text("http://www.w3.org/1999/02/22-rdf-syntax-ns#nil")));
    }
    let ghost it = views(items@);
    let ghost size = input@.len();
    let ghost p = prefixes.pairs();
    let ghost b = opt_seq(base);
    proof {
        lemma_collection_items_len(inner_t@);
        lemma_trim_len(inner@);
    }
    let head_id = fresh_blank_id(seq);
    let head = Node::Blank(head_id);
    let mut current = head.clone();
    let ghost full = items_spec(head@, it, 0, p, b, *seq, size);
    let ghost t0 = old(triples)@;
    let ghost n_entry = *old(seq);
    let ghost whole = collection_spec(input@, p, b, n_entry);
    assert(whole == Out {
        res: match full.res {
            Ok(_) => Ok(head@),
            Err(m) => Err(m),
        },
        next: full.next,
        emitted: full.emitted,
    });
    let ghost mut acc: Seq<STriple> = seq![];
    let mut k: usize = 0;
    while k < items.len()
        invariant
            k <= items@.len(),
            it == views(items@),
            forall|i: int| 0 <= i < it.len() ==> #[trigger] it[i].len() < size,
            size == input@.len(),
            p == prefixes.pairs(),
            b == opt_seq(base),
            triples_view(triples@) == triples_view(t0) + acc,
            t0 == old(triples)@,
            n_entry == *old(seq),
            whole == collection_spec(input@, p, b, n_entry),
            whole == (Out {
                res: match full.res {
                    Ok(_) => Ok(head@),
                    Err(m) => Err(m),
                },
                next: full.next,
                emitted: full.emitted,
            }),
            full == ({
                let cur = items_spec(current@, it, k as int, p, b, *seq, size);
                Out { res: cur.res, next: cur.next, emitted: acc + cur.emitted }
            }),
        decreases items@.len() - k,
    {
        proof {
            assert(it[k as int] == items@[k as int]@);
        }
        let ghost n_before = *seq;
        let ghost cur_old = items_spec(current@, it, k as int, p, b, *seq, size);
        let next_node = if k + 1 == items.len() {
            Node::Iri(err_text("http://www.w3.org/1999/02/22-rdf-syntax-ns#nil"))
        } else {
            Node::Blank(fresh_blank_id(seq))
        };
        let ghost n1 = *seq;
        match parse_object(&items[k], prefixes, base, seq, triples) {
            Ok(value) => {
                let t1 = Triple {
                    subject: current.clone(),
                    predicate: err_text("http://www.w3.org/1999/02/22-rdf-syntax-ns#first"),
                    object: value,
                };
                let t2 = Triple {
                    subject: current,
                    predicate: err_text("http://www.w3.org/1999/02/22-rdf-syntax-ns#rest"),
                    object: next_node.clone(),
                };
                let ghost m0 = triples@;
                triples.push(t1);
                let ghost m1 = triples@;
                triples.push(t2);
                proof {
                    let vc = object_spec(it[k as int], p, b, n1);
                    lemma_push_view(m0, t1);
                    lemma_push_view(m1, t2);
                    let cur_new = items_spec(next_node@, it, k + 1, p, b, *seq, size);
                    let e = vc.emitted + seq![t1@, t2@];
                    assert(cur_old == Out { res: cur_new.res, next: cur_new.next, emitted: e + cur_new.emitted });
                    assert(acc + (e + cur_new.emitted) =~= (acc + e) + cur_new.emitted);
                    acc = acc + e;
                    assert(triples_view(triples@) =~= triples_view(t0) + acc);
                }
                current = next_node;
            },
            Err(m) => {
                proof {
                    let vc = object_spec(it[k as int], p, b, n1);
                    assert(triples_view(triples@) =~= triples_view(t0) + (acc + vc.emitted));
                }
                return Err(m);
            },
        }
        k = k + 1;
    }
    proof {
        assert(acc + seq![] =~= acc);
    }
    Ok(head)
}

} // verus!
