//! Properties that hold across the library's operations.
use vstd::prelude::*;
use crate::model::{
    STriple, SNode, keys_ascending, key_index, insertion_index, inserted, lemma_key_index, lemma_insertion_index_bounds,
};
use crate::text::{seq_lt, seq_order, lemma_seq_order_range, lemma_seq_order_eq, lemma_seq_order_antisym, lemma_seq_lt_trans};

verus! {

/// The value stored under a key, if any.
pub open spec fn lookup<V>(e: Seq<(String, V)>, k: Seq<char>) -> Option<V> {
    match key_index(e, k) {
        Some(i) => Some(e[i].1),
        None => None,
    }
}

/// Keys below `k` come first: the entries before the insertion index are
/// below it, those from it on are not.
proof fn lemma_insertion_index_split<V>(e: Seq<(String, V)>, k: Seq<char>)
    requires
        keys_ascending(e),
    ensures
        forall|j: int| 0 <= j < insertion_index(e, k) ==> seq_lt(#[trigger] e[j].0@, k),
        forall|j: int| insertion_index(e, k) <= j < e.len() ==> !seq_lt(#[trigger] e[j].0@, k),
    decreases e.len(),
{
    lemma_insertion_index_bounds(e, k);
    if e.len() > 0 {
        let t = e.drop_first();
        assert forall|a: int, b: int| 0 <= a < b < t.len() implies seq_lt(#[trigger] t[a].0@, #[trigger] t[b].0@) by {
            assert(t[a] == e[a + 1] && t[b] == e[b + 1]);
        }
        lemma_insertion_index_split(t, k);
        if seq_lt(e[0].0@, k) {
            lemma_insertion_index_bounds(t, k);
            assert(insertion_index(e, k) == 1 + insertion_index(t, k));
            assert forall|j: int| 0 <= j < insertion_index(e, k) implies seq_lt(#[trigger] e[j].0@, k) by {
                if j > 0 {
                    assert(e[j] == t[j - 1]);
                }
            }
            assert forall|j: int| insertion_index(e, k) <= j < e.len() implies !seq_lt(#[trigger] e[j].0@, k) by {
                assert(j >= 1);
                assert(e[j] == t[j - 1]);
            }
        } else {
            assert forall|j: int| 0 <= j < e.len() implies !seq_lt(#[trigger] e[j].0@, k) by {
                if j > 0 {
                    assert(seq_lt(e[0].0@, e[j].0@));
                    lemma_seq_order_range(e[j].0@, k);
                    lemma_seq_order_range(e[0].0@, k);
                    lemma_seq_order_antisym(e[0].0@, k);
                    lemma_seq_order_eq(e[0].0@, k);
                    if seq_lt(e[j].0@, k) {
                        if e[0].0@ == k {
                            lemma_seq_order_eq(e[j].0@, k);
                            lemma_seq_order_antisym(e[j].0@, k);
                        } else {
                            lemma_seq_lt_trans(k, e[0].0@, e[j].0@);
                            lemma_seq_order_antisym(e[j].0@, k);
                        }
                    }
                }
            }
        }
    }
}

/// Reading back a write: after storing `v` under `k`, looking `k` up gives
/// `v`, and every other key gives what it gave before.
pub proof fn law_insert_then_lookup<V>(e: Seq<(String, V)>, k: String, v: V, other: Seq<char>)
    requires
        keys_ascending(e),
    ensures
        lookup(inserted(e, k, v), k@) == Some(v),
        other != k@ ==> lookup(inserted(e, k, v), other) == lookup(e, other),
{
    let e2 = inserted(e, k, v);
    lemma_key_index(e, k@);
    lemma_key_index(e, other);
    lemma_insertion_index_bounds(e, k@);
    match key_index(e, k@) {
        Some(i) => {
            assert(e2[i].0@ == k@);
            lemma_first_key(e2, k@, i);
            if other != k@ {
                match key_index(e, other) {
                    Some(j) => {
                        assert(e2[j] == e[j]);
                        lemma_first_key(e2, other, j);
                    },
                    None => {
                        assert forall|j: int| 0 <= j < e2.len() implies #[trigger] e2[j].0@ != other by {
                            if j != i {
                                assert(e2[j] == e[j]);
                            }
                        }
                        lemma_key_index_absent(e2, other);
                    },
                }
            }
        },
        None => {
            let p = insertion_index(e, k@);
            lemma_insertion_index_split(e, k@);
            assert(e2[p].0@ == k@);
            assert forall|j: int| 0 <= j < p implies #[trigger] e2[j].0@ != k@ by {
                assert(e2[j] == e[j]);
            }
            lemma_first_key(e2, k@, p);
            if other != k@ {
                match key_index(e, other) {
                    Some(j) => {
                        if j < p {
                            assert(e2[j] == e[j]);
                            assert forall|m: int| 0 <= m < j implies #[trigger] e2[m].0@ != other by {
                                assert(e2[m] == e[m]);
                            }
                            lemma_first_key(e2, other, j);
                        } else {
                            assert(e2[j + 1] == e[j]);
                            assert forall|m: int| 0 <= m < j + 1 implies #[trigger] e2[m].0@ != other by {
                                if m < p {
                                    assert(e2[m] == e[m]);
                                } else if m > p {
                                    assert(e2[m] == e[m - 1]);
                                }
                            }
                            lemma_first_key(e2, other, j + 1);
                        }
                    },
                    None => {
                        assert forall|m: int| 0 <= m < e2.len() implies #[trigger] e2[m].0@ != other by {
                            if m < p {
                                assert(e2[m] == e[m]);
                            } else if m > p {
                                assert(e2[m] == e[m - 1]);
                            }
                        }
                        lemma_key_index_absent(e2, other);
                    },
                }
            }
        },
    }
}

proof fn lemma_first_key<V>(e: Seq<(String, V)>, k: Seq<char>, i: int)
    requires
        0 <= i < e.len(),
        e[i].0@ == k,
        forall|j: int| 0 <= j < i ==> #[trigger] e[j].0@ != k,
    ensures
        key_index(e, k) == Some(i),
    decreases i,
{
    if i > 0 {
        assert forall|j: int| 0 <= j < i - 1 implies #[trigger] e.drop_first()[j].0@ != k by {
            assert(e.drop_first()[j] == e[j + 1]);
        }
        lemma_first_key(e.drop_first(), k, i - 1);
    }
}

proof fn lemma_key_index_absent<V>(e: Seq<(String, V)>, k: Seq<char>)
    requires
        forall|j: int| 0 <= j < e.len() ==> #[trigger] e[j].0@ != k,
    ensures
        key_index(e, k) is None,
    decreases e.len(),
{
    if e.len() > 0 {
        assert forall|j: int| 0 <= j < e.drop_first().len() implies #[trigger] e.drop_first()[j].0@ != k by {
            assert(e.drop_first()[j] == e[j + 1]);
        }
        lemma_key_index_absent(e.drop_first(), k);
    }
}

} // verus!

verus! {

// ---------------------------------------------------------------------------
// Validation
// ---------------------------------------------------------------------------

/// A triple whose subject or object is an IRI with a space in it.
pub open spec fn has_spaced_iri(t: STriple) -> bool {
    ||| t.subject matches SNode::Iri(i) && crate::text::contains_seq(i, " "@)
    ||| t.object matches SNode::Iri(i) && crate::text::contains_seq(i, " "@)
}

proof fn lemma_conforms_concat(a: Seq<crate::model::IssueView>, b: Seq<crate::model::IssueView>)
    ensures
        crate::validate::conforms_of(a + b) == (crate::validate::conforms_of(a) && crate::validate::conforms_of(b)),
{
    if crate::validate::conforms_of(a) && crate::validate::conforms_of(b) {
        assert forall|i: int| 0 <= i < (a + b).len() implies #[trigger] (a + b)[i].severity != "Violation"@ by {
            if i < a.len() {
                assert((a + b)[i] == a[i]);
            } else {
                assert((a + b)[i] == b[i - a.len()]);
            }
        }
    }
    if crate::validate::conforms_of(a + b) {
        assert forall|i: int| 0 <= i < a.len() implies #[trigger] a[i].severity != "Violation"@ by {
            assert((a + b)[i] == a[i]);
        }
        assert forall|i: int| 0 <= i < b.len() implies #[trigger] b[i].severity != "Violation"@ by {
            assert((a + b)[i + a.len()] == b[i]);
        }
    }
}

proof fn lemma_iri_issues_conform(iri: Seq<char>, line: usize, source: Seq<char>)
    ensures
        crate::validate::conforms_of(crate::validate::iri_issues(iri, line, source)) == !crate::text::contains_seq(iri, " "@),
{
    reveal_strlit("Violation");
    reveal_strlit("Warning");
    let is = crate::validate::iri_issues(iri, line, source);
    if crate::text::contains_seq(iri, " "@) {
        assert(is[0].severity == "Violation"@);
    } else {
        assert("Warning"@ != "Violation"@) by {
            assert("Warning"@[0] != "Violation"@[0]);
        }
    }
}

proof fn lemma_triple_issues_conform(earlier: Seq<STriple>, t: STriple, idx: int, source: Seq<char>)
    ensures
        crate::validate::conforms_of(crate::validate::triple_issues(earlier, t, idx, source)) == !has_spaced_iri(t),
{
    reveal_strlit("Violation");
    reveal_strlit("Warning");
    reveal_strlit("Info");
    assert("Warning"@ != "Violation"@) by {
        assert("Warning"@[0] != "Violation"@[0]);
    }
    assert("Info"@ != "Violation"@) by {
        assert("Info"@[0] != "Violation"@[0]);
    }
    let line = (idx + 1) as usize;
    let dup = if earlier.contains(t) {
        seq![
            crate::model::plain_issue(
                "Info"@,
                "Duplicate triple encountered; serializers normalize repeated triples."@,
                Some(line),
                None,
                Some("Remove repeated triples to keep the graph compact."@),
                source,
            ),
        ]
    } else {
        seq![]
    };
    let pred = if !crate::terms::is_http(t.predicate) {
        seq![
            crate::model::plain_issue(
                "Warning"@,
                "Predicate is not an HTTP IRI: "@ + t.predicate,
                Some(line),
                Some(t.predicate),
                Some("Use an absolute HTTP or HTTPS predicate IRI when possible."@),
                source,
            ),
        ]
    } else {
        seq![]
    };
    let subj = match t.subject {
        SNode::Iri(i) => crate::validate::iri_issues(i, line, source),
        _ => seq![],
    };
    let obj = match t.object {
        SNode::Iri(i) => crate::validate::iri_issues(i, line, source),
        _ => seq![],
    };
    match t.subject {
        SNode::Iri(i) => lemma_iri_issues_conform(i, line, source),
        _ => {},
    }
    match t.object {
        SNode::Iri(i) => lemma_iri_issues_conform(i, line, source),
        _ => {},
    }
    lemma_conforms_concat(dup, pred);
    lemma_conforms_concat(dup + pred, subj);
    lemma_conforms_concat(dup + pred + subj, obj);
}

/// A checked graph conforms exactly when none of its subjects and objects
/// is an IRI with a space: every other finding is a warning or a note.
pub proof fn law_conforms_iff_no_spaced_iri(ts: Seq<STriple>, source: Seq<char>)
    ensures
        crate::validate::conforms_of(crate::validate::graph_issues(ts, source)) == (forall|i: int|
            0 <= i < ts.len() ==> !has_spaced_iri(#[trigger] ts[i])),
    decreases ts.len(),
{
    if ts.len() > 0 {
        let p = ts.drop_last();
        law_conforms_iff_no_spaced_iri(p, source);
        lemma_triple_issues_conform(p, ts.last(), ts.len() - 1, source);
        lemma_conforms_concat(
            crate::validate::graph_issues(p, source),
            crate::validate::triple_issues(p, ts.last(), ts.len() - 1, source),
        );
        if forall|i: int| 0 <= i < p.len() ==> !has_spaced_iri(#[trigger] p[i]) {
            if !has_spaced_iri(ts.last()) {
                assert forall|i: int| 0 <= i < ts.len() implies !has_spaced_iri(#[trigger] ts[i]) by {
                    if i < p.len() {
                        assert(ts[i] == p[i]);
                    }
                }
            }
        } else {
            let i = choose|i: int| 0 <= i < p.len() && has_spaced_iri(#[trigger] p[i]);
            assert(ts[i] == p[i]);
        }
        if forall|i: int| 0 <= i < ts.len() ==> !has_spaced_iri(#[trigger] ts[i]) {
            assert forall|i: int| 0 <= i < p.len() implies !has_spaced_iri(#[trigger] p[i]) by {
                assert(ts[i] == p[i]);
            }
            assert(!has_spaced_iri(ts[ts.len() - 1]));
        }
    }
}

} // verus!

verus! {

// ---------------------------------------------------------------------------
// Inspection
// ---------------------------------------------------------------------------

/// Every triple has one subject and one object, and each is an IRI, a
/// literal or a blank node: the three counts add up to twice the triples.
pub proof fn law_node_kinds_cover(ts: Seq<STriple>)
    ensures
        crate::inspect::kind_count(ts, 0) + crate::inspect::kind_count(ts, 1) + crate::inspect::kind_count(ts, 2) == 2
            * ts.len(),
    decreases ts.len(),
{
    if ts.len() > 0 {
        law_node_kinds_cover(ts.drop_last());
    }
}

/// The sum of counts.
pub open spec fn count_total(e: Seq<(Seq<char>, nat)>) -> nat
    decreases e.len(),
{
    if e.len() == 0 {
        0
    } else {
        count_total(e.drop_last()) + e.last().1
    }
}

proof fn lemma_count_total_update(e: Seq<(Seq<char>, nat)>, i: int, x: (Seq<char>, nat))
    requires
        0 <= i < e.len(),
    ensures
        count_total(e.update(i, x)) + e[i].1 == count_total(e) + x.1,
    decreases e.len(),
{
    if i < e.len() - 1 {
        assert(e.update(i, x).drop_last() =~= e.drop_last().update(i, x));
        lemma_count_total_update(e.drop_last(), i, x);
    } else {
        assert(e.update(i, x).drop_last() =~= e.drop_last());
    }
}

proof fn lemma_count_total_insert(e: Seq<(Seq<char>, nat)>, i: int, x: (Seq<char>, nat))
    requires
        0 <= i <= e.len(),
    ensures
        count_total(e.insert(i, x)) == count_total(e) + x.1,
    decreases e.len(),
{
    if i < e.len() {
        assert(e.insert(i, x).drop_last() =~= e.drop_last().insert(i, x));
        lemma_count_total_insert(e.drop_last(), i, x);
    } else {
        assert(e.insert(i, x).drop_last() =~= e);
    }
}

/// Counting keys one by one counts each of them: the counts add up to the
/// number of keys.
pub proof fn law_tally_total(keys: Seq<Seq<char>>)
    ensures
        count_total(crate::inspect::tally(keys)) == keys.len(),
    decreases keys.len(),
{
    if keys.len() > 0 {
        law_tally_total(keys.drop_last());
        let e = crate::inspect::tally(keys.drop_last());
        let k = keys.last();
        crate::inspect::lemma_vkey_index_range(e, k);
        crate::reading::lemma_vinsertion_index_bounds(e, k);
        match crate::model::vkey_index(e, k) {
            Some(i) => lemma_count_total_update(e, i, (e[i].0, e[i].1 + 1)),
            None => lemma_count_total_insert(e, crate::model::vinsertion_index(e, k), (k, 1nat)),
        }
    }
}

/// What an inspection report says of a graph adds up: IRIs, literals and
/// blank nodes are twice the triples, the property distribution counts every
/// triple, and properties are the distinct predicates.
pub proof fn law_inspection_totals(r: crate::model::InspectionReport, g: crate::model::LodGraph)
    requires
        crate::inspect::summarizes(r, g),
    ensures
        r.iris + r.literals + r.blank_nodes == 2 * r.triples,
        count_total(r.property_distribution.counts()) == r.triples,
        r.properties == r.predicates,
        r.subjects <= r.triples,
        r.predicates <= r.triples,
        r.objects <= r.triples,
{
    let ts = crate::model::triples_view(g.triples@);
    law_node_kinds_cover(ts);
    law_tally_total(crate::inspect::predicates_of(ts));
    crate::inspect::lemma_distinct_len(crate::inspect::subjects_of(ts));
    crate::inspect::lemma_distinct_len(crate::inspect::predicates_of(ts));
    crate::inspect::lemma_distinct_len(crate::inspect::objects_of(ts));
}

// ---------------------------------------------------------------------------
// Escaping
// ---------------------------------------------------------------------------

/// HTML escaping leaves no `<` or `>` in the text.
pub proof fn law_html_escape_has_no_angle_brackets(s: Seq<char>)
    ensures
        forall|j: int| 0 <= j < crate::report::html_escape(s).len() ==> #[trigger] crate::report::html_escape(s)[j] != '<'
            && crate::report::html_escape(s)[j] != '>',
    decreases s.len(),
{
    reveal_strlit("&#38;");
    reveal_strlit("&#60;");
    reveal_strlit("&#62;");
    if s.len() > 0 {
        law_html_escape_has_no_angle_brackets(s.drop_last());
        let a = crate::report::html_escape(s.drop_last());
        let b = crate::report::html_char(s.last());
        assert forall|j: int| 0 <= j < (a + b).len() implies #[trigger] (a + b)[j] != '<' && (a + b)[j] != '>' by {
            if j >= a.len() {
                assert((a + b)[j] == b[j - a.len()]);
            } else {
                assert((a + b)[j] == a[j]);
            }
        }
    }
}

} // verus!

verus! {

proof fn lemma_nt_escape_concat(a: Seq<char>, b: Seq<char>)
    ensures
        crate::writing::nt_escape(a + b) == crate::writing::nt_escape(a) + crate::writing::nt_escape(b),
    decreases b.len(),
{
    if b.len() == 0 {
        assert(a + b =~= a);
        assert(crate::writing::nt_escape(a) + crate::writing::nt_escape(b) =~= crate::writing::nt_escape(a));
    } else {
        assert((a + b).drop_last() =~= a + b.drop_last());
        assert((a + b).last() == b.last());
        lemma_nt_escape_concat(a, b.drop_last());
        assert(crate::writing::nt_escape(a + b) =~= crate::writing::nt_escape(a) + crate::writing::nt_escape(b));
    }
}

proof fn lemma_unescape_shift(p: Seq<char>, t: Seq<char>, i: int)
    requires
        0 <= i,
    ensures
        crate::printed::unescape_from(p + t, p.len() + i) == crate::printed::unescape_from(t, i),
    decreases t.len() - i,
{
    let s = p + t;
    let j = p.len() + i;
    if i < t.len() {
        assert(s[j] == t[i]);
        if i + 1 < t.len() {
            assert(s[j + 1] == t[i + 1]);
        }
        if i + 6 <= t.len() {
            assert(s[j + 2] == t[i + 2]);
            assert(s[j + 3] == t[i + 3]);
            assert(s[j + 4] == t[i + 4]);
            assert(s[j + 5] == t[i + 5]);
        }
        lemma_unescape_shift(p, t, i + 1);
        if i + 2 <= t.len() {
            lemma_unescape_shift(p, t, i + 2);
        }
        if i + 6 <= t.len() {
            lemma_unescape_shift(p, t, i + 6);
        }
    }
}

proof fn lemma_unescape_escaped_char(c: char, t: Seq<char>)
    ensures
        crate::printed::unescape_from(crate::writing::escape_char(c) + t, 0) == seq![c] + crate::printed::unescape_from(t, 0),
{
    let e = crate::writing::escape_char(c);
    let s = e + t;
    lemma_unescape_shift(e, t, 0);
    if c == '\\' || c == '"' || c == '\n' || c == '\r' {
        assert(s[0] == '\\');
        assert(crate::printed::escaped_letter(s[1]) == Some(c));
        assert(crate::printed::unescape_from(s, 0) == seq![c] + crate::printed::unescape_from(s, 2));
    } else {
        assert(s[0] == c);
        assert(crate::printed::unescape_from(s, 0) == seq![c] + crate::printed::unescape_from(s, 1));
    }
}

/// Reading back what the writer escapes: resolving the escapes of an
/// escaped literal gives the literal.
pub proof fn law_unescape_inverts_escape(s: Seq<char>)
    ensures
        crate::printed::unescape(crate::writing::nt_escape(s)) == s,
    decreases s.len(),
{
    if s.len() == 0 {
        assert(crate::writing::nt_escape(s) =~= Seq::<char>::empty());
    } else {
        let c = s[0];
        let rest = s.drop_first();
        assert(s =~= seq![c] + rest);
        lemma_nt_escape_concat(seq![c], rest);
        assert(seq![c].drop_last() =~= Seq::<char>::empty());
        assert(crate::writing::nt_escape(Seq::<char>::empty()) =~= Seq::<char>::empty());
        assert(crate::writing::nt_escape(seq![c]) == crate::writing::nt_escape(seq![c].drop_last())
            + crate::writing::escape_char(c));
        assert(crate::writing::nt_escape(seq![c]) =~= crate::writing::escape_char(c));
        law_unescape_inverts_escape(rest);
        lemma_unescape_escaped_char(c, crate::writing::nt_escape(rest));
        assert(seq![c] + rest =~= s);
    }
}

// ---------------------------------------------------------------------------
// The normal form
// ---------------------------------------------------------------------------

proof fn lemma_dedup_last<T>(s: Seq<T>)
    requires
        s.len() > 0,
    ensures
        crate::normal::dedup(s).len() > 0,
        crate::normal::dedup(s).last() == s.last(),
    decreases s.len(),
{
    if s.len() >= 2 && s.last() == s[s.len() - 2] {
        lemma_dedup_last(s.drop_last());
    }
}

/// Deduplication leaves no repeats side by side: no two neighbours of a
/// deduplicated sequence are equal.
pub proof fn law_dedup_no_neighbour_repeats<T>(s: Seq<T>)
    ensures
        forall|i: int| 0 <= i < crate::normal::dedup(s).len() - 1 ==> #[trigger] crate::normal::dedup(s)[i]
            != crate::normal::dedup(s)[i + 1],
    decreases s.len(),
{
    if s.len() > 0 {
        law_dedup_no_neighbour_repeats(s.drop_last());
        if s.len() >= 2 && s.last() == s[s.len() - 2] {
            assert(crate::normal::dedup(s) == crate::normal::dedup(s.drop_last()));
        } else {
            let d = crate::normal::dedup(s.drop_last());
            assert(crate::normal::dedup(s) == d.push(s.last()));
            if s.len() >= 2 {
                lemma_dedup_last(s.drop_last());
                assert(s.drop_last().last() == s[s.len() - 2]);
            }
            assert forall|i: int| 0 <= i < d.push(s.last()).len() - 1 implies #[trigger] d.push(s.last())[i] != d.push(
                s.last(),
            )[i + 1] by {
                if i + 1 < d.len() {
                    assert(d.push(s.last())[i] == d[i]);
                    assert(d.push(s.last())[i + 1] == d[i + 1]);
                } else {
                    assert(d.push(s.last())[i] == d.last());
                }
            }
        }
    }
}

} // verus!

verus! {

// ---------------------------------------------------------------------------
// Visualization
// ---------------------------------------------------------------------------

/// Whether `k` is the key of one of the drawn nodes.
pub open spec fn has_key(e: Seq<(Seq<char>, crate::visualize::VNode)>, k: Seq<char>) -> bool {
    exists|i: int| 0 <= i < e.len() && #[trigger] e[i].0 == k
}

/// Drawn nodes keyed by their ids, each id once.
pub open spec fn keyed_by_id(e: Seq<(Seq<char>, crate::visualize::VNode)>) -> bool {
    &&& forall|k: int| 0 <= k < e.len() ==> #[trigger] e[k].1.id == e[k].0
    &&& forall|i: int, j: int| 0 <= i < j < e.len() ==> #[trigger] e[i].0 != #[trigger] e[j].0
}

proof fn lemma_vkey_index_hit<W>(e: Seq<(Seq<char>, W)>, k: Seq<char>)
    ensures
        crate::model::vkey_index(e, k) matches Some(i) ==> 0 <= i < e.len() && e[i].0 == k,
        crate::model::vkey_index(e, k) is None ==> forall|j: int| 0 <= j < e.len() ==> #[trigger] e[j].0 != k,
    decreases e.len(),
{
    if e.len() > 0 {
        lemma_vkey_index_hit(e.drop_first(), k);
        assert forall|j: int| 0 < j < e.len() implies #[trigger] e[j] == e.drop_first()[j - 1] by {}
    }
}

proof fn lemma_put_new(e: Seq<(Seq<char>, crate::visualize::VNode)>, k: Seq<char>, v: crate::visualize::VNode)
    requires
        keyed_by_id(e),
        v.id == k,
    ensures
        keyed_by_id(crate::visualize::put_new(e, k, v)),
        has_key(crate::visualize::put_new(e, k, v), k),
        forall|j: int| 0 <= j < e.len() ==> has_key(crate::visualize::put_new(e, k, v), #[trigger] e[j].0),
{
    let p = crate::visualize::put_new(e, k, v);
    lemma_vkey_index_hit(e, k);
    match crate::model::vkey_index(e, k) {
        Some(i) => {
            assert(p[i].0 == k);
            assert forall|j: int| 0 <= j < e.len() implies has_key(p, #[trigger] e[j].0) by {
                assert(p[j].0 == e[j].0);
            }
        },
        None => {
            let at = crate::model::vinsertion_index(e, k);
            crate::reading::lemma_vinsertion_index_bounds(e, k);
            assert(p == e.insert(at, (k, v)));
            assert(p[at].0 == k);
            assert forall|j: int| 0 <= j < e.len() implies has_key(p, #[trigger] e[j].0) by {
                if j < at {
                    assert(p[j] == e[j]);
                } else {
                    assert(p[j + 1] == e[j]);
                }
            }
            assert forall|x: int| 0 <= x < p.len() implies #[trigger] p[x].1.id == p[x].0 by {
                if x < at {
                    assert(p[x] == e[x]);
                    assert(e[x].1.id == e[x].0);
                } else if x > at {
                    assert(p[x] == e[x - 1]);
                    assert(e[x - 1].1.id == e[x - 1].0);
                } else {
                    assert(p[x] == (k, v));
                }
            }
            assert forall|x: int, y: int| 0 <= x < y < p.len() implies #[trigger] p[x].0 != #[trigger] p[y].0 by {
                if x < at {
                    assert(p[x] == e[x]);
                } else if x > at {
                    assert(p[x] == e[x - 1]);
                }
                if y < at {
                    assert(p[y] == e[y]);
                } else if y > at {
                    assert(p[y] == e[y - 1]);
                }
            }
        },
    }
}

proof fn lemma_drawn_nodes(ts: Seq<STriple>, subjects: Seq<Seq<char>>)
    ensures
        keyed_by_id(crate::visualize::drawn_nodes(ts, subjects)),
        forall|i: int| 0 <= i < ts.len() ==> has_key(
            crate::visualize::drawn_nodes(ts, subjects),
            crate::visualize::label_of(#[trigger] ts[i].subject),
        ) && has_key(crate::visualize::drawn_nodes(ts, subjects), crate::visualize::label_of(ts[i].object)),
    decreases ts.len(),
{
    if ts.len() > 0 {
        let rest = ts.drop_last();
        lemma_drawn_nodes(rest, subjects);
        let e = crate::visualize::drawn_nodes(rest, subjects);
        let t = ts.last();
        let sl = crate::visualize::label_of(t.subject);
        let ol = crate::visualize::label_of(t.object);
        let sv = crate::visualize::node_spec(sl, t.subject, true);
        let ov = crate::visualize::node_spec(ol, t.object, subjects.contains(ol));
        let e1 = crate::visualize::put_new(e, sl, sv);
        let e2 = crate::visualize::put_new(e1, ol, ov);
        lemma_put_new(e, sl, sv);
        lemma_put_new(e1, ol, ov);
        assert(crate::visualize::drawn_nodes(ts, subjects) == e2);
        assert forall|i: int| 0 <= i < ts.len() implies has_key(e2, crate::visualize::label_of(#[trigger] ts[i].subject))
            && has_key(e2, crate::visualize::label_of(ts[i].object)) by {
            if i < ts.len() - 1 {
                assert(ts[i] == rest[i]);
                let a = choose|x: int| 0 <= x < e.len() && #[trigger] e[x].0 == crate::visualize::label_of(rest[i].subject);
                let b = choose|x: int| 0 <= x < e.len() && #[trigger] e[x].0 == crate::visualize::label_of(rest[i].object);
                assert(has_key(e1, e[a].0));
                assert(has_key(e1, e[b].0));
                let a1 = choose|x: int| 0 <= x < e1.len() && #[trigger] e1[x].0 == e[a].0;
                let b1 = choose|x: int| 0 <= x < e1.len() && #[trigger] e1[x].0 == e[b].0;
                assert(has_key(e2, e1[a1].0));
                assert(has_key(e2, e1[b1].0));
            } else {
                let a1 = choose|x: int| 0 <= x < e1.len() && #[trigger] e1[x].0 == sl;
                assert(has_key(e2, e1[a1].0));
            }
        }
    }
}

/// Whether `id` is the id of one of the drawn nodes of `g`.
pub open spec fn is_node_id(g: crate::model::VisualizationGraph, id: Seq<char>) -> bool {
    exists|k: int| 0 <= k < g.nodes@.len() && #[trigger] g.nodes@[k]@.id == id
}

/// A drawing is a graph of its own nodes: no two drawn nodes share an id,
/// and every edge runs from a drawn node to a drawn node.
pub proof fn law_drawing_joins_drawn_nodes(g: crate::model::VisualizationGraph, ts: Seq<STriple>)
    requires
        crate::visualize::draws(g, ts),
    ensures
        forall|i: int, j: int| 0 <= i < j < g.nodes@.len() ==> #[trigger] g.nodes@[i]@.id != #[trigger] g.nodes@[j]@.id,
        forall|i: int| 0 <= i < g.edges@.len() ==> is_node_id(g, (#[trigger] g.edges@[i])@.source) && is_node_id(
            g,
            g.edges@[i]@.target,
        ),
{
    let subjects = ts.map_values(|t: STriple| crate::visualize::label_of(t.subject));
    let nodes = crate::visualize::drawn_nodes(ts, subjects);
    lemma_drawn_nodes(ts, subjects);
    assert forall|i: int, j: int| 0 <= i < j < g.nodes@.len() implies #[trigger] g.nodes@[i]@.id
        != #[trigger] g.nodes@[j]@.id by {
        assert(g.nodes@[i]@ == nodes[i].1);
        assert(g.nodes@[j]@ == nodes[j].1);
    }
    assert forall|i: int| 0 <= i < g.edges@.len() implies is_node_id(g, (#[trigger] g.edges@[i])@.source) && is_node_id(
        g,
        g.edges@[i]@.target,
    ) by {
        assert(g.edges@[i]@ == crate::visualize::edge_spec(i, ts[i]));
        assert(has_key(nodes, crate::visualize::label_of(ts[i].subject)));
        let k = choose|x: int| 0 <= x < nodes.len() && #[trigger] nodes[x].0 == crate::visualize::label_of(ts[i].subject);
        assert(g.nodes@[k]@ == nodes[k].1);
        assert(nodes[k].1.id == nodes[k].0);
        assert(g.nodes@[k]@.id == g.edges@[i]@.source);
        assert(has_key(nodes, crate::visualize::label_of(ts[i].object)));
        let m = choose|x: int| 0 <= x < nodes.len() && #[trigger] nodes[x].0 == crate::visualize::label_of(ts[i].object);
        assert(g.nodes@[m]@ == nodes[m].1);
        assert(nodes[m].1.id == nodes[m].0);
        assert(g.nodes@[m]@.id == g.edges@[i]@.target);
    }
}

} // verus!

verus! {

// ---------------------------------------------------------------------------
// The written order
// ---------------------------------------------------------------------------

proof fn lemma_seq_order_facts(a: Seq<char>, b: Seq<char>, c: Seq<char>)
    ensures
        seq_order(a, b) < 0 && seq_order(b, c) < 0 ==> seq_order(a, c) < 0,
        (seq_order(a, b) == 0) == (a == b),
        (seq_order(b, c) == 0) == (b == c),
        (seq_order(a, c) == 0) == (a == c),
        seq_order(a, b) == -seq_order(b, a),
        seq_order(b, c) == -seq_order(c, b),
        seq_order(a, c) == -seq_order(c, a),
{
    if seq_order(a, b) < 0 && seq_order(b, c) < 0 {
        lemma_seq_lt_trans(a, b, c);
    }
    lemma_seq_order_eq(a, b);
    lemma_seq_order_eq(b, c);
    lemma_seq_order_eq(a, c);
    lemma_seq_order_antisym(a, b);
    lemma_seq_order_antisym(b, c);
    lemma_seq_order_antisym(a, c);
}

proof fn lemma_opt_order_facts(a: Option<Seq<char>>, b: Option<Seq<char>>, c: Option<Seq<char>>)
    ensures
        crate::normal::opt_order(a, b) < 0 && crate::normal::opt_order(b, c) < 0 ==> crate::normal::opt_order(a, c) < 0,
        (crate::normal::opt_order(a, b) == 0) == (a == b),
        (crate::normal::opt_order(b, c) == 0) == (b == c),
        (crate::normal::opt_order(a, c) == 0) == (a == c),
{
    match (a, b, c) {
        (Some(x), Some(y), Some(z)) => lemma_seq_order_facts(x, y, z),
        (Some(x), Some(y), None) => lemma_seq_order_facts(x, y, y),
        (None, Some(y), Some(z)) => lemma_seq_order_facts(y, y, z),
        (Some(x), None, Some(z)) => lemma_seq_order_facts(x, x, z),
        _ => {},
    }
}

proof fn lemma_node_order_trans(a: SNode, b: SNode, c: SNode)
    ensures
        crate::normal::node_order(a, b) < 0 && crate::normal::node_order(b, c) < 0 ==> crate::normal::node_order(a, c)
            < 0,
{
    match (a, b, c) {
        (SNode::Iri(x), SNode::Iri(y), SNode::Iri(z)) => lemma_seq_order_facts(x, y, z),
        (SNode::Blank(x), SNode::Blank(y), SNode::Blank(z)) => lemma_seq_order_facts(x, y, z),
        (
            SNode::Literal { value: v1, datatype: d1, lang: l1 },
            SNode::Literal { value: v2, datatype: d2, lang: l2 },
            SNode::Literal { value: v3, datatype: d3, lang: l3 },
        ) => {
            lemma_seq_order_facts(v1, v2, v3);
            lemma_opt_order_facts(d1, d2, d3);
            lemma_opt_order_facts(l1, l2, l3);
        },
        _ => {},
    }
}

proof fn lemma_triple_order_trans(a: STriple, b: STriple, c: STriple)
    ensures
        crate::normal::triple_le(a, b) && crate::normal::triple_le(b, c) ==> crate::normal::triple_le(a, c),
{
    crate::normal::lemma_triple_order_antisym(a, b);
    crate::normal::lemma_triple_order_antisym(b, c);
    crate::normal::lemma_triple_order_antisym(a, c);
    crate::normal::lemma_node_order_antisym(a.subject, b.subject);
    crate::normal::lemma_node_order_antisym(b.subject, c.subject);
    crate::normal::lemma_node_order_antisym(a.subject, c.subject);
    crate::normal::lemma_node_order_antisym(a.object, b.object);
    crate::normal::lemma_node_order_antisym(b.object, c.object);
    crate::normal::lemma_node_order_antisym(a.object, c.object);
    lemma_node_order_trans(a.subject, b.subject, c.subject);
    lemma_node_order_trans(a.object, b.object, c.object);
    lemma_seq_order_facts(a.predicate, b.predicate, c.predicate);
}

proof fn lemma_sorted_first_least(s: Seq<STriple>, j: int)
    requires
        crate::normal::is_sorted(s),
        0 <= j < s.len(),
    ensures
        crate::normal::triple_le(s[0], s[j]),
    decreases j,
{
    if j == 0 {
        crate::normal::lemma_triple_order_antisym(s[0], s[0]);
    } else {
        lemma_sorted_first_least(s, j - 1);
        assert(crate::normal::triple_le(s[j - 1], s[j]));
        lemma_triple_order_trans(s[0], s[j - 1], s[j]);
    }
}

/// Sorting is unique: two sorted sequences of the same triples, counted
/// with repeats, are the same sequence.
pub proof fn law_sorted_permutations_agree(s1: Seq<STriple>, s2: Seq<STriple>)
    requires
        crate::normal::is_sorted(s1),
        crate::normal::is_sorted(s2),
        s1.to_multiset() == s2.to_multiset(),
    ensures
        s1 == s2,
    decreases s1.len(),
{
    broadcast use vstd::seq_lib::group_to_multiset_ensures;

    vstd::seq_lib::to_multiset_len(s1);
    vstd::seq_lib::to_multiset_len(s2);
    if s1.len() == 0 {
        assert(s2 =~= s1);
    } else {
        assert(s2.len() == s1.len());
        assert(s1.to_multiset().count(s1[0]) > 0);
        assert(s2.contains(s1[0]));
        assert(s1.contains(s2[0])) by {
            assert(s2.to_multiset().count(s2[0]) > 0);
        }
        let i = choose|i: int| 0 <= i < s2.len() && s2[i] == s1[0];
        let k = choose|k: int| 0 <= k < s1.len() && s1[k] == s2[0];
        lemma_sorted_first_least(s2, i);
        lemma_sorted_first_least(s1, k);
        crate::normal::lemma_triple_order_antisym(s1[0], s2[0]);
        assert(s1[0] == s2[0]);
        assert(s1.remove(0) =~= s1.drop_first());
        assert(s2.remove(0) =~= s2.drop_first());
        assert(s1.drop_first().to_multiset() == s2.drop_first().to_multiset());
        assert(crate::normal::is_sorted(s1.drop_first()));
        assert(crate::normal::is_sorted(s2.drop_first()));
        law_sorted_permutations_agree(s1.drop_first(), s2.drop_first());
        assert(s1 =~= seq![s1[0]] + s1.drop_first());
        assert(s2 =~= seq![s2[0]] + s2.drop_first());
    }
}

} // verus!

verus! {

/// Writing does not depend on the order of the triples: two graphs with the
/// same triples, counted with repeats, are written as the same N-Triples
/// text, and as the same Turtle text where their base and prefixes agree.
pub proof fn law_written_text_ignores_triple_order(
    g1: crate::model::LodGraph,
    g2: crate::model::LodGraph,
    f: crate::format::RdfFormat,
    r1: Result<String, crate::error::LodError>,
    r2: Result<String, crate::error::LodError>,
)
    requires
        f == crate::format::RdfFormat::NTriples || (f == crate::format::RdfFormat::Turtle && crate::model::opt_view(g1.base)
            == crate::model::opt_view(g2.base) && g1.prefixes.pairs() == g2.prefixes.pairs()),
        crate::model::triples_view(g1.spec_all_triples()).to_multiset() == crate::model::triples_view(
            g2.spec_all_triples(),
        ).to_multiset(),
        crate::parser::written(g1, f, r1),
        crate::parser::written(g2, f, r2),
    ensures
        r1 is Ok && r2 is Ok && r1.unwrap()@ == r2.unwrap()@,
{
    let m1 = crate::model::triples_view(g1.spec_all_triples()).to_multiset();
    let s1 = choose|s: Seq<STriple>| #[trigger] crate::normal::is_sorted(s) && s.to_multiset() == m1 && (if f
        == crate::format::RdfFormat::NTriples {
        r1.unwrap()@ == crate::writing::ntriples_text(crate::normal::normal_form(s))
    } else {
        r1.unwrap()@ == crate::writing::turtle_head(crate::model::opt_view(g1.base), g1.prefixes.pairs())
            + crate::writing::lines_text(crate::normal::normal_form(s))
    });
    let s2 = choose|s: Seq<STriple>| #[trigger] crate::normal::is_sorted(s) && s.to_multiset() == m1 && (if f
        == crate::format::RdfFormat::NTriples {
        r2.unwrap()@ == crate::writing::ntriples_text(crate::normal::normal_form(s))
    } else {
        r2.unwrap()@ == crate::writing::turtle_head(crate::model::opt_view(g2.base), g2.prefixes.pairs())
            + crate::writing::lines_text(crate::normal::normal_form(s))
    });
    law_sorted_permutations_agree(s1, s2);
}

} // verus!

verus! {

// ---------------------------------------------------------------------------
// Format names
// ---------------------------------------------------------------------------

proof fn lemma_lower_char_ws(c: char)
    ensures
        crate::text::is_ws(crate::text::lower_char(c)) == crate::text::is_ws(c),
        crate::text::lower_char(crate::text::lower_char(c)) == crate::text::lower_char(c),
{
}

proof fn lemma_trim_start_lower(s: Seq<char>)
    ensures
        crate::text::trim_start(crate::text::lower(s)) == crate::text::lower(crate::text::trim_start(s)),
    decreases s.len(),
{
    if s.len() > 0 {
        lemma_lower_char_ws(s[0]);
        assert(crate::text::lower(s)[0] == crate::text::lower_char(s[0]));
        assert(crate::text::lower(s).drop_first() =~= crate::text::lower(s.drop_first()));
        lemma_trim_start_lower(s.drop_first());
    } else {
        assert(crate::text::lower(s) =~= s);
    }
}

proof fn lemma_trim_end_lower(s: Seq<char>)
    ensures
        crate::text::trim_end(crate::text::lower(s)) == crate::text::lower(crate::text::trim_end(s)),
    decreases s.len(),
{
    if s.len() > 0 {
        lemma_lower_char_ws(s.last());
        assert(crate::text::lower(s).last() == crate::text::lower_char(s.last()));
        assert(crate::text::lower(s).drop_last() =~= crate::text::lower(s.drop_last()));
        lemma_trim_end_lower(s.drop_last());
    } else {
        assert(crate::text::lower(s) =~= s);
    }
}

/// A format name means the same in any ASCII case: `RdfFormat::parse`
/// gives the same format, or refuses with the same name, for a name and for
/// its lower-cased form.
pub proof fn law_format_names_ignore_case(
    v: Seq<char>,
    r1: Result<crate::format::RdfFormat, crate::error::LodError>,
    r2: Result<crate::format::RdfFormat, crate::error::LodError>,
)
    requires
        crate::format::parse_result_ok(v, r1),
        crate::format::parse_result_ok(crate::text::lower(v), r2),
    ensures
        match r1 {
            Ok(f) => r2 == Ok::<crate::format::RdfFormat, crate::error::LodError>(f),
            Err(e) => r2 is Err && crate::error::error_detail(r2->Err_0) == crate::error::error_detail(e),
        },
{
    let t = crate::text::trim_start(v);
    lemma_trim_start_lower(v);
    lemma_trim_end_lower(t);
    let lt = crate::text::lower(crate::text::trim(v));
    assert forall|i: int| 0 <= i < lt.len() implies #[trigger] crate::text::lower(lt)[i] == lt[i] by {
        lemma_lower_char_ws(crate::text::trim(v)[i]);
    }
    assert(crate::text::lower(lt) =~= lt);
    assert(crate::text::lower(crate::text::trim(crate::text::lower(v))) == lt);
}

} // verus!

verus! {

// ---------------------------------------------------------------------------
// Validation of documents
// ---------------------------------------------------------------------------

/// Reading succeeds or fails alike, whatever names the reader draws for
/// blank nodes.
proof fn lemma_parse_fails_alike(
    content: Seq<char>,
    fmt: crate::format::RdfFormat,
    g: Result<crate::model::LodGraph, crate::error::LodError>,
    p: Result<Seq<STriple>, Seq<char>>,
)
    requires
        crate::parser::parse_outcome(content, fmt, g),
        crate::parser::parsed_as(content, fmt, p),
    ensures
        g is Err <==> p is Err,
{
    let p0 = crate::parser::lemma_parsed_triples(content, fmt, g);
    match fmt {
        crate::format::RdfFormat::RdfXml => {
            let l = choose|l: Result<Seq<(Seq<char>, Seq<char>, Seq<char>)>, Seq<char>>| #[trigger] crate::reading::read_as(
                crate::reading::rdfxml_listing(content),
                l,
            ) && p == crate::parser::listing_triples(l, crate::printed::Printer::Ox);
            assert(l is Err <==> crate::reading::rdfxml_listing(content) is Err);
        },
        crate::format::RdfFormat::TriG => {
            let l = choose|l: Result<Seq<(Seq<char>, Seq<char>, Seq<char>, Seq<char>)>, Seq<char>>| #[trigger] crate::reading::quads_read_as(
                crate::reading::trig_listing(content),
                l,
            ) && p == match l {
                Ok(qs) => Ok(crate::reading::quads_dataset(qs).0),
                Err(m) => Err("RDF parsing error: "@ + m),
            };
            assert(l is Err <==> crate::reading::trig_listing(content) is Err);
        },
        _ => {},
    }
}

/// A document that does not parse does not conform: its parse error is
/// reported as a violation, whatever shapes are checked with it.
pub proof fn law_unparsed_documents_do_not_conform(
    content: Seq<char>,
    fmt: crate::format::RdfFormat,
    g: Result<crate::model::LodGraph, crate::error::LodError>,
    shapes: Option<crate::validate::ShapesFile>,
    r: Result<crate::model::ValidationReport, crate::error::LodError>,
)
    requires
        crate::parser::parse_outcome(content, fmt, g),
        g is Err,
        crate::validate::content_validation(content, fmt, shapes, r),
        r is Ok,
    ensures
        !r.unwrap().conforms,
{
    let p = choose|p: Result<Seq<STriple>, Seq<char>>| #[trigger] crate::parser::parsed_as(content, fmt, p) && {
        let base = crate::validate::source_issues(content, p, "input"@);
        match shapes {
            None => crate::validate::report_of(base, r),
            Some(f) => match f.content {
                Err(e) => r == Err::<crate::model::ValidationReport, crate::error::LodError>(e),
                Ok(c) => match crate::validate::format_of_path(f.path@) {
                    Err(key) => r matches Err(crate::error::LodError::UnsupportedFormat(s)) && s@ == key,
                    Ok(sf) => exists|q: Result<Seq<STriple>, Seq<char>>| #[trigger] crate::parser::parsed_as(c@, sf, q)
                        && crate::validate::report_of(
                        base + crate::validate::shapes_issues(c@, q, crate::validate::file_label(f.path@)),
                        r,
                    ),
                },
            },
        }
    };
    lemma_parse_fails_alike(content, fmt, g, p);
    let base = crate::validate::source_issues(content, p, "input"@);
    assert(base[0].severity == "Violation"@);
    match shapes {
        None => {},
        Some(f) => match f.content {
            Err(_) => {},
            Ok(c) => match crate::validate::format_of_path(f.path@) {
                Err(_) => {},
                Ok(sf) => {
                    let q = choose|q: Result<Seq<STriple>, Seq<char>>| #[trigger] crate::parser::parsed_as(c@, sf, q)
                        && crate::validate::report_of(
                        base + crate::validate::shapes_issues(c@, q, crate::validate::file_label(f.path@)),
                        r,
                    );
                    let all = base + crate::validate::shapes_issues(c@, q, crate::validate::file_label(f.path@));
                    assert(all[0] == base[0]);
                },
            },
        },
    }
}

} // verus!

verus! {

// ---------------------------------------------------------------------------
// Turtle statements
// ---------------------------------------------------------------------------

/// The number of line feeds in a text.
pub open spec fn newline_count(s: Seq<char>) -> nat
    decreases s.len(),
{
    if s.len() == 0 {
        0
    } else {
        (if s[0] == '\n' {
            1nat
        } else {
            0nat
        }) + newline_count(s.drop_first())
    }
}

proof fn lemma_stmts_shape(st: crate::lexer::StmtScan, buf: Seq<char>, s: Seq<char>)
    requires
        1 <= st.start_line <= st.line,
    ensures
        forall|k: int| #![trigger crate::lexer::stmts(st, buf, s)[k]]
            0 <= k < crate::lexer::stmts(st, buf, s).len() ==> {
                let p = crate::lexer::stmts(st, buf, s)[k];
                &&& p.1.len() > 0
                &&& crate::text::trim(p.1) == p.1
                &&& st.start_line <= p.0 <= st.line + newline_count(s)
            },
        forall|i: int, j: int|
            0 <= i < j < crate::lexer::stmts(st, buf, s).len() ==> #[trigger] crate::lexer::stmts(st, buf, s)[i].0
                <= #[trigger] crate::lexer::stmts(st, buf, s)[j].0,
    decreases s.len(),
{
    let r = crate::lexer::stmts(st, buf, s);
    if s.len() == 0 {
        crate::text::lemma_trim_idempotent(buf);
    } else {
        let ch = s[0];
        let rest = s.drop_first();
        assert(newline_count(s) == (if ch == '\n' {
            1nat
        } else {
            0nat
        }) + newline_count(rest));
        if st.in_comment {
            if ch == '\n' {
                let st2 = crate::lexer::StmtScan { in_comment: false, line: st.line + 1, ..st };
                let b2 = if st.started { buf.push(ch) } else { buf };
                assert(r == crate::lexer::stmts(st2, b2, rest));
                lemma_stmts_shape(st2, b2, rest);
            } else {
                assert(r == crate::lexer::stmts(st, buf, rest));
                lemma_stmts_shape(st, buf, rest);
            }
        } else {
            let line1: nat = if ch == '\n' { st.line + 1 } else { st.line };
            let starts = !st.started && !crate::text::is_ws(ch) && ch != '#';
            let started1 = st.started || starts;
            let sl1 = if starts { line1 } else { st.start_line };
            if crate::lexer::outside(st.lex) && ch == '#' {
                let st2 = crate::lexer::StmtScan {
                    lex: st.lex,
                    in_comment: true,
                    started: started1,
                    line: line1,
                    start_line: sl1,
                };
                assert(r == crate::lexer::stmts(st2, buf, rest));
                lemma_stmts_shape(st2, buf, rest);
            } else if ch == '.' && crate::lexer::outside(st.lex) {
                if st.lex.brackets == 0 && st.lex.parens == 0 && crate::text::trim(buf).len() > 0 {
                    let st2 = crate::lexer::StmtScan {
                        lex: crate::lexer::Scan { escaped: false, ..st.lex },
                        in_comment: false,
                        started: false,
                        line: line1,
                        start_line: sl1,
                    };
                    let tail = crate::lexer::stmts(st2, seq![], rest);
                    lemma_stmts_shape(st2, seq![], rest);
                    crate::text::lemma_trim_idempotent(buf);
                    let head = (sl1, crate::text::trim(buf));
                    assert(r == seq![head] + tail);
                    assert forall|k: int| 0 < k < r.len() implies #[trigger] r[k] == tail[k - 1] by {}
                    assert(r[0] == head);
                } else {
                    let st2 = crate::lexer::StmtScan {
                        lex: crate::lexer::Scan { escaped: false, ..st.lex },
                        in_comment: false,
                        started: started1,
                        line: line1,
                        start_line: sl1,
                    };
                    assert(r == crate::lexer::stmts(st2, buf.push(ch), rest));
                    lemma_stmts_shape(st2, buf.push(ch), rest);
                }
            } else {
                let st2 = crate::lexer::StmtScan {
                    lex: crate::lexer::split_step(st.lex, ch),
                    in_comment: false,
                    started: started1,
                    line: line1,
                    start_line: sl1,
                };
                assert(r == crate::lexer::stmts(st2, buf.push(ch), rest));
                lemma_stmts_shape(st2, buf.push(ch), rest);
            }
        }
    }
}

/// The statements of a Turtle document are never blank and are trimmed;
/// each is paired with a line of the document (from 1 to one more than the
/// number of line feeds), and the lines never go down.
pub proof fn law_turtle_statements_shape(content: Seq<char>)
    ensures
        forall|k: int| #![trigger crate::lexer::turtle_statements(content)[k]]
            0 <= k < crate::lexer::turtle_statements(content).len() ==> {
                let p = crate::lexer::turtle_statements(content)[k];
                &&& p.1.len() > 0
                &&& crate::text::trim(p.1) == p.1
                &&& 1 <= p.0 <= 1 + newline_count(content)
            },
        forall|i: int, j: int|
            0 <= i < j < crate::lexer::turtle_statements(content).len() ==> #[trigger] crate::lexer::turtle_statements(
                content,
            )[i].0 <= #[trigger] crate::lexer::turtle_statements(content)[j].0,
{
    lemma_stmts_shape(crate::lexer::stmt_scan0(), seq![], content);
}

} // verus!

verus! {

// ---------------------------------------------------------------------------
// Repeated triples and blank-node renaming
// ---------------------------------------------------------------------------

proof fn lemma_decimal_len(n: nat)
    ensures
        crate::terms::decimal(n).len() >= 1,
        n >= 10 ==> crate::terms::decimal(n).len() >= 2,
    decreases n,
{
    if n >= 10 {
        lemma_decimal_len(n / 10);
    }
}

proof fn lemma_decimal_injective(a: nat, b: nat)
    requires
        crate::terms::decimal(a) == crate::terms::decimal(b),
    ensures
        a == b,
    decreases a,
{
    lemma_decimal_len(a);
    lemma_decimal_len(b);
    let da = crate::terms::decimal(a);
    let db = crate::terms::decimal(b);
    if a < 10 && b < 10 {
        assert(da[0] == crate::terms::digit(a));
        assert(db[0] == crate::terms::digit(b));
        assert(crate::terms::digit(a) as int == 48 + a);
        assert(crate::terms::digit(b) as int == 48 + b);
    } else if a >= 10 && b >= 10 {
        assert(da.drop_last() == crate::terms::decimal(a / 10));
        assert(db.drop_last() == crate::terms::decimal(b / 10));
        assert(da.last() == crate::terms::digit(a % 10));
        assert(db.last() == crate::terms::digit(b % 10));
        assert(crate::terms::digit(a % 10) as int == 48 + a % 10);
        assert(crate::terms::digit(b % 10) as int == 48 + b % 10);
        lemma_decimal_injective(a / 10, b / 10);
    }
}

proof fn lemma_normal_label_injective(a: nat, b: nat)
    requires
        crate::normal::normal_label(a) == crate::normal::normal_label(b),
    ensures
        a == b,
{
    assert(crate::normal::normal_label(a).skip(3) =~= crate::terms::decimal(a));
    assert(crate::normal::normal_label(b).skip(3) =~= crate::terms::decimal(b));
    lemma_decimal_injective(a, b);
}

/// A renaming as the normal form builds it: the `i`th blank node met is
/// named `_:b` and `i`, and no blank node twice.
pub open spec fn wf_renaming(m: Seq<(Seq<char>, Seq<char>)>) -> bool {
    &&& forall|i: int| 0 <= i < m.len() ==> #[trigger] m[i].1 == crate::normal::normal_label(i as nat)
    &&& forall|i: int, j: int| 0 <= i < j < m.len() ==> #[trigger] m[i].0 != #[trigger] m[j].0
}

pub open spec fn prefix_of(m: Seq<(Seq<char>, Seq<char>)>, m2: Seq<(Seq<char>, Seq<char>)>) -> bool {
    m.len() <= m2.len() && forall|i: int| 0 <= i < m.len() ==> #[trigger] m2[i] == m[i]
}

pub open spec fn node_known(m: Seq<(Seq<char>, Seq<char>)>, n: SNode) -> bool {
    match n {
        SNode::Blank(id) => crate::normal::renamed(m, id) is Some,
        _ => true,
    }
}

pub open spec fn node_under(m: Seq<(Seq<char>, Seq<char>)>, n: SNode) -> SNode {
    match n {
        SNode::Blank(id) => match crate::normal::renamed(m, id) {
            Some(x) => SNode::Blank(x),
            None => n,
        },
        _ => n,
    }
}

pub open spec fn triple_known(m: Seq<(Seq<char>, Seq<char>)>, t: STriple) -> bool {
    node_known(m, t.subject) && node_known(m, t.object)
}

pub open spec fn triple_under(m: Seq<(Seq<char>, Seq<char>)>, t: STriple) -> STriple {
    STriple { subject: node_under(m, t.subject), predicate: t.predicate, object: node_under(m, t.object) }
}

proof fn lemma_renamed_extends(m: Seq<(Seq<char>, Seq<char>)>, m2: Seq<(Seq<char>, Seq<char>)>, id: Seq<char>)
    requires
        prefix_of(m, m2),
        wf_renaming(m2),
        crate::normal::renamed(m, id) is Some,
    ensures
        crate::normal::renamed(m2, id) == crate::normal::renamed(m, id),
{
    lemma_vkey_index_hit(m, id);
    let i = crate::model::vkey_index(m, id).unwrap();
    assert(m2[i] == m[i]);
    assert forall|j: int| 0 <= j < i implies #[trigger] m[j].0 != id by {
        assert(m2[j] == m[j]);
        assert(m2[j].0 != m2[i].0);
    }
    assert forall|j: int| 0 <= j < i implies #[trigger] m2[j].0 != id by {
        assert(m2[j].0 != m2[i].0);
    }
    crate::normal::lemma_vkey_index_first(m2, id, i);
}

proof fn lemma_node_extends(m: Seq<(Seq<char>, Seq<char>)>, m2: Seq<(Seq<char>, Seq<char>)>, n: SNode)
    requires
        prefix_of(m, m2),
        wf_renaming(m2),
        node_known(m, n),
    ensures
        node_known(m2, n),
        node_under(m2, n) == node_under(m, n),
{
    if let SNode::Blank(id) = n {
        lemma_renamed_extends(m, m2, id);
    }
}

proof fn lemma_rename_node_step(n: SNode, m: Seq<(Seq<char>, Seq<char>)>)
    requires
        wf_renaming(m),
    ensures
        wf_renaming(crate::normal::rename_node(n, m).1),
        prefix_of(m, crate::normal::rename_node(n, m).1),
        node_known(crate::normal::rename_node(n, m).1, n),
        crate::normal::rename_node(n, m).0 == node_under(crate::normal::rename_node(n, m).1, n),
        node_known(m, n) ==> crate::normal::rename_node(n, m).1 == m,
{
    if let SNode::Blank(id) = n {
        if crate::normal::renamed(m, id) is None {
            lemma_vkey_index_hit(m, id);
            let m2 = m.push((id, crate::normal::normal_label(m.len())));
            assert(crate::normal::rename_node(n, m).1 == m2);
            assert forall|i: int, j: int| 0 <= i < j < m2.len() implies #[trigger] m2[i].0 != #[trigger] m2[j].0 by {
                if j == m.len() {
                    assert(m2[i] == m[i]);
                } else {
                    assert(m2[i] == m[i] && m2[j] == m[j]);
                }
            }
            assert forall|i: int| 0 <= i < m2.len() implies #[trigger] m2[i].1 == crate::normal::normal_label(
                i as nat,
            ) by {
                if i < m.len() {
                    assert(m2[i] == m[i]);
                }
            }
            assert forall|j: int| 0 <= j < m.len() implies #[trigger] m2[j].0 != id by {
                assert(m2[j] == m[j]);
            }
            crate::normal::lemma_vkey_index_first(m2, id, m.len() as int);
        }
    }
}

proof fn lemma_rename_all(s: Seq<STriple>)
    ensures
        wf_renaming(crate::normal::rename_all(s).1),
        crate::normal::rename_all(s).0.len() == s.len(),
        forall|k: int| 0 <= k < s.len() ==> triple_known(crate::normal::rename_all(s).1, #[trigger] s[k]),
        forall|k: int| 0 <= k < s.len() ==> #[trigger] crate::normal::rename_all(s).0[k] == triple_under(
            crate::normal::rename_all(s).1,
            s[k],
        ),
    decreases s.len(),
{
    if s.len() > 0 {
        let sp = s.drop_last();
        lemma_rename_all(sp);
        let (p, m) = crate::normal::rename_all(sp);
        let t = s.last();
        lemma_rename_node_step(t.subject, m);
        let (sn, m1) = crate::normal::rename_node(t.subject, m);
        lemma_rename_node_step(t.object, m1);
        let (on, m2) = crate::normal::rename_node(t.object, m1);
        let out = crate::normal::rename_all(s).0;
        assert(crate::normal::rename_all(s).1 == m2);
        assert(out == p.push(STriple { subject: sn, predicate: t.predicate, object: on }));
        assert(prefix_of(m, m2));
        lemma_node_extends(m1, m2, t.subject);
        assert forall|k: int| 0 <= k < s.len() implies triple_known(m2, #[trigger] s[k]) && out[k] == triple_under(
            m2,
            s[k],
        ) by {
            if k < sp.len() {
                assert(s[k] == sp[k]);
                assert(triple_known(m, sp[k]));
                lemma_node_extends(m, m2, sp[k].subject);
                lemma_node_extends(m, m2, sp[k].object);
                assert(out[k] == p[k]);
            }
        }
    }
}

proof fn lemma_triple_under_injective(m: Seq<(Seq<char>, Seq<char>)>, u: STriple, v: STriple)
    requires
        wf_renaming(m),
        triple_known(m, u),
        triple_known(m, v),
        triple_under(m, u) == triple_under(m, v),
    ensures
        u == v,
{
    lemma_node_under_injective(m, u.subject, v.subject);
    lemma_node_under_injective(m, u.object, v.object);
}

proof fn lemma_node_under_injective(m: Seq<(Seq<char>, Seq<char>)>, a: SNode, b: SNode)
    requires
        wf_renaming(m),
        node_known(m, a),
        node_known(m, b),
        node_under(m, a) == node_under(m, b),
    ensures
        a == b,
{
    match (a, b) {
        (SNode::Blank(x), SNode::Blank(y)) => {
            lemma_vkey_index_hit(m, x);
            lemma_vkey_index_hit(m, y);
            let i = crate::model::vkey_index(m, x).unwrap();
            let j = crate::model::vkey_index(m, y).unwrap();
            assert(m[i].1 == crate::normal::normal_label(i as nat));
            assert(m[j].1 == crate::normal::normal_label(j as nat));
            lemma_normal_label_injective(i as nat, j as nat);
        },
        _ => {},
    }
}

/// Renaming then dropping repeats gives what dropping repeats then renaming
/// gives, with the same renaming.
proof fn lemma_normal_form_dedup(s: Seq<STriple>)
    ensures
        crate::normal::dedup(crate::normal::rename_all(s).0) == crate::normal::rename_all(crate::normal::dedup(s)).0,
        crate::normal::rename_all(s).1 == crate::normal::rename_all(crate::normal::dedup(s)).1,
    decreases s.len(),
{
    if s.len() > 0 {
        let sp = s.drop_last();
        lemma_normal_form_dedup(sp);
        lemma_rename_all(sp);
        lemma_rename_all(s);
        let (p, m) = crate::normal::rename_all(sp);
        let t = s.last();
        let (sn, m1) = crate::normal::rename_node(t.subject, m);
        let (on, m2) = crate::normal::rename_node(t.object, m1);
        let t2 = STriple { subject: sn, predicate: t.predicate, object: on };
        assert(crate::normal::rename_all(s).0 == p.push(t2));
        assert(crate::normal::rename_all(s).1 == m2);
        if s.len() >= 2 && t == s[s.len() - 2] {
            assert(crate::normal::dedup(s) == crate::normal::dedup(sp));
            assert(sp.last() == t);
            assert(triple_known(m, sp[sp.len() - 1]));
            lemma_rename_node_step(t.subject, m);
            lemma_rename_node_step(t.object, m1);
            assert(p[p.len() - 1] == triple_under(m, sp[sp.len() - 1]));
            assert(t2 == p.last());
            assert(p.push(t2)[p.len() - 1] == p.last());
            assert(crate::normal::dedup(p.push(t2)) == crate::normal::dedup(p.push(t2).drop_last()));
            assert(p.push(t2).drop_last() =~= p);
        } else {
            let d = crate::normal::dedup(sp);
            assert(crate::normal::dedup(s) == d.push(t));
            assert(d.push(t).drop_last() =~= d);
            assert(d.push(t).last() == t);
            let (q, mq) = crate::normal::rename_all(d);
            assert(mq == m);
            assert(crate::normal::rename_all(d.push(t)).0 == q.push(t2));
            assert(crate::normal::rename_all(d.push(t)).1 == m2);
            let out = crate::normal::rename_all(s).0;
            if p.len() >= 1 {
                assert(out[s.len() - 2] == triple_under(m2, s[s.len() - 2]));
                assert(out[s.len() - 1] == triple_under(m2, s[s.len() - 1]));
                assert(triple_known(m2, s[s.len() - 2]));
                assert(triple_known(m2, s[s.len() - 1]));
                if t2 == p.last() {
                    assert(out[s.len() - 2] == p.last());
                    lemma_triple_under_injective(m2, s[s.len() - 2], s[s.len() - 1]);
                }
                assert(p.push(t2)[p.push(t2).len() - 2] == p.last());
            }
            assert(p.push(t2).drop_last() =~= p);
            assert(crate::normal::dedup(p.push(t2)) == crate::normal::dedup(p).push(t2));
        }
    }
}

} // verus!

verus! {

/// Sorted with no repeats side by side.
pub open spec fn strictly_sorted(s: Seq<STriple>) -> bool {
    crate::normal::is_sorted(s) && forall|i: int| 0 <= i < s.len() - 1 ==> #[trigger] s[i] != s[i + 1]
}

proof fn lemma_strict_first_least(s: Seq<STriple>, j: int)
    requires
        strictly_sorted(s),
        0 < j < s.len(),
    ensures
        crate::normal::triple_order(s[0], s[j]) < 0,
    decreases j,
{
    crate::normal::lemma_triple_order_antisym(s[j - 1], s[j]);
    assert(s[j - 1] != s[j]);
    assert(crate::normal::triple_le(s[j - 1], s[j]));
    if j > 1 {
        lemma_strict_first_least(s, j - 1);
        lemma_triple_order_trans(s[0], s[j - 1], s[j]);
        crate::normal::lemma_triple_order_antisym(s[0], s[j]);
        crate::normal::lemma_triple_order_antisym(s[0], s[j - 1]);
    }
}

proof fn lemma_dedup_sorted(s: Seq<STriple>)
    requires
        crate::normal::is_sorted(s),
    ensures
        strictly_sorted(crate::normal::dedup(s)),
        forall|x: STriple| #[trigger] crate::normal::dedup(s).contains(x) <==> s.contains(x),
    decreases s.len(),
{
    law_dedup_no_neighbour_repeats(s);
    if s.len() > 0 {
        let sp = s.drop_last();
        assert(crate::normal::is_sorted(sp)) by {
            assert forall|i: int| 0 <= i < sp.len() - 1 implies crate::normal::triple_le(#[trigger] sp[i], sp[i + 1]) by {
                assert(sp[i] == s[i] && sp[i + 1] == s[i + 1]);
            }
        }
        lemma_dedup_sorted(sp);
        let d = crate::normal::dedup(sp);
        if s.len() >= 2 && s.last() == s[s.len() - 2] {
            assert(crate::normal::dedup(s) == d);
            assert forall|x: STriple| #[trigger] d.contains(x) <==> s.contains(x) by {
                if s.contains(x) {
                    let k = choose|k: int| 0 <= k < s.len() && s[k] == x;
                    if k == s.len() - 1 {
                        assert(sp[s.len() - 2] == x);
                    } else {
                        assert(sp[k] == x);
                    }
                }
                if sp.contains(x) {
                    let k = choose|k: int| 0 <= k < sp.len() && sp[k] == x;
                    assert(s[k] == x);
                }
            }
        } else {
            assert(crate::normal::dedup(s) == d.push(s.last()));
            let e = d.push(s.last());
            if d.len() > 0 {
                lemma_dedup_last(sp);
                assert(d.last() == sp.last());
                assert(sp.last() == s[s.len() - 2]);
                assert(crate::normal::triple_le(s[s.len() - 2], s[s.len() - 1]));
            }
            assert forall|i: int| 0 <= i < e.len() - 1 implies crate::normal::triple_le(#[trigger] e[i], e[i + 1]) by {
                if i + 1 < d.len() {
                    assert(e[i] == d[i] && e[i + 1] == d[i + 1]);
                } else {
                    assert(e[i] == d.last());
                }
            }
            assert forall|x: STriple| #[trigger] e.contains(x) <==> s.contains(x) by {
                if s.contains(x) {
                    let k = choose|k: int| 0 <= k < s.len() && s[k] == x;
                    if k == s.len() - 1 {
                        assert(e[e.len() - 1] == x);
                    } else {
                        assert(sp[k] == x);
                        assert(d.contains(x));
                        let j = choose|j: int| 0 <= j < d.len() && d[j] == x;
                        assert(e[j] == x);
                    }
                }
                if e.contains(x) {
                    let k = choose|k: int| 0 <= k < e.len() && e[k] == x;
                    if k == e.len() - 1 {
                        assert(s[s.len() - 1] == x);
                    } else {
                        assert(d[k] == x);
                        assert(d.contains(x));
                        let j = choose|j: int| 0 <= j < sp.len() && sp[j] == x;
                        assert(s[j] == x);
                    }
                }
            }
        }
    }
}

proof fn lemma_strictly_sorted_tail(a: Seq<STriple>)
    requires
        strictly_sorted(a),
        a.len() > 0,
    ensures
        strictly_sorted(a.drop_first()),
        forall|x: STriple| #[trigger] a.drop_first().contains(x) <==> (a.contains(x) && x != a[0]),
{
    let a1 = a.drop_first();
    assert forall|i: int| 0 <= i < a1.len() - 1 implies crate::normal::triple_le(#[trigger] a1[i], a1[i + 1]) by {
        assert(a1[i] == a[i + 1] && a1[i + 1] == a[i + 2]);
    }
    assert forall|i: int| 0 <= i < a1.len() - 1 implies #[trigger] a1[i] != a1[i + 1] by {
        assert(a1[i] == a[i + 1] && a1[i + 1] == a[i + 2]);
    }
    assert forall|x: STriple| #[trigger] a1.contains(x) <==> (a.contains(x) && x != a[0]) by {
        if a1.contains(x) {
            let j = choose|j: int| 0 <= j < a1.len() && a1[j] == x;
            assert(a[j + 1] == x);
            lemma_strict_first_least(a, j + 1);
            crate::normal::lemma_triple_order_antisym(a[0], x);
        }
        if a.contains(x) && x != a[0] {
            let l = choose|l: int| 0 <= l < a.len() && a[l] == x;
            assert(l != 0);
            assert(a1[l - 1] == x);
        }
    }
}

proof fn lemma_strictly_sorted_unique(a: Seq<STriple>, b: Seq<STriple>)
    requires
        strictly_sorted(a),
        strictly_sorted(b),
        forall|x: STriple| #[trigger] a.contains(x) <==> b.contains(x),
    ensures
        a == b,
    decreases a.len(),
{
    if a.len() == 0 {
        if b.len() > 0 {
            assert(b.contains(b[0]));
            assert(a.contains(b[0]));
        }
        assert(b =~= a);
    } else {
        assert(a.contains(a[0]));
        assert(b.contains(a[0]));
        assert(b.len() > 0);
        assert(b.contains(b[0]));
        assert(a.contains(b[0]));
        let i = choose|i: int| 0 <= i < b.len() && b[i] == a[0];
        let k = choose|k: int| 0 <= k < a.len() && a[k] == b[0];
        lemma_sorted_first_least(b, i);
        lemma_sorted_first_least(a, k);
        crate::normal::lemma_triple_order_antisym(a[0], b[0]);
        assert(a[0] == b[0]);
        lemma_strictly_sorted_tail(a);
        lemma_strictly_sorted_tail(b);
        let a1 = a.drop_first();
        let b1 = b.drop_first();
        assert forall|x: STriple| #[trigger] a1.contains(x) <==> b1.contains(x) by {
            assert(a.contains(x) <==> b.contains(x));
        }
        lemma_strictly_sorted_unique(a1, b1);
        assert(a =~= seq![a[0]] + a1);
        assert(b =~= seq![b[0]] + b1);
    }
}

/// The normal form depends on the triples alone, not on their order or on
/// how often each occurs: sorted sequences that hold the same triples have
/// the same normal form.
pub proof fn law_normal_form_ignores_repeats(s1: Seq<STriple>, s2: Seq<STriple>)
    requires
        crate::normal::is_sorted(s1),
        crate::normal::is_sorted(s2),
        s1.to_set() == s2.to_set(),
    ensures
        crate::normal::normal_form(s1) == crate::normal::normal_form(s2),
{
    lemma_dedup_sorted(s1);
    lemma_dedup_sorted(s2);
    assert forall|x: STriple| #[trigger] crate::normal::dedup(s1).contains(x) <==> crate::normal::dedup(s2).contains(x) by {
        assert(s1.to_set().contains(x) <==> s1.contains(x));
        assert(s2.to_set().contains(x) <==> s2.contains(x));
        assert(s1.to_set().contains(x) == s2.to_set().contains(x));
    }
    lemma_strictly_sorted_unique(crate::normal::dedup(s1), crate::normal::dedup(s2));
    lemma_normal_form_dedup(s1);
    lemma_normal_form_dedup(s2);
}

} // verus!

verus! {

proof fn lemma_same_set_as(s: Seq<STriple>, all: Seq<STriple>)
    requires
        s.to_multiset() == all.to_multiset(),
    ensures
        s.to_set() == all.to_set(),
{
    broadcast use vstd::seq_lib::group_to_multiset_ensures;

    assert forall|x: STriple| #[trigger] s.to_set().contains(x) <==> all.to_set().contains(x) by {
        assert(s.to_set().contains(x) <==> s.contains(x));
        assert(all.to_set().contains(x) <==> all.contains(x));
        assert(s.contains(x) <==> s.to_multiset().count(x) > 0);
        assert(all.contains(x) <==> all.to_multiset().count(x) > 0);
    }
    assert(s.to_set() =~= all.to_set());
}

/// Writing depends on which triples a graph holds, not on their order or
/// on repeats: two graphs with the same set of triples are written as the
/// same N-Triples text, and as the same Turtle text where their base and
/// prefixes agree.
pub proof fn law_written_text_ignores_repeats(
    g1: crate::model::LodGraph,
    g2: crate::model::LodGraph,
    f: crate::format::RdfFormat,
    r1: Result<String, crate::error::LodError>,
    r2: Result<String, crate::error::LodError>,
)
    requires
        f == crate::format::RdfFormat::NTriples || (f == crate::format::RdfFormat::Turtle && crate::model::opt_view(g1.base)
            == crate::model::opt_view(g2.base) && g1.prefixes.pairs() == g2.prefixes.pairs()),
        crate::model::triples_view(g1.spec_all_triples()).to_set() == crate::model::triples_view(
            g2.spec_all_triples(),
        ).to_set(),
        crate::parser::written(g1, f, r1),
        crate::parser::written(g2, f, r2),
    ensures
        r1 is Ok && r2 is Ok && r1.unwrap()@ == r2.unwrap()@,
{
    let m1 = crate::model::triples_view(g1.spec_all_triples()).to_multiset();
    let m2 = crate::model::triples_view(g2.spec_all_triples()).to_multiset();
    let s1 = choose|s: Seq<STriple>| #[trigger] crate::normal::is_sorted(s) && s.to_multiset() == m1 && (if f
        == crate::format::RdfFormat::NTriples {
        r1.unwrap()@ == crate::writing::ntriples_text(crate::normal::normal_form(s))
    } else {
        r1.unwrap()@ == crate::writing::turtle_head(crate::model::opt_view(g1.base), g1.prefixes.pairs())
            + crate::writing::lines_text(crate::normal::normal_form(s))
    });
    let s2 = choose|s: Seq<STriple>| #[trigger] crate::normal::is_sorted(s) && s.to_multiset() == m2 && (if f
        == crate::format::RdfFormat::NTriples {
        r2.unwrap()@ == crate::writing::ntriples_text(crate::normal::normal_form(s))
    } else {
        r2.unwrap()@ == crate::writing::turtle_head(crate::model::opt_view(g2.base), g2.prefixes.pairs())
            + crate::writing::lines_text(crate::normal::normal_form(s))
    });
    lemma_same_set_as(s1, crate::model::triples_view(g1.spec_all_triples()));
    lemma_same_set_as(s2, crate::model::triples_view(g2.spec_all_triples()));
    law_normal_form_ignores_repeats(s1, s2);
}

} // verus!

verus! {

// ---------------------------------------------------------------------------
// Literals read back as written
// ---------------------------------------------------------------------------

proof fn lemma_literal_end_skips_escaped(s: Seq<char>, i: int, v: Seq<char>)
    requires
        0 <= i,
        i + crate::writing::nt_escape(v).len() <= s.len(),
        s.subrange(i, i + crate::writing::nt_escape(v).len()) == crate::writing::nt_escape(v),
    ensures
        crate::terms::literal_end(s, i, false) == crate::terms::literal_end(
            s,
            i + crate::writing::nt_escape(v).len(),
            false,
        ),
    decreases v.len(),
{
    if v.len() > 0 {
        let c = v[0];
        let rest = v.drop_first();
        assert(v =~= seq![c] + rest);
        lemma_nt_escape_concat(seq![c], rest);
        assert(seq![c].drop_last() =~= Seq::<char>::empty());
        assert(crate::writing::nt_escape(Seq::<char>::empty()) =~= Seq::<char>::empty());
        assert(crate::writing::nt_escape(seq![c]) == crate::writing::nt_escape(seq![c].drop_last())
            + crate::writing::escape_char(c));
        let e = crate::writing::escape_char(c);
        assert(crate::writing::nt_escape(seq![c]) =~= e);
        let n = crate::writing::nt_escape(v);
        let nr = crate::writing::nt_escape(rest);
        assert(n == e + nr);
        assert(s[i] == n[0]);
        if e.len() == 2 {
            assert(s[i + 1] == n[1]);
            assert(crate::terms::literal_end(s, i, false) == crate::terms::literal_end(s, i + 1, true));
            assert(crate::terms::literal_end(s, i + 1, true) == crate::terms::literal_end(s, i + 2, false));
        } else {
            assert(crate::terms::literal_end(s, i, false) == crate::terms::literal_end(s, i + 1, false));
        }
        assert(s.subrange(i + e.len(), i + e.len() + nr.len()) =~= nr) by {
            assert forall|k: int| 0 <= k < nr.len() implies s.subrange(i + e.len(), i + e.len() + nr.len())[k]
                == nr[k] by {
                assert(s[i + e.len() + k] == n[e.len() + k]);
            }
        }
        lemma_literal_end_skips_escaped(s, i + e.len(), rest);
    }
}

/// A literal reads back as written: the term reader, given the N-Triples
/// text of a literal, returns that literal (a literal carries a language or
/// a datatype, not both, and its language does not end in white space).
pub proof fn law_literal_reads_back(
    value: Seq<char>,
    datatype: Option<Seq<char>>,
    lang: Option<Seq<char>>,
    prefixes: Seq<(Seq<char>, Seq<char>)>,
)
    requires
        !(lang is Some && datatype is Some),
        lang matches Some(l) ==> (l.len() == 0 || !crate::text::is_ws(l.last())),
    ensures
        crate::terms::literal_term(
            crate::writing::node_nt(SNode::Literal { value, datatype, lang }),
            prefixes,
            None,
        ) == Ok::<SNode, Seq<char>>(SNode::Literal { value, datatype, lang }),
{
    reveal_strlit("\"");
    reveal_strlit("@");
    reveal_strlit("^^<");
    reveal_strlit(">");
    reveal_strlit("^^");
    reveal_strlit("<");
    let n = crate::writing::nt_escape(value);
    let q = "\""@ + n + "\""@;
    let o = crate::writing::node_nt(SNode::Literal { value, datatype, lang });
    let tail: Seq<char> = match lang {
        Some(l) => "@"@ + l,
        None => match datatype {
            Some(dt) => "^^<"@ + dt + ">"@,
            None => seq![],
        },
    };
    assert(o == q + tail);
    let e: int = n.len() as int + 1;
    assert(o.subrange(1, e) =~= n);
    lemma_literal_end_skips_escaped(o, 1, value);
    assert(o[e] == '"');
    assert(crate::terms::literal_end(o, e, false) == Some(e));
    law_unescape_inverts_escape(value);
    assert(o.skip(e + 1) =~= tail);
    match lang {
        Some(l) => {
            let t = "@"@ + l;
            assert(t[0] == '@');
            assert(!crate::text::is_ws('@'));
            assert(crate::text::trim_start(t) == t);
            assert(t.last() == '@' || t.last() == l.last());
            assert(crate::text::trim_end(t) == t);
            assert(t.subrange(0, 1) =~= "@"@);
            assert(t.skip(1) =~= l);
        },
        None => match datatype {
            Some(dt) => {
                let t = "^^<"@ + dt + ">"@;
                assert(t[0] == '^');
                assert(t.last() == '>');
                assert(crate::text::trim_start(t) == t);
                assert(crate::text::trim_end(t) == t);
                assert(t.subrange(0, 1) =~= seq!['^']);
                assert("@"@[0] == '@');
                assert(t.subrange(0, 1)[0] != "@"@[0]);
                assert(t.subrange(0, 2) =~= "^^"@);
                let u = t.skip(2);
                assert(u =~= "<"@ + dt + ">"@);
                assert(u[0] == '<' && u.last() == '>');
                assert(crate::text::trim_start(u) == u);
                assert(crate::text::trim_end(u) == u);
                assert(crate::lexer::iri_inside(u) == Some(dt)) by {
                    assert(u.subrange(1, u.len() - 1) =~= dt);
                }
            },
            None => {
                assert(crate::text::trim_start(tail) == tail);
                assert(crate::text::trim_end(tail) == tail);
            },
        },
    }
}

} // verus!

verus! {

// ---------------------------------------------------------------------------
// Turtle statements: comments and an unterminated tail
// ---------------------------------------------------------------------------

proof fn lemma_comment_text_skipped(st: crate::lexer::StmtScan, buf: Seq<char>, c: Seq<char>, rest: Seq<char>)
    requires
        st.in_comment,
        forall|i: int| 0 <= i < c.len() ==> #[trigger] c[i] != '\n',
    ensures
        crate::lexer::stmts(st, buf, c + rest) == crate::lexer::stmts(st, buf, rest),
    decreases c.len(),
{
    if c.len() > 0 {
        assert((c + rest)[0] == c[0]);
        assert((c + rest).drop_first() =~= c.drop_first() + rest);
        lemma_comment_text_skipped(st, buf, c.drop_first(), rest);
    } else {
        assert(c + rest =~= rest);
    }
}

/// A comment outside strings and IRIs is dropped up to the end of its line:
/// scanning `#`, the comment's text and the line feed that ends it leaves
/// the statement being read as the line feed alone would (kept only once a
/// statement has started), one line further on; a comment that runs to the
/// end of the document is dropped whole.
pub proof fn law_turtle_comment_dropped(
    st: crate::lexer::StmtScan,
    buf: Seq<char>,
    c: Seq<char>,
    rest: Seq<char>,
)
    requires
        !st.in_comment,
        crate::lexer::outside(st.lex),
        forall|i: int| 0 <= i < c.len() ==> #[trigger] c[i] != '\n',
    ensures
        crate::lexer::stmts(st, buf, seq!['#'] + c + seq!['\n'] + rest) == crate::lexer::stmts(
            crate::lexer::StmtScan { in_comment: false, line: st.line + 1, ..st },
            if st.started {
                buf.push('\n')
            } else {
                buf
            },
            rest,
        ),
        crate::lexer::stmts(st, buf, seq!['#'] + c) == crate::lexer::stmts(st, buf, seq![]),
{
    let sc = crate::lexer::StmtScan { in_comment: true, ..st };
    let s = seq!['#'] + c + seq!['\n'] + rest;
    assert(s[0] == '#');
    assert(s.drop_first() =~= c + (seq!['\n'] + rest));
    assert(crate::lexer::stmts(st, buf, s) == crate::lexer::stmts(sc, buf, c + (seq!['\n'] + rest)));
    lemma_comment_text_skipped(sc, buf, c, seq!['\n'] + rest);
    assert((seq!['\n'] + rest)[0] == '\n');
    assert((seq!['\n'] + rest).drop_first() =~= rest);
    let t = seq!['#'] + c;
    assert(t[0] == '#');
    assert(t.drop_first() =~= c + Seq::<char>::empty());
    assert(crate::lexer::stmts(st, buf, t) == crate::lexer::stmts(sc, buf, c + Seq::<char>::empty()));
    lemma_comment_text_skipped(sc, buf, c, Seq::<char>::empty());
}

/// Text with no `.` and no `#` ends no statement: what is read so far and
/// that text make one statement, trimmed, if they are not blank, and none
/// otherwise. So a non-blank tail without its closing `.` is still returned
/// as the last statement.
pub proof fn law_turtle_tail_kept(st: crate::lexer::StmtScan, buf: Seq<char>, s: Seq<char>)
    requires
        !st.in_comment,
        forall|i: int| 0 <= i < s.len() ==> #[trigger] s[i] != '.' && s[i] != '#',
    ensures
        crate::lexer::stmts(st, buf, s).len() == if crate::text::trim(buf + s).len() > 0 {
            1int
        } else {
            0int
        },
        crate::text::trim(buf + s).len() > 0 ==> crate::lexer::stmts(st, buf, s)[0].1 == crate::text::trim(buf + s),
    decreases s.len(),
{
    if s.len() == 0 {
        assert(buf + s =~= buf);
    } else {
        let ch = s[0];
        let rest = s.drop_first();
        assert forall|i: int| 0 <= i < rest.len() implies #[trigger] rest[i] != '.' && rest[i] != '#' by {
            assert(rest[i] == s[i + 1]);
        }
        assert(buf.push(ch) + rest =~= buf + s);
        let line1: nat = if ch == '\n' { st.line + 1 } else { st.line };
        let starts = !st.started && !crate::text::is_ws(ch) && ch != '#';
        let st2 = crate::lexer::StmtScan {
            lex: crate::lexer::split_step(st.lex, ch),
            in_comment: false,
            started: st.started || starts,
            line: line1,
            start_line: if starts { line1 } else { st.start_line },
        };
        assert(crate::lexer::stmts(st, buf, s) == crate::lexer::stmts(st2, buf.push(ch), rest));
        law_turtle_tail_kept(st2, buf.push(ch), rest);
    }
}

/// A document with no `.` and no `#` is one statement, its trimmed text,
/// unless it is blank.
pub proof fn law_turtle_document_without_dot(content: Seq<char>)
    requires
        forall|i: int| 0 <= i < content.len() ==> #[trigger] content[i] != '.' && content[i] != '#',
    ensures
        crate::lexer::turtle_statements(content).len() == if crate::text::trim(content).len() > 0 {
            1int
        } else {
            0int
        },
        crate::text::trim(content).len() > 0 ==> crate::lexer::turtle_statements(content)[0].1 == crate::text::trim(
            content,
        ),
{
    law_turtle_tail_kept(crate::lexer::stmt_scan0(), seq![], content);
    assert(Seq::<char>::empty() + content =~= content);
}

} // verus!

verus! {

// ---------------------------------------------------------------------------
// Validation without shapes
// ---------------------------------------------------------------------------

/// Whether every issue names the given source.
pub open spec fn all_from(is: Seq<crate::model::IssueView>, src: Seq<char>) -> bool {
    forall|i: int| 0 <= i < is.len() ==> (#[trigger] is[i]).source == Some(src)
}

proof fn lemma_all_from_concat(a: Seq<crate::model::IssueView>, b: Seq<crate::model::IssueView>, src: Seq<char>)
    requires
        all_from(a, src),
        all_from(b, src),
    ensures
        all_from(a + b, src),
{
    assert forall|i: int| 0 <= i < (a + b).len() implies (#[trigger] (a + b)[i]).source == Some(src) by {
        if i < a.len() {
            assert((a + b)[i] == a[i]);
        } else {
            assert((a + b)[i] == b[i - a.len()]);
        }
    }
}

proof fn lemma_iri_issues_from(iri: Seq<char>, line: usize, src: Seq<char>)
    ensures
        all_from(crate::validate::iri_issues(iri, line, src), src),
{
}

proof fn lemma_graph_issues_from(ts: Seq<STriple>, src: Seq<char>)
    ensures
        all_from(crate::validate::graph_issues(ts, src), src),
    decreases ts.len(),
{
    if ts.len() > 0 {
        let p = ts.drop_last();
        let t = ts.last();
        lemma_graph_issues_from(p, src);
        let line = (ts.len() - 1 + 1) as usize;
        match t.subject {
            SNode::Iri(i) => lemma_iri_issues_from(i, line, src),
            _ => {},
        }
        match t.object {
            SNode::Iri(i) => lemma_iri_issues_from(i, line, src),
            _ => {},
        }
        let ti = crate::validate::triple_issues(p, t, ts.len() - 1, src);
        assert(all_from(ti, src)) by {
            let dup = if p.contains(t) {
                seq![
                    crate::model::plain_issue(
                        "Info"@,
                        "Duplicate triple encountered; serializers normalize repeated triples."@,
                        Some(line),
                        None,
                        Some("Remove repeated triples to keep the graph compact."@),
                        src,
                    ),
                ]
            } else {
                seq![]
            };
            let pred = if !crate::terms::is_http(t.predicate) {
                seq![
                    crate::model::plain_issue(
                        "Warning"@,
                        "Predicate is not an HTTP IRI: "@ + t.predicate,
                        Some(line),
                        Some(t.predicate),
                        Some("Use an absolute HTTP or HTTPS predicate IRI when possible."@),
                        src,
                    ),
                ]
            } else {
                seq![]
            };
            let subj = match t.subject {
                SNode::Iri(i) => crate::validate::iri_issues(i, line, src),
                _ => seq![],
            };
            let obj = match t.object {
                SNode::Iri(i) => crate::validate::iri_issues(i, line, src),
                _ => seq![],
            };
            assert(ti == dup + pred + subj + obj);
            lemma_all_from_concat(dup, pred, src);
            lemma_all_from_concat(dup + pred, subj, src);
            lemma_all_from_concat(dup + pred + subj, obj, src);
        }
        lemma_all_from_concat(crate::validate::graph_issues(p, src), ti, src);
    }
}

/// Every issue raised by checking a document names the document's source.
pub proof fn law_source_issues_name_their_source(
    content: Seq<char>,
    p: Result<Seq<STriple>, Seq<char>>,
    src: Seq<char>,
)
    ensures
        all_from(crate::validate::source_issues(content, p, src), src),
{
    match p {
        Ok(ts) => lemma_graph_issues_from(ts, src),
        Err(e) => {},
    }
}

/// Validation for the SHACL report without shapes: the report is the plain
/// report of the same reading with one more issue, the note that SHACL
/// validation was skipped (severity `Info`, source `shacl`); no issue before
/// it names the source `shacl`, and the note does not change whether the
/// report conforms.
pub proof fn law_no_shapes_note(
    content: Seq<char>,
    fmt: crate::format::RdfFormat,
    shapes_format: Option<crate::format::RdfFormat>,
    r: Result<crate::model::ValidationReport, crate::error::LodError>,
)
    requires
        crate::validate::inline_validation(content, fmt, None, shapes_format, true, r),
    ensures
        r is Ok,
        exists|p: Result<Seq<STriple>, Seq<char>>| #[trigger] crate::parser::parsed_as(content, fmt, p) && {
            let base = crate::validate::source_issues(content, p, "input"@);
            &&& crate::model::issues_view(r.unwrap().issues@) == base.push(crate::validate::no_shapes_issue())
            &&& r.unwrap().conforms == crate::validate::conforms_of(base)
        },
        crate::model::issues_view(r.unwrap().issues@).len() >= 1,
        crate::model::issues_view(r.unwrap().issues@).last() == crate::validate::no_shapes_issue(),
        crate::validate::no_shapes_issue().severity == "Info"@,
        crate::validate::no_shapes_issue().source == Some("shacl"@),
        crate::validate::no_shapes_issue().message == "No SHACL shapes were provided, so SHACL validation was skipped."@,
        forall|i: int|
            0 <= i < crate::model::issues_view(r.unwrap().issues@).len() - 1 ==> (#[trigger] crate::model::issues_view(
                r.unwrap().issues@,
            )[i]).source != Some("shacl"@),
{
    reveal_strlit("Info");
    reveal_strlit("Violation");
    reveal_strlit("input");
    reveal_strlit("shacl");
    let p = choose|p: Result<Seq<STriple>, Seq<char>>| #[trigger] crate::parser::parsed_as(content, fmt, p) && {
        let base = crate::validate::source_issues(content, p, "input"@);
        crate::validate::report_of(base.push(crate::validate::no_shapes_issue()), r)
    };
    let base = crate::validate::source_issues(content, p, "input"@);
    let note = crate::validate::no_shapes_issue();
    law_source_issues_name_their_source(content, p, "input"@);
    assert("Info"@ != "Violation"@) by {
        assert("Info"@[0] != "Violation"@[0]);
    }
    assert(base.push(note) =~= base + seq![note]);
    lemma_conforms_concat(base, seq![note]);
    assert("input"@ != "shacl"@) by {
        assert("input"@[0] != "shacl"@[0]);
    }
    let is = crate::model::issues_view(r.unwrap().issues@);
    assert forall|i: int| 0 <= i < is.len() - 1 implies (#[trigger] is[i]).source != Some("shacl"@) by {
        assert(is[i] == base[i]);
    }
}

} // verus!

verus! {

// ---------------------------------------------------------------------------
// Two readings of a document conform alike
// ---------------------------------------------------------------------------

/// No subject or object of the triples is an IRI with a space.
pub open spec fn spaced_free(ts: Seq<STriple>) -> bool {
    forall|i: int| 0 <= i < ts.len() ==> !has_spaced_iri(#[trigger] ts[i])
}

proof fn lemma_renamed_printed_node(
    a: Seq<char>,
    b: Seq<char>,
    f: spec_fn(Seq<char>) -> Seq<char>,
    printer: crate::printed::Printer,
    star: Seq<char>,
)
    requires
        crate::reading::term_renamed(a, b, f),
    ensures
        crate::printed::printed_node(a, printer, star) is Iri ==> crate::printed::printed_node(b, printer, star)
            == crate::printed::printed_node(a, printer, star),
        !(crate::printed::printed_node(a, printer, star) is Iri) ==> !(crate::printed::printed_node(
            b,
            printer,
            star,
        ) is Iri),
{
    reveal_strlit("_:");
    reveal_strlit("<<");
    reveal_strlit("<");
    if crate::terms::has_prefix(a, "_:"@) {
        assert(a.subrange(0, 2)[0] == a[0]);
        assert("_:"@[0] == '_');
        assert(a[0] == '_');
        assert(!crate::terms::has_prefix(a, "<<"@)) by {
            assert(a.subrange(0, 2)[0] != "<<"@[0]);
        }
        assert(!crate::terms::has_prefix(a, "<"@)) by {
            assert(a.subrange(0, 1)[0] != "<"@[0]);
        }
        assert(b[0] == b.subrange(0, 2)[0]);
        assert(crate::terms::has_prefix(b, "_:"@));
        assert(b[0] == '_');
        assert(!crate::terms::has_prefix(b, "<<"@)) by {
            assert(b.subrange(0, 2)[0] != "<<"@[0]);
        }
        assert(!crate::terms::has_prefix(b, "<"@)) by {
            assert(b.subrange(0, 1)[0] != "<"@[0]);
        }
    }
}

proof fn lemma_renamed_triple_spaced(
    a: (Seq<char>, Seq<char>, Seq<char>),
    b: (Seq<char>, Seq<char>, Seq<char>),
    f: spec_fn(Seq<char>) -> Seq<char>,
)
    requires
        crate::reading::term_renamed(a.0, b.0, f),
        crate::reading::term_renamed(a.2, b.2, f),
    ensures
        has_spaced_iri(crate::reading::printed_triple(a, crate::printed::Printer::Ox)) == has_spaced_iri(
            crate::reading::printed_triple(b, crate::printed::Printer::Ox),
        ),
{
    lemma_renamed_printed_node(a.0, b.0, f, crate::printed::Printer::Ox, crate::reading::star_subject());
    lemma_renamed_printed_node(a.2, b.2, f, crate::printed::Printer::Ox, crate::reading::star_object());
}

proof fn lemma_listing_spaced(
    c: Seq<(Seq<char>, Seq<char>, Seq<char>)>,
    v: Seq<(Seq<char>, Seq<char>, Seq<char>)>,
    f: spec_fn(Seq<char>) -> Seq<char>,
)
    requires
        crate::reading::listing_renamed(c, v, f),
    ensures
        spaced_free(crate::reading::printed_triples(c, crate::printed::Printer::Ox)) == spaced_free(
            crate::reading::printed_triples(v, crate::printed::Printer::Ox),
        ),
{
    let pc = crate::reading::printed_triples(c, crate::printed::Printer::Ox);
    let pv = crate::reading::printed_triples(v, crate::printed::Printer::Ox);
    assert forall|i: int| 0 <= i < c.len() implies has_spaced_iri(#[trigger] pc[i]) == has_spaced_iri(pv[i]) by {
        assert(crate::reading::term_renamed(c[i].0, v[i].0, f));
        lemma_renamed_triple_spaced(c[i], v[i], f);
    }
    if !spaced_free(pc) {
        let i = choose|i: int| 0 <= i < pc.len() && has_spaced_iri(#[trigger] pc[i]);
        assert(has_spaced_iri(pv[i]));
    }
    if !spaced_free(pv) {
        let i = choose|i: int| 0 <= i < pv.len() && has_spaced_iri(#[trigger] pv[i]);
        assert(has_spaced_iri(pc[i]));
    }
}

proof fn lemma_spaced_free_push(d: Seq<STriple>, t: STriple)
    ensures
        spaced_free(d.push(t)) == (spaced_free(d) && !has_spaced_iri(t)),
{
    if spaced_free(d.push(t)) {
        assert forall|i: int| 0 <= i < d.len() implies !has_spaced_iri(#[trigger] d[i]) by {
            assert(d.push(t)[i] == d[i]);
        }
        assert(d.push(t)[d.len() as int] == t);
    }
    if spaced_free(d) && !has_spaced_iri(t) {
        assert forall|i: int| 0 <= i < d.push(t).len() implies !has_spaced_iri(#[trigger] d.push(t)[i]) by {
            if i < d.len() {
                assert(d.push(t)[i] == d[i]);
            }
        }
    }
}

#[verifier::spinoff_prover]
proof fn lemma_quads_spaced(
    c: Seq<(Seq<char>, Seq<char>, Seq<char>, Seq<char>)>,
    v: Seq<(Seq<char>, Seq<char>, Seq<char>, Seq<char>)>,
    f: spec_fn(Seq<char>) -> Seq<char>,
)
    requires
        crate::reading::quads_renamed(c, v, f),
    ensures
        spaced_free(crate::reading::quads_dataset(c).0) == spaced_free(crate::reading::quads_dataset(v).0),
    decreases c.len(),
{
    reveal_strlit("DEFAULT");
    reveal_strlit("_:");
    reveal_strlit("<<");
    if c.len() > 0 {
        let cp = c.drop_last();
        let vp = v.drop_last();
        assert forall|i: int| 0 <= i < cp.len() implies crate::reading::term_renamed(cp[i].0, #[trigger] vp[i].0, f)
            && vp[i].1 == cp[i].1 && crate::reading::term_renamed(cp[i].2, vp[i].2, f)
            && crate::reading::term_renamed(cp[i].3, vp[i].3, f) by {
            assert(cp[i] == c[i] && vp[i] == v[i]);
            assert(crate::reading::term_renamed(c[i].0, v[i].0, f));
        }
        assert(cp.len() == vp.len());
        assert(crate::reading::quads_renamed(cp, vp, f));
        lemma_quads_spaced(cp, vp, f);
        let qc = c.last();
        let qv = v.last();
        assert(crate::reading::term_renamed(c[c.len() - 1].0, v[c.len() - 1].0, f));
        lemma_renamed_triple_spaced((qc.0, qc.1, qc.2), (qv.0, qv.1, qv.2), f);
        let tc = crate::reading::printed_triple((qc.0, qc.1, qc.2), crate::printed::Printer::Ox);
        let tv = crate::reading::printed_triple((qv.0, qv.1, qv.2), crate::printed::Printer::Ox);
        let dc = crate::reading::quads_dataset(cp).0;
        let dv = crate::reading::quads_dataset(vp).0;
        assert((crate::reading::graph_key(qc.3) is None) == (crate::reading::graph_key(qv.3) is None)) by {
            if crate::terms::has_prefix(qc.3, "_:"@) {
                assert(qc.3.subrange(0, 2)[0] == qc.3[0]);
                assert(qv.3.subrange(0, 2)[0] == qv.3[0]);
                assert(qv.3[0] == '_');
                assert(qc.3[0] == '_');
                assert(qv.3 != "DEFAULT"@) by {
                    assert("DEFAULT"@[0] == 'D');
                }
                assert(qc.3 != "DEFAULT"@) by {
                    assert("DEFAULT"@[0] == 'D');
                }
            } else if crate::terms::has_prefix(qc.3, "<<"@) {
                assert(qc.3.subrange(0, 2)[0] == qc.3[0]);
                assert(qv.3.subrange(0, 2)[0] == qv.3[0]);
                assert(qv.3 != "DEFAULT"@) by {
                    assert("DEFAULT"@[0] == 'D');
                }
                assert(qc.3 != "DEFAULT"@) by {
                    assert("DEFAULT"@[0] == 'D');
                }
            }
        }
        if crate::reading::graph_key(qc.3) is None {
            lemma_spaced_free_push(dc, tc);
            lemma_spaced_free_push(dv, tv);
        }
    }
}

/// Whether a document conforms does not depend on how it was read: two
/// readings of the same document (RDF/XML and TriG readings name anonymous
/// blank nodes at random) raise issues that conform alike.
pub proof fn law_readings_conform_alike(
    content: Seq<char>,
    fmt: crate::format::RdfFormat,
    p1: Result<Seq<STriple>, Seq<char>>,
    p2: Result<Seq<STriple>, Seq<char>>,
    src: Seq<char>,
)
    requires
        crate::parser::parsed_as(content, fmt, p1),
        crate::parser::parsed_as(content, fmt, p2),
    ensures
        crate::validate::conforms_of(crate::validate::source_issues(content, p1, src))
            == crate::validate::conforms_of(crate::validate::source_issues(content, p2, src)),
{
    reveal_strlit("Violation");
    match p1 {
        Ok(ts) => law_conforms_iff_no_spaced_iri(ts, src),
        Err(e) => {
            assert(crate::validate::source_issues(content, p1, src)[0].severity == "Violation"@);
        },
    }
    match p2 {
        Ok(ts) => law_conforms_iff_no_spaced_iri(ts, src),
        Err(e) => {
            assert(crate::validate::source_issues(content, p2, src)[0].severity == "Violation"@);
        },
    }
    match fmt {
        crate::format::RdfFormat::RdfXml => {
            let l1 = choose|l: Result<Seq<(Seq<char>, Seq<char>, Seq<char>)>, Seq<char>>| #[trigger] crate::reading::read_as(
                crate::reading::rdfxml_listing(content),
                l,
            ) && p1 == crate::parser::listing_triples(l, crate::printed::Printer::Ox);
            let l2 = choose|l: Result<Seq<(Seq<char>, Seq<char>, Seq<char>)>, Seq<char>>| #[trigger] crate::reading::read_as(
                crate::reading::rdfxml_listing(content),
                l,
            ) && p2 == crate::parser::listing_triples(l, crate::printed::Printer::Ox);
            if let Ok(c) = crate::reading::rdfxml_listing(content) {
                let v1 = l1->Ok_0;
                let v2 = l2->Ok_0;
                let f1 = choose|f: spec_fn(Seq<char>) -> Seq<char>| #[trigger] crate::reading::listing_renamed(c, v1, f);
                let f2 = choose|f: spec_fn(Seq<char>) -> Seq<char>| #[trigger] crate::reading::listing_renamed(c, v2, f);
                lemma_listing_spaced(c, v1, f1);
                lemma_listing_spaced(c, v2, f2);
            }
        },
        crate::format::RdfFormat::TriG => {
            let l1 = choose|l: Result<Seq<(Seq<char>, Seq<char>, Seq<char>, Seq<char>)>, Seq<char>>| #[trigger] crate::reading::quads_read_as(
                crate::reading::trig_listing(content),
                l,
            ) && p1 == match l {
                Ok(qs) => Ok(crate::reading::quads_dataset(qs).0),
                Err(m) => Err("RDF parsing error: "@ + m),
            };
            let l2 = choose|l: Result<Seq<(Seq<char>, Seq<char>, Seq<char>, Seq<char>)>, Seq<char>>| #[trigger] crate::reading::quads_read_as(
                crate::reading::trig_listing(content),
                l,
            ) && p2 == match l {
                Ok(qs) => Ok(crate::reading::quads_dataset(qs).0),
                Err(m) => Err("RDF parsing error: "@ + m),
            };
            if let Ok(c) = crate::reading::trig_listing(content) {
                let v1 = l1->Ok_0;
                let v2 = l2->Ok_0;
                let f1 = choose|f: spec_fn(Seq<char>) -> Seq<char>| #[trigger] crate::reading::quads_renamed(c, v1, f);
                let f2 = choose|f: spec_fn(Seq<char>) -> Seq<char>| #[trigger] crate::reading::quads_renamed(c, v2, f);
                lemma_quads_spaced(c, v1, f1);
                lemma_quads_spaced(c, v2, f2);
            }
        },
        _ => {},
    }
}

/// Validation for the SHACL report without shapes conforms exactly when the
/// plain validation of the same document does.
pub proof fn law_no_shapes_conforms_as_plain(
    content: Seq<char>,
    fmt: crate::format::RdfFormat,
    sf1: Option<crate::format::RdfFormat>,
    sf2: Option<crate::format::RdfFormat>,
    r1: Result<crate::model::ValidationReport, crate::error::LodError>,
    r2: Result<crate::model::ValidationReport, crate::error::LodError>,
)
    requires
        crate::validate::inline_validation(content, fmt, None, sf1, true, r1),
        crate::validate::inline_validation(content, fmt, None, sf2, false, r2),
    ensures
        r1 is Ok && r2 is Ok,
        r1.unwrap().conforms == r2.unwrap().conforms,
{
    law_no_shapes_note(content, fmt, sf1, r1);
    let p1 = choose|p: Result<Seq<STriple>, Seq<char>>| #[trigger] crate::parser::parsed_as(content, fmt, p) && {
        let base = crate::validate::source_issues(content, p, "input"@);
        &&& crate::model::issues_view(r1.unwrap().issues@) == base.push(crate::validate::no_shapes_issue())
        &&& r1.unwrap().conforms == crate::validate::conforms_of(base)
    };
    let p2 = choose|p: Result<Seq<STriple>, Seq<char>>| #[trigger] crate::parser::parsed_as(content, fmt, p) && {
        let base = crate::validate::source_issues(content, p, "input"@);
        crate::validate::report_of(base, r2)
    };
    law_readings_conform_alike(content, fmt, p1, p2, "input"@);
}

} // verus!

verus! {

/// JSON-LD writing also depends only on which triples a graph holds: two
/// graphs with the same set of triples and the same prefixes are written as
/// the same JSON-LD text, or fail alike.
pub proof fn law_jsonld_text_ignores_repeats(
    g1: crate::model::LodGraph,
    g2: crate::model::LodGraph,
    r1: Result<String, crate::error::LodError>,
    r2: Result<String, crate::error::LodError>,
)
    requires
        g1.prefixes.pairs() == g2.prefixes.pairs(),
        crate::model::triples_view(g1.spec_all_triples()).to_set() == crate::model::triples_view(
            g2.spec_all_triples(),
        ).to_set(),
        crate::parser::written(g1, crate::format::RdfFormat::JsonLd, r1),
        crate::parser::written(g2, crate::format::RdfFormat::JsonLd, r2),
    ensures
        r1 is Ok <==> r2 is Ok,
        r1 is Ok ==> r1.unwrap()@ == r2.unwrap()@,
        r1 is Err ==> r1->Err_0 is Json && r2->Err_0 is Json && crate::error::error_detail(r1->Err_0)
            == crate::error::error_detail(r2->Err_0),
{
    let m1 = crate::model::triples_view(g1.spec_all_triples()).to_multiset();
    let m2 = crate::model::triples_view(g2.spec_all_triples()).to_multiset();
    let s1 = choose|s: Seq<STriple>| #[trigger] crate::normal::is_sorted(s) && s.to_multiset() == m1 && match crate::json::json_pretty_text(
        crate::writing::jsonld_doc_view(g1.prefixes.pairs(), crate::normal::normal_form(s)),
    ) {
        Ok(t) => r1 is Ok && r1.unwrap()@ == t,
        Err(m) => r1 is Err && r1->Err_0 is Json && crate::error::error_detail(r1->Err_0) == m,
    };
    let s2 = choose|s: Seq<STriple>| #[trigger] crate::normal::is_sorted(s) && s.to_multiset() == m2 && match crate::json::json_pretty_text(
        crate::writing::jsonld_doc_view(g2.prefixes.pairs(), crate::normal::normal_form(s)),
    ) {
        Ok(t) => r2 is Ok && r2.unwrap()@ == t,
        Err(m) => r2 is Err && r2->Err_0 is Json && crate::error::error_detail(r2->Err_0) == m,
    };
    lemma_same_set_as(s1, crate::model::triples_view(g1.spec_all_triples()));
    lemma_same_set_as(s2, crate::model::triples_view(g2.spec_all_triples()));
    law_normal_form_ignores_repeats(s1, s2);
}

} // verus!

verus! {

// ---------------------------------------------------------------------------
// The HTML report page
// ---------------------------------------------------------------------------

/// Whether `p` occurs in `s`.
pub open spec fn holds_text(s: Seq<char>, p: Seq<char>) -> bool {
    exists|a: Seq<char>, b: Seq<char>| #[trigger] (a + p + b) == s
}

/// A count card of the report page.
pub open spec fn card_text(k: Seq<char>, n: nat) -> Seq<char> {
    r#"<div class="k">"#@ + k + r#"</div><div class="v">"#@ + crate::terms::decimal(n) + "</div>"@
}

/// The cell in which an issue's message is shown.
pub open spec fn message_cell(m: Seq<char>) -> Seq<char> {
    r#"<div class="issue-message">"#@ + crate::report::html_escape(m) + "</div>"@
}

proof fn lemma_holds_in(s: Seq<char>, p: Seq<char>, a: Seq<char>, b: Seq<char>)
    requires
        s == a + p + b,
    ensures
        holds_text(s, p),
{
}

proof fn lemma_holds_wrap(x: Seq<char>, s: Seq<char>, y: Seq<char>, p: Seq<char>)
    requires
        holds_text(s, p),
    ensures
        holds_text(x + s + y, p),
{
    let (a, b) = choose|a: Seq<char>, b: Seq<char>| #[trigger] (a + p + b) == s;
    assert(x + s + y =~= (x + a) + p + (b + y));
    lemma_holds_in(x + s + y, p, x + a, b + y);
}

proof fn lemma_row_shows_message(i: crate::model::IssueView)
    ensures
        holds_text(crate::report::issue_row(i), message_cell(i.message)),
{
    reveal_strlit(r#"</td><td><div class="issue-message">"#);
    reveal_strlit(r#"<div class="issue-message">"#);
    reveal_strlit("</td><td>");
    reveal_strlit("</div></td><td>");
    reveal_strlit("</div>");
    let src = crate::report::source_or_input(i);
    let a = r#"<tr><td><span class="sev sev-"#@ + crate::text::lower(i.severity) + r#"">"#@ + i.severity
        + r#"</span></td><td><span class="source-chip "#@ + crate::text::lower(src) + r#"">"#@
        + crate::report::html_escape(src) + "</span></td><td>"@ + crate::report::number_or_dash(i.line)
        + "</td><td>"@ + crate::report::number_or_dash(i.column) + "</td><td>"@ + crate::report::escaped_or_dash(
        i.token,
    ) + "</td><td>"@;
    let b = "</td><td>"@ + crate::report::escaped_or_dash(i.suggestion) + "</td></tr>"@;
    assert(r#"</td><td><div class="issue-message">"#@ =~= "</td><td>"@ + r#"<div class="issue-message">"#@);
    assert("</div></td><td>"@ =~= "</div>"@ + "</td><td>"@);
    assert(crate::report::issue_row(i) =~= a + message_cell(i.message) + b);
    lemma_holds_in(crate::report::issue_row(i), message_cell(i.message), a, b);
}

proof fn lemma_rows_show_messages(is: Seq<crate::model::IssueView>, k: int)
    requires
        0 <= k < is.len(),
    ensures
        holds_text(crate::report::issue_rows(is), message_cell(is[k].message)),
    decreases is.len(),
{
    let p = is.drop_last();
    if k == is.len() - 1 {
        lemma_row_shows_message(is.last());
        lemma_holds_wrap(crate::report::issue_rows(p), crate::report::issue_row(is.last()), seq![], message_cell(
            is[k].message,
        ));
        assert(crate::report::issue_rows(p) + crate::report::issue_row(is.last()) + Seq::<char>::empty()
            =~= crate::report::issue_rows(is));
    } else {
        lemma_rows_show_messages(p, k);
        assert(p[k] == is[k]);
        lemma_holds_wrap(seq![], crate::report::issue_rows(p), crate::report::issue_row(is.last()), message_cell(
            is[k].message,
        ));
        assert(Seq::<char>::empty() + crate::report::issue_rows(p) + crate::report::issue_row(is.last())
            =~= crate::report::issue_rows(is));
    }
}

proof fn lemma_page_pieces()
    ensures
        crate::report::HTML_AFTER_CONFORMS@ =~= "</strong>"@ + r#"</p></section><section class="grid"><div class="card">"#@
            + r#"<div class="k">"#@ + "Issues"@ + r#"</div><div class="v">"#@,
        crate::report::HTML_AFTER_ISSUES@ =~= "</div>"@ + r#"</div><div class="card ok">"#@ + r#"<div class="k">"#@
            + "Violations"@ + r#"</div><div class="v">"#@,
        crate::report::HTML_AFTER_VIOLATIONS@ =~= "</div>"@ + r#"</div><div class="card warn">"#@
            + r#"<div class="k">"#@ + "Warnings"@ + r#"</div><div class="v">"#@,
        crate::report::HTML_AFTER_WARNINGS@ =~= "</div>"@ + r#"</div><div class="card">"#@ + r#"<div class="k">"#@
            + "Info"@ + r#"</div><div class="v">"#@,
        crate::report::HTML_AFTER_INFOS@ =~= "</div>"@ + r#"</div></section><section class="panel"><table><thead><tr><th>Severity</th><th>Source</th><th>Line</th><th>Column</th><th>Token</th><th>Message</th><th>Hint</th></tr></thead><tbody>"#@,
        crate::report::HTML_CONFORMS_OPEN@ == "Conforms: <strong>"@,
        crate::report::EMPTY_ROW@ =~= r#"<tr><td colspan="7" class="empty">"#@ + "No validation issues were found."@
            + "</td></tr>"@,
{
    reveal_strlit(r#"<div class="k">"#);
    reveal_strlit(r#"</div><div class="v">"#);
    reveal_strlit("</div>");
    reveal_strlit("</strong>");
    reveal_strlit("Issues");
    reveal_strlit("Violations");
    reveal_strlit("Warnings");
    reveal_strlit("Info");
    reveal_strlit(r#"</p></section><section class="grid"><div class="card">"#);
    reveal_strlit(r#"</div><div class="card ok">"#);
    reveal_strlit(r#"</div><div class="card warn">"#);
    reveal_strlit(r#"</div><div class="card">"#);
    reveal_strlit(r#"</strong></p></section><section class="grid"><div class="card"><div class="k">Issues</div><div class="v">"#);
    reveal_strlit(r#"</div></div><div class="card ok"><div class="k">Violations</div><div class="v">"#);
    reveal_strlit(r#"</div></div><div class="card warn"><div class="k">Warnings</div><div class="v">"#);
    reveal_strlit(r#"</div></div><div class="card"><div class="k">Info</div><div class="v">"#);
    reveal_strlit(r#"</div></div></section><section class="panel"><table><thead><tr><th>Severity</th><th>Source</th><th>Line</th><th>Column</th><th>Token</th><th>Message</th><th>Hint</th></tr></thead><tbody>"#);
    reveal_strlit(r#"</div></section><section class="panel"><table><thead><tr><th>Severity</th><th>Source</th><th>Line</th><th>Column</th><th>Token</th><th>Message</th><th>Hint</th></tr></thead><tbody>"#);
    reveal_strlit(r#"<tr><td colspan="7" class="empty">No validation issues were found.</td></tr>"#);
    reveal_strlit(r#"<tr><td colspan="7" class="empty">"#);
    reveal_strlit("No validation issues were found.");
    reveal_strlit("</td></tr>");
}

proof fn lemma_holds_right(s: Seq<char>, y: Seq<char>, p: Seq<char>)
    requires
        holds_text(s, p),
    ensures
        holds_text(s + y, p),
{
    lemma_holds_wrap(seq![], s, y, p);
    assert(Seq::<char>::empty() + s + y =~= s + y);
}

proof fn lemma_holds_left(x: Seq<char>, s: Seq<char>, p: Seq<char>)
    requires
        holds_text(s, p),
    ensures
        holds_text(x + s, p),
{
    lemma_holds_wrap(x, s, seq![], p);
    assert(x + s + Seq::<char>::empty() =~= x + s);
}

proof fn lemma_card_in(l: Seq<char>, u: Seq<char>, k: Seq<char>, d: Seq<char>, c: Seq<char>, v: Seq<char>)
    ensures
        holds_text(l + (u + k) + d + (c + v), k + d + c),
{
    assert(l + (u + k) + d + (c + v) =~= (l + u) + (k + d + c) + v);
    lemma_holds_in(l + (u + k) + d + (c + v), k + d + c, l + u, v);
}

/// What the HTML report page shows: the conformance flag, the four count
/// cards (issues, then violations, warnings and notes counted by severity
/// regardless of case), the message that no issues were found when there
/// are none, and every issue's message with `&`, `<` and `>` escaped.
pub proof fn law_html_report_shows(conforms: bool, is: Seq<crate::model::IssueView>)
    ensures
        holds_text(
            crate::report::report_html(conforms, is),
            "Conforms: <strong>"@ + crate::report::bool_text(conforms) + "</strong>"@,
        ),
        holds_text(crate::report::report_html(conforms, is), card_text("Issues"@, is.len())),
        holds_text(
            crate::report::report_html(conforms, is),
            card_text("Violations"@, crate::report::severity_count(is, "violation"@)),
        ),
        holds_text(
            crate::report::report_html(conforms, is),
            card_text("Warnings"@, crate::report::severity_count(is, "warning"@)),
        ),
        holds_text(
            crate::report::report_html(conforms, is),
            card_text("Info"@, crate::report::severity_count(is, "info"@)),
        ),
        is.len() == 0 ==> holds_text(crate::report::report_html(conforms, is), "No validation issues were found."@),
        forall|k: int|
            0 <= k < is.len() ==> holds_text(crate::report::report_html(conforms, is), message_cell(#[trigger] is[k].message)),
{
    lemma_page_pieces();
    let k_open = r#"<div class="k">"#@;
    let k_close = r#"</div><div class="v">"#@;
    let close = "</div>"@;
    let head = crate::report::HTML_HEAD@;
    let o = crate::report::HTML_CONFORMS_OPEN@;
    let b = crate::report::bool_text(conforms);
    let ac = crate::report::HTML_AFTER_CONFORMS@;
    let ai = crate::report::HTML_AFTER_ISSUES@;
    let av = crate::report::HTML_AFTER_VIOLATIONS@;
    let aw = crate::report::HTML_AFTER_WARNINGS@;
    let an = crate::report::HTML_AFTER_INFOS@;
    let dn = crate::terms::decimal(is.len());
    let dv = crate::terms::decimal(crate::report::severity_count(is, "violation"@));
    let dw = crate::terms::decimal(crate::report::severity_count(is, "warning"@));
    let di = crate::terms::decimal(crate::report::severity_count(is, "info"@));
    let rows = crate::report::table_rows(is);
    let tail = crate::report::HTML_TAIL@;
    let ki = k_open + "Issues"@ + k_close;
    let kv = k_open + "Violations"@ + k_close;
    let kw = k_open + "Warnings"@ + k_close;
    let kn = k_open + "Info"@ + k_close;
    let u1 = "</strong>"@ + r#"</p></section><section class="grid"><div class="card">"#@;
    let u2 = close + r#"</div><div class="card ok">"#@;
    let u3 = close + r#"</div><div class="card warn">"#@;
    let u4 = close + r#"</div><div class="card">"#@;
    let w5 = r#"</div></section><section class="panel"><table><thead><tr><th>Severity</th><th>Source</th><th>Line</th><th>Column</th><th>Token</th><th>Message</th><th>Hint</th></tr></thead><tbody>"#@;
    assert(ac == u1 + ki);
    assert(ai == u2 + kv);
    assert(ai == close + (r#"</div><div class="card ok">"#@ + kv));
    assert(av == u3 + kw);
    assert(av == close + (r#"</div><div class="card warn">"#@ + kw));
    assert(aw == u4 + kn);
    assert(aw == close + (r#"</div><div class="card">"#@ + kn));
    assert(an == close + w5);
    assert(ac == "</strong>"@ + (r#"</p></section><section class="grid"><div class="card">"#@ + ki));
    let p3 = head + o + b;
    let p4 = p3 + ac;
    let p5 = p4 + dn;
    let p6 = p5 + ai;
    let p7 = p6 + dv;
    let p8 = p7 + av;
    let p9 = p8 + dw;
    let p10 = p9 + aw;
    let p11 = p10 + di;
    let p12 = p11 + an;
    let p13 = p12 + rows;
    let page = crate::report::report_html(conforms, is);
    assert(page == p13 + tail);
    // The conformance line.
    let c_conf = "Conforms: <strong>"@ + b + "</strong>"@;
    assert(p4 =~= head + c_conf + (r#"</p></section><section class="grid"><div class="card">"#@ + ki));
    lemma_holds_in(p4, c_conf, head, r#"</p></section><section class="grid"><div class="card">"#@ + ki);
    // The cards.
    let c_is = ki + dn + close;
    let c_v = kv + dv + close;
    let c_w = kw + dw + close;
    let c_i = kn + di + close;
    lemma_card_in(p3, u1, ki, dn, close, r#"</div><div class="card ok">"#@ + kv);
    lemma_card_in(p5, u2, kv, dv, close, r#"</div><div class="card warn">"#@ + kw);
    lemma_card_in(p7, u3, kw, dw, close, r#"</div><div class="card">"#@ + kn);
    lemma_card_in(p9, u4, kn, di, close, w5);
    assert(c_is == card_text("Issues"@, is.len()));
    assert(c_v == card_text("Violations"@, crate::report::severity_count(is, "violation"@)));
    assert(c_w == card_text("Warnings"@, crate::report::severity_count(is, "warning"@)));
    assert(c_i == card_text("Info"@, crate::report::severity_count(is, "info"@)));
    lemma_holds_right(p4, dn, c_conf);
    lemma_holds_right(p5, ai, c_conf);
    lemma_holds_right(p6, dv, c_conf);
    lemma_holds_right(p6, dv, c_is);
    lemma_holds_right(p7, av, c_conf);
    lemma_holds_right(p7, av, c_is);
    lemma_holds_right(p8, dw, c_conf);
    lemma_holds_right(p8, dw, c_is);
    lemma_holds_right(p8, dw, c_v);
    lemma_holds_right(p9, aw, c_conf);
    lemma_holds_right(p9, aw, c_is);
    lemma_holds_right(p9, aw, c_v);
    lemma_holds_right(p10, di, c_conf);
    lemma_holds_right(p10, di, c_is);
    lemma_holds_right(p10, di, c_v);
    lemma_holds_right(p10, di, c_w);
    lemma_holds_right(p11, an, c_conf);
    lemma_holds_right(p11, an, c_is);
    lemma_holds_right(p11, an, c_v);
    lemma_holds_right(p11, an, c_w);
    lemma_holds_right(p12, rows, c_conf);
    lemma_holds_right(p12, rows, c_is);
    lemma_holds_right(p12, rows, c_v);
    lemma_holds_right(p12, rows, c_w);
    lemma_holds_right(p12, rows, c_i);
    lemma_holds_right(p13, tail, c_conf);
    lemma_holds_right(p13, tail, c_is);
    lemma_holds_right(p13, tail, c_v);
    lemma_holds_right(p13, tail, c_w);
    lemma_holds_right(p13, tail, c_i);
    // The rows.
    if is.len() == 0 {
        let e = "No validation issues were found."@;
        assert(rows == crate::report::EMPTY_ROW@);
        lemma_holds_in(rows, e, r#"<tr><td colspan="7" class="empty">"#@, "</td></tr>"@);
        lemma_holds_left(p12, rows, e);
        lemma_holds_right(p13, tail, e);
    } else {
        assert forall|k: int| 0 <= k < is.len() implies holds_text(page, message_cell(#[trigger] is[k].message)) by {
            lemma_rows_show_messages(is, k);
            lemma_holds_left(p12, rows, message_cell(is[k].message));
            lemma_holds_right(p13, tail, message_cell(is[k].message));
        }
    }
}

} // verus!

verus! {

proof fn lemma_parse_errors_agree(
    content: Seq<char>,
    fmt: crate::format::RdfFormat,
    p1: Result<Seq<STriple>, Seq<char>>,
    p2: Result<Seq<STriple>, Seq<char>>,
)
    requires
        crate::parser::parsed_as(content, fmt, p1),
        crate::parser::parsed_as(content, fmt, p2),
        p1 is Err,
    ensures
        p2 == p1,
{
    match fmt {
        crate::format::RdfFormat::RdfXml => {
            let l1 = choose|l: Result<Seq<(Seq<char>, Seq<char>, Seq<char>)>, Seq<char>>| #[trigger] crate::reading::read_as(
                crate::reading::rdfxml_listing(content),
                l,
            ) && p1 == crate::parser::listing_triples(l, crate::printed::Printer::Ox);
            let l2 = choose|l: Result<Seq<(Seq<char>, Seq<char>, Seq<char>)>, Seq<char>>| #[trigger] crate::reading::read_as(
                crate::reading::rdfxml_listing(content),
                l,
            ) && p2 == crate::parser::listing_triples(l, crate::printed::Printer::Ox);
            assert(l1 is Err);
        },
        crate::format::RdfFormat::TriG => {
            let l1 = choose|l: Result<Seq<(Seq<char>, Seq<char>, Seq<char>, Seq<char>)>, Seq<char>>| #[trigger] crate::reading::quads_read_as(
                crate::reading::trig_listing(content),
                l,
            ) && p1 == match l {
                Ok(qs) => Ok(crate::reading::quads_dataset(qs).0),
                Err(m) => Err("RDF parsing error: "@ + m),
            };
            let l2 = choose|l: Result<Seq<(Seq<char>, Seq<char>, Seq<char>, Seq<char>)>, Seq<char>>| #[trigger] crate::reading::quads_read_as(
                crate::reading::trig_listing(content),
                l,
            ) && p2 == match l {
                Ok(qs) => Ok(crate::reading::quads_dataset(qs).0),
                Err(m) => Err("RDF parsing error: "@ + m),
            };
            assert(l1 is Err);
        },
        _ => {},
    }
}

/// Inspection passes a read error on: where reading the document fails,
/// inspecting it fails with that error (the same kind and message).
pub proof fn law_inspection_passes_read_errors(
    content: Seq<char>,
    fmt: crate::format::RdfFormat,
    g: Result<crate::model::LodGraph, crate::error::LodError>,
    r: Result<crate::model::InspectionReport, crate::error::LodError>,
)
    requires
        crate::parser::parse_outcome(content, fmt, g),
        g is Err,
        crate::inspect::content_inspection(content, fmt, r),
    ensures
        r is Err,
        crate::error::error_heading(r->Err_0) + crate::error::error_detail(r->Err_0) == crate::error::error_heading(
            g->Err_0,
        ) + crate::error::error_detail(g->Err_0),
{
    let g1 = choose|g1: Result<crate::model::LodGraph, crate::error::LodError>| #[trigger] crate::parser::parse_outcome(
        content,
        fmt,
        g1,
    ) && crate::inspect::inspection_of(g1, r);
    let p = crate::parser::lemma_parsed_triples(content, fmt, g);
    let p1 = crate::parser::lemma_parsed_triples(content, fmt, g1);
    lemma_parse_errors_agree(content, fmt, p, p1);
}

} // verus!

verus! {

// ---------------------------------------------------------------------------
// CSV mapping: terms are expanded with the declared prefixes
// ---------------------------------------------------------------------------

/// Whether `out` is what a mapping term becomes: an HTTP(S) IRI as written,
/// and `p:local` with a declared prefix `p` (holding no `:`) the prefix's
/// IRI followed by `local`.
pub open spec fn expanded_as(term: Seq<char>, prefixes: Seq<(Seq<char>, Seq<char>)>, out: Seq<char>) -> bool {
    let web = crate::terms::has_prefix(term, "http://"@) || crate::terms::has_prefix(term, "https://"@);
    &&& web ==> out == term
    &&& forall|p: Seq<char>, local: Seq<char>, i: int|
        #![trigger prefixes[i], p + ":"@ + local]
        0 <= i < prefixes.len() && prefixes[i].0 == p && term == p + ":"@ + local && !p.contains(':') && !web
            ==> out == prefixes[i].1 + local
}

/// No prefix is declared twice.
pub open spec fn keys_distinct(prefixes: Seq<(Seq<char>, Seq<char>)>) -> bool {
    forall|a: int, b: int| 0 <= a < b < prefixes.len() ==> #[trigger] prefixes[a].0 != #[trigger] prefixes[b].0
}

proof fn lemma_colon_after_prefix(p: Seq<char>, local: Seq<char>)
    requires
        !p.contains(':'),
    ensures
        crate::map::colon_at(p + ":"@ + local) == Some(p.len() as int),
        (p + ":"@ + local).take(p.len() as int) == p,
        (p + ":"@ + local).skip(p.len() as int + 1) == local,
{
    reveal_strlit(":");
    let t = p + ":"@ + local;
    let c = seq![':'];
    assert(t[p.len() as int] == ':');
    assert(t.subrange(p.len() as int, p.len() as int + 1) =~= c);
    assert(crate::text::occurs_at(t, c, p.len() as int));
    crate::text::lemma_occurs_found(t, c, 0, p.len() as int);
    crate::text::lemma_first_occurrence(t, c, 0);
    let k = crate::text::first_occurrence(t, c, 0).unwrap();
    if k < p.len() {
        assert(t.subrange(k, k + 1)[0] == t[k]);
        assert(t[k] == p[k]);
        assert(p.contains(p[k]));
    }
    assert(t.take(p.len() as int) =~= p);
    assert(t.skip(p.len() as int + 1) =~= local);
}

/// Expansion meets its description, whatever the term.
pub proof fn law_expand_mapped_meets(term: Seq<char>, prefixes: Seq<(Seq<char>, Seq<char>)>)
    requires
        keys_distinct(prefixes),
    ensures
        expanded_as(term, prefixes, crate::map::expand_mapped(term, prefixes)),
{
    assert forall|p: Seq<char>, local: Seq<char>, i: int|
        #![trigger prefixes[i], p + ":"@ + local]
        0 <= i < prefixes.len() && prefixes[i].0 == p && term == p + ":"@ + local && !p.contains(':') && !(
        crate::terms::has_prefix(term, "http://"@) || crate::terms::has_prefix(term, "https://"@)) implies crate::map::expand_mapped(
        term,
        prefixes,
    ) == prefixes[i].1 + local by {
        lemma_colon_after_prefix(p, local);
        assert forall|j: int| 0 <= j < i implies #[trigger] prefixes[j].0 != p by {
            assert(prefixes[j].0 != prefixes[i].0);
        }
        crate::normal::lemma_vkey_index_first(prefixes, p, i);
    }
}

/// Whether `t` is the property that mapped column `c` gives a subject: the
/// subject, the column's predicate and datatype expanded with the declared
/// prefixes, and the column's language.
pub open spec fn from_column(
    t: STriple,
    subject: SNode,
    c: crate::map::ColumnView,
    prefixes: Seq<(Seq<char>, Seq<char>)>,
) -> bool {
    &&& t.subject == subject
    &&& expanded_as(c.predicate, prefixes, t.predicate)
    &&& t.object matches SNode::Literal { datatype, lang, .. } && lang == c.lang && (c.datatype is None <==> datatype
        is None) && (c.datatype matches Some(d) ==> expanded_as(d, prefixes, datatype->0))
}

/// Whether `t` is the property that some mapped column of `cols` gives.
pub open spec fn from_some_column(
    t: STriple,
    subject: SNode,
    cols: Seq<(Seq<char>, crate::map::ColumnView)>,
    prefixes: Seq<(Seq<char>, Seq<char>)>,
) -> bool {
    exists|j: int| 0 <= j < cols.len() && #[trigger] from_column(t, subject, cols[j].1, prefixes)
}

/// Every property a row's mapped columns give comes from one mapped column:
/// its subject is the row's subject, its predicate and its datatype are the
/// column's predicate and datatype expanded with the declared prefixes, and
/// its language is the column's.
pub proof fn law_mapped_columns_expand(
    subject: SNode,
    cols: Seq<(Seq<char>, crate::map::ColumnView)>,
    headers: Seq<Seq<char>>,
    rec: Seq<Seq<char>>,
    prefixes: Seq<(Seq<char>, Seq<char>)>,
)
    requires
        keys_distinct(prefixes),
    ensures
        forall|k: int|
            0 <= k < crate::map::column_triples(subject, cols, headers, rec, prefixes).len() ==> #[trigger] from_some_column(
                crate::map::column_triples(subject, cols, headers, rec, prefixes)[k],
                subject,
                cols,
                prefixes,
            ),
    decreases cols.len(),
{
    let r = crate::map::column_triples(subject, cols, headers, rec, prefixes);
    if cols.len() > 0 {
        let cp = cols.drop_last();
        law_mapped_columns_expand(subject, cp, headers, rec, prefixes);
        let rest = crate::map::column_triples(subject, cp, headers, rec, prefixes);
        let name = cols.last().0;
        let m = cols.last().1;
        law_expand_mapped_meets(m.predicate, prefixes);
        if let Some(d) = m.datatype {
            law_expand_mapped_meets(d, prefixes);
        }
        let grows = match crate::map::position(headers, name) {
            Some(idx) => crate::text::trim(crate::map::field(rec, idx)).len() > 0,
            None => false,
        };
        if grows {
            let idx = crate::map::position(headers, name).unwrap();
            let value = crate::text::trim(crate::map::field(rec, idx));
            let t = STriple {
                subject,
                predicate: crate::map::expand_mapped(m.predicate, prefixes),
                object: SNode::Literal {
                    value,
                    datatype: match m.datatype {
                        Some(d) => Some(crate::map::expand_mapped(d, prefixes)),
                        None => None,
                    },
                    lang: m.lang,
                },
            };
            assert(r == rest.push(t));
            assert(from_column(t, subject, cols[cols.len() - 1].1, prefixes));
        } else {
            assert(r == rest);
        }
        assert forall|k: int| 0 <= k < r.len() implies #[trigger] from_some_column(r[k], subject, cols, prefixes) by {
            if k < rest.len() {
                assert(r[k] == rest[k]);
                assert(from_some_column(rest[k], subject, cp, prefixes));
                let j = choose|j: int| 0 <= j < cp.len() && #[trigger] from_column(rest[k], subject, cp[j].1, prefixes);
                assert(cols[j] == cp[j]);
                assert(from_column(r[k], subject, cols[j].1, prefixes));
            } else {
                assert(from_column(r[k], subject, cols[cols.len() - 1].1, prefixes));
            }
        }
    }
}

// ---------------------------------------------------------------------------
// Drawing: edges run from subject to object
// ---------------------------------------------------------------------------

/// The text a drawn node carries for a term: an IRI or blank node label as
/// it is, a literal as `literal:` and its value.
pub open spec fn drawn_text(n: SNode) -> Seq<char> {
    match n {
        SNode::Iri(x) => x,
        SNode::Blank(b) => b,
        SNode::Literal { value, .. } => "literal:"@ + value,
    }
}

/// A drawing has one edge per triple, in order: edge `i` is named `e` and
/// `i`, and runs from the drawn text of triple `i`'s subject to that of its
/// object.
pub proof fn law_edges_run_subject_to_object(g: crate::model::VisualizationGraph, ts: Seq<STriple>)
    requires
        crate::visualize::draws(g, ts),
    ensures
        g.edges@.len() == ts.len(),
        forall|i: int|
            0 <= i < ts.len() ==> (#[trigger] g.edges@[i])@.source == drawn_text(ts[i].subject) && g.edges@[i]@.target
                == drawn_text(ts[i].object) && g.edges@[i]@.id == "e"@ + crate::terms::decimal(i as nat),
{
    assert forall|i: int| 0 <= i < ts.len() implies (#[trigger] g.edges@[i])@.source == drawn_text(ts[i].subject)
        && g.edges@[i]@.target == drawn_text(ts[i].object) && g.edges@[i]@.id == "e"@ + crate::terms::decimal(
        i as nat,
    ) by {
        assert(g.edges@[i]@ == crate::visualize::edge_spec(i, ts[i]));
    }
}

} // verus!

verus! {

// ---------------------------------------------------------------------------
// IRI checks: HTTP(S) IRIs are dereferenceable
// ---------------------------------------------------------------------------

/// An IRI raises a warning exactly when it starts neither with `http://`,
/// `https://` nor `_:`; the warning then says that the IRI is not
/// dereferenceable over HTTP(S). Every other issue it raises is a violation.
pub proof fn law_iri_warning_exactly_off_the_web(iri: Seq<char>, line: usize, src: Seq<char>)
    ensures
        (exists|k: int|
            0 <= k < crate::validate::iri_issues(iri, line, src).len() && (#[trigger] crate::validate::iri_issues(
                iri,
                line,
                src,
            )[k]).severity == "Warning"@) <==> (!crate::terms::has_prefix(iri, "http://"@) && !crate::terms::has_prefix(
            iri,
            "https://"@,
        ) && !crate::terms::has_prefix(iri, "_:"@)),
        forall|k: int|
            0 <= k < crate::validate::iri_issues(iri, line, src).len() && (#[trigger] crate::validate::iri_issues(
                iri,
                line,
                src,
            )[k]).severity == "Warning"@ ==> crate::validate::iri_issues(iri, line, src)[k].message
                == "IRI is not dereferenceable HTTP(S): "@ + iri,
        forall|k: int|
            0 <= k < crate::validate::iri_issues(iri, line, src).len() ==> (#[trigger] crate::validate::iri_issues(
                iri,
                line,
                src,
            )[k]).severity == "Warning"@ || crate::validate::iri_issues(iri, line, src)[k].severity == "Violation"@,
{
    reveal_strlit("Warning");
    reveal_strlit("Violation");
    assert("Warning"@ != "Violation"@) by {
        assert("Warning"@[0] != "Violation"@[0]);
    }
    let is = crate::validate::iri_issues(iri, line, src);
    let off = !crate::terms::has_prefix(iri, "http://"@) && !crate::terms::has_prefix(iri, "https://"@)
        && !crate::terms::has_prefix(iri, "_:"@);
    if off {
        assert(is[is.len() - 1].severity == "Warning"@);
    }
}

// ---------------------------------------------------------------------------
// JSON-LD: literals keep their value, datatype and language
// ---------------------------------------------------------------------------

/// Whether an object's members hold `(k, v)`.
pub open spec fn has_member(es: Seq<(Seq<char>, crate::json::JsonView)>, k: Seq<char>, v: crate::json::JsonView) -> bool {
    exists|j: int| 0 <= j < es.len() && #[trigger] es[j] == (k, v)
}

/// Whether the JSON written for a literal carries it whole: its value under
/// `@value`, its datatype under `@type` and its language under `@language`,
/// and nothing else.
pub open spec fn literal_kept(o: crate::json::JsonView, value: Seq<char>, datatype: Option<Seq<char>>, lang: Option<
    Seq<char>,
>) -> bool {
    o matches crate::json::JsonView::Object(os) && {
        &&& has_member(os, "@value"@, crate::json::JsonView::Str(value))
        &&& datatype matches Some(dt) ==> has_member(os, "@type"@, crate::json::JsonView::Str(dt))
        &&& lang matches Some(l) ==> has_member(os, "@language"@, crate::json::JsonView::Str(l))
        &&& os.len() == 1 + (if datatype is Some {
            1int
        } else {
            0int
        }) + (if lang is Some {
            1int
        } else {
            0int
        })
    }
}

/// Whether a written node names the triple's predicate and, for a literal
/// object, keeps the literal whole.
pub open spec fn node_keeps(item: crate::json::JsonView, t: STriple) -> bool {
    match item {
        crate::json::JsonView::Object(ns) => ns.len() == 2 && ns[1].0 == t.predicate && match t.object {
            SNode::Literal { value, datatype, lang } => literal_kept(ns[1].1, value, datatype, lang),
            _ => true,
        },
        _ => false,
    }
}

/// The `@graph` array of a JSON-LD document `{"@context": .., "@graph": [..]}`.
pub open spec fn graph_items(d: crate::json::JsonView) -> Option<Seq<crate::json::JsonView>> {
    match d {
        crate::json::JsonView::Object(es) => if es.len() == 2 && es[1].0 == "@graph"@ {
            match es[1].1 {
                crate::json::JsonView::Array(items) => Some(items),
                _ => None,
            }
        } else {
            None
        },
        _ => None,
    }
}

/// The JSON-LD document written for triples has one node per triple, in
/// order: it names the triple's predicate, and a literal object is written
/// with its value, its datatype (`@type`) and its language (`@language`).
pub proof fn law_jsonld_keeps_literals(ps: Seq<(Seq<char>, Seq<char>)>, ts: Seq<STriple>)
    ensures
        graph_items(crate::writing::jsonld_doc_view(ps, ts)) is Some,
        graph_items(crate::writing::jsonld_doc_view(ps, ts))->0.len() == ts.len(),
        forall|k: int|
            0 <= k < ts.len() ==> node_keeps(
                #[trigger] graph_items(crate::writing::jsonld_doc_view(ps, ts))->0[k],
                ts[k],
            ),
{
    reveal_strlit("@value");
    reveal_strlit("@type");
    reveal_strlit("@language");
    let items = ts.map_values(|t: STriple| crate::writing::node_view(t));
    assert(graph_items(crate::writing::jsonld_doc_view(ps, ts)) == Some(items));
    assert forall|k: int| 0 <= k < ts.len() implies node_keeps(#[trigger] items[k], ts[k]) by {
        let t = ts[k];
        assert(items[k] == crate::writing::node_view(t));
        if let SNode::Literal { value, datatype, lang } = t.object {
            let os = seq![("@value"@, crate::json::JsonView::Str(value))] + match datatype {
                Some(dt) => seq![("@type"@, crate::json::JsonView::Str(dt))],
                None => seq![],
            } + match lang {
                Some(l) => seq![("@language"@, crate::json::JsonView::Str(l))],
                None => seq![],
            };
            assert(crate::writing::object_view(t.object) == crate::json::JsonView::Object(os));
            assert(os[0] == ("@value"@, crate::json::JsonView::Str(value)));
            if let Some(dt) = datatype {
                assert(os[1] == ("@type"@, crate::json::JsonView::Str(dt)));
            }
            if let Some(l) = lang {
                assert(os[os.len() - 1] == ("@language"@, crate::json::JsonView::Str(l)));
            }
        }
    }
}

// ---------------------------------------------------------------------------
// Inspection: rdf:Property is no class
// ---------------------------------------------------------------------------

proof fn lemma_non_property_filter(e: Seq<(Seq<char>, nat)>)
    ensures
        crate::inspect::non_property_keys(e) == e.filter(
            |x: (Seq<char>, nat)| x.0 != "http://www.w3.org/1999/02/22-rdf-syntax-ns#Property"@,
        ).len(),
    decreases e.len(),
{
    reveal(Seq::filter);
    if e.len() > 0 {
        lemma_non_property_filter(e.drop_last());
    }
}

/// An inspection counts as classes the entries of its class distribution
/// other than `rdf:Property`.
pub proof fn law_classes_leave_out_property(r: crate::model::InspectionReport, g: crate::model::LodGraph)
    requires
        crate::inspect::summarizes(r, g),
    ensures
        r.classes == r.class_distribution.counts().filter(
            |x: (Seq<char>, nat)| x.0 != "http://www.w3.org/1999/02/22-rdf-syntax-ns#Property"@,
        ).len(),
{
    lemma_non_property_filter(r.class_distribution.counts());
}

} // verus!
