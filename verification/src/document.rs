//! The document-level Turtle reader: statements, prefix and base
//! declarations, and whole documents with line-numbered errors.
use vstd::prelude::*;
use crate::model::{Node, SNode, STriple, Triple, SortedMap, triples_view, opt_view, vinserted, lemma_pair_view_inserted, LodGraph};
use crate::text::{trim, trim_start, trim_chars, string_of, chars_of, lower, lower_chars};
use crate::lexer::{
    strip_comment, strip_inline_comment, split_top, split_top_level, views, token_end, take_token,
    scan0, lemma_token_scan_bounds, lemma_trim_start_len, turtle_statements, stmt_views, split_turtle_statements,
};
use crate::terms::{
    subject_term, parse_subject, opt_seq, err_text, has_prefix, has_prefix_lit, decimal, push_decimal,
    prefix_declaration, parse_prefix, base_declaration, parse_base,
};
use crate::turtle::{Out, fail, pol_spec, produced, parse_predicate_object_list};
use crate::error::{LodError, error_detail};

verus! {

/// The clauses that hold more than white space, in order.
pub open spec fn nonblank(cs: Seq<Seq<char>>) -> Seq<Seq<char>>
    decreases cs.len(),
{
    if cs.len() == 0 {
        seq![]
    } else {
        let r = nonblank(cs.drop_last());
        if trim(cs.last()).len() == 0 {
            r
        } else {
            r.push(cs.last())
        }
    }
}

/// The clauses of a statement from index `k` on, each read as a
/// predicate-object list about `subject`.
pub open spec fn clause_chain(
    subject: SNode,
    cs: Seq<Seq<char>>,
    k: int,
    prefixes: Seq<(Seq<char>, Seq<char>)>,
    base: Option<Seq<char>>,
    n: usize,
) -> Out<()>
    decreases cs.len() - k,
{
    if k >= cs.len() || k < 0 {
        Out { res: Ok(()), next: n, emitted: seq![] }
    } else {
        let c = pol_spec(subject, trim(cs[k]), prefixes, base, n);
        match c.res {
            Err(m) => Out { res: Err(m), next: c.next, emitted: c.emitted },
            Ok(_) => {
                let r = clause_chain(subject, cs, k + 1, prefixes, base, c.next);
                Out { res: r.res, next: r.next, emitted: c.emitted + r.emitted }
            },
        }
    }
}

/// Reading one statement `subject predicate object ; predicate object .`:
/// the first non-blank clause starts with the subject, every clause is a
/// predicate-object list about it.
pub open spec fn statement_spec(
    stmt: Seq<char>,
    prefixes: Seq<(Seq<char>, Seq<char>)>,
    base: Option<Seq<char>>,
    n: usize,
) -> Out<()> {
    let cs = nonblank(split_top(stmt, ';'));
    if cs.len() == 0 {
        fail("missing subject"@, n)
    } else {
        let t = trim_start(trim(cs[0]));
        if t.len() == 0 {
            fail("missing subject"@, n)
        } else {
            let k = token_end(t);
            match subject_term(t.take(k), prefixes, base) {
                Err(m) => fail(m, n),
                Ok(s) => {
                    let first = pol_spec(s, trim(t.skip(k)), prefixes, base, n);
                    match first.res {
                        Err(m) => Out { res: Err(m), next: first.next, emitted: first.emitted },
                        Ok(_) => {
                            let r = clause_chain(s, cs, 1, prefixes, base, first.next);
                            let all = first.emitted + r.emitted;
                            match r.res {
                                Err(m) => Out { res: Err(m), next: r.next, emitted: all },
                                Ok(_) => if all.len() == 0 {
                                    Out { res: Err("missing predicate"@), next: r.next, emitted: all }
                                } else {
                                    Out { res: Ok(()), next: r.next, emitted: all }
                                },
                            }
                        },
                    }
                },
            }
        }
    }
}

/// The clauses of `all` that hold more than white space.
pub fn nonblank_clauses(all: &Vec<Vec<char>>) -> (r: Vec<Vec<char>>)
    ensures
        views(r@) == nonblank(views(all@)),
{
    let mut r: Vec<Vec<char>> = Vec::new();
    let mut i: usize = 0;
    while i < all.len()
        invariant
            i <= all@.len(),
            views(r@) == nonblank(views(all@).take(i as int)),
        decreases all@.len() - i,
    {
        proof {
            assert(views(all@).take(i + 1).drop_last() =~= views(all@).take(i as int));
            assert(views(all@).take(i + 1).last() == all@[i as int]@);
        }
        let t = trim_chars(&all[i]);
        if t.len() > 0 {
            let ghost before = r@;
            r.push(all[i].clone());
            proof {
                assert(views(r@) =~= views(before).push(all@[i as int]@));
            }
        }
        i = i + 1;
    }
    proof {
        assert(views(all@).take(i as int) =~= views(all@));
    }
    r
}

/// Reads the clauses of `cs` from index `k` on as predicate-object lists
/// about `subject`.
pub fn parse_clauses(
    subject: &Node,
    cs: &Vec<Vec<char>>,
    k: usize,
    prefixes: &SortedMap<String>,
    base: Option<&[char]>,
    seq: &mut usize,
    triples: &mut Vec<Triple>,
) -> (r: Result<(), String>)
    ensures
        ({
            let out = clause_chain(subject@, views(cs@), k as int, prefixes.pairs(), opt_seq(base), *old(seq));
            &&& *final(seq) == out.next
            &&& triples_view(final(triples)@) == triples_view(old(triples)@) + out.emitted
            &&& match out.res {
                Ok(_) => r is Ok,
                Err(m) => r is Err && r->Err_0@ == m,
            }
        }),
    decreases cs@.len() - k,
{
    let ghost cv = views(cs@);
    let ghost p = prefixes.pairs();
    let ghost b = opt_seq(base);
    if k >= cs.len() {
        proof {
            assert(triples_view(triples@) =~= triples_view(triples@) + seq![]);
        }
        return Ok(());
    }
    proof {
        assert(cv[k as int] == cs@[k as int]@);
    }
    let c = trim_chars(&cs[k]);
    let ghost n0 = *seq;
    let ghost t0 = triples@;
    match parse_predicate_object_list(subject, c, prefixes, base, seq, triples) {
        Ok(()) => {},
        Err(m) => {
            return Err(m);
        },
    }
    let ghost t1 = triples@;
    let r = parse_clauses(subject, cs, k + 1, prefixes, base, seq, triples);
    proof {
        let pc = pol_spec(subject@, c@, p, b, n0);
        let rest = clause_chain(subject@, cv, k + 1, p, b, pc.next);
        assert(triples_view(triples@) =~= triples_view(t0) + (pc.emitted + rest.emitted));
    }
    r
}

/// Reads one Turtle statement into its triples.
pub fn parse_turtle_statement(
    stmt: &[char],
    prefixes: &SortedMap<String>,
    base: Option<&[char]>,
    seq: &mut usize,
) -> (r: Result<Vec<Triple>, String>)
    ensures
        ({
            let out = statement_spec(stmt@, prefixes.pairs(), opt_seq(base), *old(seq));
            &&& *final(seq) == out.next
            &&& match out.res {
                Ok(_) => r is Ok && triples_view(r.unwrap()@) == out.emitted,
                Err(m) => r is Err && r->Err_0@ == m,
            }
        }),
{
    let all = split_top_level(stmt, ';');
    let cs = nonblank_clauses(&all);
    let ghost cv = views(cs@);
    let ghost p = prefixes.pairs();
    let ghost b = opt_seq(base);
    if cs.len() == 0 {
        return Err(err_text("missing subject"));
    }
    proof {
        assert(cv[0] == cs@[0]@);
    }
    let f = trim_chars(&cs[0]);
    let (st, rest) = match take_token(f) {
        Some(pr) => pr,
        None => {
            return Err(err_text("missing subject"));
        },
    };
    let subject = match parse_subject(st, prefixes, base) {
        Ok(s) => s,
        Err(m) => {
            return Err(m);
        },
    };
    let mut triples: Vec<Triple> = Vec::new();
    let ghost n0 = *seq;
    let rest_t = trim_chars(rest);
    match parse_predicate_object_list(&subject, rest_t, prefixes, base, seq, &mut triples) {
        Ok(()) => {},
        Err(m) => {
            return Err(m);
        },
    }
    let ghost first = pol_spec(subject@, rest_t@, p, b, n0);
    let ghost mid = triples@;
    match parse_clauses(&subject, &cs, 1, prefixes, base, seq, &mut triples) {
        Ok(()) => {},
        Err(m) => {
            return Err(m);
        },
    }
    proof {
        let whole = clause_chain(subject@, cv, 1, p, b, first.next);
        assert(triples_view(triples@) =~= first.emitted + whole.emitted);
    }
    if triples.len() == 0 {
        return Err(err_text("missing predicate"));
    }
    Ok(triples)
}

} // verus!

verus! {

/// What a document has declared and produced so far.
pub struct DocState {
    pub prefixes: Seq<(Seq<char>, Seq<char>)>,
    pub base: Option<Seq<char>>,
    pub triples: Seq<STriple>,
    pub next: usize,
}

pub open spec fn doc_start() -> DocState {
    DocState { prefixes: seq![], base: None, triples: seq![], next: 0 }
}

/// A prefix declaration, `@prefix` or `PREFIX` in any case.
pub open spec fn is_prefix_line(t: Seq<char>) -> bool {
    has_prefix(t, "@prefix"@) || has_prefix(lower(t), "prefix"@)
}

/// A base declaration, `@base` or `BASE` in any case.
pub open spec fn is_base_line(t: Seq<char>) -> bool {
    has_prefix(t, "@base"@) || has_prefix(lower(t), "base"@)
}

/// An error message placed on a line: `line N: message`.
pub open spec fn line_error(line: nat, m: Seq<char>) -> Seq<char> {
    "line "@ + decimal(line) + ": "@ + m
}

/// Reading the statements of a document from index `i` on.
pub open spec fn subset_steps(stmts: Seq<(nat, Seq<char>)>, i: int, st: DocState) -> Result<DocState, Seq<char>>
    decreases stmts.len() - i,
{
    if i >= stmts.len() || i < 0 {
        Ok(st)
    } else {
        let line = stmts[i].0;
        let t = trim(strip_comment(stmts[i].1));
        if t.len() == 0 {
            subset_steps(stmts, i + 1, st)
        } else if is_prefix_line(t) {
            match prefix_declaration(t) {
                Err(m) => Err(line_error(line, m)),
                Ok((k, v)) => subset_steps(stmts, i + 1, DocState { prefixes: vinserted(st.prefixes, k, v), ..st }),
            }
        } else if is_base_line(t) {
            match base_declaration(t) {
                Err(m) => Err(line_error(line, m)),
                Ok(b) => subset_steps(stmts, i + 1, DocState { base: Some(b), ..st }),
            }
        } else {
            let o = statement_spec(t, st.prefixes, st.base, st.next);
            match o.res {
                Err(m) => Err(line_error(line, m)),
                Ok(_) => subset_steps(
                    stmts,
                    i + 1,
                    DocState { triples: st.triples + o.emitted, next: o.next, ..st },
                ),
            }
        }
    }
}

/// A whole document read by the built-in Turtle reader.
pub open spec fn turtle_subset(content: Seq<char>) -> Result<DocState, Seq<char>> {
    subset_steps(turtle_statements(content), 0, doc_start())
}

/// Whether `g` holds what a document declared and produced, and nothing else.
pub open spec fn holds_doc(g: LodGraph, d: DocState) -> bool {
    &&& g.prefixes.pairs() == d.prefixes
    &&& opt_view(g.base) == d.base
    &&& triples_view(g.triples@) == d.triples
    &&& g.named_graphs.spec_entries().len() == 0
}

/// `line N: message`.
pub fn line_message(line: usize, m: &String) -> (r: String)
    ensures
        r@ == line_error(line as nat, m@),
{
    let mut v = chars_of("line ");
    push_decimal(line, &mut v);
    let sep = chars_of(": ");
    let mc = chars_of(m.as_str());
    let mut i: usize = 0;
    let ghost v0 = v@;
    while i < sep.len()
        invariant
            i <= sep@.len(),
            v@ == v0 + sep@.take(i as int),
        decreases sep@.len() - i,
    {
        v.push(sep[i]);
        proof {
            assert(sep@.take(i + 1) =~= sep@.take(i as int).push(sep@[i as int]));
        }
        i = i + 1;
    }
    let ghost v1 = v@;
    let mut j: usize = 0;
    while j < mc.len()
        invariant
            j <= mc@.len(),
            v@ == v1 + mc@.take(j as int),
        decreases mc@.len() - j,
    {
        v.push(mc[j]);
        proof {
            assert(mc@.take(j + 1) =~= mc@.take(j as int).push(mc@[j as int]));
        }
        j = j + 1;
    }
    proof {
        assert(sep@.take(i as int) =~= sep@);
        assert(mc@.take(j as int) =~= mc@);
        assert(v@ =~= line_error(line as nat, m@));
    }
    string_of(&v)
}

/// Whether a trimmed statement is a prefix declaration.
pub fn prefix_line(t: &[char]) -> (r: bool)
    ensures
        r == is_prefix_line(t@),
{
    has_prefix_lit(t, "@prefix") || has_prefix_lit(&lower_chars(t), "prefix")
}

/// Whether a trimmed statement is a base declaration.
pub fn base_line(t: &[char]) -> (r: bool)
    ensures
        r == is_base_line(t@),
{
    has_prefix_lit(t, "@base") || has_prefix_lit(&lower_chars(t), "base")
}

/// Reads a document with the built-in Turtle reader: declarations update the
/// prefixes and base that later statements use, and the first malformed
/// statement fails the whole document with its line number.
pub fn parse_turtle_subset(content: &str) -> (r: Result<LodGraph, LodError>)
    requires
        content@.len() < usize::MAX,
    ensures
        match turtle_subset(content@) {
            Ok(d) => r is Ok && holds_doc(r.unwrap(), d),
            Err(m) => r is Err && r->Err_0 is RdfParsing && error_detail(r->Err_0) == m,
        },
{
    let cc = chars_of(content);
    let stmts = split_turtle_statements(&cc);
    let ghost sv = stmt_views(stmts@);
    let mut graph = LodGraph::new();
    let mut seq: usize = 0;
    let ghost mut st = doc_start();
    proof {
        assert(graph.prefixes.pairs() =~= st.prefixes);
        assert(triples_view(graph.triples@) =~= st.triples);
    }
    let mut i: usize = 0;
    while i < stmts.len()
        invariant
            i <= stmts@.len(),
            sv == stmt_views(stmts@),
            sv == turtle_statements(content@),
            holds_doc(graph, st),
            seq == st.next,
            subset_steps(sv, 0, doc_start()) == subset_steps(sv, i as int, st),
        decreases stmts@.len() - i,
    {
        proof {
            assert(sv[i as int] == (stmts@[i as int].0 as nat, stmts@[i as int].1@));
        }
        let line = stmts[i].0;
        let s1 = strip_inline_comment(&stmts[i].1);
        let t = trim_chars(s1);
        if t.len() == 0 {
        } else if prefix_line(t) {
            match parse_prefix(t) {
                Ok((k, v)) => {
                    let ghost e0 = graph.prefixes.spec_entries();
                    graph.prefixes.insert(k, v);
                    proof {
                        lemma_pair_view_inserted(e0, k, v);
                        st = DocState { prefixes: vinserted(st.prefixes, k@, v@), ..st };
                    }
                },
                Err(m) => {
                    return Err(LodError::RdfParsing(line_message(line, &m)));
                },
            }
        } else if base_line(t) {
            match parse_base(t) {
                Ok(b) => {
                    proof {
                        st = DocState { base: Some(b@), ..st };
                    }
                    graph.base = Some(b);
                },
                Err(m) => {
                    return Err(LodError::RdfParsing(line_message(line, &m)));
                },
            }
        } else {
            let bc: Option<Vec<char>> = match &graph.base {
                Some(b) => Some(chars_of(b.as_str())),
                None => None,
            };
            let bs: Option<&[char]> = match &bc {
                Some(v) => Some(v.as_slice()),
                None => None,
            };
            proof {
                assert(opt_seq(bs) == st.base);
            }
            let ghost n0 = seq;
            match parse_turtle_statement(t, &graph.prefixes, bs, &mut seq) {
                Ok(ts) => {
                    let ghost before = graph.triples@;
                    let mut ts = ts;
                    graph.triples.append(&mut ts);
                    proof {
                        let o = statement_spec(t@, st.prefixes, st.base, n0);
                        assert(triples_view(graph.triples@) =~= triples_view(before) + o.emitted);
                        st = DocState { triples: st.triples + o.emitted, next: o.next, ..st };
                    }
                },
                Err(m) => {
                    return Err(LodError::RdfParsing(line_message(line, &m)));
                },
            }
        }
        i = i + 1;
    }
    Ok(graph)
}

} // verus!

verus! {

/// The prefixes and base after the declarations among the statements from
/// index `i` on; malformed declarations and other statements change nothing.
pub open spec fn declaration_steps(
    stmts: Seq<(nat, Seq<char>)>,
    i: int,
    prefixes: Seq<(Seq<char>, Seq<char>)>,
    base: Option<Seq<char>>,
) -> (Seq<(Seq<char>, Seq<char>)>, Option<Seq<char>>)
    decreases stmts.len() - i,
{
    if i >= stmts.len() || i < 0 {
        (prefixes, base)
    } else {
        let t = trim(strip_comment(stmts[i].1));
        if is_prefix_line(t) {
            match prefix_declaration(t) {
                Ok((k, v)) => declaration_steps(stmts, i + 1, vinserted(prefixes, k, v), base),
                Err(_) => declaration_steps(stmts, i + 1, prefixes, base),
            }
        } else if is_base_line(t) {
            match base_declaration(t) {
                Ok(b) => declaration_steps(stmts, i + 1, prefixes, Some(b)),
                Err(_) => declaration_steps(stmts, i + 1, prefixes, base),
            }
        } else {
            declaration_steps(stmts, i + 1, prefixes, base)
        }
    }
}

/// Records the prefix and base declarations of a document in `graph`,
/// skipping those that are malformed.
pub fn scan_turtle_declarations(content: &str, graph: &mut LodGraph)
    requires
        content@.len() < usize::MAX,
    ensures
        ({
            let d = declaration_steps(turtle_statements(content@), 0, old(graph).prefixes.pairs(), opt_view(old(graph).base));
            &&& final(graph).prefixes.pairs() == d.0
            &&& opt_view(final(graph).base) == d.1
            &&& final(graph).triples@ == old(graph).triples@
            &&& final(graph).named_graphs.spec_entries() == old(graph).named_graphs.spec_entries()
        }),
{
    let cc = chars_of(content);
    let stmts = split_turtle_statements(&cc);
    let ghost sv = stmt_views(stmts@);
    let ghost full = declaration_steps(sv, 0, graph.prefixes.pairs(), opt_view(graph.base));
    let mut i: usize = 0;
    while i < stmts.len()
        invariant
            i <= stmts@.len(),
            sv == stmt_views(stmts@),
            sv == turtle_statements(content@),
            full == declaration_steps(sv, i as int, graph.prefixes.pairs(), opt_view(graph.base)),
            graph.triples@ == old(graph).triples@,
            graph.named_graphs.spec_entries() == old(graph).named_graphs.spec_entries(),
        decreases stmts@.len() - i,
    {
        proof {
            assert(sv[i as int] == (stmts@[i as int].0 as nat, stmts@[i as int].1@));
        }
        let s1 = strip_inline_comment(&stmts[i].1);
        let t = trim_chars(s1);
        if prefix_line(t) {
            match parse_prefix(t) {
                Ok((k, v)) => {
                    let ghost e0 = graph.prefixes.spec_entries();
                    graph.prefixes.insert(k, v);
                    proof {
                        lemma_pair_view_inserted(e0, k, v);
                    }
                },
                Err(_) => {},
            }
        } else if base_line(t) {
            match parse_base(t) {
                Ok(b) => {
                    graph.base = Some(b);
                },
                Err(_) => {},
            }
        }
        i = i + 1;
    }
}

} // verus!

verus! {

/// Every error of the built-in reader names its line.
pub proof fn lemma_subset_error_line(stmts: Seq<(nat, Seq<char>)>, i: int, st: DocState)
    ensures
        subset_steps(stmts, i, st) matches Err(m) ==> has_prefix(m, "line "@),
    decreases stmts.len() - i,
{
    reveal_strlit("line ");
    if 0 <= i < stmts.len() {
        let t = trim(strip_comment(stmts[i].1));
        if t.len() == 0 {
            lemma_subset_error_line(stmts, i + 1, st);
        } else if is_prefix_line(t) {
            match prefix_declaration(t) {
                Err(m) => {
                    let e = line_error(stmts[i].0, m);
                    assert(e.subrange(0, 5) =~= "line "@);
                },
                Ok((k, v)) => lemma_subset_error_line(stmts, i + 1, DocState { prefixes: vinserted(st.prefixes, k, v), ..st }),
            }
        } else if is_base_line(t) {
            match base_declaration(t) {
                Err(m) => {
                    let e = line_error(stmts[i].0, m);
                    assert(e.subrange(0, 5) =~= "line "@);
                },
                Ok(b) => lemma_subset_error_line(stmts, i + 1, DocState { base: Some(b), ..st }),
            }
        } else {
            let o = statement_spec(t, st.prefixes, st.base, st.next);
            match o.res {
                Err(m) => {
                    let e = line_error(stmts[i].0, m);
                    assert(e.subrange(0, 5) =~= "line "@);
                },
                Ok(_) => lemma_subset_error_line(stmts, i + 1, DocState { triples: st.triples + o.emitted, next: o.next, ..st }),
            }
        }
    }
}

} // verus!
