//! Syntax and IRI hygiene checks of graphs, the issues they report, and
//! how parse errors are turned into located issues.
use vstd::prelude::*;
use crate::model::{
    Node, SNode, STriple, Triple, LodGraph, ValidationIssue, IssueView, issues_view, plain_issue, triples_view, opt_view,
};
use crate::text::{chars_of, string_of, contains_seq, contains_lit, push_all, push_lit, push_string, find_seq, find_chars, trim_start, trim_end, trim, is_ws};
use crate::terms::{has_prefix, has_prefix_lit, is_http, is_http_iri};
use crate::normal::same_triple;
use crate::error::LodError;
use crate::format::{RdfFormat, format_named, path_extension};
use crate::parser::{parse_graph, parsed_as, lemma_parsed_triples};
use crate::model::{ValidationReport, ValidationRequest};
use crate::terms::{decimal, push_decimal};
use crate::text::lower;

verus! {

fn text(s: &str) -> (r: String)
    ensures
        r@ == s@,
{
    string_of(&chars_of(s))
}

/// `a` followed by `b`.
fn joined(a: &str, b: &String) -> (r: String)
    ensures
        r@ == a@ + b@,
{
    let mut v = chars_of(a);
    push_string(&mut v, b);
    string_of(&v)
}

/// The issues that checking one IRI raises: spaces are a violation, an IRI
/// that is neither HTTP(S) nor a blank node label a warning.
pub open spec fn iri_issues(iri: Seq<char>, line: usize, source: Seq<char>) -> Seq<IssueView> {
    let spaces = if contains_seq(iri, " "@) {
        seq![
            plain_issue(
                "Violation"@,
                "IRI contains spaces: "@ + iri,
                Some(line),
                Some(iri),
                Some("Remove whitespace or encode the resource with a valid IRI."@),
                source,
            ),
        ]
    } else {
        seq![]
    };
    let scheme = if !is_http(iri) && !has_prefix(iri, "_:"@) {
        seq![
            plain_issue(
                "Warning"@,
                "IRI is not dereferenceable HTTP(S): "@ + iri,
                Some(line),
                Some(iri),
                Some("This is allowed in RDF, but HTTP(S) IRIs are easier to reuse."@),
                source,
            ),
        ]
    } else {
        seq![]
    };
    spaces + scheme
}

/// The issues that checking the triple at index `idx` raises, `earlier`
/// being the triples before it.
pub open spec fn triple_issues(earlier: Seq<STriple>, t: STriple, idx: int, source: Seq<char>) -> Seq<IssueView> {
    let line = (idx + 1) as usize;
    let dup = if earlier.contains(t) {
        seq![
            plain_issue(
                "Info"@,
                "Duplicate triple encountered; serializers normalize repeated triples."@,
                Some(line),
                None,
                Some("Remove repeated triples to keep the graph compact."@),
                source,
            ),
        ]
    } else {
        seq![]
    };
    let pred = if !is_http(t.predicate) {
        seq![
            plain_issue(
                "Warning"@,
                "Predicate is not an HTTP IRI: "@ + t.predicate,
                Some(line),
                Some(t.predicate),
                Some("Use an absolute HTTP or HTTPS predicate IRI when possible."@),
                source,
            ),
        ]
    } else {
        seq![]
    };
    let subj = match t.subject {
        SNode::Iri(i) => iri_issues(i, line, source),
        _ => seq![],
    };
    let obj = match t.object {
        SNode::Iri(i) => iri_issues(i, line, source),
        _ => seq![],
    };
    dup + pred + subj + obj
}

/// The issues that checking a graph's default-graph triples raises, in order.
pub open spec fn graph_issues(ts: Seq<STriple>, source: Seq<char>) -> Seq<IssueView>
    decreases ts.len(),
{
    if ts.len() == 0 {
        seq![]
    } else {
        graph_issues(ts.drop_last(), source) + triple_issues(ts.drop_last(), ts.last(), ts.len() - 1, source)
    }
}

/// An issue with the given fields and nothing else.
fn make_issue(
    severity: &str,
    message: String,
    line: Option<usize>,
    token: Option<String>,
    suggestion: &str,
    source: &String,
) -> (r: ValidationIssue)
    ensures
        r@ == plain_issue(severity@, message@, line, opt_view(token), Some(suggestion@), source@),
{
    ValidationIssue {
        severity: text(severity),
        message,
        line,
        column: None,
        token,
        suggestion: Some(text(suggestion)),
        source: Some(source.clone()),
        focus_node: None,
        constraint_component: None,
        path: None,
        value: None,
        source_shape: None,
        details: None,
    }
}

proof fn lemma_push_issue(v: Seq<ValidationIssue>, i: ValidationIssue)
    ensures
        issues_view(v.push(i)) == issues_view(v).push(i@),
{
    assert(issues_view(v.push(i)) =~= issues_view(v).push(i@));
}

/// Checks one IRI, appending the issues it raises.
pub fn check_iri(iri: &String, line: usize, issues: &mut Vec<ValidationIssue>, source: &String)
    ensures
        issues_view(final(issues)@) == issues_view(old(issues)@) + iri_issues(iri@, line, source@),
{
    let ic = chars_of(iri.as_str());
    let ghost before = issues@;
    if contains_lit(&ic, " ") {
        let i = make_issue(
            "Violation",
            joined("IRI contains spaces: ", iri),
            Some(line),
            Some(iri.clone()),
            "Remove whitespace or encode the resource with a valid IRI.",
            source,
        );
        issues.push(i);
        proof {
            lemma_push_issue(before, i);
        }
    }
    let ghost mid = issues@;
    if !is_http_iri(&ic) && !has_prefix_lit(&ic, "_:") {
        let i = make_issue(
            "Warning",
            joined("IRI is not dereferenceable HTTP(S): ", iri),
            Some(line),
            Some(iri.clone()),
            "This is allowed in RDF, but HTTP(S) IRIs are easier to reuse.",
            source,
        );
        issues.push(i);
        proof {
            lemma_push_issue(mid, i);
        }
    }
    proof {
        assert(issues_view(issues@) =~= issues_view(before) + iri_issues(iri@, line, source@));
    }
}

fn seen_before(ts: &Vec<Triple>, idx: usize) -> (r: bool)
    requires
        idx < ts@.len(),
    ensures
        r == triples_view(ts@).take(idx as int).contains(ts@[idx as int]@),
{
    let ghost tv = triples_view(ts@);
    let mut k: usize = 0;
    while k < idx
        invariant
            k <= idx < ts@.len(),
            tv == triples_view(ts@),
            forall|j: int| 0 <= j < k ==> tv[j] != ts@[idx as int]@,
        decreases idx - k,
    {
        if same_triple(&ts[k], &ts[idx]) {
            proof {
                assert(tv.take(idx as int)[k as int] == ts@[idx as int]@);
            }
            return true;
        }
        k = k + 1;
    }
    proof {
        assert forall|j: int| 0 <= j < idx implies tv.take(idx as int)[j] != ts@[idx as int]@ by {
            assert(tv.take(idx as int)[j] == tv[j]);
        }
    }
    false
}

/// Checks the triple at index `idx`, appending the issues it raises.
#[verifier::rlimit(50)]
#[verifier::spinoff_prover]
fn check_triple(ts: &Vec<Triple>, idx: usize, issues: &mut Vec<ValidationIssue>, source: &String)
    requires
        idx < ts@.len(),
    ensures
        issues_view(final(issues)@) == issues_view(old(issues)@) + triple_issues(
            triples_view(ts@).take(idx as int),
            ts@[idx as int]@,
            idx as int,
            source@,
        ),
{
    let t = &ts[idx];
    let n = ts.len();
    let line = idx + 1;
    let ghost start = issues_view(issues@);
    if seen_before(ts, idx) {
        let ghost b = issues@;
        let i = make_issue(
            "Info",
            text("Duplicate triple encountered; serializers normalize repeated triples."),
            Some(line),
            None,
            "Remove repeated triples to keep the graph compact.",
            source,
        );
        issues.push(i);
        proof {
            lemma_push_issue(b, i);
        }
    }
    let pc = chars_of(t.predicate.as_str());
    if !is_http_iri(&pc) {
        let ghost b = issues@;
        let i = make_issue(
            "Warning",
            joined("Predicate is not an HTTP IRI: ", &t.predicate),
            Some(line),
            Some(t.predicate.clone()),
            "Use an absolute HTTP or HTTPS predicate IRI when possible.",
            source,
        );
        issues.push(i);
        proof {
            lemma_push_issue(b, i);
        }
    }
    match &t.subject {
        Node::Iri(iri) => check_iri(iri, line, issues, source),
        _ => {},
    }
    match &t.object {
        Node::Iri(iri) => check_iri(iri, line, issues, source),
        _ => {},
    }
    proof {
        let ti = triple_issues(triples_view(ts@).take(idx as int), t@, idx as int, source@);
        assert(issues_view(issues@) =~= start + ti);
    }
}

/// Checks every triple of a graph's default graph, appending the issues
/// raised; lines count triples from 1.
pub fn validate_graph(graph: &LodGraph, issues: &mut Vec<ValidationIssue>, source: &String)
    ensures
        issues_view(final(issues)@) == issues_view(old(issues)@) + graph_issues(triples_view(graph.triples@), source@),
{
    let ghost tv = triples_view(graph.triples@);
    let ghost i0 = issues_view(issues@);
    let mut idx: usize = 0;
    proof {
        assert(tv.take(0) =~= seq![]);
        assert(i0 + graph_issues(tv.take(0), source@) =~= i0);
    }
    while idx < graph.triples.len()
        invariant
            idx <= graph.triples@.len(),
            tv == triples_view(graph.triples@),
            issues_view(issues@) == i0 + graph_issues(tv.take(idx as int), source@),
        decreases graph.triples@.len() - idx,
    {
        proof {
            assert(tv.take(idx + 1).drop_last() =~= tv.take(idx as int));
            assert(tv.take(idx + 1).last() == graph.triples@[idx as int]@);
        }
        check_triple(&graph.triples, idx, issues, source);
        proof {
            let ti = triple_issues(tv.take(idx as int), graph.triples@[idx as int]@, idx as int, source@);
            assert(i0 + graph_issues(tv.take(idx + 1), source@) =~= i0 + graph_issues(tv.take(idx as int), source@) + ti);
        }
        idx = idx + 1;
    }
    proof {
        assert(tv.take(idx as int) =~= tv);
    }
}

} // verus!

verus! {

// ---------------------------------------------------------------------------
// Locating parse errors
// ---------------------------------------------------------------------------

/// Bytes that a character takes in UTF-8.
pub open spec fn utf8_width(c: char) -> nat {
    if '\u{80}' > c {
        1
    } else if '\u{800}' > c {
        2
    } else if '\u{10000}' > c {
        3
    } else {
        4
    }
}

/// Bytes that a text takes in UTF-8: the unit of `str` lengths and indices.
pub open spec fn byte_len(s: Seq<char>) -> nat
    decreases s.len(),
{
    if s.len() == 0 {
        0
    } else {
        byte_len(s.drop_last()) + utf8_width(s.last())
    }
}

/// A count kept at the top of `usize`: what a saturating count reaches.
pub open spec fn capped(n: nat) -> nat {
    if n >= usize::MAX {
        usize::MAX as nat
    } else {
        n
    }
}

/// The UTF-8 length of a text, counted with saturating additions (a text
/// held in memory never reaches the cap).
pub fn byte_len_of(s: &[char]) -> (r: usize)
    ensures
        r == capped(byte_len(s@)),
{
    let mut n: usize = 0;
    let mut i: usize = 0;
    while i < s.len()
        invariant
            i <= s@.len(),
            n == capped(byte_len(s@.take(i as int))),
        decreases s@.len() - i,
    {
        proof {
            assert(s@.take(i + 1).drop_last() =~= s@.take(i as int));
        }
        let c = s[i];
        let w: usize = if '\u{80}' > c {
            1
        } else if '\u{800}' > c {
            2
        } else if '\u{10000}' > c {
            3
        } else {
            4
        };
        n = n.saturating_add(w);
        i = i + 1;
    }
    proof {
        assert(s@.take(i as int) =~= s@);
    }
    n
}

/// The text without a final carriage return.
pub open spec fn strip_cr(p: Seq<char>) -> Seq<char> {
    if p.len() > 0 && p.last() == '\r' {
        p.drop_last()
    } else {
        p
    }
}

/// The lines of a text, as `str::lines`: split after each line feed, the
/// line feed and a carriage return before it removed, no empty last line.
pub open spec fn lines_of(s: Seq<char>) -> Seq<Seq<char>>
    decreases s.len(),
{
    if s.len() == 0 {
        seq![]
    } else {
        match find_seq(s, seq!['\n']) {
            Some(k) => if 0 <= k < s.len() {
                seq![strip_cr(s.take(k))] + lines_of(s.skip(k + 1))
            } else {
                seq![s]
            },
            None => seq![s],
        }
    }
}

/// The line with the given index, if the text has that many lines.
pub fn nth_line(s: &[char], n: usize) -> (r: Option<Vec<char>>)
    ensures
        match r {
            Some(l) => n < lines_of(s@).len() && l@ == lines_of(s@)[n as int],
            None => n >= lines_of(s@).len(),
        },
    decreases s@.len(),
{
    if s.len() == 0 {
        return None;
    }
    let nl = chars_of("\n");
    proof {
        reveal_strlit("\n");
    }
    match find_chars(s, &nl) {
        Some(k) => {
            proof {
                crate::text::lemma_first_occurrence(s@, seq!['\n'], 0);
                assert(nl@ =~= seq!['\n']);
            }
            assert(k < s.len());
            let piece = &s[0..k];
            let stripped: &[char] = if k > 0 && piece[k - 1] == '\r' {
                &piece[0..k - 1]
            } else {
                piece
            };
            proof {
                assert(piece@ =~= s@.take(k as int));
                if k > 0 && piece@[k - 1] == '\r' {
                    assert(stripped@ =~= piece@.drop_last());
                }
            }
            if n == 0 {
                let mut v: Vec<char> = Vec::new();
                push_all(&mut v, stripped);
                return Some(v);
            }
            let rest = &s[k + 1..s.len()];
            proof {
                assert(rest@ =~= s@.skip(k + 1));
            }
            nth_line(rest, n - 1)
        },
        None => {
            proof {
                assert(nl@ =~= seq!['\n']);
            }
            if n == 0 {
                let mut v: Vec<char> = Vec::new();
                push_all(&mut v, s);
                Some(v)
            } else {
                None
            }
        },
    }
}

} // verus!

verus! {

/// The 1-based byte column at which `token` first occurs in a line, as
/// found in the line or, failing that, in the line without leading white
/// space.
pub open spec fn column_of(line: Seq<char>, token: Seq<char>) -> Option<nat> {
    match find_seq(line, token) {
        Some(k) => Some(saturating_succ(byte_len(line.take(k)))),
        None => {
            let t = trim_start(line);
            match find_seq(t, token) {
                Some(k) => Some(saturating_succ(byte_len(line.take(line.len() - t.len() + k)))),
                None => None,
            }
        },
    }
}

/// Where a token occurs in a line, as a 1-based byte column.
pub fn find_column(line_text: &[char], token: &[char]) -> (r: Option<usize>)
    ensures
        match column_of(line_text@, token@) {
            Some(c) => r == Some(c as usize),
            None => r is None,
        },
{
    match find_chars(line_text, token) {
        Some(k) => {
            proof {
                crate::text::lemma_first_occurrence(line_text@, token@, 0);
                assert(line_text@.subrange(0, k as int) =~= line_text@.take(k as int));
            }
            let b = byte_len_of(&line_text[0..k]);
            Some(b.saturating_add(1))
        },
        None => {
            let t = crate::text::trim_start_chars(line_text);
            match find_chars(t, token) {
                Some(k) => {
                    proof {
                        crate::text::lemma_first_occurrence(t@, token@, 0);
                        lemma_trim_start_suffix(line_text@);
                    }
                    let j = line_text.len() - t.len() + k;
                    proof {
                        assert(line_text@.subrange(0, j as int) =~= line_text@.take(j as int));
                    }
                    let b = byte_len_of(&line_text[0..j]);
                    Some(b.saturating_add(1))
                },
                None => None,
            }
        },
    }
}

/// A text without leading white space is a suffix of it.
pub proof fn lemma_trim_start_suffix(s: Seq<char>)
    ensures
        trim_start(s).len() <= s.len(),
        trim_start(s) == s.skip(s.len() - trim_start(s).len()),
    decreases s.len(),
{
    if s.len() > 0 && is_ws(s[0]) {
        lemma_trim_start_suffix(s.drop_first());
        assert(s.drop_first().skip(s.drop_first().len() - trim_start(s.drop_first()).len()) =~= s.skip(
            s.len() - trim_start(s.drop_first()).len(),
        ));
    } else {
        assert(s.skip(0) =~= s);
    }
}

} // verus!

verus! {

/// The text up to the first backquote.
pub open spec fn before_backquote(s: Seq<char>) -> Seq<char> {
    match find_seq(s, seq!['`']) {
        Some(k) => s.take(k),
        None => s,
    }
}

/// The token a parse error message points at.
pub open spec fn error_token(m: Seq<char>) -> Option<Seq<char>> {
    if has_prefix(m, "unknown prefix `"@) {
        Some(before_backquote(m.skip(16)) + ":"@)
    } else if has_prefix(m, "cannot expand term `"@) {
        Some(before_backquote(m.skip(20)))
    } else if contains_seq(m, "missing `.` terminator"@) {
        Some("."@)
    } else if contains_seq(m, "unterminated literal"@) {
        Some("\""@)
    } else if contains_seq(m, "invalid prefix IRI"@) || contains_seq(m, "invalid base IRI"@) {
        Some("<iri>"@)
    } else {
        None
    }
}

/// `n + 1`, kept at the top of `usize`.
pub open spec fn saturating_succ(n: nat) -> nat {
    if n >= usize::MAX {
        usize::MAX as nat
    } else {
        n + 1
    }
}

/// The column a parse error message points at in its line.
pub open spec fn error_column(m: Seq<char>, line: Seq<char>) -> Option<nat> {
    let found = match error_token(m) {
        Some(t) => column_of(line, t),
        None => None,
    };
    if found is Some {
        found
    } else if contains_seq(m, "missing `.` terminator"@) {
        Some(saturating_succ(byte_len(trim_end(line))))
    } else if contains_seq(m, "unterminated literal"@) {
        match find_seq(line, seq!['"']) {
            Some(k) => Some(saturating_succ(byte_len(line.take(k)))),
            None => None,
        }
    } else {
        None
    }
}

/// The hint given for a parse error message.
pub open spec fn error_hint(m: Seq<char>) -> Option<Seq<char>> {
    if contains_seq(m, "unknown prefix"@) {
        Some("Add a matching @prefix declaration or fix the prefix name."@)
    } else if contains_seq(m, "missing `.` terminator"@) {
        Some("Terminate the declaration with a trailing ."@)
    } else if contains_seq(m, "unterminated literal"@) {
        Some("Close the literal with a matching \" quote."@)
    } else if contains_seq(m, "invalid prefix IRI"@) || contains_seq(m, "invalid base IRI"@) {
        Some("Wrap the IRI in <...> and ensure it is a valid absolute or relative IRI."@)
    } else if contains_seq(m, "unexpected whitespace in object"@) {
        Some("Wrap IRIs in <...> or use a single valid RDF term."@)
    } else {
        None
    }
}

fn before_backquote_chars(s: &[char]) -> (r: Vec<char>)
    ensures
        r@ == before_backquote(s@),
{
    let bq = chars_of("`");
    proof {
        reveal_strlit("`");
        assert(bq@ =~= seq!['`']);
    }
    let mut v: Vec<char> = Vec::new();
    match find_chars(s, &bq) {
        Some(k) => {
            proof {
                crate::text::lemma_first_occurrence(s@, seq!['`'], 0);
                assert(s@.subrange(0, k as int) =~= s@.take(k as int));
                assert(find_seq(s@, seq!['`']) == Some(k as int));
            }
            push_all(&mut v, &s[0..k]);
            assert(v@ =~= s@.take(k as int));
        },
        None => push_all(&mut v, s),
    }
    proof {
        assert(v@ =~= before_backquote(s@));
    }
    v
}

fn opt_text(s: &str) -> (r: Option<String>)
    ensures
        opt_view(r) == Some(s@),
{
    Some(text(s))
}

/// The column, token and hint of a parse error message about a line.
pub fn infer_parse_details(message: &[char], line_text: &[char]) -> (r: (Option<usize>, Option<String>, Option<String>))
    ensures
        opt_view(r.1) == error_token(message@),
        opt_view(r.2) == error_hint(message@),
        match error_column(message@, line_text@) {
            Some(c) => r.0 == Some(c as usize),
            None => r.0 is None,
        },
{
    proof {
        reveal_strlit("unknown prefix `");
        reveal_strlit("cannot expand term `");
    }
    let token: Option<String> = if has_prefix_lit(message, "unknown prefix `") {
        proof {
            assert(message@.subrange(16, message@.len() as int) =~= message@.skip(16));
        }
        let mut p = before_backquote_chars(&message[16..message.len()]);
        push_lit(&mut p, ":");
        Some(string_of(&p))
    } else if has_prefix_lit(message, "cannot expand term `") {
        proof {
            assert(message@.subrange(20, message@.len() as int) =~= message@.skip(20));
        }
        let p = before_backquote_chars(&message[20..message.len()]);
        Some(string_of(&p))
    } else if contains_lit(message, "missing `.` terminator") {
        opt_text(".")
    } else if contains_lit(message, "unterminated literal") {
        opt_text("\"")
    } else if contains_lit(message, "invalid prefix IRI") || contains_lit(message, "invalid base IRI") {
        opt_text("<iri>")
    } else {
        None
    };
    let found: Option<usize> = match &token {
        Some(t) => {
            let tc = chars_of(t.as_str());
            find_column(line_text, &tc)
        },
        None => None,
    };
    let column: Option<usize> = if found.is_some() {
        found
    } else if contains_lit(message, "missing `.` terminator") {
        let te = crate::text::trim_end_chars(line_text);
        let b = byte_len_of(te);
        Some(b.saturating_add(1))
    } else if contains_lit(message, "unterminated literal") {
        let q = chars_of("\"");
        proof {
            reveal_strlit("\"");
            assert(q@ =~= seq!['"']);
        }
        match find_chars(line_text, &q) {
            Some(k) => {
                proof {
                    crate::text::lemma_first_occurrence(line_text@, seq!['"'], 0);
                    assert(line_text@.subrange(0, k as int) =~= line_text@.take(k as int));
                }
                let b = byte_len_of(&line_text[0..k]);
                Some(b.saturating_add(1))
            },
            None => None,
        }
    } else {
        None
    };
    let suggestion: Option<String> = if contains_lit(message, "unknown prefix") {
        opt_text("Add a matching @prefix declaration or fix the prefix name.")
    } else if contains_lit(message, "missing `.` terminator") {
        opt_text("Terminate the declaration with a trailing .")
    } else if contains_lit(message, "unterminated literal") {
        opt_text("Close the literal with a matching \" quote.")
    } else if contains_lit(message, "invalid prefix IRI") || contains_lit(message, "invalid base IRI") {
        opt_text("Wrap the IRI in <...> and ensure it is a valid absolute or relative IRI.")
    } else if contains_lit(message, "unexpected whitespace in object") {
        opt_text("Wrap IRIs in <...> or use a single valid RDF term.")
    } else {
        None
    };
    (column, token, suggestion)
}

pub proof fn lemma_trim_end_prefix_len(s: Seq<char>)
    ensures
        trim_end(s).len() <= s.len(),
    decreases s.len(),
{
    if s.len() > 0 && is_ws(s.last()) {
        lemma_trim_end_prefix_len(s.drop_last());
    }
}

} // verus!

verus! {

pub open spec fn is_digit(c: char) -> bool {
    '0' <= c && c <= '9'
}

/// The value of a string of decimal digits.
pub open spec fn digits_value(s: Seq<char>) -> nat
    decreases s.len(),
{
    if s.len() == 0 {
        0
    } else {
        digits_value(s.drop_last()) * 10 + ((s.last() as nat) - 48) as nat
    }
}

/// At least one digit and nothing else, of a value that fits.
pub open spec fn digits_number(d: Seq<char>) -> Option<usize> {
    if d.len() > 0 && (forall|i: int| 0 <= i < d.len() ==> is_digit(#[trigger] d[i])) && digits_value(d) <= usize::MAX {
        Some(digits_value(d) as usize)
    } else {
        None
    }
}

/// `usize::from_str`: an optional `+`, then the digits of a value that fits.
pub open spec fn parse_usize(s: Seq<char>) -> Option<usize> {
    if s.len() > 0 && s[0] == '+' {
        digits_number(s.skip(1))
    } else {
        digits_number(s)
    }
}

pub proof fn lemma_digits_grow(s: Seq<char>, i: int)
    requires
        0 <= i <= s.len(),
        forall|j: int| 0 <= j < s.len() ==> is_digit(#[trigger] s[j]),
    ensures
        digits_value(s.take(i)) <= digits_value(s),
    decreases s.len() - i,
{
    if i < s.len() {
        assert(s.take(i + 1).drop_last() =~= s.take(i));
        assert(s.take(i + 1)[i] == s[i]);
        lemma_digits_grow(s, i + 1);
    } else {
        assert(s.take(i) =~= s);
    }
}

/// Reads a decimal number as `usize::from_str` does.
pub fn parse_usize_chars(s: &[char]) -> (r: Option<usize>)
    ensures
        r == parse_usize(s@),
{
    let d: &[char] = if s.len() > 0 && s[0] == '+' {
        &s[1..s.len()]
    } else {
        s
    };
    proof {
        if s@.len() > 0 && s@[0] == '+' {
            assert(d@ =~= s@.skip(1));
        }
    }
    if d.len() == 0 {
        return None;
    }
    assert(parse_usize(s@) == digits_number(d@));
    let mut v: usize = 0;
    let mut i: usize = 0;
    while i < d.len()
        invariant
            i <= d@.len(),
            d@.len() > 0,
            parse_usize(s@) == digits_number(d@),
            forall|j: int| 0 <= j < i ==> is_digit(#[trigger] d@[j]),
            v as nat == digits_value(d@.take(i as int)),
        decreases d@.len() - i,
    {
        let c = d[i];
        proof {
            assert(d@.take(i + 1).drop_last() =~= d@.take(i as int));
            assert(d@.take(i + 1).last() == c);
        }
        if !('0' <= c && c <= '9') {
            proof {
                assert(!is_digit(d@[i as int]));
            }
            return None;
        }
        let dv: usize = ((c as u32) - 48) as usize;
        match v.checked_mul(10) {
            Some(m) => match m.checked_add(dv) {
                Some(n) => {
                    v = n;
                },
                None => {
                    proof {
                        lemma_overflow_stays(d@, i as int);
                    }
                    return None;
                },
            },
            None => {
                proof {
                    lemma_overflow_stays(d@, i as int);
                }
                return None;
            },
        }
        i = i + 1;
    }
    proof {
        assert(d@.take(i as int) =~= d@);
    }
    Some(v)
}

/// Once the digits read so far overflow, so does the whole number, or a
/// later character is not a digit.
proof fn lemma_overflow_stays(d: Seq<char>, i: int)
    requires
        0 <= i < d.len(),
        digits_value(d.take(i + 1)) > usize::MAX,
    ensures
        digits_number(d) is None,
{
    if forall|j: int| 0 <= j < d.len() ==> is_digit(#[trigger] d[j]) {
        lemma_digits_grow(d, i + 1);
    }
}

/// An error message split into the line it names (`line N: message`) and
/// the message; messages without a line are kept whole.
pub open spec fn line_prefix(e: Seq<char>) -> (Option<usize>, Seq<char>) {
    if !has_prefix(e, "line "@) {
        (None, e)
    } else {
        let rest = e.skip(5);
        match find_seq(rest, seq![':']) {
            None => (None, e),
            Some(k) => (parse_usize(trim(rest.take(k))), trim(rest.skip(k + 1))),
        }
    }
}

/// Splits `line N:` off an error message.
pub fn split_line_prefix(error: &[char]) -> (r: (Option<usize>, Vec<char>))
    ensures
        r.0 == line_prefix(error@).0,
        r.1@ == line_prefix(error@).1,
{
    proof {
        reveal_strlit("line ");
    }
    let mut whole: Vec<char> = Vec::new();
    push_all(&mut whole, error);
    if !has_prefix_lit(error, "line ") {
        return (None, whole);
    }
    let rest = &error[5..error.len()];
    proof {
        assert(rest@ =~= error@.skip(5));
    }
    let colon = chars_of(":");
    proof {
        reveal_strlit(":");
        assert(colon@ =~= seq![':']);
    }
    match find_chars(rest, &colon) {
        None => (None, whole),
        Some(k) => {
            proof {
                assert(rest@.subrange(0, k as int) =~= rest@.take(k as int));
                assert(rest@.subrange(k + 1, rest@.len() as int) =~= rest@.skip(k + 1));
            }
            let line = parse_usize_chars(crate::text::trim_chars(&rest[0..k]));
            let mut msg: Vec<char> = Vec::new();
            push_all(&mut msg, crate::text::trim_chars(&rest[k + 1..rest.len()]));
            (line, msg)
        },
    }
}

/// A parse error's text without its `RDF parsing error: ` heading, so that
/// the `line N:` that the readers put first can be found.
pub open spec fn parse_error_body(e: Seq<char>) -> Seq<char> {
    if has_prefix(e, "RDF parsing error: "@) {
        e.skip(19)
    } else {
        e
    }
}

/// The issue reported for a document that did not parse: the line that the
/// error names, if it names one, and the message after it.
pub open spec fn parse_issue(content: Seq<char>, error: Seq<char>, source: Seq<char>) -> IssueView {
    let (line, message) = line_prefix(parse_error_body(error));
    let line_text = match line {
        Some(n) => {
            let k = if n == 0 {
                0
            } else {
                n - 1
            };
            if k < lines_of(content).len() {
                lines_of(content)[k]
            } else {
                seq![]
            }
        },
        None => seq![],
    };
    IssueView {
        severity: "Violation"@,
        message,
        line,
        column: match error_column(message, line_text) {
            Some(c) => Some(c as usize),
            None => None,
        },
        token: error_token(message),
        suggestion: error_hint(message),
        source: Some(source),
        focus_node: None,
        constraint_component: None,
        path: None,
        value: None,
        source_shape: None,
        details: None,
    }
}

/// A line of a text is no longer than the text.
pub proof fn lemma_lines_len(s: Seq<char>, k: int)
    requires
        0 <= k < lines_of(s).len(),
    ensures
        lines_of(s)[k].len() <= s.len(),
    decreases s.len(),
{
    if s.len() > 0 {
        match find_seq(s, seq!['\n']) {
            Some(j) => if 0 <= j < s.len() {
                if k > 0 {
                    lemma_lines_len(s.skip(j + 1), k - 1);
                }
            },
            None => {},
        }
    }
}

/// Turns a parse error into an issue, located in the document where the
/// message names a line.
pub fn parse_issue_from_error(content: &[char], error: &String, source: &String) -> (r: ValidationIssue)
    requires
        content@.len() < usize::MAX,
    ensures
        r@ == parse_issue(content@, error@, source@),
{
    let ec = chars_of(error.as_str());
    proof {
        reveal_strlit("RDF parsing error: ");
    }
    let (line, message) = if has_prefix_lit(&ec, "RDF parsing error: ") {
        let body = &ec[19..ec.len()];
        proof {
            assert(body@ =~= ec@.skip(19));
        }
        split_line_prefix(body)
    } else {
        split_line_prefix(&ec)
    };
    let line_text: Vec<char> = match line {
        Some(n) => {
            let k = n.saturating_sub(1);
            match nth_line(content, k) {
                Some(l) => {
                    proof {
                        lemma_lines_len(content@, k as int);
                    }
                    l
                },
                None => Vec::new(),
            }
        },
        None => Vec::new(),
    };
    let (column, token, suggestion) = infer_parse_details(&message, &line_text);
    ValidationIssue {
        severity: text("Violation"),
        message: string_of(&message),
        line,
        column,
        token,
        suggestion,
        source: Some(source.clone()),
        focus_node: None,
        constraint_component: None,
        path: None,
        value: None,
        source_shape: None,
        details: None,
    }
}

} // verus!

verus! {

// ---------------------------------------------------------------------------
// The validation service
// ---------------------------------------------------------------------------

/// Validation of graphs and optional shapes graphs.
pub struct ValidationService;

/// A shapes graph named by a file: its path and what reading the file gave.
#[derive(Debug)]
pub struct ShapesFile {
    pub path: String,
    pub content: Result<String, LodError>,
}

/// Where a shapes graph comes from.
enum ShapesInput {
    File(ShapesFile),
    Inline { content: String, format: RdfFormat },
}

/// The issues that checking one document raises, given what reading it
/// gave (`p`, see `parsed_as`): its triples' issues, or one issue for the
/// parse error.
pub open spec fn source_issues(content: Seq<char>, p: Result<Seq<STriple>, Seq<char>>, source: Seq<char>) -> Seq<IssueView> {
    match p {
        Ok(ts) => graph_issues(ts, source),
        Err(e) => seq![parse_issue(content, e, source)],
    }
}

pub open spec fn info_issue(message: Seq<char>, suggestion: Seq<char>) -> IssueView {
    IssueView {
        severity: "Info"@,
        message,
        line: None,
        column: None,
        token: None,
        suggestion: Some(suggestion),
        source: Some("shacl"@),
        focus_node: None,
        constraint_component: None,
        path: None,
        value: None,
        source_shape: None,
        details: None,
    }
}

/// The note given when SHACL validation is asked for without shapes.
pub open spec fn no_shapes_issue() -> IssueView {
    info_issue(
        "No SHACL shapes were provided, so SHACL validation was skipped."@,
        "Load or paste a SHACL shapes graph in the Shapes panel to run constraint validation."@,
    )
}

/// The note that shapes were given to a build without SHACL validation.
pub open spec fn feature_note(label: Seq<char>) -> IssueView {
    info_issue(
        "SHACL shapes were provided as "@ + label
            + ", but real SHACL validation requires building with the `rudof-shacl` feature."@,
        "Run with `cargo run -p lod --features lod-core/rudof-shacl -- validate ...` to enable Rudof SHACL validation."@,
    )
}

/// How a format is named in messages (its `Debug` form).
pub open spec fn format_name(f: RdfFormat) -> Seq<char> {
    match f {
        RdfFormat::Turtle => "Turtle"@,
        RdfFormat::NTriples => "NTriples"@,
        RdfFormat::JsonLd => "JsonLd"@,
        RdfFormat::RdfXml => "RdfXml"@,
        RdfFormat::TriG => "TriG"@,
    }
}

/// How shapes read from a file are named.
pub open spec fn file_label(path: Seq<char>) -> Seq<char> {
    "`"@ + path + "`"@
}

/// How inline shapes are named: their format and size in bytes.
pub open spec fn inline_label(content: Seq<char>, format: RdfFormat) -> Seq<char> {
    "inline SHACL shapes ("@ + format_name(format) + ", "@ + decimal(capped(byte_len(content))) + " bytes)"@
}

/// The issues raised by a shapes graph: its own syntax issues, then the
/// note that SHACL constraints are not checked in this build.
pub open spec fn shapes_issues(content: Seq<char>, q: Result<Seq<STriple>, Seq<char>>, label: Seq<char>) -> Seq<IssueView> {
    source_issues(content, q, "shapes"@) + seq![feature_note(label)]
}

/// Whether `r` reports the issues `base` and then those of a shapes graph
/// `c` in format `sf`, for some reading of it.
pub open spec fn with_shapes(
    base: Seq<IssueView>,
    c: Seq<char>,
    sf: RdfFormat,
    label: Seq<char>,
    r: Result<ValidationReport, LodError>,
) -> bool {
    exists|q: Result<Seq<STriple>, Seq<char>>| #[trigger] parsed_as(c, sf, q) && report_of(
        base + shapes_issues(c, q, label),
        r,
    )
}

/// A report conforms when no issue is a violation.
pub open spec fn conforms_of(issues: Seq<IssueView>) -> bool {
    forall|i: int| 0 <= i < issues.len() ==> #[trigger] issues[i].severity != "Violation"@
}

/// Whether `r` is the report for the given issues.
pub open spec fn report_of(issues: Seq<IssueView>, r: Result<ValidationReport, LodError>) -> bool {
    r is Ok && issues_view(r.unwrap().issues@) == issues && r.unwrap().conforms == conforms_of(issues)
}

/// The format a path names, or the unsupported name.
pub open spec fn format_of_path(path: Seq<char>) -> Result<RdfFormat, Seq<char>> {
    let e = lower(path_extension(path));
    if e == "rdf"@ || e == "xml"@ {
        Ok(RdfFormat::RdfXml)
    } else if e == "trig"@ {
        Ok(RdfFormat::TriG)
    } else {
        match format_named(lower(trim(e))) {
            Some(f) => Ok(f),
            None => Err(lower(trim(e))),
        }
    }
}

fn format_text(f: RdfFormat) -> (r: String)
    ensures
        r@ == format_name(f),
{
    match f {
        RdfFormat::Turtle => text("Turtle"),
        RdfFormat::NTriples => text("NTriples"),
        RdfFormat::JsonLd => text("JsonLd"),
        RdfFormat::RdfXml => text("RdfXml"),
        RdfFormat::TriG => text("TriG"),
    }
}

fn note_issue(message: String, suggestion: &str) -> (r: ValidationIssue)
    ensures
        r@ == info_issue(message@, suggestion@),
{
    ValidationIssue {
        severity: text("Info"),
        message,
        line: None,
        column: None,
        token: None,
        suggestion: Some(text(suggestion)),
        source: Some(text("shacl")),
        focus_node: None,
        constraint_component: None,
        path: None,
        value: None,
        source_shape: None,
        details: None,
    }
}

/// Appends the note that SHACL validation is not built in.
fn note_shacl_feature_disabled(label: &String, issues: &mut Vec<ValidationIssue>)
    ensures
        issues_view(final(issues)@) == issues_view(old(issues)@).push(feature_note(label@)),
{
    let mut m = chars_of("SHACL shapes were provided as ");
    push_string(&mut m, label);
    push_lit(&mut m, ", but real SHACL validation requires building with the `rudof-shacl` feature.");
    let i = note_issue(
        string_of(&m),
        "Run with `cargo run -p lod --features lod-core/rudof-shacl -- validate ...` to enable Rudof SHACL validation.",
    );
    let ghost b = issues@;
    issues.push(i);
    proof {
        lemma_push_issue(b, i);
    }
}

/// Reads a document and checks it, appending the issues raised.
fn check_source(content: &str, fmt: RdfFormat, source: &String, issues: &mut Vec<ValidationIssue>)
    requires
        content@.len() < usize::MAX,
    ensures
        exists|p: Result<Seq<STriple>, Seq<char>>| #[trigger] parsed_as(content@, fmt, p) && issues_view(final(issues)@)
            == issues_view(old(issues)@) + source_issues(content@, p, source@),
{
    let r = parse_graph(content, fmt);
    let ghost p = lemma_parsed_triples(content@, fmt, r);
    match r {
        Ok(graph) => validate_graph(&graph, issues, source),
        Err(e) => {
            let msg = e.to_string();
            let cc = chars_of(content);
            let i = parse_issue_from_error(&cc, &msg, source);
            let ghost b = issues@;
            issues.push(i);
            proof {
                lemma_push_issue(b, i);
                assert(issues_view(b) + seq![i@] =~= issues_view(b).push(i@));
            }
        },
    }
    assert(parsed_as(content@, fmt, p));
}

/// Whether no issue is a violation.
fn no_violation(issues: &Vec<ValidationIssue>) -> (r: bool)
    ensures
        r == conforms_of(issues_view(issues@)),
{
    let mut i: usize = 0;
    while i < issues.len()
        invariant
            i <= issues@.len(),
            forall|k: int| 0 <= k < i ==> #[trigger] issues_view(issues@)[k].severity != "Violation"@,
        decreases issues@.len() - i,
    {
        let sc = chars_of(issues[i].severity.as_str());
        if crate::text::is_literal(&sc, "Violation") {
            proof {
                assert(issues_view(issues@)[i as int].severity == "Violation"@);
            }
            return false;
        }
        i = i + 1;
    }
    true
}

/// The issues of the shapes graph; nothing when there is none, or the error
/// met loading it.
fn check_shapes(shapes: Option<ShapesInput>, issues: &mut Vec<ValidationIssue>) -> (r: Result<(), LodError>)
    requires
        match shapes {
            Some(ShapesInput::File(f)) => f.content matches Ok(c) ==> c@.len() < usize::MAX,
            Some(ShapesInput::Inline { content, .. }) => content@.len() < usize::MAX,
            None => true,
        },
    ensures
        match shapes {
            None => r is Ok && final(issues)@ == old(issues)@,
            Some(ShapesInput::Inline { content, format }) => r is Ok && exists|q: Result<Seq<STriple>, Seq<char>>|
                #[trigger] parsed_as(content@, format, q) && issues_view(final(issues)@) == issues_view(old(issues)@)
                    + shapes_issues(content@, q, inline_label(content@, format)),
            Some(ShapesInput::File(f)) => match f.content {
                Err(e) => r == Err::<(), LodError>(e),
                Ok(c) => match format_of_path(f.path@) {
                    Err(key) => r matches Err(LodError::UnsupportedFormat(s)) && s@ == key,
                    Ok(sf) => r is Ok && exists|q: Result<Seq<STriple>, Seq<char>>| #[trigger] parsed_as(c@, sf, q)
                        && issues_view(final(issues)@) == issues_view(old(issues)@) + shapes_issues(
                        c@,
                        q,
                        file_label(f.path@),
                    ),
                },
            },
        },
{
    let shapes_source = text("shapes");
    match shapes {
        None => Ok(()),
        Some(ShapesInput::Inline { content, format }) => {
            let ghost before = issues_view(issues@);
            check_source(content.as_str(), format, &shapes_source, issues);
            let ghost q = choose|q: Result<Seq<STriple>, Seq<char>>| #[trigger] parsed_as(content@, format, q)
                && issues_view(issues@) == before + source_issues(content@, q, shapes_source@);
            let cc = chars_of(content.as_str());
            let mut label = chars_of("inline SHACL shapes (");
            push_string(&mut label, &format_text(format));
            push_lit(&mut label, ", ");
            push_decimal(byte_len_of(&cc), &mut label);
            push_lit(&mut label, " bytes)");
            let ls = string_of(&label);
            let ghost mid = issues_view(issues@);
            note_shacl_feature_disabled(&ls, issues);
            proof {
                assert(ls@ =~= inline_label(content@, format));
                assert(issues_view(issues@) =~= issues_view(old(issues)@) + shapes_issues(
                    content@,
                    q,
                    inline_label(content@, format),
                ));
                assert(parsed_as(content@, format, q));
            }
            Ok(())
        },
        Some(ShapesInput::File(f)) => {
            let c = match f.content {
                Ok(c) => c,
                Err(e) => {
                    return Err(e);
                },
            };
            let sf = match RdfFormat::from_path(f.path.as_str()) {
                Ok(sf) => sf,
                Err(e) => {
                    return Err(e);
                },
            };
            let ghost before = issues_view(issues@);
            check_source(c.as_str(), sf, &shapes_source, issues);
            let ghost q = choose|q: Result<Seq<STriple>, Seq<char>>| #[trigger] parsed_as(c@, sf, q) && issues_view(issues@)
                == before + source_issues(c@, q, shapes_source@);
            let mut label = chars_of("`");
            push_string(&mut label, &f.path);
            push_lit(&mut label, "`");
            let ls = string_of(&label);
            note_shacl_feature_disabled(&ls, issues);
            proof {
                assert(ls@ =~= file_label(f.path@));
                assert(issues_view(issues@) =~= issues_view(old(issues)@) + shapes_issues(c@, q, file_label(f.path@)));
                assert(parsed_as(c@, sf, q));
            }
            Ok(())
        },
    }
}

} // verus!

verus! {

impl ValidationService {
    /// Reads and checks a document, then its shapes graph, into a report.
    fn validate_content_internal(
        &self,
        content: &str,
        fmt: RdfFormat,
        shapes: Option<ShapesInput>,
        run_shacl: bool,
    ) -> (r: Result<ValidationReport, LodError>)
        requires
            content@.len() < usize::MAX,
            match shapes {
                Some(ShapesInput::File(f)) => f.content matches Ok(c) ==> c@.len() < usize::MAX,
                Some(ShapesInput::Inline { content, .. }) => content@.len() < usize::MAX,
                None => true,
            },
        ensures
            exists|p: Result<Seq<STriple>, Seq<char>>| #[trigger] parsed_as(content@, fmt, p) && internal_outcome(
                content@,
                shapes,
                run_shacl,
                p,
                r,
            ),
    {
        let mut issues: Vec<ValidationIssue> = Vec::new();
        let input = text("input");
        check_source(content, fmt, &input, &mut issues);
        let ghost p = choose|p: Result<Seq<STriple>, Seq<char>>| #[trigger] parsed_as(content@, fmt, p) && issues_view(
            issues@,
        ) == Seq::<IssueView>::empty() + source_issues(content@, p, input@);
        if run_shacl && shapes.is_none() {
            let i = note_issue(
                text("No SHACL shapes were provided, so SHACL validation was skipped."),
                "Load or paste a SHACL shapes graph in the Shapes panel to run constraint validation.",
            );
            let ghost b = issues@;
            issues.push(i);
            proof {
                lemma_push_issue(b, i);
            }
        }
        proof {
            assert(issues_view(issues@) =~= source_issues(content@, p, "input"@) + if run_shacl && shapes is None {
                seq![no_shapes_issue()]
            } else {
                seq![]
            });
        }
        match check_shapes(shapes, &mut issues) {
            Ok(()) => {},
            Err(e) => {
                return Err(e);
            },
        }
        let conforms = no_violation(&issues);
        let r = Ok(ValidationReport { conforms, issues });
        assert(parsed_as(content@, fmt, p));
        r
    }

    /// Checks a document, and the shapes graph read from a file if one is
    /// named.
    pub fn validate_content(&self, content: &str, fmt: RdfFormat, shapes_graph: Option<ShapesFile>) -> (r: Result<
        ValidationReport,
        LodError,
    >)
        requires
            content@.len() < usize::MAX,
            shapes_graph matches Some(f) ==> (f.content matches Ok(c) ==> c@.len() < usize::MAX),
        ensures
            content_validation(content@, fmt, shapes_graph, r),
    {
        self.validate_content_with_format(content, fmt, shapes_graph)
    }

    /// Checks a document, and the shapes graph read from a file if one is
    /// named (the report's file format matters only where it is written).
    pub fn validate_content_with_format(&self, content: &str, fmt: RdfFormat, shapes_graph: Option<ShapesFile>) -> (r:
        Result<ValidationReport, LodError>)
        requires
            content@.len() < usize::MAX,
            shapes_graph matches Some(f) ==> (f.content matches Ok(c) ==> c@.len() < usize::MAX),
        ensures
            content_validation(content@, fmt, shapes_graph, r),
    {
        let shapes = match shapes_graph {
            Some(f) => Some(ShapesInput::File(f)),
            None => None,
        };
        let r = self.validate_content_internal(content, fmt, shapes, false);
        r
    }

    /// Checks a document and optional inline shapes (Turtle unless another
    /// format is given); syntax checks only.
    pub fn validate_content_with_shapes(
        &self,
        content: &str,
        fmt: RdfFormat,
        shapes_content: Option<&str>,
        shapes_format: Option<RdfFormat>,
    ) -> (r: Result<ValidationReport, LodError>)
        requires
            content@.len() < usize::MAX,
            shapes_content matches Some(c) ==> c@.len() < usize::MAX,
        ensures
            inline_validation(content@, fmt, shapes_content, shapes_format, false, r),
    {
        let shapes = inline_shapes(shapes_content, shapes_format);
        let r = self.validate_content_internal(content, fmt, shapes, false);
        proof {
            let p = choose|p: Result<Seq<STriple>, Seq<char>>| #[trigger] parsed_as(content@, fmt, p) && internal_outcome(
                content@,
                shapes,
                false,
                p,
                r,
            );
            let sf = match shapes_format {
                Some(f) => f,
                None => RdfFormat::Turtle,
            };
            let b = source_issues(content@, p, "input"@);
            assert(b + Seq::<IssueView>::empty() =~= b);
            assert(b + seq![no_shapes_issue()] =~= b.push(no_shapes_issue()));
            match shapes_content {
                None => {
                    assert(shapes is None);
                    assert(internal_outcome(content@, shapes, false, p, r));
                    if false {
                        assert(report_of(b.push(no_shapes_issue()), r));
                    } else {
                        assert(report_of(b, r));
                    }
                    assert(parsed_as(content@, fmt, p));
                    assert(inline_validation(content@, fmt, shapes_content, shapes_format, false, r));
                },
                Some(sc) => {
                    assert(shapes matches Some(ShapesInput::Inline { content, format }) && content@ == sc@ && format
                        == sf);
                    assert(with_shapes(b, sc@, sf, inline_label(sc@, sf), r));
                    assert(parsed_as(content@, fmt, p));
                },
            }
            assert(parsed_as(content@, fmt, p));
            assert(inline_validation(content@, fmt, shapes_content, shapes_format, false, r));
        }
        r
    }

    /// Checks a document and optional inline shapes for the SHACL report:
    /// as `validate_content_with_shapes`, and without shapes the report says
    /// that SHACL validation was skipped.
    pub fn validate_content_with_shapes_report(
        &self,
        content: &str,
        fmt: RdfFormat,
        shapes_content: Option<&str>,
        shapes_format: Option<RdfFormat>,
    ) -> (r: Result<ValidationReport, LodError>)
        requires
            content@.len() < usize::MAX,
            shapes_content matches Some(c) ==> c@.len() < usize::MAX,
        ensures
            inline_validation(content@, fmt, shapes_content, shapes_format, true, r),
    {
        let shapes = inline_shapes(shapes_content, shapes_format);
        let r = self.validate_content_internal(content, fmt, shapes, true);
        proof {
            let p = choose|p: Result<Seq<STriple>, Seq<char>>| #[trigger] parsed_as(content@, fmt, p) && internal_outcome(
                content@,
                shapes,
                true,
                p,
                r,
            );
            let sf = match shapes_format {
                Some(f) => f,
                None => RdfFormat::Turtle,
            };
            let b = source_issues(content@, p, "input"@);
            assert(b + Seq::<IssueView>::empty() =~= b);
            assert(b + seq![no_shapes_issue()] =~= b.push(no_shapes_issue()));
            match shapes_content {
                None => {
                    assert(shapes is None);
                    assert(internal_outcome(content@, shapes, true, p, r));
                    if true {
                        assert(report_of(b.push(no_shapes_issue()), r));
                    } else {
                        assert(report_of(b, r));
                    }
                    assert(parsed_as(content@, fmt, p));
                    assert(inline_validation(content@, fmt, shapes_content, shapes_format, true, r));
                },
                Some(sc) => {
                    assert(shapes matches Some(ShapesInput::Inline { content, format }) && content@ == sc@ && format
                        == sf);
                    assert(with_shapes(b, sc@, sf, inline_label(sc@, sf), r));
                    assert(parsed_as(content@, fmt, p));
                },
            }
            assert(parsed_as(content@, fmt, p));
            assert(inline_validation(content@, fmt, shapes_content, shapes_format, true, r));
        }
        r
    }

    /// Validates the data graph of a request: `data` is what reading its
    /// file gave and `shapes` what reading the shapes file gave, where the
    /// request names one. A failed read of the data file is reported first,
    /// then a path without a known format.
    pub fn validate(&self, req: ValidationRequest, data: Result<String, LodError>, shapes: Result<String, LodError>) -> (r:
        Result<ValidationReport, LodError>)
        requires
            data matches Ok(c) ==> c@.len() < usize::MAX,
            shapes matches Ok(c) ==> c@.len() < usize::MAX,
        ensures
            request_validation(req, data, shapes, r),
    {
        let content = match data {
            Ok(c) => c,
            Err(e) => {
                return Err(e);
            },
        };
        let fmt = match RdfFormat::from_path(req.data_graph_path.as_str()) {
            Ok(f) => f,
            Err(e) => {
                return Err(e);
            },
        };
        let shapes_graph = match req.shapes_graph_path {
            Some(p) => Some(ShapesFile { path: p, content: shapes }),
            None => None,
        };
        self.validate_content_with_format(content.as_str(), fmt, shapes_graph)
    }
}

/// What checking a document and a shapes file gives.
pub open spec fn content_validation(
    content: Seq<char>,
    fmt: RdfFormat,
    shapes_graph: Option<ShapesFile>,
    r: Result<ValidationReport, LodError>,
) -> bool {
    exists|p: Result<Seq<STriple>, Seq<char>>| #[trigger] parsed_as(content, fmt, p) && {
        let base = source_issues(content, p, "input"@);
        match shapes_graph {
            None => report_of(base, r),
            Some(f) => match f.content {
                Err(e) => r == Err::<ValidationReport, LodError>(e),
                Ok(c) => match format_of_path(f.path@) {
                    Err(key) => r matches Err(LodError::UnsupportedFormat(s)) && s@ == key,
                    Ok(sf) => with_shapes(base, c@, sf, file_label(f.path@), r),
                },
            },
        }
    }
}

/// What checking a document and inline shapes gives; for the SHACL report
/// (`report`), missing shapes are noted.
pub open spec fn inline_validation(
    content: Seq<char>,
    fmt: RdfFormat,
    shapes_content: Option<&str>,
    shapes_format: Option<RdfFormat>,
    report: bool,
    r: Result<ValidationReport, LodError>,
) -> bool {
    let sf = match shapes_format {
        Some(f) => f,
        None => RdfFormat::Turtle,
    };
    exists|p: Result<Seq<STriple>, Seq<char>>| #[trigger] parsed_as(content, fmt, p) && {
        let base = source_issues(content, p, "input"@);
        match shapes_content {
            None => if report {
                report_of(base.push(no_shapes_issue()), r)
            } else {
                report_of(base, r)
            },
            Some(sc) => with_shapes(base, sc@, sf, inline_label(sc@, sf), r),
        }
    }
}

/// What validating the files of a request gives.
pub open spec fn request_validation(
    req: ValidationRequest,
    data: Result<String, LodError>,
    shapes: Result<String, LodError>,
    r: Result<ValidationReport, LodError>,
) -> bool {
    match data {
        Err(e) => r == Err::<ValidationReport, LodError>(e),
        Ok(content) => match format_of_path(req.data_graph_path@) {
            Err(key) => r matches Err(LodError::UnsupportedFormat(s)) && s@ == key,
            Ok(fmt) => content_validation(
                content@,
                fmt,
                match req.shapes_graph_path {
                    Some(path) => Some(ShapesFile { path, content: shapes }),
                    None => None,
                },
                r,
            ),
        },
    }
}

/// What checking a document gives, given what reading it gave (`p`): its
/// issues, a note where the SHACL report has no shapes, then the shapes
/// graph's issues.
spec fn internal_outcome(
    content: Seq<char>,
    shapes: Option<ShapesInput>,
    run_shacl: bool,
    p: Result<Seq<STriple>, Seq<char>>,
    r: Result<ValidationReport, LodError>,
) -> bool {
    let base = source_issues(content, p, "input"@) + if run_shacl && shapes is None {
        seq![no_shapes_issue()]
    } else {
        seq![]
    };
    match shapes {
        None => report_of(base, r),
        Some(ShapesInput::Inline { content: sc, format }) => with_shapes(base, sc@, format, inline_label(sc@, format), r),
        Some(ShapesInput::File(f)) => match f.content {
            Err(e) => r == Err::<ValidationReport, LodError>(e),
            Ok(c) => match format_of_path(f.path@) {
                Err(key) => r matches Err(LodError::UnsupportedFormat(s)) && s@ == key,
                Ok(sf) => with_shapes(base, c@, sf, file_label(f.path@), r),
            },
        },
    }
}

fn inline_shapes(shapes_content: Option<&str>, shapes_format: Option<RdfFormat>) -> (r: Option<ShapesInput>)
    ensures
        match shapes_content {
            None => r is None,
            Some(sc) => r matches Some(ShapesInput::Inline { content, format }) && content@ == sc@ && format == match shapes_format {
                Some(f) => f,
                None => RdfFormat::Turtle,
            },
        },
{
    match shapes_content {
        Some(c) => Some(
            ShapesInput::Inline {
                content: text(c),
                format: match shapes_format {
                    Some(f) => f,
                    None => RdfFormat::Turtle,
                },
            },
        ),
        None => None,
    }
}

} // verus!

verus! {

/// Index just past the final byte of a control sequence whose parameters
/// start at `j`: the first character from `@` to `~`, or the end.
pub open spec fn csi_end(s: Seq<char>, j: int) -> int
    decreases s.len() - j,
{
    if j >= s.len() || j < 0 {
        s.len() as int
    } else if '@' <= s[j] && s[j] <= '~' {
        j + 1
    } else {
        csi_end(s, j + 1)
    }
}

pub proof fn lemma_csi_end(s: Seq<char>, j: int)
    requires
        0 <= j,
    ensures
        j < csi_end(s, j) <= s.len() || (j >= s.len() && csi_end(s, j) == s.len()),
    decreases s.len() - j,
{
    if j < s.len() && !('@' <= s[j] && s[j] <= '~') {
        lemma_csi_end(s, j + 1);
    }
}

/// Text from index `i` on without its ANSI control sequences (escape, `[`,
/// parameters, final character).
pub open spec fn strip_ansi_from(s: Seq<char>, i: int) -> Seq<char>
    decreases s.len() - i,
{
    if i >= s.len() || i < 0 {
        seq![]
    } else if s[i] == '\u{1b}' && i + 1 < s.len() && s[i + 1] == '[' {
        let k = csi_end(s, i + 2);
        if i < k <= s.len() {
            strip_ansi_from(s, k)
        } else {
            seq![]
        }
    } else {
        seq![s[i]] + strip_ansi_from(s, i + 1)
    }
}

/// Removes ANSI control sequences, as terminal tables print them.
pub fn strip_ansi_escape_sequences(input: &str) -> (r: String)
    ensures
        r@ == strip_ansi_from(input@, 0),
{
    let c = chars_of(input);
    let mut out: Vec<char> = Vec::new();
    let mut i: usize = 0;
    while i < c.len()
        invariant
            i <= c@.len(),
            c@ == input@,
            out@ + strip_ansi_from(c@, i as int) == strip_ansi_from(c@, 0),
        decreases c@.len() - i,
    {
        if c[i] == '\u{1b}' && i + 1 < c.len() && c[i + 1] == '[' {
            let mut j: usize = i + 2;
            proof {
                lemma_csi_end(c@, i + 2);
            }
            while j < c.len() && !('@' <= c[j] && c[j] <= '~')
                invariant
                    i + 2 <= j <= c@.len(),
                    csi_end(c@, i + 2) == csi_end(c@, j as int),
                decreases c@.len() - j,
            {
                j = j + 1;
            }
            let k = if j < c.len() {
                j + 1
            } else {
                c.len()
            };
            assert(k == csi_end(c@, i + 2));
            i = k;
        } else {
            let ghost o = out@;
            out.push(c[i]);
            proof {
                assert(out@ + strip_ansi_from(c@, i + 1) =~= o + (seq![c@[i as int]] + strip_ansi_from(c@, i + 1)));
            }
            i = i + 1;
        }
    }
    proof {
        assert(out@ + strip_ansi_from(c@, i as int) =~= out@);
    }
    string_of(&out)
}

} // verus!
