//! The character scanners of the Turtle reader: statement splitting,
//! top-level splitting, comment stripping and token extraction.
//!
//! Each scanner walks the text once, tracking whether it is inside a string
//! literal, inside an `<IRI>`, just after a backslash, and how deeply it is
//! nested in `[...]` and `(...)`. The specifications describe each scanner as
//! a function of the scanner state and the text still to be read.
use vstd::prelude::*;
use crate::text::{is_ws, char_is_ws, trim, trim_chars, trim_start, trim_start_chars, trim_end, trim_end_chars};

verus! {

/// Scanner state: inside a string literal, inside an IRI, just after an
/// escaping backslash, and the nesting depths of brackets and parentheses.
pub struct Scan {
    pub in_string: bool,
    pub in_iri: bool,
    pub escaped: bool,
    pub brackets: nat,
    pub parens: nat,
}

pub open spec fn scan0() -> Scan {
    Scan { in_string: false, in_iri: false, escaped: false, brackets: 0, parens: 0 }
}

pub open spec fn dec(n: nat) -> nat {
    if n > 0 {
        (n - 1) as nat
    } else {
        0
    }
}

/// Whether `c` opens or closes structure at the top of the text: outside
/// strings and IRIs.
pub open spec fn outside(st: Scan) -> bool {
    !st.in_string && !st.in_iri
}

/// How quotes, IRIs and groups change the state (no escape bookkeeping).
pub open spec fn nest_step(st: Scan, ch: char) -> Scan {
    if ch == '"' && !st.in_iri && !st.escaped {
        Scan { in_string: !st.in_string, ..st }
    } else if ch == '<' && !st.in_string {
        Scan { in_iri: true, ..st }
    } else if ch == '>' && st.in_iri && !st.escaped {
        Scan { in_iri: false, ..st }
    } else if ch == '[' && outside(st) {
        Scan { brackets: st.brackets + 1, ..st }
    } else if ch == ']' && outside(st) {
        Scan { brackets: dec(st.brackets), ..st }
    } else if ch == '(' && outside(st) {
        Scan { parens: st.parens + 1, ..st }
    } else if ch == ')' && outside(st) {
        Scan { parens: dec(st.parens), ..st }
    } else {
        st
    }
}

/// The executable scanner state.
pub struct ScanState {
    pub in_string: bool,
    pub in_iri: bool,
    pub escaped: bool,
    pub brackets: usize,
    pub parens: usize,
}

impl View for ScanState {
    type V = Scan;

    open spec fn view(&self) -> Scan {
        Scan {
            in_string: self.in_string,
            in_iri: self.in_iri,
            escaped: self.escaped,
            brackets: self.brackets as nat,
            parens: self.parens as nat,
        }
    }
}

pub fn scan_start() -> (st: ScanState)
    ensures
        st@ == scan0(),
{
    ScanState { in_string: false, in_iri: false, escaped: false, brackets: 0, parens: 0 }
}

/// One step of `nest_step`.
pub fn nest(st: &ScanState, ch: char) -> (r: ScanState)
    requires
        st.brackets < usize::MAX,
        st.parens < usize::MAX,
    ensures
        r@ == nest_step(st@, ch),
        r.escaped == st.escaped,
        r.brackets <= st.brackets + 1,
        r.parens <= st.parens + 1,
{
    let outside = !st.in_string && !st.in_iri;
    if ch == '"' && !st.in_iri && !st.escaped {
        ScanState { in_string: !st.in_string, ..*st }
    } else if ch == '<' && !st.in_string {
        ScanState { in_iri: true, ..*st }
    } else if ch == '>' && st.in_iri && !st.escaped {
        ScanState { in_iri: false, ..*st }
    } else if ch == '[' && outside {
        ScanState { brackets: st.brackets + 1, ..*st }
    } else if ch == ']' && outside {
        ScanState { brackets: if st.brackets > 0 { st.brackets - 1 } else { 0 }, ..*st }
    } else if ch == '(' && outside {
        ScanState { parens: st.parens + 1, ..*st }
    } else if ch == ')' && outside {
        ScanState { parens: if st.parens > 0 { st.parens - 1 } else { 0 }, ..*st }
    } else {
        ScanState { ..*st }
    }
}

// ---------------------------------------------------------------------------
// Comment stripping
// ---------------------------------------------------------------------------

/// A `#` outside strings, IRIs and groups starts a comment.
pub open spec fn comment_starts(st: Scan, ch: char) -> bool {
    ch == '#' && outside(st) && st.brackets == 0 && st.parens == 0
}

/// The comment stripper's step: a backslash inside a string starts an escape;
/// any other character but a backslash ends one.
pub open spec fn comment_step(st: Scan, ch: char) -> Scan {
    if ch == '\\' && st.in_string && !st.escaped {
        Scan { escaped: true, ..st }
    } else {
        let n = nest_step(st, ch);
        if ch != '\\' {
            Scan { escaped: false, ..n }
        } else {
            n
        }
    }
}

/// How many characters of `s` are kept before a comment starts, scanning
/// from state `st`.
pub open spec fn comment_cut(st: Scan, s: Seq<char>) -> nat
    decreases s.len(),
{
    if s.len() == 0 {
        0
    } else if comment_starts(st, s[0]) {
        0
    } else {
        1 + comment_cut(comment_step(st, s[0]), s.drop_first())
    }
}

/// `s` with its trailing comment removed.
pub open spec fn strip_comment(s: Seq<char>) -> Seq<char> {
    s.take(comment_cut(scan0(), s) as int)
}

pub proof fn lemma_comment_cut_len(st: Scan, s: Seq<char>)
    ensures
        comment_cut(st, s) <= s.len(),
    decreases s.len(),
{
    if s.len() > 0 && !comment_starts(st, s[0]) {
        lemma_comment_cut_len(comment_step(st, s[0]), s.drop_first());
    }
}

/// The text before an unquoted, unnested `#`.
pub fn strip_inline_comment(input: &[char]) -> (r: &[char])
    ensures
        r@ == strip_comment(input@),
        r@.len() <= input@.len(),
{
    let mut st = scan_start();
    let mut i: usize = 0;
    proof {
        assert(input@.skip(0) =~= input@);
    }
    while i < input.len()
        invariant
            i <= input@.len(),
            st.brackets <= i,
            st.parens <= i,
            comment_cut(scan0(), input@) == i + comment_cut(st@, input@.skip(i as int)),
        ensures
            i <= input@.len(),
            comment_cut(scan0(), input@) == i + comment_cut(st@, input@.skip(i as int)),
            i == input@.len() || comment_starts(st@, input@[i as int]),
        decreases input@.len() - i,
    {
        let ch = input[i];
        let ghost rest = input@.skip(i as int);
        assert(rest[0] == ch);
        if ch == '#' && !st.in_string && !st.in_iri && st.brackets == 0 && st.parens == 0 {
            break;
        }
        if ch == '\\' && st.in_string && !st.escaped {
            st = ScanState { escaped: true, ..st };
        } else {
            let n = nest(&st, ch);
            if ch != '\\' {
                st = ScanState { escaped: false, ..n };
            } else {
                st = n;
            }
        }
        proof {
            assert(rest.drop_first() =~= input@.skip(i + 1));
        }
        i = i + 1;
    }
    proof {
        if i < input@.len() {
            assert(input@.skip(i as int)[0] == input@[i as int]);
            assert(comment_cut(st@, input@.skip(i as int)) == 0);
        } else {
            assert(input@.skip(i as int).len() == 0);
        }
    }
    &input[0..i]
}

} // verus!

verus! {

/// The character sequences held by a list of character vectors.
pub open spec fn views(v: Seq<Vec<char>>) -> Seq<Seq<char>> {
    v.map_values(|p: Vec<char>| p@)
}

/// A fresh vector holding the characters of a slice.
pub fn copy_chars(s: &[char]) -> (r: Vec<char>)
    ensures
        r@ == s@,
{
    let mut r: Vec<char> = Vec::new();
    let mut i: usize = 0;
    while i < s.len()
        invariant
            i <= s@.len(),
            r@ == s@.subrange(0, i as int),
        decreases s@.len() - i,
    {
        r.push(s[i]);
        proof {
            assert(s@.subrange(0, i + 1) =~= s@.subrange(0, i as int).push(s@[i as int]));
        }
        i = i + 1;
    }
    proof {
        assert(s@.subrange(0, i as int) =~= s@);
    }
    r
}

// ---------------------------------------------------------------------------
// Splitting at top-level delimiters
// ---------------------------------------------------------------------------

/// Characters that have a role of their own for the scanners.
pub open spec fn is_structural(c: char) -> bool {
    c == '"' || c == '<' || c == '>' || c == '[' || c == ']' || c == '(' || c == ')' || c == '\\'
}

/// The step of the splitters: a backslash inside a string starts an escape,
/// every other character ends one.
pub open spec fn split_step(st: Scan, ch: char) -> Scan {
    Scan { escaped: ch == '\\' && st.in_string && !st.escaped, ..nest_step(st, ch) }
}

/// Whether a delimiter character splits here: outside strings, IRIs and groups.
pub open spec fn at_top(st: Scan) -> bool {
    outside(st) && st.brackets == 0 && st.parens == 0
}

/// The trimmed pieces of `s` between top-level `delim` characters, scanning
/// from state `st` with `buf` already read into the current piece. Pieces
/// between delimiters are kept even when empty; a final piece only when it
/// is not blank.
pub open spec fn split_parts(st: Scan, buf: Seq<char>, s: Seq<char>, delim: char) -> Seq<Seq<char>>
    decreases s.len(),
{
    if s.len() == 0 {
        if trim(buf).len() > 0 {
            seq![trim(buf)]
        } else {
            seq![]
        }
    } else if s[0] == delim && at_top(st) {
        seq![trim(buf)] + split_parts(Scan { escaped: false, ..st }, seq![], s.drop_first(), delim)
    } else {
        split_parts(split_step(st, s[0]), buf.push(s[0]), s.drop_first(), delim)
    }
}

/// `input` split at top-level occurrences of `delim`, each piece trimmed.
pub open spec fn split_top(input: Seq<char>, delim: char) -> Seq<Seq<char>> {
    split_parts(scan0(), seq![], input, delim)
}

pub proof fn lemma_trim_len(s: Seq<char>)
    ensures
        trim(s).len() <= s.len(),
{
    lemma_trim_start_len(s);
    lemma_trim_end_len(trim_start(s));
}

pub proof fn lemma_trim_start_len(s: Seq<char>)
    ensures
        trim_start(s).len() <= s.len(),
    decreases s.len(),
{
    if s.len() > 0 && is_ws(s[0]) {
        lemma_trim_start_len(s.drop_first());
    }
}

pub proof fn lemma_trim_end_len(s: Seq<char>)
    ensures
        trim_end(s).len() <= s.len(),
    decreases s.len(),
{
    if s.len() > 0 && is_ws(s.last()) {
        lemma_trim_end_len(s.drop_last());
    }
}

/// No piece is longer than the text it came from.
pub proof fn lemma_split_parts_len(st: Scan, buf: Seq<char>, s: Seq<char>, delim: char)
    ensures
        forall|k: int|
            0 <= k < split_parts(st, buf, s, delim).len() ==> #[trigger] split_parts(
                st,
                buf,
                s,
                delim,
            )[k].len() <= buf.len() + s.len(),
    decreases s.len(),
{
    lemma_trim_len(buf);
    let r = split_parts(st, buf, s, delim);
    if s.len() == 0 {
        if trim(buf).len() > 0 {
            assert(r == seq![trim(buf)]);
        } else {
            assert(r.len() == 0);
        }
    } else if s[0] == delim && at_top(st) {
        lemma_split_parts_len(Scan { escaped: false, ..st }, seq![], s.drop_first(), delim);
        let rest = split_parts(Scan { escaped: false, ..st }, seq![], s.drop_first(), delim);
        assert(r == seq![trim(buf)] + rest);
        assert forall|k: int| 0 <= k < r.len() implies #[trigger] r[k].len() <= buf.len() + s.len() by {
            if k > 0 {
                assert(r[k] == rest[k - 1]);
            }
        }
    } else {
        let r2 = split_parts(split_step(st, s[0]), buf.push(s[0]), s.drop_first(), delim);
        lemma_split_parts_len(split_step(st, s[0]), buf.push(s[0]), s.drop_first(), delim);
        assert(r == r2);
        assert forall|k: int| 0 <= k < r.len() implies #[trigger] r[k].len() <= buf.len() + s.len() by {
            assert(r2[k].len() <= buf.push(s[0]).len() + s.drop_first().len());
        }
    }
}

/// One step of `split_step`.
pub fn split_advance(st: &ScanState, ch: char) -> (r: ScanState)
    requires
        st.brackets < usize::MAX,
        st.parens < usize::MAX,
    ensures
        r@ == split_step(st@, ch),
        r.brackets <= st.brackets + 1,
        r.parens <= st.parens + 1,
{
    let esc = ch == '\\' && st.in_string && !st.escaped;
    let n = nest(st, ch);
    ScanState { escaped: esc, ..n }
}

/// `input` split at top-level occurrences of `delim` (not a structural
/// character), each piece trimmed.
pub fn split_top_level(input: &[char], delim: char) -> (parts: Vec<Vec<char>>)
    requires
        !is_structural(delim),
    ensures
        views(parts@) == split_top(input@, delim),
{
    let mut parts: Vec<Vec<char>> = Vec::new();
    let mut buf: Vec<char> = Vec::new();
    let mut st = scan_start();
    let mut i: usize = 0;
    proof {
        assert(input@.skip(0) =~= input@);
        assert(views(parts@) + split_parts(st@, buf@, input@.skip(0), delim) =~= split_top(input@, delim));
    }
    while i < input.len()
        invariant
            i <= input@.len(),
            st.brackets <= i,
            st.parens <= i,
            views(parts@) + split_parts(st@, buf@, input@.skip(i as int), delim) == split_top(
                input@,
                delim,
            ),
        decreases input@.len() - i,
    {
        let ch = input[i];
        let ghost rest = input@.skip(i as int);
        let ghost old_parts = views(parts@);
        let ghost old_buf = buf@;
        proof {
            assert(rest[0] == ch);
            assert(rest.drop_first() =~= input@.skip(i + 1));
        }
        if ch == delim && !st.in_string && !st.in_iri && st.brackets == 0 && st.parens == 0 {
            let piece = copy_chars(trim_chars(&buf));
            parts.push(piece);
            buf = Vec::new();
            st = ScanState { escaped: false, ..st };
            proof {
                assert(views(parts@) =~= old_parts.push(trim(old_buf)));
            }
        } else {
            st = split_advance(&st, ch);
            buf.push(ch);
        }
        i = i + 1;
    }
    proof {
        assert(input@.skip(i as int).len() == 0);
    }
    let t = trim_chars(&buf);
    if t.len() > 0 {
        let piece = copy_chars(t);
        let ghost old_parts = views(parts@);
        parts.push(piece);
        proof {
            assert(views(parts@) =~= old_parts + seq![t@]);
        }
    } else {
        proof {
            assert(views(parts@) =~= views(parts@) + Seq::<Seq<char>>::empty());
        }
    }
    parts
}

} // verus!

verus! {

// ---------------------------------------------------------------------------
// Statement splitting
// ---------------------------------------------------------------------------

/// State of the statement splitter: the lexical state, whether a comment is
/// being skipped, whether the current statement has started, the current
/// line and the line the current statement started on.
pub struct StmtScan {
    pub lex: Scan,
    pub in_comment: bool,
    pub started: bool,
    pub line: nat,
    pub start_line: nat,
}

pub open spec fn stmt_scan0() -> StmtScan {
    StmtScan { lex: scan0(), in_comment: false, started: false, line: 1, start_line: 1 }
}

/// The statements of `s`, scanning from `st` with `buf` read into the
/// current statement: each statement is the trimmed text up to a top-level
/// `.`, paired with the line it starts on. Comments are dropped; a newline
/// that ends a comment is kept inside a started statement.
pub open spec fn stmts(st: StmtScan, buf: Seq<char>, s: Seq<char>) -> Seq<(nat, Seq<char>)>
    decreases s.len(),
{
    if s.len() == 0 {
        if trim(buf).len() > 0 {
            seq![(st.start_line, trim(buf))]
        } else {
            seq![]
        }
    } else {
        let ch = s[0];
        let rest = s.drop_first();
        if st.in_comment {
            if ch == '\n' {
                stmts(
                    StmtScan { in_comment: false, line: st.line + 1, ..st },
                    if st.started { buf.push(ch) } else { buf },
                    rest,
                )
            } else {
                stmts(st, buf, rest)
            }
        } else {
            let line1: nat = if ch == '\n' { st.line + 1 } else { st.line };
            let starts = !st.started && !is_ws(ch) && ch != '#';
            let started1 = st.started || starts;
            let sl1 = if starts { line1 } else { st.start_line };
            if outside(st.lex) && ch == '#' {
                stmts(
                    StmtScan { lex: st.lex, in_comment: true, started: started1, line: line1, start_line: sl1 },
                    buf,
                    rest,
                )
            } else if ch == '.' && outside(st.lex) {
                if st.lex.brackets == 0 && st.lex.parens == 0 && trim(buf).len() > 0 {
                    seq![(sl1, trim(buf))] + stmts(
                        StmtScan {
                            lex: Scan { escaped: false, ..st.lex },
                            in_comment: false,
                            started: false,
                            line: line1,
                            start_line: sl1,
                        },
                        seq![],
                        rest,
                    )
                } else {
                    stmts(
                        StmtScan {
                            lex: Scan { escaped: false, ..st.lex },
                            in_comment: false,
                            started: started1,
                            line: line1,
                            start_line: sl1,
                        },
                        buf.push(ch),
                        rest,
                    )
                }
            } else {
                stmts(
                    StmtScan {
                        lex: split_step(st.lex, ch),
                        in_comment: false,
                        started: started1,
                        line: line1,
                        start_line: sl1,
                    },
                    buf.push(ch),
                    rest,
                )
            }
        }
    }
}

/// The statements of a Turtle document with the lines they start on.
pub open spec fn turtle_statements(content: Seq<char>) -> Seq<(nat, Seq<char>)> {
    stmts(stmt_scan0(), seq![], content)
}

pub open spec fn stmt_views(v: Seq<(usize, Vec<char>)>) -> Seq<(nat, Seq<char>)> {
    v.map_values(|p: (usize, Vec<char>)| (p.0 as nat, p.1@))
}

/// Splits a Turtle document into statements at top-level dots, dropping
/// comments, each statement trimmed and paired with its first line.
pub fn split_turtle_statements(content: &[char]) -> (out: Vec<(usize, Vec<char>)>)
    requires
        content@.len() < usize::MAX,
    ensures
        stmt_views(out@) == turtle_statements(content@),
{
    let mut out: Vec<(usize, Vec<char>)> = Vec::new();
    let mut buf: Vec<char> = Vec::new();
    let mut lex = scan_start();
    let mut in_comment = false;
    let mut started = false;
    let mut line: usize = 1;
    let mut start_line: usize = 1;
    let mut i: usize = 0;
    proof {
        assert(content@.skip(0) =~= content@);
        assert(stmt_views(out@) + stmts(stmt_scan0(), buf@, content@.skip(0)) =~= turtle_statements(
            content@,
        ));
    }
    while i < content.len()
        invariant
            i <= content@.len(),
            content@.len() < usize::MAX,
            lex.brackets <= i,
            lex.parens <= i,
            1 <= line <= i + 1,
            start_line <= line,
            stmt_views(out@) + stmts(
                StmtScan {
                    lex: lex@,
                    in_comment,
                    started,
                    line: line as nat,
                    start_line: start_line as nat,
                },
                buf@,
                content@.skip(i as int),
            ) == turtle_statements(content@),
        decreases content@.len() - i,
    {
        let ch = content[i];
        let ghost rest = content@.skip(i as int);
        let ghost old_out = stmt_views(out@);
        let ghost old_buf = buf@;
        proof {
            assert(rest[0] == ch);
            assert(rest.drop_first() =~= content@.skip(i + 1));
        }
        if in_comment {
            if ch == '\n' {
                in_comment = false;
                line = line + 1;
                if started {
                    buf.push(ch);
                }
            }
        } else {
            if ch == '\n' {
                line = line + 1;
            }
            if !started && !char_is_ws(ch) && ch != '#' {
                started = true;
                start_line = line;
            }
            if !lex.in_string && !lex.in_iri && ch == '#' {
                in_comment = true;
            } else if ch == '.' && !lex.in_string && !lex.in_iri {
                let t = trim_chars(&buf);
                if lex.brackets == 0 && lex.parens == 0 && t.len() > 0 {
                    let piece = copy_chars(t);
                    out.push((start_line, piece));
                    buf = Vec::new();
                    started = false;
                    lex = ScanState { escaped: false, ..lex };
                    proof {
                        assert(stmt_views(out@) =~= old_out.push((start_line as nat, trim(old_buf))));
                    }
                } else {
                    buf.push(ch);
                    lex = ScanState { escaped: false, ..lex };
                }
            } else {
                lex = split_advance(&lex, ch);
                buf.push(ch);
            }
        }
        i = i + 1;
    }
    proof {
        assert(content@.skip(i as int).len() == 0);
    }
    let t = trim_chars(&buf);
    if t.len() > 0 {
        let piece = copy_chars(t);
        let ghost old_out = stmt_views(out@);
        out.push((start_line, piece));
        proof {
            assert(stmt_views(out@) =~= old_out + seq![(start_line as nat, t@)]);
        }
    } else {
        proof {
            assert(stmt_views(out@) =~= stmt_views(out@) + Seq::<(nat, Seq<char>)>::empty());
        }
    }
    out
}

} // verus!

verus! {

// ---------------------------------------------------------------------------
// Tokens and object fragments
// ---------------------------------------------------------------------------

/// Whether `c` ends a bare token at the top level.
pub open spec fn token_break(c: char) -> bool {
    is_ws(c) || c == ';' || c == ',' || c == '.'
}

/// How quotes, IRIs and opening groups change the token scanner's state;
/// both kinds of group share the depth counter `brackets`.
pub open spec fn token_nest(st: Scan, ch: char) -> Scan {
    if ch == '"' && !st.in_iri && !st.escaped {
        Scan { in_string: !st.in_string, ..st }
    } else if ch == '<' && !st.in_string {
        Scan { in_iri: true, ..st }
    } else if ch == '>' && st.in_iri && !st.escaped {
        Scan { in_iri: false, ..st }
    } else if (ch == '[' || ch == '(') && outside(st) {
        Scan { brackets: st.brackets + 1, ..st }
    } else {
        st
    }
}

/// The escape rule of the token scanners: a backslash inside a string starts
/// an escape, another backslash leaves the state as it is, any other
/// character ends an escape.
pub open spec fn token_escape(st: Scan, ch: char) -> bool {
    if ch != '\\' {
        false
    } else if st.in_string && !st.escaped {
        true
    } else {
        st.escaped
    }
}

pub open spec fn token_step(st: Scan, ch: char) -> Scan {
    Scan { escaped: token_escape(st, ch), ..token_nest(st, ch) }
}

pub open spec fn is_close(c: char) -> bool {
    c == ']' || c == ')'
}

/// Where the token that starts at index 0 of `s` ends, scanning from index
/// `i` in state `st`: at a top-level break character, at an unmatched closing
/// bracket, just after the bracket that closes the outermost group, or at
/// the end of the text.
pub open spec fn token_scan(st: Scan, s: Seq<char>, i: int) -> int
    decreases s.len() - i,
{
    if i >= s.len() || i < 0 {
        s.len() as int
    } else {
        let ch = s[i];
        if is_close(ch) && outside(st) {
            if st.brackets == 0 {
                i
            } else if st.brackets == 1 {
                i + 1
            } else {
                token_scan(Scan { brackets: (st.brackets - 1) as nat, escaped: false, ..st }, s, i + 1)
            }
        } else if outside(st) && st.brackets == 0 && token_break(ch) {
            i
        } else {
            token_scan(token_step(st, ch), s, i + 1)
        }
    }
}

pub proof fn lemma_token_scan_bounds(st: Scan, s: Seq<char>, i: int)
    requires
        0 <= i <= s.len(),
    ensures
        i <= token_scan(st, s, i) <= s.len(),
    decreases s.len() - i,
{
    if i < s.len() {
        let ch = s[i];
        if is_close(ch) && outside(st) {
            if st.brackets > 1 {
                lemma_token_scan_bounds(Scan { brackets: (st.brackets - 1) as nat, escaped: false, ..st }, s, i + 1);
            }
        } else if outside(st) && st.brackets == 0 && token_break(ch) {
        } else {
            lemma_token_scan_bounds(token_step(st, ch), s, i + 1);
        }
    }
}

/// The split point of `take_token`: the first token of the text with its
/// leading white space removed.
pub open spec fn token_end(t: Seq<char>) -> int {
    token_scan(scan0(), t, 0)
}

/// The executable step of the token scanners.
pub fn token_advance(st: &ScanState, ch: char) -> (r: ScanState)
    requires
        st.brackets < usize::MAX,
    ensures
        r@ == token_step(st@, ch),
        r.brackets <= st.brackets + 1,
        r.parens == st.parens,
{
    let esc = if ch != '\\' {
        false
    } else if st.in_string && !st.escaped {
        true
    } else {
        st.escaped
    };
    let outside = !st.in_string && !st.in_iri;
    if ch == '"' && !st.in_iri && !st.escaped {
        ScanState { in_string: !st.in_string, escaped: esc, ..*st }
    } else if ch == '<' && !st.in_string {
        ScanState { in_iri: true, escaped: esc, ..*st }
    } else if ch == '>' && st.in_iri && !st.escaped {
        ScanState { in_iri: false, escaped: esc, ..*st }
    } else if (ch == '[' || ch == '(') && outside {
        ScanState { brackets: st.brackets + 1, escaped: esc, ..*st }
    } else {
        ScanState { escaped: esc, ..*st }
    }
}

/// Splits off the first token of `input` (after leading white space): the
/// token and the text after it, or nothing for a blank text.
pub fn take_token(input: &[char]) -> (r: Option<(&[char], &[char])>)
    ensures
        ({
            let t = trim_start(input@);
            if t.len() == 0 {
                r is None
            } else {
                r is Some && r.unwrap().0@ == t.take(token_end(t)) && r.unwrap().1@ == t.skip(
                    token_end(t),
                )
            }
        }),
{
    let t = trim_start_chars(input);
    if t.len() == 0 {
        return None;
    }
    let mut st = scan_start();
    let mut i: usize = 0;
    while i < t.len()
        invariant
            i <= t@.len(),
            st.brackets <= i,
            t@ == trim_start(input@),
            token_end(t@) == token_scan(st@, t@, i as int),
        decreases t@.len() - i,
    {
        let ch = t[i];
        proof {
            assert(t@[i as int] == ch);
            assert(t@.subrange(0, i as int) =~= t@.take(i as int));
            assert(t@.subrange(i as int, t@.len() as int) =~= t@.skip(i as int));
            assert(t@.subrange(0, i + 1) =~= t@.take(i + 1));
            assert(t@.subrange(i + 1, t@.len() as int) =~= t@.skip(i + 1));
        }
        if (ch == ']' || ch == ')') && !st.in_string && !st.in_iri {
            if st.brackets == 0 {
                return Some((&t[0..i], &t[i..t.len()]));
            }
            if st.brackets == 1 {
                return Some((&t[0..i + 1], &t[i + 1..t.len()]));
            }
            st = ScanState { brackets: st.brackets - 1, escaped: false, ..st };
        } else if !st.in_string && !st.in_iri && st.brackets == 0 && (char_is_ws(ch) || ch == ';'
            || ch == ',' || ch == '.') {
            return Some((&t[0..i], &t[i..t.len()]));
        } else {
            st = token_advance(&st, ch);
        }
        i = i + 1;
    }
    proof {
        assert(t@.take(t@.len() as int) =~= t@);
        assert(t@.skip(t@.len() as int) =~= Seq::<char>::empty());
    }
    Some((t, &t[t.len()..t.len()]))
}

/// Where the next object fragment of `s` lies, scanning from index `i` in
/// state `st` with the fragment starting at `start`: top-level break
/// characters before the fragment are skipped; the fragment ends like a token.
pub open spec fn fragment_scan(st: Scan, s: Seq<char>, i: int, start: int) -> Option<(int, int)>
    decreases s.len() - i,
{
    if i >= s.len() || i < 0 {
        if start < s.len() {
            Some((start, s.len() as int))
        } else {
            None
        }
    } else {
        let ch = s[i];
        if is_close(ch) && outside(st) {
            if st.brackets == 0 {
                Some((start, i))
            } else if st.brackets == 1 {
                Some((start, i + 1))
            } else {
                fragment_scan(Scan { brackets: (st.brackets - 1) as nat, escaped: false, ..st }, s, i + 1, start)
            }
        } else if outside(st) && st.brackets == 0 && token_break(ch) {
            if i == start {
                fragment_scan(st, s, i + 1, i + 1)
            } else {
                Some((start, i))
            }
        } else {
            fragment_scan(token_step(st, ch), s, i + 1, start)
        }
    }
}

pub proof fn lemma_fragment_scan_bounds(st: Scan, s: Seq<char>, i: int, start: int)
    requires
        0 <= start <= i <= s.len(),
    ensures
        fragment_scan(st, s, i, start) matches Some((a, b)) ==> start <= a <= b <= s.len(),
    decreases s.len() - i,
{
    if i < s.len() {
        let ch = s[i];
        if is_close(ch) && outside(st) {
            if st.brackets > 1 {
                lemma_fragment_scan_bounds(Scan { brackets: (st.brackets - 1) as nat, escaped: false, ..st }, s, i + 1, start);
            }
        } else if outside(st) && st.brackets == 0 && token_break(ch) {
            if i == start {
                lemma_fragment_scan_bounds(st, s, i + 1, i + 1);
            }
        } else {
            lemma_fragment_scan_bounds(token_step(st, ch), s, i + 1, start);
        }
    }
}

/// The next item of an RDF collection in `input` (after leading white
/// space): the item and the text after it, or nothing when no item is left.
pub fn take_object_fragment(input: &[char]) -> (r: Option<(&[char], &[char])>)
    ensures
        ({
            let t = trim_start(input@);
            if t.len() == 0 {
                r is None
            } else {
                match fragment_scan(scan0(), t, 0, 0) {
                    Some((a, b)) => r is Some && r.unwrap().0@ == t.subrange(a, b) && r.unwrap().1@
                        == t.skip(b),
                    None => r is None,
                }
            }
        }),
{
    let t = trim_start_chars(input);
    if t.len() == 0 {
        return None;
    }
    let mut st = scan_start();
    let mut i: usize = 0;
    let mut start: usize = 0;
    while i < t.len()
        invariant
            start <= i <= t@.len(),
            st.brackets <= i,
            t@ == trim_start(input@),
            fragment_scan(scan0(), t@, 0, 0) == fragment_scan(st@, t@, i as int, start as int),
        decreases t@.len() - i,
    {
        let ch = t[i];
        proof {
            assert(t@[i as int] == ch);
            assert(t@.subrange(i as int, t@.len() as int) =~= t@.skip(i as int));
            assert(t@.subrange(i + 1, t@.len() as int) =~= t@.skip(i + 1));
        }
        if (ch == ']' || ch == ')') && !st.in_string && !st.in_iri {
            if st.brackets == 0 {
                return Some((&t[start..i], &t[i..t.len()]));
            }
            if st.brackets == 1 {
                return Some((&t[start..i + 1], &t[i + 1..t.len()]));
            }
            st = ScanState { brackets: st.brackets - 1, escaped: false, ..st };
        } else if !st.in_string && !st.in_iri && st.brackets == 0 && (char_is_ws(ch) || ch == ';'
            || ch == ',' || ch == '.') {
            if i == start {
                start = i + 1;
            } else {
                return Some((&t[start..i], &t[i..t.len()]));
            }
        } else {
            st = token_advance(&st, ch);
        }
        i = i + 1;
    }
    proof {
        assert(t@.subrange(t@.len() as int, t@.len() as int) =~= t@.skip(t@.len() as int));
    }
    if start < t.len() {
        Some((&t[start..t.len()], &t[t.len()..t.len()]))
    } else {
        None
    }
}

} // verus!

verus! {

// ---------------------------------------------------------------------------
// Grouped content
// ---------------------------------------------------------------------------

/// Why a group could not be read.
#[derive(Debug, PartialEq, Eq, Structural)]
pub enum GroupError {
    /// The text does not start with the opening character.
    NotGrouped,
    /// The group closed before it opened.
    Malformed,
    /// The group never closes.
    Unterminated,
}

/// Scanning a group opened by `open` and closed by `close`, from index `i`
/// in state `st` at nesting depth `depth`, with the content starting at
/// `start` once the outermost group has opened: the content's start and the
/// index of the closing character.
pub open spec fn group_scan(
    st: Scan,
    depth: int,
    start: Option<int>,
    s: Seq<char>,
    i: int,
    open: char,
    close: char,
) -> Result<(int, int), GroupError>
    decreases s.len() - i,
{
    if i >= s.len() || i < 0 {
        Err(GroupError::Unterminated)
    } else {
        let ch = s[i];
        let plain = Scan { escaped: if ch != '\\' { false } else { st.escaped }, ..st };
        if ch == '"' && !st.in_iri && !st.escaped {
            group_scan(Scan { in_string: !st.in_string, escaped: false, ..st }, depth, start, s, i + 1, open, close)
        } else if ch == '<' && !st.in_string {
            group_scan(Scan { in_iri: true, escaped: false, ..st }, depth, start, s, i + 1, open, close)
        } else if ch == '>' && st.in_iri && !st.escaped {
            group_scan(Scan { in_iri: false, escaped: false, ..st }, depth, start, s, i + 1, open, close)
        } else if ch == '\\' && st.in_string && !st.escaped {
            group_scan(Scan { escaped: true, ..st }, depth, start, s, i + 1, open, close)
        } else if ch == open && outside(st) {
            group_scan(
                plain,
                depth + 1,
                if depth + 1 == 1 { Some(i + 1) } else { start },
                s,
                i + 1,
                open,
                close,
            )
        } else if ch == close && outside(st) {
            if depth - 1 == 0 {
                match start {
                    Some(a) => Ok((a, i)),
                    None => Err(GroupError::Malformed),
                }
            } else {
                group_scan(plain, depth - 1, start, s, i + 1, open, close)
            }
        } else {
            group_scan(plain, depth, start, s, i + 1, open, close)
        }
    }
}

pub open spec fn flags(in_string: bool, in_iri: bool, escaped: bool) -> Scan {
    Scan { in_string, in_iri, escaped, brackets: 0, parens: 0 }
}

/// Reading the group at the start of `input` (after trimming): its content
/// and the text after the closing character.
pub open spec fn group_of(input: Seq<char>, open: char, close: char) -> Result<(Seq<char>, Seq<char>), GroupError> {
    let t = trim(input);
    if t.len() == 0 || t[0] != open {
        Err(GroupError::NotGrouped)
    } else {
        match group_scan(scan0(), 0, None, t, 0, open, close) {
            Ok((a, b)) => Ok((t.subrange(a, b), t.skip(b + 1))),
            Err(e) => Err(e),
        }
    }
}

pub proof fn lemma_group_scan_bounds(
    st: Scan,
    depth: int,
    start: Option<int>,
    s: Seq<char>,
    i: int,
    open: char,
    close: char,
)
    requires
        0 <= i <= s.len(),
        start matches Some(a) ==> 1 <= a <= i,
    ensures
        group_scan(st, depth, start, s, i, open, close) matches Ok((a, b)) ==> 1 <= a <= b < s.len(),
    decreases s.len() - i,
{
    if i < s.len() {
        let ch = s[i];
        let plain = Scan { escaped: if ch != '\\' { false } else { st.escaped }, ..st };
        if ch == '"' && !st.in_iri && !st.escaped {
            lemma_group_scan_bounds(Scan { in_string: !st.in_string, escaped: false, ..st }, depth, start, s, i + 1, open, close);
        } else if ch == '<' && !st.in_string {
            lemma_group_scan_bounds(Scan { in_iri: true, escaped: false, ..st }, depth, start, s, i + 1, open, close);
        } else if ch == '>' && st.in_iri && !st.escaped {
            lemma_group_scan_bounds(Scan { in_iri: false, escaped: false, ..st }, depth, start, s, i + 1, open, close);
        } else if ch == '\\' && st.in_string && !st.escaped {
            lemma_group_scan_bounds(Scan { escaped: true, ..st }, depth, start, s, i + 1, open, close);
        } else if ch == open && outside(st) {
            lemma_group_scan_bounds(plain, depth + 1, if depth + 1 == 1 { Some(i + 1) } else { start }, s, i + 1, open, close);
        } else if ch == close && outside(st) {
            if depth - 1 != 0 {
                lemma_group_scan_bounds(plain, depth - 1, start, s, i + 1, open, close);
            }
        } else {
            lemma_group_scan_bounds(plain, depth, start, s, i + 1, open, close);
        }
    }
}

/// The content of the group that `input` starts with (after trimming) and
/// the text after its closing character.
pub fn extract_group_content(input: &[char], open: char, close: char) -> (r: Result<(&[char], &[char]), GroupError>)
    requires
        open != '"' && open != '<' && open != '>' && open != '\\',
    ensures
        match group_of(input@, open, close) {
            Ok((inner, rest)) => r is Ok && r.unwrap().0@ == inner && r.unwrap().1@ == rest,
            Err(e) => r == Err::<(&[char], &[char]), GroupError>(e),
        },
{
    let t = trim_chars(input);
    if t.len() == 0 || t[0] != open {
        return Err(GroupError::NotGrouped);
    }
    let mut in_string = false;
    let mut in_iri = false;
    let mut escaped = false;
    let mut depth: usize = 0;
    let mut start: Option<usize> = None;
    let mut i: usize = 0;
    while i < t.len()
        invariant
            i <= t@.len(),
            t@ == trim(input@),
            t@.len() > 0 && t@[0] == open,
            open != '"' && open != '<' && open != '>' && open != '\\',
            depth <= i,
            i > 0 ==> depth >= 1,
            i == 0 ==> !in_string && !in_iri && !escaped && depth == 0 && start is None,
            start matches Some(a) ==> 1 <= a <= i,
            group_of(input@, open, close) == match group_scan(
                flags(in_string, in_iri, escaped),
                depth as int,
                match start { Some(a) => Some(a as int), None => None },
                t@,
                i as int,
                open,
                close,
            ) {
                Ok((a, b)) => Ok((t@.subrange(a, b), t@.skip(b + 1))),
                Err(e) => Err(e),
            },
        decreases t@.len() - i,
    {
        let ch = t[i];
        proof {
            assert(t@[i as int] == ch);
        }
        let outside = !in_string && !in_iri;
        proof {
            if i == 0 {
                assert(ch == open);
                assert(outside);
            }
        }
        if ch == '"' && !in_iri && !escaped {
            in_string = !in_string;
            escaped = false;
        } else if ch == '<' && !in_string {
            in_iri = true;
            escaped = false;
        } else if ch == '>' && in_iri && !escaped {
            in_iri = false;
            escaped = false;
        } else if ch == '\\' && in_string && !escaped {
            escaped = true;
        } else if ch == open && outside {
            depth = depth + 1;
            if depth == 1 {
                start = Some(i + 1);
            }
            if ch != '\\' {
                escaped = false;
            }
        } else if ch == close && outside {
            if depth == 1 {
                match start {
                    Some(a) => {
                        proof {
                            assert(t@.subrange(i + 1, t@.len() as int) =~= t@.skip(i + 1));
                        }
                        return Ok((&t[a..i], &t[i + 1..t.len()]));
                    },
                    None => {
                        return Err(GroupError::Malformed);
                    },
                }
            }
            if depth == 0 {
                // the depth goes below zero only before the group opens, which the
                // first character rules out
                return Err(GroupError::Malformed);
            }
            depth = depth - 1;
            if ch != '\\' {
                escaped = false;
            }
        } else {
            if ch != '\\' {
                escaped = false;
            }
        }
        i = i + 1;
    }
    Err(GroupError::Unterminated)
}

} // verus!

verus! {

// ---------------------------------------------------------------------------
// Small token helpers
// ---------------------------------------------------------------------------

pub open spec fn is_terminator(c: char) -> bool {
    c == '.' || c == ';' || c == ','
}

/// `s` with trailing white space and statement punctuation (`.`, `;`, `,`)
/// removed, repeatedly.
pub open spec fn strip_terms(s: Seq<char>) -> Seq<char>
    decreases s.len(),
{
    let t = trim_end(s);
    if t.len() > 0 && is_terminator(t.last()) {
        proof {
            lemma_trim_end_len(s);
        }
        strip_terms(t.drop_last())
    } else {
        t
    }
}

/// The trimmed text with trailing punctuation removed.
pub open spec fn without_terminators(s: Seq<char>) -> Seq<char> {
    strip_terms(trim(s))
}

pub proof fn lemma_strip_terms_prefix(s: Seq<char>)
    ensures
        strip_terms(s).len() <= s.len(),
        strip_terms(s) == s.take(strip_terms(s).len() as int),
    decreases s.len(),
{
    let t = trim_end(s);
    lemma_trim_end_prefix(s);
    if t.len() > 0 && is_terminator(t.last()) {
        lemma_strip_terms_prefix(t.drop_last());
        let r = strip_terms(t.drop_last());
        assert(r =~= s.take(r.len() as int));
    }
}

pub proof fn lemma_trim_end_prefix(s: Seq<char>)
    ensures
        trim_end(s).len() <= s.len(),
        trim_end(s) == s.take(trim_end(s).len() as int),
    decreases s.len(),
{
    if s.len() > 0 && is_ws(s.last()) {
        lemma_trim_end_prefix(s.drop_last());
        let r = trim_end(s.drop_last());
        assert(r =~= s.take(r.len() as int));
    } else {
        assert(s =~= s.take(s.len() as int));
    }
}

/// The text with white space and trailing `.`, `;`, `,` removed at its end.
pub fn trim_trailing_terminators(input: &[char]) -> (r: &[char])
    ensures
        r@ == without_terminators(input@),
        r@.len() <= input@.len(),
{
    proof {
        lemma_trim_len(input@);
    }
    let mut s = trim_chars(input);
    loop
        invariant
            without_terminators(input@) == strip_terms(s@),
            s@.len() <= input@.len(),
        decreases s@.len(),
    {
        let t = trim_end_chars(s);
        proof {
            lemma_trim_end_len(s@);
        }
        if t.len() > 0 && (t[t.len() - 1] == '.' || t[t.len() - 1] == ';' || t[t.len() - 1] == ',') {
            proof {
                assert(t@.last() == t@[t@.len() - 1]);
                assert(t@.subrange(0, t@.len() - 1) =~= t@.drop_last());
            }
            s = &t[0..t.len() - 1];
        } else {
            proof {
                if t@.len() > 0 {
                    assert(t@.last() == t@[t@.len() - 1]);
                }
            }
            return t;
        }
    }
}

/// The index of the first white-space character of `s`, or its length.
pub open spec fn first_ws(s: Seq<char>) -> int
    decreases s.len(),
{
    if s.len() == 0 {
        0
    } else if is_ws(s[0]) {
        0
    } else {
        1 + first_ws(s.drop_first())
    }
}

pub proof fn lemma_first_ws(s: Seq<char>)
    ensures
        0 <= first_ws(s) <= s.len(),
        forall|k: int| 0 <= k < first_ws(s) ==> !is_ws(#[trigger] s[k]),
        first_ws(s) < s.len() ==> is_ws(s[first_ws(s)]),
    decreases s.len(),
{
    if s.len() > 0 && !is_ws(s[0]) {
        let t = s.drop_first();
        lemma_first_ws(t);
        assert forall|k: int| 0 <= k < first_ws(s) implies !is_ws(#[trigger] s[k]) by {
            if k > 0 {
                assert(s[k] == t[k - 1]);
            }
        }
        if first_ws(s) < s.len() {
            assert(s[first_ws(s)] == t[first_ws(t)]);
        }
    }
}

/// The white-space separated words of `s`, as `str::split_whitespace`.
pub open spec fn words(s: Seq<char>) -> Seq<Seq<char>>
    decreases s.len(),
{
    let t = trim_start(s);
    if t.len() == 0 {
        seq![]
    } else {
        let k = first_ws(t);
        proof {
            lemma_trim_start_len(s);
            lemma_first_ws(t);
            lemma_trim_start_first(s);
        }
        if 0 < k {
            seq![t.take(k)] + words(t.skip(k))
        } else {
            seq![]
        }
    }
}

pub proof fn lemma_trim_start_first(s: Seq<char>)
    ensures
        trim_start(s).len() > 0 ==> !is_ws(trim_start(s)[0]),
    decreases s.len(),
{
    if s.len() > 0 && is_ws(s[0]) {
        lemma_trim_start_first(s.drop_first());
    }
}

/// The white-space separated words of a text.
pub fn split_whitespace(s: &[char]) -> (r: Vec<Vec<char>>)
    ensures
        views(r@) == words(s@),
{
    let mut r: Vec<Vec<char>> = Vec::new();
    let mut cur: &[char] = s;
    loop
        invariant
            views(r@) + words(cur@) == words(s@),
        decreases cur@.len(),
    {
        let t = trim_start_chars(cur);
        proof {
            lemma_trim_start_len(cur@);
            lemma_trim_start_first(cur@);
        }
        if t.len() == 0 {
            proof {
                assert(views(r@) + words(cur@) =~= views(r@));
            }
            return r;
        }
        let mut k: usize = 0;
        proof {
            assert(t@.skip(0) =~= t@);
        }
        while k < t.len() && !char_is_ws(t[k])
            invariant
                k <= t@.len(),
                first_ws(t@) == k + first_ws(t@.skip(k as int)),
            decreases t@.len() - k,
        {
            proof {
                assert(t@.skip(k as int)[0] == t@[k as int]);
                assert(t@.skip(k as int).drop_first() =~= t@.skip(k + 1));
            }
            k = k + 1;
        }
        proof {
            if k < t@.len() {
                assert(t@.skip(k as int)[0] == t@[k as int]);
            }
            assert(first_ws(t@) == k);
            assert(t@[0] == t@.skip(0)[0]);
        }
        let ghost old_r = views(r@);
        r.push(copy_chars(&t[0..k]));
        proof {
            assert(views(r@) =~= old_r.push(t@.take(k as int)));
            assert(t@.subrange(k as int, t@.len() as int) =~= t@.skip(k as int));
            assert(views(r@) + words(t@.skip(k as int)) =~= old_r + words(cur@));
        }
        cur = &t[k..t.len()];
    }
}

/// The text between `<` and `>` of a bracketed IRI.
pub open spec fn iri_inside(token: Seq<char>) -> Option<Seq<char>> {
    if token.len() >= 2 && token[0] == '<' && token.last() == '>' {
        Some(token.subrange(1, token.len() - 1))
    } else {
        None
    }
}

/// The text between `<` and `>` of a bracketed IRI token.
pub fn trim_iri(token: &[char]) -> (r: Option<&[char]>)
    ensures
        match iri_inside(token@) {
            Some(i) => r is Some && r.unwrap()@ == i,
            None => r is None,
        },
{
    if token.len() >= 2 && token[0] == '<' && token[token.len() - 1] == '>' {
        Some(&token[1..token.len() - 1])
    } else {
        None
    }
}

} // verus!
