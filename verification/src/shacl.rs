//! SHACL validation results as the SHACL engine prints them: a clean
//! verdict, or a detail table with one row per result, whose long cells go
//! on over the rows below.
use vstd::prelude::*;
use crate::model::{ValidationIssue, IssueView, issues_view};
use crate::text::{
    trim, lower, contains_seq, chars_of, chars_of_string, string_of, trim_chars, lower_chars, contains_lit, is_literal,
    push_all, push_lit, contains_char,
};
use crate::validate::{strip_ansi_from, strip_ansi_escape_sequences, lines_of};

verus! {

/// Whether a report says that the data conforms: `Conforms` or `No errors
/// found`, in any ASCII case, around white space.
pub open spec fn clean_report(report: Seq<char>) -> bool {
    let l = lower(trim(report));
    l == "conforms"@ || l == "no errors found"@
}

pub fn is_clean_shacl_report(report: &str) -> (r: bool)
    ensures
        r == clean_report(report@),
{
    let c = chars_of(report);
    let l = lower_chars(trim_chars(&c));
    proof {
        reveal_strlit("conforms");
        reveal_strlit("no errors found");
    }
    is_literal(&l, "conforms") || is_literal(&l, "no errors found")
}

/// Whether a line is the table's header.
pub open spec fn header_line(line: Seq<char>) -> bool {
    contains_seq(line, "Severity"@) && contains_seq(line, "Node"@) && contains_seq(line, "Component"@) && contains_seq(
        line,
        "Source shape"@,
    )
}

pub fn is_shacl_header_line(line: &[char]) -> (r: bool)
    ensures
        r == header_line(line@),
{
    contains_lit(line, "Severity") && contains_lit(line, "Node") && contains_lit(line, "Component") && contains_lit(
        line,
        "Source shape",
    )
}

/// The characters that table borders are drawn with, and the space.
pub open spec fn border_char(c: char) -> bool {
    ||| c == '─' || c == '═' || c == '│' || c == '┌' || c == '┐' || c == '└' || c == '┘'
    ||| c == '┬' || c == '┴' || c == '┼' || c == '├' || c == '┤' || c == '╭' || c == '╮'
    ||| c == '╰' || c == '╯' || c == ' ' || c == '━' || c == '┃' || c == '┏' || c == '┓'
    ||| c == '┗' || c == '┛' || c == '┣' || c == '┫' || c == '┳' || c == '┻' || c == '╋'
}

/// Whether a line is drawn with border characters alone.
pub open spec fn border_line(line: Seq<char>) -> bool {
    forall|i: int| 0 <= i < line.len() ==> #[trigger] border_char(line[i])
}

fn is_border_char(c: char) -> (r: bool)
    ensures
        r == border_char(c),
{
    c == '─' || c == '═' || c == '│' || c == '┌' || c == '┐' || c == '└' || c == '┘' || c == '┬' || c == '┴' || c
        == '┼' || c == '├' || c == '┤' || c == '╭' || c == '╮' || c == '╰' || c == '╯' || c == ' ' || c == '━' || c
        == '┃' || c == '┏' || c == '┓' || c == '┗' || c == '┛' || c == '┣' || c == '┫' || c == '┳' || c == '┻' || c
        == '╋'
}

pub fn is_shacl_border_line(line: &[char]) -> (r: bool)
    ensures
        r == border_line(line@),
{
    let mut i: usize = 0;
    while i < line.len()
        invariant
            i <= line@.len(),
            forall|k: int| 0 <= k < i ==> #[trigger] border_char(line@[k]),
        decreases line@.len() - i,
    {
        if !is_border_char(line[i]) {
            return false;
        }
        i = i + 1;
    }
    true
}

/// The pieces of `s` between occurrences of `c`, as `str::split` gives them.
pub open spec fn split_on(s: Seq<char>, c: char) -> Seq<Seq<char>>
    decreases s.len(),
{
    if s.len() == 0 {
        seq![seq![]]
    } else {
        let p = split_on(s.drop_last(), c);
        if s.last() == c {
            p.push(seq![])
        } else {
            p.update(p.len() - 1, p.last().push(s.last()))
        }
    }
}

pub proof fn lemma_split_on_len(s: Seq<char>, c: char)
    ensures
        split_on(s, c).len() >= 1,
    decreases s.len(),
{
    if s.len() > 0 {
        lemma_split_on_len(s.drop_last(), c);
    }
}

/// Cells with an empty first cell and then an empty last cell dropped.
pub open spec fn drop_empty_edges(cells: Seq<Seq<char>>) -> Seq<Seq<char>> {
    let a = if cells.len() > 0 && cells[0].len() == 0 {
        cells.drop_first()
    } else {
        cells
    };
    if a.len() > 0 && a.last().len() == 0 {
        a.drop_last()
    } else {
        a
    }
}

/// The trimmed cells of a table row, or nothing for a line without a
/// column separator.
pub open spec fn table_cells(line: Seq<char>) -> Option<Seq<Seq<char>>> {
    if line.contains('│') {
        Some(drop_empty_edges(split_on(line, '│').map_values(|x: Seq<char>| trim(x))))
    } else {
        None
    }
}

/// The texts of strings.
pub open spec fn texts(v: Seq<String>) -> Seq<Seq<char>> {
    v.map_values(|s: String| s@)
}

pub fn split_shacl_table_row(line: &[char]) -> (r: Option<Vec<String>>)
    ensures
        match r {
            Some(v) => table_cells(line@) == Some(texts(v@)),
            None => table_cells(line@) is None,
        },
{
    if !contains_char(line, '│') {
        return None;
    }
    let mut cells: Vec<String> = Vec::new();
    let mut cur: Vec<char> = Vec::new();
    let ghost sep = '│';
    let mut i: usize = 0;
    proof {
        assert(line@.take(0) =~= Seq::<char>::empty());
    }
    while i < line.len()
        invariant
            i <= line@.len(),
            texts(cells@).push(cur@) == split_on(line@.take(i as int), '│'),
        decreases line@.len() - i,
    {
        proof {
            assert(line@.take(i + 1).drop_last() =~= line@.take(i as int));
            assert(line@.take(i + 1).last() == line@[i as int]);
            lemma_split_on_len(line@.take(i as int), '│');
        }
        let ghost before = texts(cells@).push(cur@);
        if line[i] == '│' {
            let piece = string_of(&cur);
            cells.push(piece);
            cur = Vec::new();
            proof {
                assert(texts(cells@).push(cur@) =~= before.push(seq![]));
            }
        } else {
            cur.push(line[i]);
            proof {
                assert(texts(cells@).push(cur@) =~= before.update(before.len() - 1, before.last().push(line@[i as int])));
            }
        }
        i = i + 1;
    }
    let ghost done = texts(cells@);
    cells.push(string_of(&cur));
    proof {
        assert(line@.take(i as int) =~= line@);
        assert(texts(cells@) =~= done.push(cur@));
    }
    let ghost raw = texts(cells@);
    assert(raw == split_on(line@, '│'));
    let mut trimmed: Vec<String> = Vec::new();
    let mut k: usize = 0;
    while k < cells.len()
        invariant
            k <= cells@.len(),
            raw == texts(cells@),
            texts(trimmed@) == raw.take(k as int).map_values(|x: Seq<char>| trim(x)),
        decreases cells@.len() - k,
    {
        let c = chars_of_string(&cells[k]);
        let t = string_of(trim_chars(&c));
        let ghost tb = texts(trimmed@);
        trimmed.push(t);
        proof {
            assert(raw.take(k + 1).map_values(|x: Seq<char>| trim(x)) =~= raw.take(k as int).map_values(
                |x: Seq<char>| trim(x),
            ).push(trim(raw[k as int])));
            assert(texts(trimmed@) =~= tb.push(t@));
        }
        k = k + 1;
    }
    proof {
        assert(raw.take(k as int) =~= raw);
    }
    let ghost all = texts(trimmed@);
    if trimmed.len() > 0 && trimmed[0].as_str().is_empty() {
        trimmed.remove(0);
        proof {
            assert(texts(trimmed@) =~= all.drop_first());
        }
    }
    let ghost mid = texts(trimmed@);
    assert(mid == (if all.len() > 0 && all[0].len() == 0 {
        all.drop_first()
    } else {
        all
    }));
    let n = trimmed.len();
    if n > 0 && trimmed[n - 1].as_str().is_empty() {
        trimmed.pop();
        proof {
            assert(texts(trimmed@) =~= mid.drop_last());
        }
    }
    assert(texts(trimmed@) == drop_empty_edges(all));
    Some(trimmed)
}

/// Cell `i` without ANSI sequences and trimmed; empty past the last cell.
pub open spec fn cell_text(cells: Seq<Seq<char>>, i: int) -> Seq<char> {
    if 0 <= i < cells.len() {
        trim(strip_ansi_from(cells[i], 0))
    } else {
        seq![]
    }
}

pub fn cell_at(cells: &[String], idx: usize) -> (r: String)
    ensures
        r@ == cell_text(texts(cells@), idx as int),
{
    if idx < cells.len() {
        let clean = strip_ansi_escape_sequences(cells[idx].as_str());
        let c = chars_of_string(&clean);
        string_of(trim_chars(&c))
    } else {
        String::new()
    }
}

/// A cell's text after a continuation row adds `next` to it: nothing
/// added for an empty or already present piece, else joined by ` | `, or
/// directly after a line feed.
pub open spec fn merged(cur: Seq<char>, next: Seq<char>) -> Seq<char> {
    if next.len() == 0 {
        cur
    } else if cur.len() == 0 {
        next
    } else if contains_seq(cur, next) {
        cur
    } else if cur.last() == '\n' {
        cur + next
    } else {
        cur + " | "@ + next
    }
}

pub fn merge_detail_cell(current: &mut String, next: String)
    ensures
        final(current)@ == merged(old(current)@, next@),
{
    if next.as_str().is_empty() {
        return;
    }
    if current.as_str().is_empty() {
        *current = next;
        return;
    }
    let cur = chars_of_string(current);
    let nx = chars_of_string(&next);
    if crate::text::contains_chars(&cur, &nx) {
        return;
    }
    let mut out = cur.clone();
    proof {
        assert(out@ == cur@);
    }
    if cur[cur.len() - 1] != '\n' {
        push_lit(&mut out, " | ");
    }
    push_all(&mut out, &nx);
    *current = string_of(&out);
}

/// One row of the detail table, its cells as read so far.
#[derive(Debug)]
pub struct ShaclDetailRow {
    pub severity: String,
    pub node: String,
    pub component: String,
    pub path: String,
    pub value: String,
    pub source_shape: String,
    pub details: String,
}

/// A detail row by its cells' character sequences.
pub struct RowView {
    pub severity: Seq<char>,
    pub node: Seq<char>,
    pub component: Seq<char>,
    pub path: Seq<char>,
    pub value: Seq<char>,
    pub source_shape: Seq<char>,
    pub details: Seq<char>,
}

impl View for ShaclDetailRow {
    type V = RowView;

    open spec fn view(&self) -> RowView {
        RowView {
            severity: self.severity@,
            node: self.node@,
            component: self.component@,
            path: self.path@,
            value: self.value@,
            source_shape: self.source_shape@,
            details: self.details@,
        }
    }
}

/// A text, unless it is blank.
pub open spec fn non_empty_text(v: Seq<char>) -> Option<Seq<char>> {
    if trim(v).len() > 0 {
        Some(v)
    } else {
        None
    }
}

pub fn non_empty(value: String) -> (r: Option<String>)
    ensures
        crate::model::opt_view(r) == non_empty_text(value@),
{
    let c = chars_of_string(&value);
    if trim_chars(&c).len() > 0 {
        Some(value)
    } else {
        None
    }
}

/// `node failed component`, and ` on path` where there is a path.
pub open spec fn summary_text(r: RowView) -> Seq<char> {
    let node = if r.node.len() == 0 {
        "Unknown focus node"@
    } else {
        r.node
    };
    let component = if r.component.len() == 0 {
        "constraint"@
    } else {
        r.component
    };
    if r.path.len() == 0 {
        node + " failed "@ + component
    } else {
        node + " failed "@ + component + " on "@ + r.path
    }
}

pub fn shacl_issue_summary(row: &ShaclDetailRow) -> (r: String)
    ensures
        r@ == summary_text(row@),
{
    let mut out: Vec<char> = Vec::new();
    if row.node.as_str().is_empty() {
        push_lit(&mut out, "Unknown focus node");
    } else {
        crate::text::push_string(&mut out, &row.node);
    }
    push_lit(&mut out, " failed ");
    if row.component.as_str().is_empty() {
        push_lit(&mut out, "constraint");
    } else {
        crate::text::push_string(&mut out, &row.component);
    }
    if !row.path.as_str().is_empty() {
        push_lit(&mut out, " on ");
        crate::text::push_string(&mut out, &row.path);
    }
    string_of(&out)
}

/// `s` without leading `<` and `>`.
pub open spec fn strip_angles_start(s: Seq<char>) -> Seq<char>
    decreases s.len(),
{
    if s.len() > 0 && (s[0] == '<' || s[0] == '>') {
        strip_angles_start(s.drop_first())
    } else {
        s
    }
}

/// `s` without trailing `<` and `>`.
pub open spec fn strip_angles_end(s: Seq<char>) -> Seq<char>
    decreases s.len(),
{
    if s.len() > 0 && (s.last() == '<' || s.last() == '>') {
        strip_angles_end(s.drop_last())
    } else {
        s
    }
}

/// The severity's name: what follows its last `#` or `/`, without angle
/// brackets and white space around it, in ASCII lower case.
pub open spec fn severity_name(s: Seq<char>) -> Seq<char> {
    let tail = match crate::visualize::last_separator(s) {
        Some(k) => s.skip(k + 1),
        None => s,
    };
    lower(trim(strip_angles_end(strip_angles_start(tail))))
}

/// A severity as issues give it: `Violation`, `Warning` and `Info` by name,
/// `Violation` for none, and any other name in lower case.
pub open spec fn normalized_severity(s: Seq<char>) -> Seq<char> {
    let n = severity_name(s);
    if n == "violation"@ {
        "Violation"@
    } else if n == "warning"@ {
        "Warning"@
    } else if n == "info"@ {
        "Info"@
    } else if n.len() == 0 {
        "Violation"@
    } else {
        n
    }
}

fn is_angle(c: char) -> (r: bool)
    ensures
        r == (c == '<' || c == '>'),
{
    c == '<' || c == '>'
}

fn strip_angles(s: &[char]) -> (r: Vec<char>)
    ensures
        r@ == strip_angles_end(strip_angles_start(s@)),
{
    let mut i: usize = 0;
    proof {
        assert(s@.skip(0) =~= s@);
    }
    while i < s.len() && is_angle(s[i])
        invariant
            i <= s@.len(),
            strip_angles_start(s@) == strip_angles_start(s@.skip(i as int)),
        decreases s@.len() - i,
    {
        proof {
            assert(s@.skip(i as int).drop_first() =~= s@.skip(i + 1));
        }
        i = i + 1;
    }
    let ghost rest = s@.skip(i as int);
    assert(strip_angles_start(rest) == rest);
    let mut j: usize = s.len();
    proof {
        assert(s@.subrange(i as int, j as int) =~= rest);
    }
    while j > i && is_angle(s[j - 1])
        invariant
            i <= j <= s@.len(),
            strip_angles_end(rest) == strip_angles_end(s@.subrange(i as int, j as int)),
        decreases j,
    {
        proof {
            assert(s@.subrange(i as int, j as int).drop_last() =~= s@.subrange(i as int, j - 1));
        }
        j = j - 1;
    }
    let mut out: Vec<char> = Vec::new();
    push_all(&mut out, &s[i..j]);
    out
}

pub fn normalize_shacl_severity(severity: &str) -> (r: String)
    ensures
        r@ == normalized_severity(severity@),
{
    let c = chars_of(severity);
    let mut i: usize = c.len();
    proof {
        assert(c@.take(c@.len() as int) =~= c@);
    }
    while i > 0 && c[i - 1] != '#' && c[i - 1] != '/'
        invariant
            i <= c@.len(),
            c@ == severity@,
            crate::visualize::last_separator(c@) == crate::visualize::last_separator(c@.take(i as int)),
        decreases i,
    {
        proof {
            assert(c@.take(i as int).drop_last() =~= c@.take(i - 1));
        }
        i = i - 1;
    }
    proof {
        if i > 0 {
            assert(c@.take(i as int).last() == c@[i - 1]);
        } else {
            assert(c@.take(0) =~= seq![]);
        }
        assert(c@.subrange(i as int, c@.len() as int) =~= match crate::visualize::last_separator(c@) {
            Some(k) => c@.skip(k + 1),
            None => c@,
        });
    }
    let stripped = strip_angles(&c[i..c.len()]);
    let name = lower_chars(trim_chars(&stripped));
    proof {
        reveal_strlit("violation");
        reveal_strlit("warning");
        reveal_strlit("info");
    }
    if is_literal(&name, "violation") {
        String::from_str("Violation")
    } else if is_literal(&name, "warning") {
        String::from_str("Warning")
    } else if is_literal(&name, "info") {
        String::from_str("Info")
    } else if name.len() == 0 {
        String::from_str("Violation")
    } else {
        string_of(&name)
    }
}

/// The issue of one detail row.
pub open spec fn row_issue(r: RowView) -> IssueView {
    IssueView {
        severity: normalized_severity(r.severity),
        message: summary_text(r),
        line: None,
        column: None,
        token: match non_empty_text(r.node) {
            Some(n) => Some(n),
            None => non_empty_text(r.value),
        },
        suggestion: if r.details.len() > 0 {
            Some(r.details)
        } else {
            None
        },
        source: Some("shacl"@),
        focus_node: non_empty_text(r.node),
        constraint_component: non_empty_text(r.component),
        path: non_empty_text(r.path),
        value: non_empty_text(r.value),
        source_shape: non_empty_text(r.source_shape),
        details: non_empty_text(r.details),
    }
}

pub fn shacl_detail_row_to_issue(row: ShaclDetailRow) -> (r: ValidationIssue)
    ensures
        r@ == row_issue(row@),
{
    let severity = normalize_shacl_severity(row.severity.as_str());
    let message = shacl_issue_summary(&row);
    let token = match non_empty(row.node.clone()) {
        Some(n) => Some(n),
        None => non_empty(row.value.clone()),
    };
    let suggestion = if row.details.as_str().is_empty() {
        None
    } else {
        Some(row.details.clone())
    };
    ValidationIssue {
        severity,
        message,
        line: None,
        column: None,
        token,
        suggestion,
        source: Some(String::from_str("shacl")),
        focus_node: non_empty(row.node),
        constraint_component: non_empty(row.component),
        path: non_empty(row.path),
        value: non_empty(row.value),
        source_shape: non_empty(row.source_shape),
        details: non_empty(row.details),
    }
}

/// The character sequences of character lists.
pub open spec fn char_texts(v: Seq<Vec<char>>) -> Seq<Seq<char>> {
    v.map_values(|l: Vec<char>| l@)
}

/// The lines of a text, as `str::lines` gives them.
pub fn text_lines(s: &[char]) -> (r: Vec<Vec<char>>)
    ensures
        char_texts(r@) == lines_of(s@),
{
    let mut out: Vec<Vec<char>> = Vec::new();
    let mut pos: usize = 0;
    let nl = chars_of("\n");
    proof {
        reveal_strlit("\n");
        assert(nl@ =~= seq!['\n']);
        assert(s@.skip(0) =~= s@);
        assert(char_texts(out@) =~= Seq::<Seq<char>>::empty());
    }
    while pos < s.len()
        invariant
            pos <= s@.len(),
            nl@ == seq!['\n'],
            char_texts(out@) + lines_of(s@.skip(pos as int)) == lines_of(s@),
        decreases s@.len() - pos,
    {
        let rest = &s[pos..s.len()];
        proof {
            assert(rest@ =~= s@.skip(pos as int));
        }
        let ghost before = char_texts(out@);
        match crate::text::find_chars(rest, &nl) {
            Some(k) => {
                proof {
                    crate::text::lemma_first_occurrence(rest@, seq!['\n'], 0);
                }
                let piece = &rest[0..k];
                let stripped: &[char] = if k > 0 && piece[k - 1] == '\r' {
                    &piece[0..k - 1]
                } else {
                    piece
                };
                proof {
                    assert(piece@ =~= rest@.take(k as int));
                    if k > 0 && piece@[k - 1] == '\r' {
                        assert(stripped@ =~= piece@.drop_last());
                    }
                    assert(rest@.skip(k + 1) =~= s@.skip(pos + k + 1));
                }
                let mut line: Vec<char> = Vec::new();
                push_all(&mut line, stripped);
                out.push(line);
                proof {
                    assert(char_texts(out@) =~= before.push(crate::validate::strip_cr(rest@.take(k as int))));
                    assert(lines_of(rest@) == seq![crate::validate::strip_cr(rest@.take(k as int))] + lines_of(
                        rest@.skip(k + 1),
                    ));
                    assert(before + lines_of(rest@) =~= char_texts(out@) + lines_of(rest@.skip(k + 1)));
                }
                pos = pos + k + 1;
            },
            None => {
                let mut line: Vec<char> = Vec::new();
                push_all(&mut line, rest);
                out.push(line);
                proof {
                    assert(char_texts(out@) =~= before.push(rest@));
                    assert(lines_of(rest@) == seq![rest@]);
                    assert(s@.skip(s@.len() as int) =~= Seq::<char>::empty());
                    assert(before + lines_of(rest@) =~= char_texts(out@) + lines_of(s@.skip(s@.len() as int)));
                }
                pos = s.len();
            },
        }
    }
    proof {
        assert(s@.skip(pos as int) =~= Seq::<char>::empty());
        assert(char_texts(out@) + Seq::<Seq<char>>::empty() =~= char_texts(out@));
    }
    out
}

/// Whether every cell is empty.
pub open spec fn blank_cells(cells: Seq<Seq<char>>) -> bool {
    forall|i: int| 0 <= i < cells.len() ==> #[trigger] cells[i].len() == 0
}

/// The row that a row with a severity starts.
pub open spec fn new_row(cells: Seq<Seq<char>>) -> RowView {
    RowView {
        severity: trim(cells[0]),
        node: cell_text(cells, 1),
        component: cell_text(cells, 2),
        path: cell_text(cells, 3),
        value: cell_text(cells, 4),
        source_shape: cell_text(cells, 5),
        details: cell_text(cells, 6),
    }
}

/// A row after a continuation row without a severity.
pub open spec fn merge_row(r: RowView, cells: Seq<Seq<char>>) -> RowView {
    RowView {
        severity: r.severity,
        node: merged(r.node, cell_text(cells, 1)),
        component: merged(r.component, cell_text(cells, 2)),
        path: merged(r.path, cell_text(cells, 3)),
        value: merged(r.value, cell_text(cells, 4)),
        source_shape: merged(r.source_shape, cell_text(cells, 5)),
        details: merged(r.details, cell_text(cells, 6)),
    }
}

/// The issues of the rows read and the row being read, after one more line:
/// blank, border and header lines and lines that are no table row are
/// passed over; a row with a severity closes the row being read and starts
/// another; a row without one goes on with the row being read.
pub open spec fn detail_step(st: (Seq<IssueView>, Option<RowView>), line: Seq<char>) -> (Seq<IssueView>, Option<RowView>) {
    let cleaned = strip_ansi_from(line, 0);
    let t = trim(cleaned);
    if t.len() == 0 || border_line(t) || header_line(t) {
        st
    } else {
        match table_cells(cleaned) {
            None => st,
            Some(cells) => if cells.len() == 0 || blank_cells(cells) {
                st
            } else if trim(cells[0]).len() > 0 {
                (
                    match st.1 {
                        Some(r) => st.0.push(row_issue(r)),
                        None => st.0,
                    },
                    Some(new_row(cells)),
                )
            } else {
                match st.1 {
                    Some(r) => (st.0, Some(merge_row(r, cells))),
                    None => st,
                }
            },
        }
    }
}

/// The state after reading lines.
pub open spec fn detail_fold(lines: Seq<Seq<char>>) -> (Seq<IssueView>, Option<RowView>)
    decreases lines.len(),
{
    if lines.len() == 0 {
        (seq![], None)
    } else {
        detail_step(detail_fold(lines.drop_last()), lines.last())
    }
}

/// The issues of a detail table: one per row, in order.
pub open spec fn details_issues(report: Seq<char>) -> Seq<IssueView> {
    let st = detail_fold(lines_of(report));
    match st.1 {
        Some(r) => st.0.push(row_issue(r)),
        None => st.0,
    }
}

pub open spec fn opt_row(r: Option<ShaclDetailRow>) -> Option<RowView> {
    match r {
        Some(x) => Some(x@),
        None => None,
    }
}

fn all_blank(cells: &Vec<String>) -> (r: bool)
    ensures
        r == blank_cells(texts(cells@)),
{
    let mut i: usize = 0;
    while i < cells.len()
        invariant
            i <= cells@.len(),
            forall|k: int| 0 <= k < i ==> #[trigger] cells@[k]@.len() == 0,
        decreases cells@.len() - i,
    {
        if !cells[i].as_str().is_empty() {
            proof {
                assert(texts(cells@)[i as int].len() > 0);
            }
            return false;
        }
        i = i + 1;
    }
    proof {
        assert forall|k: int| 0 <= k < texts(cells@).len() implies #[trigger] texts(cells@)[k].len() == 0 by {
            assert(texts(cells@)[k] == cells@[k]@);
        }
    }
    true
}

fn row_of_cells(cells: &Vec<String>) -> (r: ShaclDetailRow)
    requires
        cells@.len() > 0,
    ensures
        r@ == new_row(texts(cells@)),
{
    let first = chars_of_string(&cells[0]);
    ShaclDetailRow {
        severity: string_of(trim_chars(&first)),
        node: cell_at(cells.as_slice(), 1),
        component: cell_at(cells.as_slice(), 2),
        path: cell_at(cells.as_slice(), 3),
        value: cell_at(cells.as_slice(), 4),
        source_shape: cell_at(cells.as_slice(), 5),
        details: cell_at(cells.as_slice(), 6),
    }
}

fn merge_cells(row: ShaclDetailRow, cells: &Vec<String>) -> (r: ShaclDetailRow)
    ensures
        r@ == merge_row(row@, texts(cells@)),
{
    let mut row = row;
    merge_detail_cell(&mut row.node, cell_at(cells.as_slice(), 1));
    merge_detail_cell(&mut row.component, cell_at(cells.as_slice(), 2));
    merge_detail_cell(&mut row.path, cell_at(cells.as_slice(), 3));
    merge_detail_cell(&mut row.value, cell_at(cells.as_slice(), 4));
    merge_detail_cell(&mut row.source_shape, cell_at(cells.as_slice(), 5));
    merge_detail_cell(&mut row.details, cell_at(cells.as_slice(), 6));
    row
}

/// Reads the issues of the detail table in a SHACL report.
pub fn parse_shacl_validation_details(report: &str) -> (r: Vec<ValidationIssue>)
    ensures
        issues_view(r@) == details_issues(report@),
{
    let text = chars_of(report);
    let lines = text_lines(&text);
    let ghost ls = char_texts(lines@);
    let mut issues: Vec<ValidationIssue> = Vec::new();
    let mut current: Option<ShaclDetailRow> = None;
    let mut i: usize = 0;
    proof {
        assert(ls.take(0) =~= Seq::<Seq<char>>::empty());
        assert(issues_view(issues@) =~= Seq::<IssueView>::empty());
    }
    while i < lines.len()
        invariant
            i <= lines@.len(),
            ls == char_texts(lines@),
            (issues_view(issues@), opt_row(current)) == detail_fold(ls.take(i as int)),
        decreases lines@.len() - i,
    {
        proof {
            assert(ls.take(i + 1).drop_last() =~= ls.take(i as int));
            assert(ls.take(i + 1).last() == lines@[i as int]@);
        }
        let ghost st = detail_fold(ls.take(i as int));
        let ghost line = lines@[i as int]@;
        let cleaned_text = strip_ansi_escape_sequences(string_of(&lines[i]).as_str());
        let cleaned = chars_of_string(&cleaned_text);
        let t = trim_chars(&cleaned);
        if t.len() == 0 || is_shacl_border_line(t) || is_shacl_header_line(t) {
            i = i + 1;
            continue;
        }
        let cells = match split_shacl_table_row(&cleaned) {
            Some(c) => c,
            None => {
                i = i + 1;
                continue;
            },
        };
        if cells.len() == 0 || all_blank(&cells) {
            i = i + 1;
            continue;
        }
        let first = chars_of_string(&cells[0]);
        if trim_chars(&first).len() > 0 {
            let ghost before = issues_view(issues@);
            match current {
                Some(prev) => {
                    let issue = shacl_detail_row_to_issue(prev);
                    issues.push(issue);
                    proof {
                        assert(issues_view(issues@) =~= before.push(issue@));
                    }
                },
                None => {},
            }
            current = Some(row_of_cells(&cells));
        } else {
            current = match current {
                Some(row) => Some(merge_cells(row, &cells)),
                None => None,
            };
        }
        i = i + 1;
    }
    proof {
        assert(ls.take(i as int) =~= ls);
    }
    let ghost before = issues_view(issues@);
    match current {
        Some(last) => {
            let issue = shacl_detail_row_to_issue(last);
            issues.push(issue);
            proof {
                assert(issues_view(issues@) =~= before.push(issue@));
            }
        },
        None => {},
    }
    issues
}

/// The issue for a report from which no row can be read: one violation
/// that carries the report.
pub open spec fn unread_report_issue(report: Seq<char>) -> IssueView {
    IssueView {
        severity: "Violation"@,
        message: "SHACL validation failed:\n"@ + report,
        line: None,
        column: None,
        token: None,
        suggestion: Some("Inspect the SHACL validation report for focus nodes and constraint messages."@),
        source: Some("shacl"@),
        focus_node: None,
        constraint_component: None,
        path: None,
        value: None,
        source_shape: None,
        details: Some(report),
    }
}

/// The issues of a SHACL report as the engine printed it, trimmed: none
/// where the data conforms, else the rows of its detail table, else one
/// violation that carries the report.
pub open spec fn report_issues(printed: Seq<char>) -> Seq<IssueView> {
    let report = trim(printed);
    if clean_report(report) || report == "Conforms"@ {
        seq![]
    } else if details_issues(report).len() == 0 {
        seq![unread_report_issue(report)]
    } else {
        details_issues(report)
    }
}

/// The issues of what the SHACL engine printed for a validation.
pub fn shacl_issues_from_report(printed: &str) -> (r: Vec<ValidationIssue>)
    ensures
        issues_view(r@) == report_issues(printed@),
{
    let c = chars_of(printed);
    let report = string_of(trim_chars(&c));
    if is_clean_shacl_report(report.as_str()) {
        return Vec::new();
    }
    proof {
        reveal_strlit("Conforms");
    }
    let rc = chars_of_string(&report);
    if is_literal(&rc, "Conforms") {
        return Vec::new();
    }
    let parsed = parse_shacl_validation_details(report.as_str());
    if parsed.len() == 0 {
        let mut message: Vec<char> = Vec::new();
        push_lit(&mut message, "SHACL validation failed:\n");
        push_all(&mut message, &rc);
        let issue = ValidationIssue {
            severity: String::from_str("Violation"),
            message: string_of(&message),
            line: None,
            column: None,
            token: None,
            suggestion: Some(String::from_str("Inspect the SHACL validation report for focus nodes and constraint messages.")),
            source: Some(String::from_str("shacl")),
            focus_node: None,
            constraint_component: None,
            path: None,
            value: None,
            source_shape: None,
            details: Some(report),
        };
        let mut v: Vec<ValidationIssue> = Vec::new();
        v.push(issue);
        proof {
            assert(issues_view(v@) =~= seq![issue@]);
        }
        v
    } else {
        parsed
    }
}

} // verus!
