//! Validation reports rendered as plain text and as an HTML page.
use vstd::prelude::*;
use crate::model::{ValidationIssue, ValidationReport, IssueView, issues_view, opt_view, ValidationReportFormat};
use crate::text::{chars_of, string_of, push_all, push_lit, push_string, lower, lower_chars, is_literal};
use crate::terms::{decimal, push_decimal, has_suffix_lit, has_suffix};

verus! {

/// The page up to the conformance line.
pub const HTML_HEAD: &'static str = r#"<!doctype html><html><head><meta charset="utf-8"><meta name="viewport" content="width=device-width, initial-scale=1"><title>LOD Validation Report</title><style>
            :root { color-scheme: light; --bg: #f8fafc; --surface: #ffffff; --border: #e2e8f0; --text: #0f172a; --muted: #64748b; --ok: #166534; --ok-bg: #ecfdf5; --warn: #92400e; --warn-bg: #fffbeb; --bad: #991b1b; --bad-bg: #fef2f2; }
            * { box-sizing: border-box; }
            body { margin: 0; font-family: system-ui, -apple-system, Segoe UI, sans-serif; background: linear-gradient(180deg, #eef2ff 0%, var(--bg) 28%); color: var(--text); }
            .wrap { max-width: 1100px; margin: 0 auto; padding: 2rem 1rem 3rem; }
            .hero { background: var(--surface); border: 1px solid var(--border); border-radius: 20px; padding: 1.4rem 1.5rem; box-shadow: 0 10px 30px rgba(15, 23, 42, 0.06); }
            .eyebrow { color: var(--muted); font-size: .82rem; text-transform: uppercase; letter-spacing: .08em; margin-bottom: .35rem; }
            h1 { margin: 0; font-size: 2rem; line-height: 1.15; }
            .sub { margin-top: .35rem; color: var(--muted); }
            .grid { display: grid; grid-template-columns: repeat(auto-fit, minmax(150px, 1fr)); gap: .75rem; margin: 1rem 0 1.25rem; }
            .card { background: var(--surface); border: 1px solid var(--border); border-radius: 16px; padding: .9rem 1rem; }
            .card .k { font-size: .72rem; text-transform: uppercase; letter-spacing: .08em; color: var(--muted); }
            .card .v { font-size: 1.7rem; font-weight: 800; margin-top: .2rem; }
            .ok { color: var(--ok); background: var(--ok-bg); }
            .warn { color: var(--warn); background: var(--warn-bg); }
            .bad { color: var(--bad); background: var(--bad-bg); }
            .panel { background: var(--surface); border: 1px solid var(--border); border-radius: 20px; overflow: hidden; box-shadow: 0 10px 30px rgba(15, 23, 42, 0.06); }
            table { width: 100%; border-collapse: collapse; }
            th, td { padding: .9rem 1rem; text-align: left; border-bottom: 1px solid var(--border); vertical-align: top; }
            th { position: sticky; top: 0; background: rgba(248, 250, 252, .95); backdrop-filter: blur(8px); font-size: .8rem; color: var(--muted); text-transform: uppercase; letter-spacing: .06em; }
            tr:last-child td { border-bottom: none; }
            .sev { display: inline-flex; align-items: center; padding: .2rem .55rem; border-radius: 999px; font-size: .72rem; font-weight: 700; text-transform: uppercase; letter-spacing: .04em; }
            .sev-violation { background: var(--bad-bg); color: var(--bad); }
            .sev-warning { background: var(--warn-bg); color: var(--warn); }
            .sev-info { background: #eff6ff; color: #1d4ed8; }
            .issue-message { font-weight: 600; }
            .issue-details { color: var(--muted); margin-top: .25rem; white-space: pre-wrap; }
            .empty { text-align: center; color: var(--muted); padding: 1.5rem 1rem; }
            .footer { margin-top: .85rem; color: var(--muted); font-size: .85rem; }
            .source-chip { display: inline-flex; align-items: center; padding: .12rem .45rem; border-radius: 999px; font-size: .62rem; font-weight: 700; text-transform: uppercase; letter-spacing: .04em; background: #eff6ff; color: #1d4ed8; }
            .source-chip.shapes { background: #fef3c7; color: #b45309; }
            .source-chip.shacl { background: #ede9fe; color: #6d28d9; }
        </style></head><body><main class="wrap"><section class="hero"><div class="eyebrow">LOD Workbench</div><h1>Validation Report</h1><p class="sub">"#;

/// The opening of the conformance line.
pub const HTML_CONFORMS_OPEN: &'static str = "Conforms: <strong>";

/// The page between the conformance flag and the issue count.
pub const HTML_AFTER_CONFORMS: &'static str = r#"</strong></p></section><section class="grid"><div class="card"><div class="k">Issues</div><div class="v">"#;

/// The page between the issue count and the violation count.
pub const HTML_AFTER_ISSUES: &'static str = r#"</div></div><div class="card ok"><div class="k">Violations</div><div class="v">"#;

/// The page between the violation count and the warning count.
pub const HTML_AFTER_VIOLATIONS: &'static str = r#"</div></div><div class="card warn"><div class="k">Warnings</div><div class="v">"#;

/// The page between the warning count and the info count.
pub const HTML_AFTER_WARNINGS: &'static str = r#"</div></div><div class="card"><div class="k">Info</div><div class="v">"#;

/// The page between the info count and the table rows.
pub const HTML_AFTER_INFOS: &'static str = r#"</div></div></section><section class="panel"><table><thead><tr><th>Severity</th><th>Source</th><th>Line</th><th>Column</th><th>Token</th><th>Message</th><th>Hint</th></tr></thead><tbody>"#;

/// The page after the table rows.
pub const HTML_TAIL: &'static str = r#"</tbody></table></section><p class="footer">Generated by LOD Workbench validation. Use the line numbers above to jump back to the RDF source.</p></main></body></html>"#;

} // verus!

verus! {

pub open spec fn bool_text(b: bool) -> Seq<char> {
    if b {
        "true"@
    } else {
        "false"@
    }
}

/// An indented `label: value` line, where there is a value.
pub open spec fn detail_line(label: Seq<char>, v: Option<Seq<char>>) -> Seq<char> {
    match v {
        Some(x) => "  "@ + label + ": "@ + x + "\n"@,
        None => seq![],
    }
}

/// The headline of an issue in the text report.
pub open spec fn issue_head(i: IssueView) -> Seq<char> {
    "- ["@ + i.severity + "] "@ + i.message + match i.line {
        Some(l) => " (line "@ + decimal(l as nat) + ")"@,
        None => seq![],
    } + match i.column {
        Some(c) => ":"@ + decimal(c as nat),
        None => seq![],
    } + "\n"@
}

/// The detail lines of an issue in the text report.
pub open spec fn issue_details(i: IssueView) -> Seq<char> {
    detail_line("source"@, i.source) + detail_line("node"@, i.focus_node) + detail_line(
        "constraint"@,
        i.constraint_component,
    ) + detail_line("path"@, i.path) + detail_line("value"@, i.value) + detail_line("source shape"@, i.source_shape)
        + detail_line("token"@, i.token) + detail_line("hint"@, i.suggestion) + detail_line("details"@, i.details)
}

/// One issue in the text report: its headline, then a line per detail.
pub open spec fn issue_text(i: IssueView) -> Seq<char> {
    issue_head(i) + issue_details(i)
}

pub open spec fn issues_text(is: Seq<IssueView>) -> Seq<char>
    decreases is.len(),
{
    if is.len() == 0 {
        seq![]
    } else {
        issues_text(is.drop_last()) + issue_text(is.last())
    }
}

/// The text report: conformance, number of issues, then each issue.
pub open spec fn report_text(conforms: bool, is: Seq<IssueView>) -> Seq<char> {
    "Conforms: "@ + bool_text(conforms) + "\n"@ + "Issues: "@ + decimal(is.len()) + "\n"@ + issues_text(is)
}

fn push_bool(out: &mut Vec<char>, b: bool)
    ensures
        final(out)@ == old(out)@ + bool_text(b),
{
    if b {
        push_lit(out, "true");
    } else {
        push_lit(out, "false");
    }
}

fn push_detail(out: &mut Vec<char>, label: &str, v: &Option<String>)
    ensures
        final(out)@ == old(out)@ + detail_line(label@, opt_view(*v)),
{
    match v {
        Some(x) => {
            let ghost o = out@;
            push_lit(out, "  ");
            push_lit(out, label);
            push_lit(out, ": ");
            push_string(out, x);
            push_lit(out, "\n");
            assert(out@ =~= o + detail_line(label@, opt_view(*v)));
        },
        None => {
            assert(out@ =~= old(out)@ + seq![]);
        },
    }
}

#[verifier::spinoff_prover]
#[verifier::rlimit(80)]
fn push_issue_head(out: &mut Vec<char>, i: &ValidationIssue)
    ensures
        final(out)@ == old(out)@ + issue_head(i@),
{
    let ghost o = out@;
    push_lit(out, "- [");
    push_string(out, &i.severity);
    push_lit(out, "] ");
    push_string(out, &i.message);
    let ghost a = out@;
    match i.line {
        Some(l) => {
            push_lit(out, " (line ");
            push_decimal(l, out);
            push_lit(out, ")");
        },
        None => {},
    }
    let ghost b = out@;
    match i.column {
        Some(c) => {
            push_lit(out, ":");
            push_decimal(c, out);
        },
        None => {},
    }
    let ghost c = out@;
    push_lit(out, "\n");
    proof {
        assert(out@ =~= o + issue_head(i@));
    }
}

#[verifier::spinoff_prover]
#[verifier::rlimit(80)]
fn push_issue_details(out: &mut Vec<char>, i: &ValidationIssue)
    ensures
        final(out)@ == old(out)@ + issue_details(i@),
{
    let ghost o = out@;
    let ghost v = i@;
    push_detail(out, "source", &i.source);
    let ghost s1 = out@;
    push_detail(out, "node", &i.focus_node);
    let ghost s2 = out@;
    push_detail(out, "constraint", &i.constraint_component);
    let ghost s3 = out@;
    push_detail(out, "path", &i.path);
    let ghost s4 = out@;
    push_detail(out, "value", &i.value);
    let ghost s5 = out@;
    push_detail(out, "source shape", &i.source_shape);
    let ghost s6 = out@;
    push_detail(out, "token", &i.token);
    let ghost s7 = out@;
    push_detail(out, "hint", &i.suggestion);
    let ghost s8 = out@;
    push_detail(out, "details", &i.details);
    proof {
        let d1 = detail_line("source"@, v.source);
        let d2 = detail_line("node"@, v.focus_node);
        let d3 = detail_line("constraint"@, v.constraint_component);
        let d4 = detail_line("path"@, v.path);
        let d5 = detail_line("value"@, v.value);
        let d6 = detail_line("source shape"@, v.source_shape);
        let d7 = detail_line("token"@, v.token);
        let d8 = detail_line("hint"@, v.suggestion);
        let d9 = detail_line("details"@, v.details);
        assert(s1 =~= o + d1);
        assert(s2 =~= o + (d1 + d2));
        assert(s3 =~= o + (d1 + d2 + d3));
        assert(s4 =~= o + (d1 + d2 + d3 + d4));
        assert(s5 =~= o + (d1 + d2 + d3 + d4 + d5));
        assert(s6 =~= o + (d1 + d2 + d3 + d4 + d5 + d6));
        assert(s7 =~= o + (d1 + d2 + d3 + d4 + d5 + d6 + d7));
        assert(s8 =~= o + (d1 + d2 + d3 + d4 + d5 + d6 + d7 + d8));
        assert(out@ =~= o + (d1 + d2 + d3 + d4 + d5 + d6 + d7 + d8 + d9));
    }
}

fn push_issue_text(out: &mut Vec<char>, i: &ValidationIssue)
    ensures
        final(out)@ == old(out)@ + issue_text(i@),
{
    let ghost o = out@;
    push_issue_head(out, i);
    push_issue_details(out, i);
    proof {
        assert(out@ =~= o + issue_text(i@));
    }
}

/// The plain text report.
#[verifier::spinoff_prover]
#[verifier::rlimit(80)]
pub fn validation_text(report: &ValidationReport) -> (r: String)
    ensures
        r@ == report_text(report.conforms, issues_view(report.issues@)),
{
    let mut out = chars_of("Conforms: ");
    push_bool(&mut out, report.conforms);
    push_lit(&mut out, "\n");
    push_lit(&mut out, "Issues: ");
    push_decimal(report.issues.len(), &mut out);
    push_lit(&mut out, "\n");
    let ghost head = out@;
    let ghost iv = issues_view(report.issues@);
    let mut k: usize = 0;
    proof {
        assert(iv.take(0) =~= seq![]);
        assert(head + issues_text(iv.take(0)) =~= head);
    }
    while k < report.issues.len()
        invariant
            k <= report.issues@.len(),
            iv == issues_view(report.issues@),
            out@ == head + issues_text(iv.take(k as int)),
        decreases report.issues@.len() - k,
    {
        proof {
            assert(iv.take(k + 1).drop_last() =~= iv.take(k as int));
            assert(iv.take(k + 1).last() == report.issues@[k as int]@);
        }
        push_issue_text(&mut out, &report.issues[k]);
        proof {
            assert(head + issues_text(iv.take(k + 1)) =~= head + issues_text(iv.take(k as int)) + issue_text(
                report.issues@[k as int]@,
            ));
        }
        k = k + 1;
    }
    proof {
        assert(iv.take(k as int) =~= iv);
        assert(out@ =~= report_text(report.conforms, iv));
    }
    string_of(&out)
}

} // verus!

verus! {

/// The HTML entity a character is written as, or the character.
pub open spec fn html_char(c: char) -> Seq<char> {
    if c == '&' {
        "&#38;"@
    } else if c == '<' {
        "&#60;"@
    } else if c == '>' {
        "&#62;"@
    } else {
        seq![c]
    }
}

/// Text with `&`, `<` and `>` escaped for HTML.
pub open spec fn html_escape(s: Seq<char>) -> Seq<char>
    decreases s.len(),
{
    if s.len() == 0 {
        seq![]
    } else {
        html_escape(s.drop_last()) + html_char(s.last())
    }
}

/// Escapes `&`, `<` and `>` for HTML.
pub fn escape(s: &str) -> (r: String)
    ensures
        r@ == html_escape(s@),
{
    let c = chars_of(s);
    let mut out: Vec<char> = Vec::new();
    let mut i: usize = 0;
    proof {
        assert(c@.take(0) =~= seq![]);
    }
    while i < c.len()
        invariant
            i <= c@.len(),
            c@ == s@,
            out@ == html_escape(c@.take(i as int)),
        decreases c@.len() - i,
    {
        let ch = c[i];
        proof {
            assert(c@.take(i + 1).drop_last() =~= c@.take(i as int));
            assert(c@.take(i + 1).last() == ch);
        }
        if ch == '&' {
            push_lit(&mut out, "&#38;");
        } else if ch == '<' {
            push_lit(&mut out, "&#60;");
        } else if ch == '>' {
            push_lit(&mut out, "&#62;");
        } else {
            out.push(ch);
        }
        i = i + 1;
    }
    proof {
        assert(c@.take(i as int) =~= c@);
    }
    string_of(&out)
}

/// How many issues have a severity equal, ignoring ASCII case, to `name`
/// (given in lower case).
pub open spec fn severity_count(is: Seq<IssueView>, name: Seq<char>) -> nat
    decreases is.len(),
{
    if is.len() == 0 {
        0
    } else {
        severity_count(is.drop_last(), name) + if lower(is.last().severity) == name {
            1nat
        } else {
            0nat
        }
    }
}

pub open spec fn escaped_or_dash(o: Option<Seq<char>>) -> Seq<char> {
    match o {
        Some(x) => html_escape(x),
        None => "—"@,
    }
}

pub open spec fn number_or_dash(o: Option<usize>) -> Seq<char> {
    match o {
        Some(n) => decimal(n as nat),
        None => "—"@,
    }
}

/// An issue's source, `input` where it has none.
pub open spec fn source_or_input(i: IssueView) -> Seq<char> {
    match i.source {
        Some(s) => s,
        None => "input"@,
    }
}

/// One row of the HTML issue table.
pub open spec fn issue_row(i: IssueView) -> Seq<char> {
    "<tr><td><span class=\"sev sev-"@ + lower(i.severity) + "\">"@ + i.severity
        + "</span></td><td><span class=\"source-chip "@ + lower(source_or_input(i)) + "\">"@ + html_escape(
        source_or_input(i),
    ) + "</span></td><td>"@ + number_or_dash(i.line) + "</td><td>"@ + number_or_dash(i.column) + "</td><td>"@
        + escaped_or_dash(i.token) + "</td><td><div class=\"issue-message\">"@ + html_escape(i.message)
        + "</div></td><td>"@ + escaped_or_dash(i.suggestion) + "</td></tr>"@
}

pub open spec fn issue_rows(is: Seq<IssueView>) -> Seq<char>
    decreases is.len(),
{
    if is.len() == 0 {
        seq![]
    } else {
        issue_rows(is.drop_last()) + issue_row(is.last())
    }
}

/// The body of the issue table; a single explanatory row when there are no issues.
pub open spec fn table_rows(is: Seq<IssueView>) -> Seq<char> {
    if is.len() == 0 {
        EMPTY_ROW@
    } else {
        issue_rows(is)
    }
}

/// The HTML report page.
pub open spec fn report_html(conforms: bool, is: Seq<IssueView>) -> Seq<char> {
    HTML_HEAD@ + HTML_CONFORMS_OPEN@ + bool_text(conforms) + HTML_AFTER_CONFORMS@ + decimal(is.len()) + HTML_AFTER_ISSUES@ + decimal(
        severity_count(is, "violation"@),
    ) + HTML_AFTER_VIOLATIONS@ + decimal(severity_count(is, "warning"@)) + HTML_AFTER_WARNINGS@ + decimal(
        severity_count(is, "info"@),
    ) + HTML_AFTER_INFOS@ + table_rows(is) + HTML_TAIL@
}

/// The row shown when there are no issues.
pub const EMPTY_ROW: &'static str = r#"<tr><td colspan="7" class="empty">No validation issues were found.</td></tr>"#;

fn push_escaped(out: &mut Vec<char>, s: &String)
    ensures
        final(out)@ == old(out)@ + html_escape(s@),
{
    let e = escape(s.as_str());
    push_string(out, &e);
}

fn push_number_or_dash(out: &mut Vec<char>, o: Option<usize>)
    ensures
        final(out)@ == old(out)@ + number_or_dash(o),
{
    match o {
        Some(n) => push_decimal(n, out),
        None => push_lit(out, "—"),
    }
}

fn push_escaped_or_dash(out: &mut Vec<char>, o: &Option<String>)
    ensures
        final(out)@ == old(out)@ + escaped_or_dash(opt_view(*o)),
{
    match o {
        Some(x) => push_escaped(out, x),
        None => push_lit(out, "—"),
    }
}

#[verifier::spinoff_prover]
#[verifier::rlimit(80)]
fn push_row(out: &mut Vec<char>, i: &ValidationIssue)
    ensures
        final(out)@ == old(out)@ + issue_row(i@),
{
    let ghost o = out@;
    let ghost v = i@;
    let src: String = match &i.source {
        Some(s) => s.clone(),
        None => string_of(&chars_of("input")),
    };
    assert(src@ == source_or_input(v));
    let sev_lower = lower_chars(&chars_of(i.severity.as_str()));
    let src_lower = lower_chars(&chars_of(src.as_str()));
    push_lit(out, "<tr><td><span class=\"sev sev-");
    push_all(out, &sev_lower);
    push_lit(out, "\">");
    push_string(out, &i.severity);
    push_lit(out, "</span></td><td><span class=\"source-chip ");
    push_all(out, &src_lower);
    push_lit(out, "\">");
    push_escaped(out, &src);
    let ghost a = out@;
    push_lit(out, "</span></td><td>");
    push_number_or_dash(out, i.line);
    push_lit(out, "</td><td>");
    push_number_or_dash(out, i.column);
    push_lit(out, "</td><td>");
    push_escaped_or_dash(out, &i.token);
    let ghost b = out@;
    push_lit(out, "</td><td><div class=\"issue-message\">");
    push_escaped(out, &i.message);
    push_lit(out, "</div></td><td>");
    push_escaped_or_dash(out, &i.suggestion);
    push_lit(out, "</td></tr>");
    proof {
        assert(out@ =~= o + issue_row(v));
    }
}

fn count_severity(issues: &Vec<ValidationIssue>, name: &str) -> (r: usize)
    ensures
        r == severity_count(issues_view(issues@), name@),
{
    let nc = chars_of(name);
    let ghost iv = issues_view(issues@);
    let mut n: usize = 0;
    let mut k: usize = 0;
    proof {
        assert(iv.take(0) =~= seq![]);
    }
    while k < issues.len()
        invariant
            k <= issues@.len(),
            iv == issues_view(issues@),
            n == severity_count(iv.take(k as int), name@),
            n <= k,
            nc@ == name@,
        decreases issues@.len() - k,
    {
        proof {
            assert(iv.take(k + 1).drop_last() =~= iv.take(k as int));
            assert(iv.take(k + 1).last() == issues@[k as int]@);
        }
        let sl = lower_chars(&chars_of(issues[k].severity.as_str()));
        if crate::text::chars_eq(&sl, &nc) {
            n = n + 1;
        }
        k = k + 1;
    }
    proof {
        assert(iv.take(k as int) =~= iv);
    }
    n
}

/// The HTML report page.
pub fn validation_html(report: &ValidationReport) -> (r: String)
    ensures
        r@ == report_html(report.conforms, issues_view(report.issues@)),
{
    let ghost iv = issues_view(report.issues@);
    let violations = count_severity(&report.issues, "violation");
    let warnings = count_severity(&report.issues, "warning");
    let infos = count_severity(&report.issues, "info");
    let mut rows: Vec<char> = Vec::new();
    if report.issues.len() == 0 {
        push_lit(&mut rows, EMPTY_ROW);
    } else {
        let mut k: usize = 0;
        proof {
            assert(iv.take(0) =~= seq![]);
        }
        while k < report.issues.len()
            invariant
                k <= report.issues@.len(),
                iv == issues_view(report.issues@),
                rows@ == issue_rows(iv.take(k as int)),
            decreases report.issues@.len() - k,
        {
            proof {
                assert(iv.take(k + 1).drop_last() =~= iv.take(k as int));
                assert(iv.take(k + 1).last() == report.issues@[k as int]@);
            }
            push_row(&mut rows, &report.issues[k]);
            k = k + 1;
        }
        proof {
            assert(iv.take(k as int) =~= iv);
        }
    }
    let mut out = chars_of(HTML_HEAD);
    push_lit(&mut out, HTML_CONFORMS_OPEN);
    push_bool(&mut out, report.conforms);
    push_lit(&mut out, HTML_AFTER_CONFORMS);
    push_decimal(report.issues.len(), &mut out);
    push_lit(&mut out, HTML_AFTER_ISSUES);
    push_decimal(violations, &mut out);
    push_lit(&mut out, HTML_AFTER_VIOLATIONS);
    push_decimal(warnings, &mut out);
    push_lit(&mut out, HTML_AFTER_WARNINGS);
    push_decimal(infos, &mut out);
    push_lit(&mut out, HTML_AFTER_INFOS);
    push_all(&mut out, &rows);
    push_lit(&mut out, HTML_TAIL);
    proof {
        assert(out@ =~= report_html(report.conforms, iv));
    }
    string_of(&out)
}

/// The report format a file name suggests: `.json`, `.txt` or `.text`,
/// `.html` or `.htm`.
pub open spec fn format_for_path(path: Seq<char>) -> Option<ValidationReportFormat> {
    if has_suffix(path, ".json"@) {
        Some(ValidationReportFormat::Json)
    } else if has_suffix(path, ".txt"@) || has_suffix(path, ".text"@) {
        Some(ValidationReportFormat::Text)
    } else if has_suffix(path, ".html"@) || has_suffix(path, ".htm"@) {
        Some(ValidationReportFormat::Html)
    } else {
        None
    }
}

/// The report format a file name suggests.
pub fn infer_report_format(path: &str) -> (r: Option<ValidationReportFormat>)
    ensures
        r == format_for_path(path@),
{
    let p = chars_of(path);
    if has_suffix_lit(&p, ".json") {
        Some(ValidationReportFormat::Json)
    } else if has_suffix_lit(&p, ".txt") || has_suffix_lit(&p, ".text") {
        Some(ValidationReportFormat::Text)
    } else if has_suffix_lit(&p, ".html") || has_suffix_lit(&p, ".htm") {
        Some(ValidationReportFormat::Html)
    } else {
        None
    }
}

/// The format a report is written in: the one asked for, else the one the
/// file name suggests, else HTML.
pub fn report_format_for(path: &str, requested: Option<ValidationReportFormat>) -> (r: ValidationReportFormat)
    ensures
        r == match requested {
            Some(f) => f,
            None => match format_for_path(path@) {
                Some(f) => f,
                None => ValidationReportFormat::Html,
            },
        },
{
    match requested {
        Some(f) => f,
        None => match infer_report_format(path) {
            Some(f) => f,
            None => ValidationReportFormat::Html,
        },
    }
}

} // verus!
