//! Reading RDF terms in the N-Triples form in which the RDF parsers print
//! them: `<iri>`, `_:label`, quoted literals with escapes, `@lang` or
//! `^^<datatype>`, and `<< ... >>` for quoted triples.
use vstd::prelude::*;
use crate::model::{Node, SNode, Triple, STriple};
use crate::text::{string_of, chars_of};
use crate::terms::{has_prefix, has_prefix_lit, literal_end, lemma_literal_end};

verus! {

/// Which parser printed a term: the two differ in how plain and
/// language-tagged literals are recorded.
#[derive(PartialEq, Eq, Structural, Clone, Copy, Debug)]
pub enum Printer {
    /// Plain literals keep no datatype.
    Rio,
    /// Plain literals are `xsd:string`, language-tagged ones `rdf:langString`.
    Ox,
}

pub open spec fn xsd_string() -> Seq<char> {
    "http://www.w3.org/2001/XMLSchema#string"@
}

pub open spec fn rdf_lang_string() -> Seq<char> {
    "http://www.w3.org/1999/02/22-rdf-syntax-ns#langString"@
}

pub open spec fn hex_value(c: char) -> Option<nat> {
    if '0' <= c && c <= '9' {
        Some((c as nat - 48) as nat)
    } else if 'A' <= c && c <= 'F' {
        Some((c as nat - 55) as nat)
    } else if 'a' <= c && c <= 'f' {
        Some((c as nat - 87) as nat)
    } else {
        None
    }
}

/// The value of four hexadecimal digits.
pub open spec fn hex4(s: Seq<char>, i: int) -> Option<nat> {
    match (hex_value(s[i]), hex_value(s[i + 1]), hex_value(s[i + 2]), hex_value(s[i + 3])) {
        (Some(a), Some(b), Some(c), Some(d)) => Some(a * 4096 + b * 256 + c * 16 + d),
        _ => None,
    }
}

/// The character a `\uXXXX` escape stands for, among those that printers
/// escape this way.
pub open spec fn escaped_code(v: nat) -> Option<char> {
    if v < 128 {
        Some(v as char)
    } else if v == 0xFFFE {
        Some('\u{FFFE}')
    } else if v == 0xFFFF {
        Some('\u{FFFF}')
    } else {
        None
    }
}

/// The character a one-letter escape stands for.
pub open spec fn escaped_letter(c: char) -> Option<char> {
    if c == 'n' {
        Some('\n')
    } else if c == 'r' {
        Some('\r')
    } else if c == 't' {
        Some('\t')
    } else if c == 'b' {
        Some('\u{8}')
    } else if c == 'f' {
        Some('\u{C}')
    } else if c == '"' {
        Some('"')
    } else if c == '\\' {
        Some('\\')
    } else {
        None
    }
}

/// The text of a quoted string from index `i` on with its escapes resolved;
/// an unknown escape is kept as written.
pub open spec fn unescape_from(s: Seq<char>, i: int) -> Seq<char>
    decreases s.len() - i,
{
    if i >= s.len() || i < 0 {
        seq![]
    } else if s[i] == '\\' && i + 1 < s.len() {
        match escaped_letter(s[i + 1]) {
            Some(c) => seq![c] + unescape_from(s, i + 2),
            None => if s[i + 1] == 'u' && i + 6 <= s.len() {
                match hex4(s, i + 2) {
                    Some(v) => match escaped_code(v) {
                        Some(c) => seq![c] + unescape_from(s, i + 6),
                        None => seq![s[i]] + unescape_from(s, i + 1),
                    },
                    None => seq![s[i]] + unescape_from(s, i + 1),
                }
            } else {
                seq![s[i]] + unescape_from(s, i + 1)
            },
        }
    } else {
        seq![s[i]] + unescape_from(s, i + 1)
    }
}

pub open spec fn unescape(s: Seq<char>) -> Seq<char> {
    unescape_from(s, 0)
}

/// The node that a printed term stands for; a quoted triple becomes the
/// blank node `star`.
pub open spec fn printed_node(t: Seq<char>, printer: Printer, star: Seq<char>) -> SNode {
    if has_prefix(t, "<<"@) {
        SNode::Blank(star)
    } else if has_prefix(t, "<"@) && t.len() >= 2 {
        SNode::Iri(t.subrange(1, t.len() - 1))
    } else if has_prefix(t, "_:"@) {
        SNode::Blank(t)
    } else if has_prefix(t, "\""@) {
        let e = match literal_end(t, 1, false) {
            Some(e) => e,
            None => t.len() as int,
        };
        let value = unescape(t.subrange(1, e));
        let suffix = if e < t.len() {
            t.skip(e + 1)
        } else {
            seq![]
        };
        if has_prefix(suffix, "@"@) {
            SNode::Literal {
                value,
                datatype: if printer == Printer::Ox {
                    Some(rdf_lang_string())
                } else {
                    None
                },
                lang: Some(suffix.skip(1)),
            }
        } else if has_prefix(suffix, "^^<"@) && suffix.len() >= 4 {
            SNode::Literal { value, datatype: Some(suffix.subrange(3, suffix.len() - 1)), lang: None }
        } else {
            SNode::Literal {
                value,
                datatype: if printer == Printer::Ox {
                    Some(xsd_string())
                } else {
                    None
                },
                lang: None,
            }
        }
    } else {
        SNode::Blank(star)
    }
}

pub fn hex_digit(c: char) -> (r: Option<u32>)
    ensures
        match hex_value(c) {
            Some(v) => r == Some(v as u32),
            None => r is None,
        },
{
    if '0' <= c && c <= '9' {
        Some((c as u32) - 48)
    } else if 'A' <= c && c <= 'F' {
        Some((c as u32) - 55)
    } else if 'a' <= c && c <= 'f' {
        Some((c as u32) - 87)
    } else {
        None
    }
}

fn letter_escape(c: char) -> (r: Option<char>)
    ensures
        r == escaped_letter(c),
{
    if c == 'n' {
        Some('\n')
    } else if c == 'r' {
        Some('\r')
    } else if c == 't' {
        Some('\t')
    } else if c == 'b' {
        Some('\u{8}')
    } else if c == 'f' {
        Some('\u{C}')
    } else if c == '"' {
        Some('"')
    } else if c == '\\' {
        Some('\\')
    } else {
        None
    }
}

fn code_char(v: u32) -> (r: Option<char>)
    ensures
        r == escaped_code(v as nat),
{
    if v < 128 {
        let b: u8 = v as u8;
        Some(b as char)
    } else if v == 0xFFFE {
        Some('\u{FFFE}')
    } else if v == 0xFFFF {
        Some('\u{FFFF}')
    } else {
        None
    }
}

/// The character that the text at index `i` stands for, and how many
/// characters it takes.
fn escape_at(s: &[char], i: usize) -> (r: (char, usize))
    requires
        i < s@.len(),
    ensures
        1 <= r.1 <= 6,
        i + r.1 <= s@.len(),
        seq![r.0] + unescape_from(s@, i + r.1) == unescape_from(s@, i as int),
{
    let c = s[i];
    if c == '\\' && s.len() - i > 1 {
        match letter_escape(s[i + 1]) {
            Some(e) => {
                return (e, 2);
            },
            None => {},
        }
        if s[i + 1] == 'u' && s.len() - i >= 6 {
            let a = hex_digit(s[i + 2]);
            let b = hex_digit(s[i + 3]);
            let cc = hex_digit(s[i + 4]);
            let d = hex_digit(s[i + 5]);
            if a.is_some() && b.is_some() && cc.is_some() && d.is_some() {
                let v: u32 = a.unwrap() * 4096 + b.unwrap() * 256 + cc.unwrap() * 16 + d.unwrap();
                match code_char(v) {
                    Some(e) => {
                        return (e, 6);
                    },
                    None => {},
                }
            }
        }
    }
    (c, 1)
}

/// Resolves the escapes of a quoted string's text.
pub fn unescape_chars(s: &[char]) -> (r: Vec<char>)
    ensures
        r@ == unescape(s@),
{
    let mut out: Vec<char> = Vec::new();
    let mut i: usize = 0;
    while i < s.len()
        invariant
            i <= s@.len(),
            out@ + unescape_from(s@, i as int) == unescape(s@),
        decreases s@.len() - i,
    {
        let ghost o = out@;
        let (emit, step) = escape_at(s, i);
        out.push(emit);
        proof {
            assert(out@ + unescape_from(s@, i + step) =~= o + (seq![emit] + unescape_from(s@, i + step)));
        }
        i = i + step;
    }
    proof {
        assert(out@ + unescape_from(s@, i as int) =~= out@);
    }
    out
}

/// Index of the quote that closes a literal opened at index 0.
pub fn closing_quote(s: &[char]) -> (r: Option<usize>)
    ensures
        match literal_end(s@, 1, false) {
            Some(e) => r == Some(e as usize) && e < s@.len(),
            None => r is None,
        },
{
    let mut escaped = false;
    let mut i: usize = 1;
    proof {
        lemma_literal_end(s@, 1, false);
    }
    while i < s.len()
        invariant
            1 <= i,
            literal_end(s@, 1, false) == literal_end(s@, i as int, escaped),
        decreases s@.len() - i,
    {
        let c = s[i];
        if c == '\\' && !escaped {
            escaped = true;
        } else if c == '"' && !escaped {
            return Some(i);
        } else {
            escaped = false;
        }
        i = i + 1;
    }
    None
}

/// The node that a printed term stands for.
pub fn node_of_printed(t: &str, printer: Printer, star: &str) -> (r: Node)
    ensures
        r@ == printed_node(t@, printer, star@),
{
    let tc = chars_of(t);
    let n = tc.len();
    proof {
        reveal_strlit("<<");
        reveal_strlit("<");
        reveal_strlit("_:");
        reveal_strlit("\"");
        reveal_strlit("^^<");
        lemma_literal_end(tc@, 1, false);
    }
    if has_prefix_lit(&tc, "<<") {
        Node::Blank(string_of(&chars_of(star)))
    } else if has_prefix_lit(&tc, "<") && n >= 2 {
        Node::Iri(string_of(&tc[1..n - 1]))
    } else if has_prefix_lit(&tc, "_:") {
        Node::Blank(string_of(&tc))
    } else if has_prefix_lit(&tc, "\"") {
        let e: usize = match closing_quote(&tc) {
            Some(e) => e,
            None => n,
        };
        let value = string_of(&unescape_chars(&tc[1..e]));
        let suffix: &[char] = if e < n {
            &tc[e + 1..n]
        } else {
            &tc[0..0]
        };
        proof {
            if e < n {
                assert(suffix@ =~= tc@.skip(e + 1));
            } else {
                assert(suffix@ =~= Seq::<char>::empty());
            }
        }
        let m = suffix.len();
        if has_prefix_lit(suffix, "@") {
            proof {
                reveal_strlit("@");
                assert(suffix@.subrange(1, m as int) =~= suffix@.skip(1));
            }
            let lang = string_of(&suffix[1..m]);
            let datatype = if printer == Printer::Ox {
                Some(string_of(&chars_of("http://www.w3.org/1999/02/22-rdf-syntax-ns#langString")))
            } else {
                None
            };
            Node::Literal { value, datatype, lang: Some(lang) }
        } else if has_prefix_lit(suffix, "^^<") && m >= 4 {
            Node::Literal { value, datatype: Some(string_of(&suffix[3..m - 1])), lang: None }
        } else {
            let datatype = if printer == Printer::Ox {
                Some(string_of(&chars_of("http://www.w3.org/2001/XMLSchema#string")))
            } else {
                None
            };
            Node::Literal { value, datatype, lang: None }
        }
    } else {
        Node::Blank(string_of(&chars_of(star)))
    }
}

} // verus!
