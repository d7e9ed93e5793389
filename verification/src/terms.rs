//! Terms of the Turtle reader: IRI resolution, prefixed names, literals,
//! fresh blank node labels and the `@prefix` / `@base` declarations.
use vstd::prelude::*;
use crate::model::{Node, SNode, SortedMap, vkey_index, lemma_pair_view_indices};
use crate::text::{chars_of, string_of, starts_with, ends_with, is_literal, chars_eq, trim, trim_chars, lower, lower_chars};
use crate::lexer::{strip_comment, strip_inline_comment, words, split_whitespace, views, iri_inside, trim_iri, copy_chars};

verus! {

// ---------------------------------------------------------------------------
// Decimal numbers
// ---------------------------------------------------------------------------

pub open spec fn digit(d: nat) -> char {
    ((48 + d) as int) as char
}

/// The decimal digits of `n`, most significant first.
pub open spec fn decimal(n: nat) -> Seq<char>
    decreases n,
{
    if n < 10 {
        seq![digit(n)]
    } else {
        decimal(n / 10).push(digit(n % 10))
    }
}

/// Appends the decimal digits of `n`.
pub fn push_decimal(n: usize, out: &mut Vec<char>)
    ensures
        final(out)@ == old(out)@ + decimal(n as nat),
    decreases n,
{
    if n >= 10 {
        push_decimal(n / 10, out);
    }
    let d: u8 = (n % 10) as u8;
    let c: char = (48u8 + d) as char;
    out.push(c);
    proof {
        if n >= 10 {
            assert(old(out)@ + decimal(n as nat) =~= old(out)@ + decimal((n / 10) as nat) + seq![
                digit((n % 10) as nat),
            ]);
        } else {
            assert(old(out)@ + decimal(n as nat) =~= old(out)@.push(digit(n as nat)));
        }
    }
}

// ---------------------------------------------------------------------------
// Blank node labels
// ---------------------------------------------------------------------------

/// The counter after handing out one label (wrapping at the top of `usize`).
pub open spec fn bump(n: usize) -> usize {
    if n == usize::MAX {
        0
    } else {
        (n + 1) as usize
    }
}

/// The label of the `n`th fresh blank node: `_:b` and the number.
pub open spec fn blank_label(n: usize) -> Seq<char> {
    seq!['_', ':', 'b'] + decimal(n as nat)
}

/// A fresh blank node label, advancing the counter.
pub fn fresh_blank_id(seq: &mut usize) -> (r: String)
    ensures
        r@ == blank_label(*old(seq)),
        *final(seq) == bump(*old(seq)),
{
    let mut v: Vec<char> = Vec::new();
    v.push('_');
    v.push(':');
    v.push('b');
    push_decimal(*seq, &mut v);
    *seq = if *seq == usize::MAX {
        0
    } else {
        *seq + 1
    };
    proof {
        assert(v@ =~= blank_label(*old(seq)));
    }
    string_of(&v)
}

// ---------------------------------------------------------------------------
// IRIs
// ---------------------------------------------------------------------------

pub open spec fn has_prefix(s: Seq<char>, p: Seq<char>) -> bool {
    p.len() <= s.len() && s.subrange(0, p.len() as int) == p
}

pub open spec fn has_suffix(s: Seq<char>, p: Seq<char>) -> bool {
    p.len() <= s.len() && s.subrange(s.len() - p.len(), s.len() as int) == p
}

pub open spec fn is_http(s: Seq<char>) -> bool {
    has_prefix(s, "http://"@) || has_prefix(s, "https://"@)
}

/// `rel` resolved against `base` by concatenation: fragments, queries and
/// bases ending in `/` or `#` are appended directly, otherwise with a `/`.
pub open spec fn resolve_relative(base: Seq<char>, rel: Seq<char>) -> Seq<char> {
    if is_http(rel) {
        rel
    } else if has_prefix(rel, "#"@) || has_prefix(rel, "?"@) {
        base + rel
    } else if has_suffix(base, "/"@) || has_suffix(base, "#"@) {
        base + rel
    } else {
        base + "/"@ + rel
    }
}

/// An IRI written between `<` and `>`: kept when absolute (HTTP(S), `urn:`,
/// `mailto:`), otherwise resolved against the base when there is one.
pub open spec fn resolve_iri(iri: Seq<char>, base: Option<Seq<char>>) -> Seq<char> {
    if is_http(iri) || has_prefix(iri, "urn:"@) || has_prefix(iri, "mailto:"@) {
        iri
    } else {
        match base {
            Some(b) => resolve_relative(b, iri),
            None => iri,
        }
    }
}

pub fn has_prefix_lit(s: &[char], p: &str) -> (r: bool)
    ensures
        r == has_prefix(s@, p@),
{
    let pc = chars_of(p);
    starts_with(s, &pc)
}

pub fn has_suffix_lit(s: &[char], p: &str) -> (r: bool)
    ensures
        r == has_suffix(s@, p@),
{
    let pc = chars_of(p);
    ends_with(s, &pc)
}

pub fn is_http_iri(s: &[char]) -> (r: bool)
    ensures
        r == is_http(s@),
{
    has_prefix_lit(s, "http://") || has_prefix_lit(s, "https://")
}

/// Concatenation of character slices.
pub fn concat(a: &[char], b: &[char]) -> (r: Vec<char>)
    ensures
        r@ == a@ + b@,
{
    let mut r = copy_chars(a);
    let mut i: usize = 0;
    while i < b.len()
        invariant
            i <= b@.len(),
            r@ == a@ + b@.subrange(0, i as int),
        decreases b@.len() - i,
    {
        r.push(b[i]);
        proof {
            assert(b@.subrange(0, i + 1) =~= b@.subrange(0, i as int).push(b@[i as int]));
        }
        i = i + 1;
    }
    proof {
        assert(b@.subrange(0, i as int) =~= b@);
    }
    r
}

/// `rel` resolved against `base` by concatenation.
pub fn resolve_relative_iri(base: &[char], rel: &[char]) -> (r: Vec<char>)
    ensures
        r@ == resolve_relative(base@, rel@),
{
    if is_http_iri(rel) {
        copy_chars(rel)
    } else if has_prefix_lit(rel, "#") || has_prefix_lit(rel, "?") {
        concat(base, rel)
    } else if has_suffix_lit(base, "/") || has_suffix_lit(base, "#") {
        concat(base, rel)
    } else {
        let slash = chars_of("/");
        let b = concat(base, &slash);
        concat(&b, rel)
    }
}

/// A bracketed IRI's text resolved against the base.
pub fn resolve_iri_text(iri: &[char], base: Option<&[char]>) -> (r: Vec<char>)
    ensures
        r@ == resolve_iri(iri@, match base { Some(b) => Some(b@), None => None }),
{
    if is_http_iri(iri) || has_prefix_lit(iri, "urn:") || has_prefix_lit(iri, "mailto:") {
        copy_chars(iri)
    } else {
        match base {
            Some(b) => resolve_relative_iri(b, iri),
            None => copy_chars(iri),
        }
    }
}

pub open spec fn opt_seq(o: Option<&[char]>) -> Option<Seq<char>> {
    match o {
        Some(b) => Some(b@),
        None => None,
    }
}

// ---------------------------------------------------------------------------
// Prefixed names
// ---------------------------------------------------------------------------

/// The IRI a prefix stands for in a map of declarations.
pub open spec fn prefix_iri(prefixes: Seq<(Seq<char>, Seq<char>)>, p: Seq<char>) -> Option<Seq<char>> {
    match vkey_index(prefixes, p) {
        Some(i) => Some(prefixes[i].1),
        None => None,
    }
}

/// Index of the first `:` in `s`.
pub open spec fn first_colon(s: Seq<char>) -> Option<int>
    decreases s.len(),
{
    if s.len() == 0 {
        None
    } else if s[0] == ':' {
        Some(0)
    } else {
        match first_colon(s.drop_first()) {
            Some(i) => Some(i + 1),
            None => None,
        }
    }
}

pub proof fn lemma_first_colon(s: Seq<char>)
    ensures
        match first_colon(s) {
            Some(i) => 0 <= i < s.len() && s[i] == ':' && forall|k: int| 0 <= k < i ==> s[k] != ':',
            None => forall|k: int| 0 <= k < s.len() ==> s[k] != ':',
        },
    decreases s.len(),
{
    if s.len() > 0 && s[0] != ':' {
        let t = s.drop_first();
        lemma_first_colon(t);
        assert forall|k: int| 0 < k < s.len() implies s[k] == t[k - 1] by {}
    }
}

pub fn find_colon(s: &[char]) -> (r: Option<usize>)
    ensures
        match r {
            Some(i) => i < s@.len() && first_colon(s@) == Some(i as int),
            None => first_colon(s@) is None,
        },
{
    let mut i: usize = 0;
    while i < s.len()
        invariant
            i <= s@.len(),
            forall|k: int| 0 <= k < i ==> s@[k] != ':',
        decreases s@.len() - i,
    {
        if s[i] == ':' {
            proof {
                lemma_first_colon(s@);
                match first_colon(s@) {
                    Some(j) => {
                        if j < i {
                        } else if j > i {
                            assert(s@[i as int] == ':');
                        }
                    },
                    None => {
                        assert(s@[i as int] == ':');
                    },
                }
            }
            return Some(i);
        }
        i = i + 1;
    }
    proof {
        lemma_first_colon(s@);
        match first_colon(s@) {
            Some(j) => {
                assert(s@[j] == ':');
            },
            None => {},
        }
    }
    None
}

/// The rdf:type IRI that `a` abbreviates.
pub open spec fn rdf_type() -> Seq<char> {
    "http://www.w3.org/1999/02/22-rdf-syntax-ns#type"@
}

/// Expanding a term of a statement to an IRI: a bracketed IRI is resolved,
/// `a` is rdf:type, `prefix:local` uses the declared prefix, an absolute
/// HTTP(S) IRI stays, and anything else non-empty is resolved against the base.
pub open spec fn expand_term(term: Seq<char>, prefixes: Seq<(Seq<char>, Seq<char>)>, base: Option<Seq<char>>) -> Result<Seq<char>, Seq<char>> {
    match iri_inside(term) {
        Some(iri) => Ok(resolve_iri(iri, base)),
        None => if term == "a"@ {
            Ok(rdf_type())
        } else {
            match first_colon(term) {
                Some(i) => match prefix_iri(prefixes, term.take(i)) {
                    Some(b) => Ok(b + term.skip(i + 1)),
                    None => Err("unknown prefix `"@ + term.take(i) + "`"@),
                },
                None => if is_http(term) {
                    Ok(term)
                } else {
                    match base {
                        Some(b) => if term.len() > 0 {
                            Ok(resolve_relative(b, term))
                        } else {
                            Err("cannot expand term `"@ + term + "`"@)
                        },
                        None => Err("cannot expand term `"@ + term + "`"@),
                    }
                },
            }
        },
    }
}

/// `a` followed by `b` followed by `c`, as a `String`.
pub fn message(a: &str, b: &[char], c: &str) -> (r: String)
    ensures
        r@ == a@ + b@ + c@,
{
    let ac = chars_of(a);
    let cc = chars_of(c);
    let ab = concat(&ac, b);
    let abc = concat(&ab, &cc);
    string_of(&abc)
}

/// The value stored for a prefix.
pub fn lookup_prefix<'a>(prefixes: &'a SortedMap<String>, p: &[char]) -> (r: Option<&'a String>)
    ensures
        match prefix_iri(prefixes.pairs(), p@) {
            Some(v) => r is Some && r.unwrap()@ == v,
            None => r is None,
        },
{
    proof {
        lemma_pair_view_indices(prefixes.spec_entries(), p@);
    }
    match prefixes.find(p) {
        Some(i) => {
            Some(&prefixes.entry_at(i).1)
        },
        None => None,
    }
}

/// Expands a term to an IRI.
pub fn expand(term: &[char], prefixes: &SortedMap<String>, base: Option<&[char]>) -> (r: Result<Vec<char>, String>)
    ensures
        match expand_term(term@, prefixes.pairs(), opt_seq(base)) {
            Ok(v) => r is Ok && r.unwrap()@ == v,
            Err(e) => r is Err && r->Err_0@ == e,
        },
{
    match trim_iri(term) {
        Some(iri) => {
            return Ok(resolve_iri_text(iri, base));
        },
        None => {},
    }
    if is_literal(term, "a") {
        return Ok(chars_of("http://www.w3.org/1999/02/22-rdf-syntax-ns#type"));
    }
    match find_colon(term) {
        Some(i) => {
            assert(i < term.len());
            let p = &term[0..i];
            let local = &term[i + 1..term.len()];
            proof {
                assert(p@ =~= term@.take(i as int));
                assert(local@ =~= term@.skip(i + 1));
            }
            match lookup_prefix(prefixes, p) {
                Some(b) => {
                    let bc = chars_of(b.as_str());
                    Ok(concat(&bc, local))
                },
                None => Err(message("unknown prefix `", p, "`")),
            }
        },
        None => {
            if is_http_iri(term) {
                Ok(copy_chars(term))
            } else {
                match base {
                    Some(b) => {
                        if term.len() > 0 {
                            Ok(resolve_relative_iri(b, term))
                        } else {
                            Err(message("cannot expand term `", term, "`"))
                        }
                    },
                    None => Err(message("cannot expand term `", term, "`")),
                }
            }
        },
    }
}

} // verus!

verus! {

// ---------------------------------------------------------------------------
// Literals and subjects
// ---------------------------------------------------------------------------

/// Index of the quote that closes a literal, scanning from `i` with the
/// given escape state: a backslash escapes the next character.
pub open spec fn literal_end(s: Seq<char>, i: int, escaped: bool) -> Option<int>
    decreases s.len() - i,
{
    if i >= s.len() || i < 0 {
        None
    } else if s[i] == '\\' && !escaped {
        literal_end(s, i + 1, true)
    } else if s[i] == '"' && !escaped {
        Some(i)
    } else {
        literal_end(s, i + 1, false)
    }
}

pub proof fn lemma_literal_end(s: Seq<char>, i: int, escaped: bool)
    requires
        0 <= i,
    ensures
        literal_end(s, i, escaped) matches Some(e) ==> i <= e < s.len(),
    decreases s.len() - i,
{
    if i < s.len() {
        if s[i] == '\\' && !escaped {
            lemma_literal_end(s, i + 1, true);
        } else if s[i] == '"' && !escaped {
        } else {
            lemma_literal_end(s, i + 1, false);
        }
    }
}

/// A quoted literal token: the text between the quotes with its escapes
/// resolved (`\n`, `\t`, `\"`, `\\`, `\uXXXX` and the like), then `@lang`,
/// `^^datatype` or nothing after the closing quote.
pub open spec fn literal_term(o: Seq<char>, prefixes: Seq<(Seq<char>, Seq<char>)>, base: Option<Seq<char>>) -> Result<SNode, Seq<char>> {
    match literal_end(o, 1, false) {
        None => Err("unterminated literal"@),
        Some(e) => {
            let value = crate::printed::unescape(o.subrange(1, e));
            let suffix = trim(o.skip(e + 1));
            if has_prefix(suffix, "@"@) {
                Ok(SNode::Literal { value, datatype: None, lang: Some(suffix.skip(1)) })
            } else if has_prefix(suffix, "^^"@) {
                match expand_term(trim(suffix.skip(2)), prefixes, base) {
                    Ok(dt) => Ok(SNode::Literal { value, datatype: Some(dt), lang: None }),
                    Err(m) => Err(m),
                }
            } else {
                Ok(SNode::Literal { value, datatype: None, lang: None })
            }
        },
    }
}

/// Parses a quoted literal token.
pub fn parse_literal(o: &[char], prefixes: &SortedMap<String>, base: Option<&[char]>) -> (r: Result<Node, String>)
    ensures
        match literal_term(o@, prefixes.pairs(), opt_seq(base)) {
            Ok(n) => r is Ok && r.unwrap()@ == n,
            Err(m) => r is Err && r->Err_0@ == m,
        },
{
    let mut escaped = false;
    let mut end: Option<usize> = None;
    let mut i: usize = 1;
    while i < o.len()
        invariant_except_break
            1 <= i,
            literal_end(o@, 1, false) == literal_end(o@, i as int, escaped),
            end is None,
        ensures
            match end {
                Some(e) => literal_end(o@, 1, false) == Some(e as int) && e < o@.len(),
                None => literal_end(o@, 1, false) is None,
            },
        decreases o@.len() - i,
    {
        let c = o[i];
        if c == '\\' && !escaped {
            escaped = true;
        } else if c == '"' && !escaped {
            end = Some(i);
            break;
        } else {
            escaped = false;
        }
        i = i + 1;
    }
    let e = match end {
        Some(e) => e,
        None => {
            return Err(string_of(&chars_of("unterminated literal")));
        },
    };
    proof {
        lemma_literal_end(o@, 1, false);
    }
    assert(1 <= e && e < o.len());
    let value = string_of(&crate::printed::unescape_chars(&o[1..e]));
    let suffix = trim_chars(&o[e + 1..o.len()]);
    proof {
        assert(o@.subrange(e + 1, o@.len() as int) =~= o@.skip(e + 1));
    }
    proof {
        reveal_strlit("@");
        reveal_strlit("^^");
    }
    if has_prefix_lit(suffix, "@") {
        proof {
            assert(suffix@.subrange(1, suffix@.len() as int) =~= suffix@.skip(1));
        }
        let lang = string_of(&suffix[1..suffix.len()]);
        Ok(Node::Literal { value, datatype: None, lang: Some(lang) })
    } else if has_prefix_lit(suffix, "^^") {
        proof {
            assert(suffix@.subrange(2, suffix@.len() as int) =~= suffix@.skip(2));
        }
        let dt_text = trim_chars(&suffix[2..suffix.len()]);
        match expand(dt_text, prefixes, base) {
            Ok(dt) => Ok(Node::Literal { value, datatype: Some(string_of(&dt)), lang: None }),
            Err(m) => Err(m),
        }
    } else {
        Ok(Node::Literal { value, datatype: None, lang: None })
    }
}

/// The node a subject token stands for: a blank node for `_:` labels,
/// otherwise the expanded IRI.
pub open spec fn subject_term(s: Seq<char>, prefixes: Seq<(Seq<char>, Seq<char>)>, base: Option<Seq<char>>) -> Result<SNode, Seq<char>> {
    if has_prefix(s, "_:"@) {
        Ok(SNode::Blank(s))
    } else {
        match expand_term(s, prefixes, base) {
            Ok(i) => Ok(SNode::Iri(i)),
            Err(m) => Err(m),
        }
    }
}

pub fn parse_subject(s: &[char], prefixes: &SortedMap<String>, base: Option<&[char]>) -> (r: Result<Node, String>)
    ensures
        match subject_term(s@, prefixes.pairs(), opt_seq(base)) {
            Ok(n) => r is Ok && r.unwrap()@ == n,
            Err(m) => r is Err && r->Err_0@ == m,
        },
{
    if has_prefix_lit(s, "_:") {
        Ok(Node::Blank(string_of(s)))
    } else {
        match expand(s, prefixes, base) {
            Ok(i) => Ok(Node::Iri(string_of(&i))),
            Err(m) => Err(m),
        }
    }
}

// ---------------------------------------------------------------------------
// Declarations
// ---------------------------------------------------------------------------

/// `s` without its trailing copies of `c`.
pub open spec fn drop_trailing(s: Seq<char>, c: char) -> Seq<char>
    decreases s.len(),
{
    if s.len() > 0 && s.last() == c {
        drop_trailing(s.drop_last(), c)
    } else {
        s
    }
}

pub fn drop_trailing_chars(s: &[char], c: char) -> (r: &[char])
    ensures
        r@ == drop_trailing(s@, c),
{
    let mut j: usize = s.len();
    proof {
        assert(s@.subrange(0, j as int) =~= s@);
    }
    while j > 0 && s[j - 1] == c
        invariant
            j <= s@.len(),
            drop_trailing(s@, c) == drop_trailing(s@.subrange(0, j as int), c),
        decreases j,
    {
        proof {
            assert(s@.subrange(0, j as int).drop_last() =~= s@.subrange(0, j - 1));
        }
        j = j - 1;
    }
    &s[0..j]
}

/// The words of a declaration: comment removed, trimmed, trailing dots removed.
pub open spec fn declaration_words(line: Seq<char>) -> Seq<Seq<char>> {
    words(trim(drop_trailing(trim(strip_comment(line)), '.')))
}

pub fn declaration_parts(line: &[char]) -> (r: Vec<Vec<char>>)
    ensures
        views(r@) == declaration_words(line@),
{
    let s = strip_inline_comment(line);
    let t = trim_chars(s);
    let d = drop_trailing_chars(t, '.');
    let c = trim_chars(d);
    split_whitespace(c)
}

/// A prefix declaration `@prefix name: <iri> .` (or `PREFIX`): the name
/// without trailing colons and the IRI, or why the line is malformed.
pub open spec fn prefix_declaration(line: Seq<char>) -> Result<(Seq<char>, Seq<char>), Seq<char>> {
    let parts = declaration_words(line);
    if parts.len() < 3 {
        Err("invalid prefix declaration"@)
    } else if parts.len() > 3 {
        Err("prefix declaration appears to be missing a `.` terminator"@)
    } else if !has_suffix(parts[1], ":"@) {
        Err("prefix declaration must use the form `@prefix name: <iri> .`"@)
    } else {
        match iri_inside(parts[2]) {
            Some(iri) => Ok((drop_trailing(parts[1], ':'), iri)),
            None => Err("invalid prefix IRI"@),
        }
    }
}

pub fn err_text(m: &str) -> (r: String)
    ensures
        r@ == m@,
{
    string_of(&chars_of(m))
}

/// Reads a prefix declaration.
pub fn parse_prefix(line: &[char]) -> (r: Result<(String, String), String>)
    ensures
        match prefix_declaration(line@) {
            Ok((p, i)) => r is Ok && r.unwrap().0@ == p && r.unwrap().1@ == i,
            Err(m) => r is Err && r->Err_0@ == m,
        },
{
    let parts = declaration_parts(line);
    proof {
        assert(views(parts@).len() == parts@.len());
    }
    if parts.len() < 3 {
        return Err(err_text("invalid prefix declaration"));
    }
    if parts.len() > 3 {
        return Err(err_text("prefix declaration appears to be missing a `.` terminator"));
    }
    proof {
        assert(views(parts@)[1] == parts@[1]@);
        assert(views(parts@)[2] == parts@[2]@);
    }
    if !has_suffix_lit(&parts[1], ":") {
        return Err(err_text("prefix declaration must use the form `@prefix name: <iri> .`"));
    }
    let prefix = drop_trailing_chars(&parts[1], ':');
    match trim_iri(&parts[2]) {
        Some(iri) => Ok((string_of(prefix), string_of(iri))),
        None => Err(err_text("invalid prefix IRI")),
    }
}

/// A base declaration `@base <iri> .` (or `BASE`, in any case): the IRI, or
/// why the line is malformed.
pub open spec fn base_declaration(line: Seq<char>) -> Result<Seq<char>, Seq<char>> {
    let parts = declaration_words(line);
    if parts.len() < 2 {
        Err("invalid base declaration"@)
    } else if parts.len() > 2 {
        Err("base declaration appears to be missing a `.` terminator"@)
    } else if lower(parts[0]) != "@base"@ && lower(parts[0]) != "base"@ {
        Err("base declaration must start with `@base` or `BASE`"@)
    } else {
        match iri_inside(parts[1]) {
            Some(iri) => Ok(iri),
            None => Err("invalid base IRI"@),
        }
    }
}

/// Reads a base declaration.
pub fn parse_base(line: &[char]) -> (r: Result<String, String>)
    ensures
        match base_declaration(line@) {
            Ok(i) => r is Ok && r.unwrap()@ == i,
            Err(m) => r is Err && r->Err_0@ == m,
        },
{
    let parts = declaration_parts(line);
    proof {
        assert(views(parts@).len() == parts@.len());
    }
    if parts.len() < 2 {
        return Err(err_text("invalid base declaration"));
    }
    if parts.len() > 2 {
        return Err(err_text("base declaration appears to be missing a `.` terminator"));
    }
    proof {
        assert(views(parts@)[0] == parts@[0]@);
        assert(views(parts@)[1] == parts@[1]@);
    }
    let head = lower_chars(&parts[0]);
    if !is_literal(&head, "@base") && !is_literal(&head, "base") {
        return Err(err_text("base declaration must start with `@base` or `BASE`"));
    }
    match trim_iri(&parts[1]) {
        Some(iri) => Ok(string_of(iri)),
        None => Err(err_text("invalid base IRI")),
    }
}

} // verus!
