//! RDF serialization formats and how they are named.
use vstd::prelude::*;
use crate::error::LodError;
use crate::text::{chars_of, trim_chars, lower_chars, is_literal, trim, lower};

verus! {

/// The RDF syntaxes the library reads and writes.
#[derive(Debug, Clone, Copy, PartialEq, Eq, Structural)]
pub enum RdfFormat {
    Turtle,
    NTriples,
    JsonLd,
    RdfXml,
    TriG,
}

/// The format that a (trimmed, lower-cased) name stands for.
pub open spec fn format_named(s: Seq<char>) -> Option<RdfFormat> {
    if s == "ttl"@ || s == "turtle"@ {
        Some(RdfFormat::Turtle)
    } else if s == "nt"@ || s == "ntriples"@ || s == "n-triples"@ {
        Some(RdfFormat::NTriples)
    } else if s == "jsonld"@ || s == "json-ld"@ || s == "json"@ {
        Some(RdfFormat::JsonLd)
    } else if s == "rdfxml"@ || s == "rdf-xml"@ || s == "rdf/xml"@ || s == "rdf"@ || s == "xml"@ {
        Some(RdfFormat::RdfXml)
    } else if s == "trig"@ {
        Some(RdfFormat::TriG)
    } else {
        None
    }
}

/// What `RdfFormat::parse` gives for a name: the format it stands for once
/// trimmed and lower-cased, or an unsupported-format error carrying that
/// normalized name.
pub open spec fn parse_result_ok(value: Seq<char>, r: Result<RdfFormat, LodError>) -> bool {
    let key = lower(trim(value));
    match format_named(key) {
        Some(f) => r == Ok::<RdfFormat, LodError>(f),
        None => r matches Err(LodError::UnsupportedFormat(s)) && s@ == key,
    }
}

/// The name that `std::path::Path::file_name` gives for a path: its last
/// component, or nothing where the path ends in `..` or has no component.
/// Components are separated by `/` (on Windows `\` separates them too, and
/// a drive prefix is no component); `.` components and repeated or trailing
/// separators are skipped.
pub uninterp spec fn path_file_name(path: Seq<char>) -> Option<Seq<char>>;

/// `std::path::Path::file_name` on a UTF-8 path, converted to an owned string.
#[verifier::external_body]
fn file_name_of(path: &str) -> (r: Option<String>)
    ensures
        match r {
            Some(s) => path_file_name(path@) == Some(s@),
            None => path_file_name(path@) is None,
        },
{
    std::path::Path::new(path).file_name().and_then(|n| n.to_str()).map(|n| n.to_string())
}

/// Index of the last `.` in `s`.
pub open spec fn last_dot(s: Seq<char>) -> Option<int>
    decreases s.len(),
{
    if s.len() == 0 {
        None
    } else if s.last() == '.' {
        Some(s.len() - 1)
    } else {
        last_dot(s.drop_last())
    }
}

/// The extension of a file name as `Path::extension` defines it: the text
/// after the final `.`, unless there is no `.` or the only one starts the name.
pub open spec fn name_extension(name: Seq<char>) -> Option<Seq<char>> {
    match last_dot(name) {
        Some(i) => if i == 0 {
            None
        } else {
            Some(name.subrange(i + 1, name.len() as int))
        },
        None => None,
    }
}

/// The extension of a path, or the empty text where it has none.
pub open spec fn path_extension(path: Seq<char>) -> Seq<char> {
    match path_file_name(path) {
        Some(name) => match name_extension(name) {
            Some(e) => e,
            None => Seq::empty(),
        },
        None => Seq::empty(),
    }
}

pub proof fn lemma_last_dot(s: Seq<char>)
    ensures
        match last_dot(s) {
            Some(i) => 0 <= i < s.len() && s[i] == '.' && forall|k: int| i < k < s.len() ==> s[k] != '.',
            None => forall|k: int| 0 <= k < s.len() ==> s[k] != '.',
        },
    decreases s.len(),
{
    if s.len() > 0 && s.last() != '.' {
        let t = s.drop_last();
        lemma_last_dot(t);
        assert forall|k: int| 0 <= k < t.len() implies t[k] == s[k] by {}
    }
}

/// The extension of a file name.
fn extension_of(name: &[char]) -> (r: Option<&[char]>)
    ensures
        match name_extension(name@) {
            Some(e) => r is Some && r.unwrap()@ == e,
            None => r is None,
        },
{
    let mut i: usize = name.len();
    proof {
        assert(name@.subrange(0, name@.len() as int) =~= name@);
    }
    while i > 0 && name[i - 1] != '.'
        invariant
            i <= name@.len(),
            last_dot(name@) == last_dot(name@.subrange(0, i as int)),
        decreases i,
    {
        proof {
            assert(name@.subrange(0, i as int).drop_last() =~= name@.subrange(0, i - 1));
        }
        i = i - 1;
    }
    proof {
        assert(name@.subrange(0, name@.len() as int) =~= name@);
    }
    if i <= 1 {
        proof {
            if i == 1 {
                assert(name@.subrange(0, 1).last() == '.');
            }
        }
        None
    } else {
        proof {
            assert(name@.subrange(0, i as int).last() == '.');
        }
        Some(&name[i..name.len()])
    }
}

impl RdfFormat {
    /// The format a name stands for, ignoring surrounding white space and ASCII case.
    pub fn parse(value: &str) -> (r: Result<Self, LodError>)
        ensures
            parse_result_ok(value@, r),
    {
        let v = chars_of(value);
        let t = trim_chars(&v);
        let key = lower_chars(t);
        if is_literal(&key, "ttl") || is_literal(&key, "turtle") {
            Ok(RdfFormat::Turtle)
        } else if is_literal(&key, "nt") || is_literal(&key, "ntriples") || is_literal(&key, "n-triples") {
            Ok(RdfFormat::NTriples)
        } else if is_literal(&key, "jsonld") || is_literal(&key, "json-ld") || is_literal(&key, "json") {
            Ok(RdfFormat::JsonLd)
        } else if is_literal(&key, "rdfxml") || is_literal(&key, "rdf-xml") || is_literal(&key, "rdf/xml")
            || is_literal(&key, "rdf") || is_literal(&key, "xml") {
            Ok(RdfFormat::RdfXml)
        } else if is_literal(&key, "trig") {
            Ok(RdfFormat::TriG)
        } else {
            Err(LodError::UnsupportedFormat(crate::text::string_of(&key)))
        }
    }

    /// The format named by the extension of a path: `rdf` and `xml` give
    /// RDF/XML, `trig` gives TriG, anything else is read as a format name.
    pub fn from_path(path: &str) -> (r: Result<Self, LodError>)
        ensures
            ({
                let ext = lower(path_extension(path@));
                if ext == "rdf"@ || ext == "xml"@ {
                    r == Ok::<RdfFormat, LodError>(RdfFormat::RdfXml)
                } else if ext == "trig"@ {
                    r == Ok::<RdfFormat, LodError>(RdfFormat::TriG)
                } else {
                    parse_result_ok(ext, r)
                }
            }),
    {
        let name = file_name_of(path);
        let ext: Vec<char> = match &name {
            Some(n) => {
                let nc = chars_of(n.as_str());
                match extension_of(&nc) {
                    Some(e) => lower_chars(e),
                    None => Vec::new(),
                }
            },
            None => Vec::new(),
        };
        proof {
            assert(lower(Seq::<char>::empty()) =~= Seq::<char>::empty());
            assert(ext@ == lower(path_extension(path@)));
        }
        if is_literal(&ext, "rdf") || is_literal(&ext, "xml") {
            Ok(RdfFormat::RdfXml)
        } else if is_literal(&ext, "trig") {
            Ok(RdfFormat::TriG)
        } else {
            let s = crate::text::string_of(&ext);
            Self::parse(s.as_str())
        }
    }
}

} // verus!
