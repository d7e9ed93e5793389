//! Mapping CSV rows to RDF triples with a declarative column mapping.
use vstd::prelude::*;
use crate::model::{
    Node, SNode, STriple, Triple, SortedMap, LodGraph, MappingRequest, triples_view, opt_view, pair_view, vkey_index,
    lemma_pair_view_indices,
};
use crate::text::{chars_of, string_of, push_all, push_string, trim, trim_chars, find_seq, find_chars};
use crate::terms::{has_prefix, is_http, is_http_iri};
use crate::error::{LodError, error_detail};
use crate::format::RdfFormat;
use crate::parser::{serialize_graph, resolve_format, written};
use crate::convert::side_format;
use crate::normal::same_string;

verus! {

/// How one CSV column becomes a property of the row's subject.
#[derive(Debug)]
pub struct ColumnMapping {
    pub predicate: String,
    pub datatype: Option<String>,
    pub lang: Option<String>,
}

/// A mapping: subjects are `base_uri` and the slug of the subject column,
/// typed with `class_uri`; each mapped column gives a literal property.
#[derive(Debug)]
pub struct MappingConfig {
    pub base_uri: String,
    pub subject_column: String,
    pub class_uri: String,
    pub prefixes: SortedMap<String>,
    pub columns: SortedMap<ColumnMapping>,
}

/// CSV-to-RDF mapping.
pub struct MappingService;

/// The header of a CSV document as `csv::Reader::headers` reads it, or its error message.
pub uninterp spec fn csv_header(content: Seq<char>) -> Result<Seq<Seq<char>>, Seq<char>>;

/// The records of a CSV document as `csv::Reader::records` reads them after
/// the header, or the message of the first error.
pub uninterp spec fn csv_records(content: Seq<char>) -> Result<Seq<Seq<Seq<char>>>, Seq<char>>;

pub open spec fn texts(v: Seq<String>) -> Seq<Seq<char>> {
    v.map_values(|s: String| s@)
}

pub open spec fn rows_view(v: Seq<Vec<String>>) -> Seq<Seq<Seq<char>>> {
    v.map_values(|r: Vec<String>| texts(r@))
}

/// A header as read, or the reader's error message, as plain values.
pub open spec fn header_view(h: Result<Vec<String>, String>) -> Result<Seq<Seq<char>>, Seq<char>> {
    match h {
        Ok(v) => Ok(texts(v@)),
        Err(e) => Err(e@),
    }
}

/// Records as read, or the reader's error message, as plain values.
pub open spec fn records_view(rs: Result<Vec<Vec<String>>, String>) -> Result<Seq<Seq<Seq<char>>>, Seq<char>> {
    match rs {
        Ok(v) => Ok(rows_view(v@)),
        Err(e) => Err(e@),
    }
}

/// Reads a CSV document with `csv::Reader` (first row as header): the
/// header, then all records up to the first error, every field as text.
/// Claimed: they are `csv_header` and `csv_records` of the content.
#[verifier::external_body]
fn csv_read(content: &str) -> (r: (Result<Vec<String>, String>, Result<Vec<Vec<String>>, String>))
    ensures
        header_view(r.0) == csv_header(content@),
        records_view(r.1) == csv_records(content@),
{
    let mut reader = csv::Reader::from_reader(content.as_bytes());
    let header = reader.headers().map(|h| h.iter().map(String::from).collect()).map_err(|e| e.to_string());
    let rows = reader.records().map(|x| x.map(|rec| rec.iter().map(String::from).collect()).map_err(|e| e.to_string())).collect();
    (header, rows)
}

/// Index of the first `:`.
pub open spec fn colon_at(s: Seq<char>) -> Option<int> {
    find_seq(s, seq![':'])
}

/// A mapping term as an IRI: HTTP(S) IRIs stay, `prefix:local` expands
/// with a declared prefix, anything else stays as written.
pub open spec fn expand_mapped(term: Seq<char>, prefixes: Seq<(Seq<char>, Seq<char>)>) -> Seq<char> {
    if is_http(term) {
        term
    } else {
        match colon_at(term) {
            Some(k) => match vkey_index(prefixes, term.take(k)) {
                Some(i) => prefixes[i].1 + term.skip(k + 1),
                None => term,
            },
            None => term,
        }
    }
}

/// A value with spaces and slashes turned into dashes, after trimming.
pub open spec fn slug_text(s: Seq<char>) -> Seq<char> {
    trim(s).map_values(|c: char| if c == ' ' || c == '/' { '-' } else { c })
}

/// Expands a mapping term.
pub fn expand(term: &str, prefixes: &SortedMap<String>) -> (r: String)
    ensures
        r@ == expand_mapped(term@, prefixes.pairs()),
{
    let tc = chars_of(term);
    if is_http_iri(&tc) {
        return term.to_string();
    }
    let colon = chars_of(":");
    proof {
        reveal_strlit(":");
        assert(colon@ =~= seq![':']);
    }
    let n = tc.len();
    match find_chars(&tc, &colon) {
        Some(k) => {
            assert(k + 1 <= n);
            proof {
                assert(tc@.subrange(0, k as int) =~= tc@.take(k as int));
                assert(tc@.subrange(k + 1, tc@.len() as int) =~= tc@.skip(k + 1));
            }
            match crate::terms::lookup_prefix(prefixes, &tc[0..k]) {
                Some(b) => {
                    let mut v = chars_of(b.as_str());
                    push_all(&mut v, &tc[k + 1..tc.len()]);
                    string_of(&v)
                },
                None => term.to_string(),
            }
        },
        None => term.to_string(),
    }
}

/// A value made fit for an IRI: trimmed, spaces and slashes turned into dashes.
pub fn slug(s: &str) -> (r: String)
    ensures
        r@ == slug_text(s@),
{
    let c = chars_of(s);
    let t = trim_chars(&c);
    let mut out: Vec<char> = Vec::new();
    let mut i: usize = 0;
    while i < t.len()
        invariant
            i <= t@.len(),
            out@ == t@.take(i as int).map_values(|c: char| if c == ' ' || c == '/' { '-' } else { c }),
        decreases t@.len() - i,
    {
        let ch = t[i];
        out.push(if ch == ' ' || ch == '/' { '-' } else { ch });
        proof {
            assert(out@ =~= t@.take(i + 1).map_values(|c: char| if c == ' ' || c == '/' { '-' } else { c }));
        }
        i = i + 1;
    }
    proof {
        assert(t@.take(i as int) =~= t@);
    }
    string_of(&out)
}

} // verus!

verus! {

/// A column mapping by its strings' character sequences.
pub struct ColumnView {
    pub predicate: Seq<char>,
    pub datatype: Option<Seq<char>>,
    pub lang: Option<Seq<char>>,
}

impl View for ColumnMapping {
    type V = ColumnView;

    open spec fn view(&self) -> ColumnView {
        ColumnView { predicate: self.predicate@, datatype: opt_view(self.datatype), lang: opt_view(self.lang) }
    }
}

/// The mapped columns in name order, by name.
pub open spec fn columns_view(cfg: MappingConfig) -> Seq<(Seq<char>, ColumnView)> {
    crate::model::keyed(cfg.columns.spec_entries(), |m: ColumnMapping| m@)
}

/// Field `i` of a record; empty where the record is shorter.
pub open spec fn field(rec: Seq<Seq<char>>, i: int) -> Seq<char> {
    if 0 <= i < rec.len() {
        rec[i]
    } else {
        seq![]
    }
}

/// Index of the first header equal to `name`.
pub open spec fn position(headers: Seq<Seq<char>>, name: Seq<char>) -> Option<int>
    decreases headers.len(),
{
    if headers.len() == 0 {
        None
    } else if headers[0] == name {
        Some(0)
    } else {
        match position(headers.drop_first(), name) {
            Some(i) => Some(i + 1),
            None => None,
        }
    }
}

/// The literal properties of a row from the mapped columns `cols`.
pub open spec fn column_triples(
    subject: SNode,
    cols: Seq<(Seq<char>, ColumnView)>,
    headers: Seq<Seq<char>>,
    rec: Seq<Seq<char>>,
    prefixes: Seq<(Seq<char>, Seq<char>)>,
) -> Seq<STriple>
    decreases cols.len(),
{
    if cols.len() == 0 {
        seq![]
    } else {
        let rest = column_triples(subject, cols.drop_last(), headers, rec, prefixes);
        let (name, m) = cols.last();
        match position(headers, name) {
            Some(idx) => {
                let value = trim(field(rec, idx));
                if value.len() == 0 {
                    rest
                } else {
                    rest.push(
                        STriple {
                            subject,
                            predicate: expand_mapped(m.predicate, prefixes),
                            object: SNode::Literal {
                                value,
                                datatype: match m.datatype {
                                    Some(d) => Some(expand_mapped(d, prefixes)),
                                    None => None,
                                },
                                lang: m.lang,
                            },
                        },
                    )
                }
            },
            None => rest,
        }
    }
}

/// The triples of one row: nothing for a blank subject field, otherwise the
/// subject's type and its mapped properties.
pub open spec fn row_triples(cfg: MappingConfig, headers: Seq<Seq<char>>, subject_idx: int, rec: Seq<Seq<char>>) -> Seq<STriple> {
    let sid = trim(field(rec, subject_idx));
    if sid.len() == 0 {
        seq![]
    } else {
        let subject = SNode::Iri(cfg.base_uri@ + slug_text(sid));
        seq![
            STriple {
                subject,
                predicate: crate::inspect::rdf_type_iri(),
                object: SNode::Iri(expand_mapped(cfg.class_uri@, cfg.prefixes.pairs())),
            },
        ] + column_triples(subject, columns_view(cfg), headers, rec, cfg.prefixes.pairs())
    }
}

/// The triples of all rows, in order.
pub open spec fn mapped_triples(cfg: MappingConfig, headers: Seq<Seq<char>>, subject_idx: int, rows: Seq<Seq<Seq<char>>>) -> Seq<STriple>
    decreases rows.len(),
{
    if rows.len() == 0 {
        seq![]
    } else {
        mapped_triples(cfg, headers, subject_idx, rows.drop_last()) + row_triples(cfg, headers, subject_idx, rows.last())
    }
}

/// What mapping a CSV header and the records after it gives, each as read
/// or as the reader's error message: the mapped graph, or the first error.
pub open spec fn records_outcome(
    cfg: MappingConfig,
    header: Result<Seq<Seq<char>>, Seq<char>>,
    records: Result<Seq<Seq<Seq<char>>>, Seq<char>>,
    r: Result<LodGraph, LodError>,
) -> bool {
    match header {
        Err(m) => r is Err && r->Err_0 is Csv && error_detail(r->Err_0) == m,
        Ok(headers) => match position(headers, cfg.subject_column@) {
            None => r is Err && r->Err_0 is Mapping && error_detail(r->Err_0) == "subject column `"@ + cfg.subject_column@
                + "` not found"@,
            Some(si) => match records {
                Err(m) => r is Err && r->Err_0 is Csv && error_detail(r->Err_0) == m,
                Ok(rows) => r is Ok && r.unwrap().base is None && r.unwrap().prefixes.spec_entries()
                    == cfg.prefixes.spec_entries() && triples_view(r.unwrap().triples@) == mapped_triples(
                    cfg,
                    headers,
                    si,
                    rows,
                ) && r.unwrap().named_graphs.spec_entries().len() == 0,
            },
        },
    }
}

/// What mapping CSV content gives: the mapped graph, or the first error.
pub open spec fn mapping_outcome(cfg: MappingConfig, content: Seq<char>, r: Result<LodGraph, LodError>) -> bool {
    records_outcome(cfg, csv_header(content), csv_records(content), r)
}

fn find_header(headers: &Vec<String>, name: &String) -> (r: Option<usize>)
    ensures
        match r {
            Some(i) => position(texts(headers@), name@) == Some(i as int) && i < headers@.len(),
            None => position(texts(headers@), name@) is None,
        },
{
    let ghost hv = texts(headers@);
    let mut i: usize = 0;
    proof {
        assert(hv.skip(0) =~= hv);
    }
    while i < headers.len()
        invariant
            i <= headers@.len(),
            hv == texts(headers@),
            position(hv, name@) == match position(hv.skip(i as int), name@) {
                Some(k) => Some(k + i),
                None => None,
            },
        decreases headers@.len() - i,
    {
        proof {
            assert(hv.skip(i as int).drop_first() =~= hv.skip(i + 1));
            assert(hv.skip(i as int)[0] == headers@[i as int]@);
        }
        if same_string(&headers[i], name) {
            return Some(i);
        }
        i = i + 1;
    }
    None
}

fn field_at(rec: &Vec<String>, i: usize) -> (r: String)
    ensures
        r@ == field(texts(rec@), i as int),
{
    if i < rec.len() {
        rec[i].clone()
    } else {
        String::new()
    }
}

/// Maps one record, appending its triples.
fn map_row(
    cfg: &MappingConfig,
    class_uri: &String,
    headers: &Vec<String>,
    subject_idx: usize,
    rec: &Vec<String>,
    triples: &mut Vec<Triple>,
)
    requires
        class_uri@ == expand_mapped(cfg.class_uri@, cfg.prefixes.pairs()),
    ensures
        triples_view(final(triples)@) == triples_view(old(triples)@) + row_triples(
            *cfg,
            texts(headers@),
            subject_idx as int,
            texts(rec@),
        ),
{
    let sid_field = field_at(rec, subject_idx);
    let sc = chars_of(sid_field.as_str());
    let sid = trim_chars(&sc);
    if sid.len() == 0 {
        proof {
            assert(triples_view(triples@) =~= triples_view(triples@) + seq![]);
        }
        return;
    }
    let sid_s = string_of(sid);
    let mut iri = chars_of(cfg.base_uri.as_str());
    let sl = slug(sid_s.as_str());
    push_string(&mut iri, &sl);
    let subject = Node::Iri(string_of(&iri));
    proof {
        crate::text::lemma_trim_idempotent(sc@);
    }
    let ghost t0 = triples_view(triples@);
    let t = Triple {
        subject: subject.clone(),
        predicate: string_of(&chars_of("http://www.w3.org/1999/02/22-rdf-syntax-ns#type")),
        object: Node::Iri(class_uri.clone()),
    };
    triples.push(t);
    let ghost cols = columns_view(*cfg);
    let n = cfg.columns.len();
    let mut k: usize = 0;
    proof {
        assert(triples_view(triples@) =~= t0.push(t@));
        assert(cols.take(0) =~= seq![]);
    }
    while k < n
        invariant
            k <= n,
            n == cols.len(),
            cols == columns_view(*cfg),
            triples_view(triples@) == t0.push(t@) + column_triples(subject@, cols.take(k as int), texts(headers@), texts(rec@), cfg.prefixes.pairs()),
        decreases n - k,
    {
        let entry = cfg.columns.entry_at(k);
        proof {
            assert(cols.take(k + 1).drop_last() =~= cols.take(k as int));
            assert(cols.take(k + 1).last() == cols[k as int]);
            assert(cols[k as int] == (entry.0@, entry.1@));
        }
        match find_header(headers, &entry.0) {
            Some(idx) => {
                let vf = field_at(rec, idx);
                let vc = chars_of(vf.as_str());
                let v = trim_chars(&vc);
                if v.len() > 0 {
                    let m = &entry.1;
                    let datatype = match &m.datatype {
                        Some(d) => Some(expand(d.as_str(), &cfg.prefixes)),
                        None => None,
                    };
                    let lang = match &m.lang {
                        Some(l) => Some(l.clone()),
                        None => None,
                    };
                    let nt = Triple {
                        subject: subject.clone(),
                        predicate: expand(m.predicate.as_str(), &cfg.prefixes),
                        object: Node::Literal { value: string_of(v), datatype, lang },
                    };
                    let ghost b = triples@;
                    triples.push(nt);
                    proof {
                        assert(triples_view(triples@) =~= triples_view(b).push(nt@));
                    }
                }
            },
            None => {},
        }
        k = k + 1;
    }
    proof {
        assert(cols.take(k as int) =~= cols);
        assert(t0 + row_triples(*cfg, texts(headers@), subject_idx as int, texts(rec@)) =~= t0.push(t@) + column_triples(
            subject@,
            cols,
            texts(headers@),
            texts(rec@),
            cfg.prefixes.pairs(),
        ));
    }
}

} // verus!

verus! {

impl MappingService {
    /// Maps the rows of CSV content to a graph: a typed subject per row whose
    /// subject field is not blank, and a literal property per mapped column
    /// that the header names and the row fills.
    pub fn map_graph(&self, cfg: &MappingConfig, content: &str) -> (r: Result<LodGraph, LodError>)
        ensures
            mapping_outcome(*cfg, content@, r),
    {
        let (header, records) = csv_read(content);
        self.map_records(cfg, header, records)
    }

    /// Maps a CSV header and the records after it, each as the reader gave
    /// it (or its error message), to a graph: the same mapping as `map_graph`.
    pub fn map_records(
        &self,
        cfg: &MappingConfig,
        header: Result<Vec<String>, String>,
        records: Result<Vec<Vec<String>>, String>,
    ) -> (r: Result<LodGraph, LodError>)
        ensures
            records_outcome(*cfg, header_view(header), records_view(records), r),
    {
        let headers = match header {
            Ok(h) => h,
            Err(e) => {
                return Err(LodError::Csv(e));
            },
        };
        let subject_idx = match find_header(&headers, &cfg.subject_column) {
            Some(i) => i,
            None => {
                let mut m = chars_of("subject column `");
                push_string(&mut m, &cfg.subject_column);
                crate::text::push_lit(&mut m, "` not found");
                return Err(LodError::Mapping(string_of(&m)));
            },
        };
        let rows = match records {
            Ok(rows) => rows,
            Err(e) => {
                return Err(LodError::Csv(e));
            },
        };
        let class_uri = expand(cfg.class_uri.as_str(), &cfg.prefixes);
        let mut triples: Vec<Triple> = Vec::new();
        let ghost hv = texts(headers@);
        let ghost rv = rows_view(rows@);
        let mut i: usize = 0;
        proof {
            assert(rv.take(0) =~= seq![]);
            assert(triples_view(triples@) =~= seq![]);
        }
        while i < rows.len()
            invariant
                i <= rows@.len(),
                rv == rows_view(rows@),
                hv == texts(headers@),
                class_uri@ == expand_mapped(cfg.class_uri@, cfg.prefixes.pairs()),
                triples_view(triples@) == mapped_triples(*cfg, hv, subject_idx as int, rv.take(i as int)),
            decreases rows@.len() - i,
        {
            proof {
                assert(rv.take(i + 1).drop_last() =~= rv.take(i as int));
                assert(rv.take(i + 1).last() == texts(rows@[i as int]@));
            }
            map_row(cfg, &class_uri, &headers, subject_idx, &rows[i], &mut triples);
            i = i + 1;
        }
        proof {
            assert(rv.take(i as int) =~= rv);
        }
        let mut graph = LodGraph::new();
        graph.prefixes = cfg.prefixes.copy();
        graph.triples = triples;
        Ok(graph)
    }

    /// Maps CSV to RDF text for a request: `mapping` is the mapping file as
    /// read and parsed, `csv` what reading the CSV file gave. The output
    /// format is the one named in the request, else the one the output path
    /// names.
    pub fn map_csv_to_rdf(
        &self,
        req: MappingRequest,
        mapping: Result<MappingConfig, LodError>,
        csv: Result<String, LodError>,
    ) -> (r: Result<String, LodError>)
        ensures
            mapping_request_outcome(req, mapping, csv, r),
    {
        let cfg = match mapping {
            Ok(c) => c,
            Err(e) => {
                return Err(e);
            },
        };
        let content = match csv {
            Ok(c) => c,
            Err(e) => {
                return Err(e);
            },
        };
        let g = self.map_graph(&cfg, content.as_str());
        let ghost gg = g;
        assert(mapping_outcome(cfg, content@, gg));
        let graph = match g {
            Ok(graph) => graph,
            Err(e) => {
                return Err(e);
            },
        };
        let fmt = match &req.output_format {
            Some(s) => match RdfFormat::parse(s.as_str()) {
                Ok(f) => Some(f),
                Err(e) => {
                    return Err(e);
                },
            },
            None => None,
        };
        let f = match resolve_format(req.output_path.as_str(), fmt) {
            Ok(f) => f,
            Err(e) => {
                return Err(e);
            },
        };
        serialize_graph(&graph, f)
    }
}

} // verus!

verus! {

/// What mapping the files of a request gives: the first error met, or the
/// mapped graph written in the output format.
pub open spec fn mapping_request_outcome(
    req: MappingRequest,
    mapping: Result<MappingConfig, LodError>,
    csv: Result<String, LodError>,
    r: Result<String, LodError>,
) -> bool {
    &&& mapping is Err ==> r == Err::<String, LodError>(mapping->Err_0)
    &&& mapping is Ok && csv is Err ==> r == Err::<String, LodError>(csv->Err_0)
    &&& mapping is Ok && csv is Ok ==> (exists|g: Result<LodGraph, LodError>| #[trigger] mapping_outcome(
        mapping->Ok_0,
        csv->Ok_0@,
        g,
    ) && match g {
        Err(e) => r == Err::<String, LodError>(e),
        Ok(graph) => match side_format(req.output_format, req.output_path@) {
            Err(key) => r matches Err(LodError::UnsupportedFormat(s)) && s@ == key,
            Ok(f) => written(graph, f, r),
        },
    })
}


} // verus!
