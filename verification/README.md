# lod_core

A verified library for Linked Open Data work: an RDF graph model; readers
for Turtle, N-Triples, JSON-LD, RDF/XML and TriG; writers for the same
formats; and services that inspect, validate, convert, map (CSV to RDF) and
draw graphs. The library is written in Verus: each public function carries a
`requires`/`ensures` contract over mathematical models of its inputs and
outputs, and Verus proves that the code meets it.

## Layout

- `src/` — the library.
  - `model.rs`: nodes, triples, graphs, a sorted string-keyed map, the
    request and report types, and their views.
  - `text.rs`, `lexer.rs`, `terms.rs`, `turtle.rs`, `document.rs`: the
    built-in Turtle reader (statements, terms, blank node property lists,
    collections, prefixes and base IRIs).
  - `printed.rs`, `reading.rs`, `json.rs`: the readers that go through
    `rio_turtle`, `oxrdfxml`, `oxttl` and `serde_json`.
  - `normal.rs`, `writing.rs`, `oxwrite.rs`, `parser.rs`: the normal form in
    which graphs are written (sorted, blank nodes renamed, repeats dropped)
    and the writers.
  - `validate.rs`, `shacl.rs`, `report.rs`: syntax and IRI checks, reading of
    SHACL result tables, and text and HTML reports.
  - `inspect.rs`, `visualize.rs`, `map.rs`, `convert.rs`, `facade.rs`,
    `requests.rs`: the services and the `LodWorkbench` entry point.
  - `laws.rs`: properties that span functions, each a proof function.
- `tests/` — tests run against the compiled library.
- `app/` — the `lod` command-line program and its HTTP API: file and
  network I/O, argument parsing, and the serde forms of the report types.

Calls into outside crates stand behind small trusted wrappers whose
contracts are stated in their doc comments; everything else is proved.
