# xrs

An XML 1.0 library whose logic is verified with Verus: a pull reader with
entity expansion, a namespace-aware reader, a small visitor-driven parser,
document type declarations, a reader of documents into a tree of byte spans
(over quick-xml), the detection and decoding of a document's encoding (over
encoding_rs), and the text handling that reading values out of a document needs.

## Layout

- `src/` is the library. Every function in it is verified; the calls into
  quick-xml, encoding_rs, memchr and parts of std stand behind small trusted
  functions whose doc comments say what their contracts claim.
  - `reader/` is the pull reader: its step is the spec function `spec_step`,
    and `lemma_document_run` states how a run of steps nests elements.
  - `simple/` and `namespace/` are the visitor-driven and namespace-aware parsers.
  - `dom/` reads a document into its tree; `dom/quick.rs` models quick-xml's
    reader by what it is given and how many events it has read.
  - `encoding.rs`, `shufti.rs`, `chars.rs`, `text.rs` and `parser/` hold the
    encoding guess, the byte-class skippers, character classes, text lemmas and
    parser combinators.
- `tests/` runs the library on concrete documents.
- `app/` is a small command line program, and the serde plumbing that reads
  values through the library.
