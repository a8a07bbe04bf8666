# folio_kfx

A verified reader and auditor for Amazon KFX books (CONT containers of Ion
entities), written in Verus.

The library in `src/` parses CONT containers and their entity tables, decodes
the binary Ion values of each fragment, and builds the native model of a book
(symbol tables, fragments, resources, reading order, navigation). From that
model it derives content-free audit reports: resource and placement traces
(with the raw image references of the content fragments), source string
inventories, the source of one text event, and the native counts of the
fidelity report. It walks each content fragment into text, equation and image
segments in document order, tracing every text event with its source path, and
builds the text-event audit from that trace. It also splits the text of a
content node into its inline runs (links, footnote references, ruby,
superscript markers) and numbers their nodes. Each of these functions states
its result in its contract, over spec functions of the model, and Verus proves
it.

Building the book's documents, anchors and navigation from the segments is
not part of the library; what it would contribute to the reports (the roles
the documents hold, the resolved resource symbols) is taken as an argument.

Calls into other crates stand behind small trusted wrappers, each with a doc
comment that says what is assumed of it:

- `sha2` for SHA-256 digests (`digest.rs`),
- `unicode-normalization` for NFC (`text_digest.rs`),
- `roxmltree` for parsing MathML (`mathml.rs`),
- std's UTF-8 decoding and `String` collection (`ion.rs`, `text.rs`).

`app/` holds what Verus does not see: serde copies of the report types and
their JSON rendering.

`tests/` runs the library on concrete inputs, built by hand as CONT bytes or
as native models.
