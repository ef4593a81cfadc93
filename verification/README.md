# lib — Apple iWork documents at the wire level, verified

Every object in a Pages, Numbers or Keynote package is a protobuf message.
This crate reads and writes those messages and the structures built on them,
and states what each function does as a contract that Verus proves.

## Layout

- `src/pb.rs` — the protobuf wire format: varints, fields, messages; decoding
  an encoded message gives it back field for field.
- `src/document.rs` — an open document (object streams filed by name), the
  app that wrote it, the package index (components, media, identifiers) and
  hyperlink edits.
- `src/formula.rs`, `src/formula/` — formula archives: the AST node stream,
  how references are named, numeric literals, and the formula text.
- `src/calc.rs` — the calculation engine's dependency records.
- `src/chart.rs` — chart grids, series and the tables a chart reads.
- `src/drawable.rs`, `src/drawable/` — where each drawable sits and what holds
  it.
- `src/annotations.rs` — comment anchors and tracked changes.
- `src/create.rs` — builders for the archives a new document's objects are
  made of: fields, tables, styles and templates. Assembling whole packages
  is not part of this crate.
- `src/cli.rs` — what the command line prints and parses: previews, CSV
  fields, cell names, hex.
- `src/chars.rs` — building text a character at a time, and the order of
  strings.
- `app/main.rs` — the `iwork` command: file reading and printing around the
  library.
- `tests/` — tests of the library on concrete values.
