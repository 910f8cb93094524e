# pica_record

Types and tools for bibliographic records in normalized PICA+, the
internal data format of the OCLC cataloging system, written in Verus with
their behaviour stated in contracts and proved.

Layout:

- `src/primitives/` — tags, occurrences, subfields, fields and records:
  their byte formats, parsing and writing (with round-trip laws).
- `src/record.rs`, `src/reader.rs` — byte and string records, and what a
  reader decides for each line it reads.
- `src/matcher/` — the matcher languages for subfields, fields and
  records: their grammars, their meaning over a record, and the laws of
  the boolean connectives.
- `src/path.rs`, `src/query.rs`, `src/fmt/` — paths, queries (tables of
  values taken from a record) and formats (how the subfields of a field
  are rendered as one value).
- `src/text.rs`, `src/bytes.rs`, `src/parser.rs` — calls into `bstr`,
  `regex`, `strsim` and `sha2`, and the shared pieces of the grammars.
- `app/` — reading records from files, standard input and gzip archives,
  error types with `Display`, and serde encodings.
- `tests/` — scenarios on concrete values.
