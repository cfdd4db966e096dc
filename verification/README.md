# rjtd

Plain-text extraction for Ichitaro (JTD) documents, written in Verus. Every
function of the library carries a contract; Verus proves all of them except
four trusted wrappers (`String::push`, `char::from_u32`, and two calls into the
`cfb` crate: reading one stream of a compound file, and walking its entries).

## Layout

- `src/container.rs` reads a stream of a compound file (CFB) through the `cfb`
  crate (trusted item `compound_stream`), and lists the entries of a compound
  file (`inspect_cfb_entries`, over the trusted item `compound_entries`). Only
  paths that every platform splits the same way reach the crate: a path
  holding `\` or `:` names no stream (no entry name can hold them), and a run
  of leading slashes is cut to one. Entries come back as lists of names,
  which verified code joins with `/`; the root storage is left out there too.
- `src/document_text/` parses the DocumentText stream: structured elements
  (`parse_document_text`), the source map (`map_document_text`), heading and
  list numbering (`numbering.rs`), the DocumentText payload and text recovered
  from embedded fragments (`payload.rs`), and row-header records
  (`row_headers.rs`).
- `src/header_text.rs`, `src/layout_box_text.rs` and `src/sheet.rs` read the
  /Header, /LayoutBoxText and sheet streams.
- `src/model/` builds the document model (paragraphs, rubies, sheets, footnotes)
  and reads whole documents (`parse_document`).
- `src/export.rs` renders a document as plain text.
- `src/cli.rs` holds what the command-line tool computes; `app/main.rs` is the
  tool itself (arguments, files, standard output).
- `tests/` holds the tests.

## Main laws

- The paragraphs built from a DocumentText stream are exactly the non-empty
  lines of the stream's visible text (`lemma_document_text_paragraphs`).
- A plain text read as a document and the same text read as one DocumentText
  run give the same paragraphs (`lemma_plain_text_models_agree`), and reading a
  document's plain text back gives the same paragraphs
  (`lemma_plain_text_round_trip`).
- The source map lists its entries in stream order, without overlap
  (`lemma_map_entries_in_order`), and, for a stream without numbered paragraph
  headers, its run and inline entries hold the parsed text
  (`lemma_map_text_matches_parse`).
- Without header text, the export is the trimmed plain text
  (`lemma_export_is_trimmed_plain_text`); header text is put first, followed by a
  blank line (`lemma_header_text_prepended`).
- Trimming trailing exposed controls keeps a prefix, is idempotent, removes
  only white space and exposed controls (at least one of them), and removes
  nothing when the trailing run holds no exposed control
  (`lemma_trim_exposed_idempotent`).
- Every source-map entry spans a non-empty unit range inside the stream; control
  entries, and only they, carry a code, span one unit and hold no text; inline
  entries, and only they, carry a selector, which for displayed inline text is
  0x0001, 0x0003 or 0x0013 (`lemma_map_entries_well_formed`).
- Parsed inline text is non-empty and free of C0/C1 controls and U+FFFF;
  skipped inline segments keep a context of one to six units and raw bytes that
  open with that context and 0x001d and close with 0x001e; control boundaries
  carry only control, surrogate or non-character codes
  (`lemma_parsed_elements_well_formed`); byte by byte, a skipped segment's raw
  bytes open with the big-endian bytes of its context and 0x00 0x1d and close
  with 0x00 0x1e (`lemma_parsed_skipped_bytes`).
- A parsed /Header stream has at least one line, and no line is blank or ends in
  a line break (`lemma_header_lines_well_formed`).
- Row-header pairs lie end to end on their grid (`lemma_row_header_pairs_tile`).
- A printed stream path reads back as the same path
  (`lemma_unescape_escaped_path`).

## Not covered

- A `/JSCompDocument` stream whose document is compressed with LH5 is not
  decompressed: reading such a payload reports `InvalidData`. Only the
  uncompressed form, and text embedded in the container, is read.
- Documents are limited by their input size only; there is no separate budget
  on the total size of the streams read.
- The command-line tool offers `cat`, `sheets`, `export`, `streams` and
  `dump-stream`. The commands `info`, `cfb-map` and `cfb-dir` are not offered:
  they need format detection and the sector chains and directory ids of the
  compound file, which the `cfb` crate does not expose.
