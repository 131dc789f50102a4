# csstree

A CSS tokenizer and the building blocks of a CSS parser, written in Verus and
proved against its contracts.

- `src/tokenizer`: code point classes, the scanning helpers (names, numbers,
  escapes, whitespace), `tokenize`, the token stream with its block-balance
  table, and the offset-to-location map.
- `src/lexer`: the `An+B` and `<urange>` microsyntaxes over token sequences, and
  a small pattern lexer.
- `src/parser`: the syntax registry (`Lexer`: keywords, units, types, properties,
  at-rules), parser token and location records, and comment text extraction.
- `src/syntax`, `src/walker`: parser configuration records and the tree walker's
  field tables.
- `src/utils`: an insertion-ordered string map and a two-ended list.
- `app/`: the WebAssembly entry point, printing, serde_json tree conversion and the
  callback-driven parser front end, which Verus does not check.

Offsets in the tokenizer count code points; `tokenize` scans on up to the byte
length of the text, making one delim token per offset past its last code point.
The token stream is built over a token list that the caller supplies, with
offsets that index the text's bytes; `tokenize`'s output fits it
(`tokenize_fits_stream`). The location map counts bytes.
