# gss

Graph Style Sheets: a small declarative configuration language with nested
objects, lists, percentages and references between values
(`ref = key`, `ref = a.b.c`, `ref = .sibling`).

The library is written in Verus.  Every function in `src/` carries a
contract that Verus proves, except the three calls into the
`lex-just-parse` lexer in `src/token.rs` (creating a lexer, taking its next
token, unescaping a string literal): their contracts are trusted, and their
doc comments say what they claim of the lexer.

- `src/token.rs` — tokens, read with the `lex-just-parse` lexer.
- `src/parser.rs` — the grammar as spec functions over token streams, and the
  verified reader that follows it.
- `src/number.rs` — integer literals in a radix, the shape of real literals,
  decimal digits.
- `src/value.rs` — values, references and objects (fields in definition
  order, no key twice).
- `src/resolve.rs` — looking values up by path, following references up to a
  depth limit.
- `src/convert.rs` — typed access: exact variants and conversions.
- `src/dump.rs` — the rendering of an object's structure.
- `src/api.rs` — reading documents, and error messages.
- `src/laws.rs` — properties of the library as a whole, proved.
- `src/setting.rs` — what refusing redefined keys changes in a read.

`app/` holds what stays outside the verified library: reading files,
printing, and turning kept real literals into binary floats.
