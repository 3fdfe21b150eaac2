# pastel

Pastel is a design-as-code language: a `.pastel` file defines design tokens,
variables, components, pages and a tree of frames, texts, images and shapes.
This crate is its compiler core, verified with Verus.

## Layout

- `src/` — the verified library
  - `lexer.rs`, `token.rs` — source text to tokens, specified by `tokenize_spec`
  - `parser/` — tokens to a syntax tree, specified by `parse_spec`
  - `semantic/` — variables, token blocks, includes, components and property
    resolution; `analyze` turns a program into an `IrDocument`
  - `formatter.rs` — a syntax tree back to canonical source text
  - `readback.rs` — what the lexer and parser read back of the formatter's text
  - `codegen/` — CSS custom properties, standalone HTML and a React component
  - `lint/` — checks that design values come from the document's tokens
  - `summary.rs` — the texts of `plan` and `inspect`
  - `export.rs` — which icon images each page becomes, per platform
  - `laws.rs` — properties that span several functions
- `tests/` — tests of the library on concrete inputs
- `app/` — the `pastel` command line: files, includes on disk, JSON output

Numbers are exact decimals (`number::Decimal`); JSON output turns them into
floating-point numbers in `app/`.
