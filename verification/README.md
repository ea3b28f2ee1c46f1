# config

A configuration language and its collections, verified with Verus.

Configuration text is a list of entries: `key = value;`, `key := value;`,
`key += value;`, `key -= value;`, `key !;`, `key !!;`, and groups
`key: { entries }`. Keys and values are raw strings (`[A-Za-z0-9_./]`, with
`-` and `:` inside, and backslash escapes) or quoted strings (`"..."`).

## Layout

- `src/parse/` — reading text: `lex` (tokens, positions), `syn` (entries of
  tokens), `ast` (the tree of keys, operations and values), `mod` (the raw
  entries handed to configurations). `written`, `document` and
  `token_stream` state what written text reads back as.
- `src/collections/` — configuration values, lists, sets and access control
  lists: each records the operations applied to it and replays them.
- `src/cval/` — the value types an entry can hold and how each is read from
  bytes and written out.
- `src/ext/` — escapes, indentation, joining, decimal text.
- `src/schema/` — the rules for deriving a configuration from a struct's
  declaration: field attributes, keys, duplicate keys; and (`plan`) what the
  derived code decides: where an entry goes among the fields, and how the
  fields are written out; (`message`) the texts of the compile errors.
- `src/lex_token.rs` — the rules for declaring a tokenizer enum: the
  patterns, the one catch-all variant, and where each variant's captures
  are found.
- Syntax errors (with the token found and its span), refused values,
  refused attributes and structs, and token enums without exactly one
  catch-all variant have a `message` method whose contract gives the text.
- `app/` — reading files and readers, conversions from `syn` syntax trees,
  error types with `thiserror`.

## What is proved

Verus checks every function in `src/`; the public ones state what they do
in contracts over mathematical models (helpers and constructors whose
result is plain may have none). Among the stated laws:

- text written as entries and groups, with any whitespace and terminators
  between them, parses back to exactly those entries (`parse::document`);
- a stream of token texts, none running into the next, is read back as
  exactly those tokens (`parse::token_stream`);
- the tokens of any buffer cover it, and every parsed entry is well formed;
- replaying a collection's history onto a fresh collection gives the same
  collection; the last `allow`/`deny` of a value wins in an access control
  list;
- decimal integers and escapes read back as written;
- an operation written out reads back as that operation, and reading an
  entry consumes the separators before it and at most one terminator after
  it.
