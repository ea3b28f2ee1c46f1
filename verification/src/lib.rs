//! A configuration language: a lexer, a syntax parser and an AST builder for
//! `key = value;` / `group: { ... }` files, together with the configuration
//! collections (single values, lists, sets and access control lists) that
//! record and replay the operations applied to them.

pub mod ext;
pub mod parse;
pub mod cval;
pub mod errors;
pub mod key;
pub mod collections;
pub mod lex_token;
pub mod schema;
pub mod fmt;
pub mod traits;
