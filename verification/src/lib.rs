//! Front end of a compiler for a small Lisp-like language.
//!
//! The pipeline: a token sequence is parsed by combinator-built grammar
//! productions into a tree of parse nodes; that tree becomes an id-addressed
//! abstract syntax tree; a lowering pass builds a scope tree with symbol
//! tables, interns binding sites, resolves references and rewrites generic
//! forms into typed payloads.

pub mod ast;
pub mod combinator;
pub mod error;
pub mod module;
pub mod opts;
pub mod utils;
pub mod lexer;
pub mod parsenode;
pub mod parsers;
pub mod sources;
pub mod span;
pub mod types;
pub mod symbols;
pub mod syntax;
pub mod symboltree;
pub mod tokens;
