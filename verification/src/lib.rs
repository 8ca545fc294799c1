//! Filters on played matches: a small expression language over the attributes recorded for a
//! match and its bots (`match.name`, `bot(id)[turn].name`, numbers and strings, comparisons,
//! `AND`, `OR`, `NOT` and parentheses), its parser, its written form, and its evaluation.
//!
//! - `lexer`: runs of characters, keywords and literals;
//! - `number`: binary64 values held as bit patterns, their comparison, the conversion of
//!   integers, and the reading of numbers by nom's float grammar;
//! - `ast`: expressions, their mathematical models and their written form;
//! - `parser`: the grammar, as specification and as executable parser;
//! - `spacing`: whitespace of every kind is skipped wherever the grammar allows it;
//! - `domain`: matches, bots and attributes;
//! - `filter`: evaluation of expressions on matches, and filters;
//! - `laws`: how expressions are decided, how values compare, and what a filter reads;
//! - `canonical`: the written form of an expression reads back as the same expression;
//! - `text`: character sequences and decimal notation.

pub mod ast;
pub mod canonical;
pub mod domain;
pub mod filter;
pub mod laws;
pub mod lexer;
pub mod number;
pub mod parser;
pub mod spacing;
pub mod text;
