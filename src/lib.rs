//! A parser from a small regular-expression syntax (literal characters,
//! grouping, Kleene star, alternation) to an abstract syntax tree.
pub mod ast;
pub mod cursor;
pub mod parser;
pub mod lemmas;
