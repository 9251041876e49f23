//! Front end of a small expression language: a lexer, a Pratt parser with
//! error recovery, and a full-fidelity concrete syntax tree.
pub mod cst;
pub mod lexer;
pub mod pratt;
pub mod text;
pub mod token;
