//! A lexical scanner for a small dynamically typed scripting language.
//!
//! `grammar` states, as spec functions, how source text divides into
//! lexemes; `scanner` is the executable scanner, proved against it; `laws`
//! holds properties of whole scans.
pub mod expr;
pub mod grammar;
pub mod laws;
pub mod scanner;
pub mod token;
