//! Lowering of a small expression language into a control-flow graph whose
//! merge points carry values as block parameters instead of phi-nodes.
//!
//! - `lexer`, `parser`: source text to tokens to a program (`ast`).
//! - `lowering`: a program to a `cfg::Cfg` of `tac` instructions, with the
//!   whole pass stated as a function on mathematical states.
//! - `render`: the textual listing and the graph description of a `Cfg`.
//! - `lemmas`, `wellformed`: what every lowered graph satisfies.
//! - `index`, `errors`: the name index of a program's top-level declarations.
pub mod ast;
pub mod cfg;
pub mod errors;
pub mod index;
pub mod lemmas;
pub mod lexer;
pub mod lowering;
pub mod parser;
pub mod render;
pub mod tac;
pub mod text;
pub mod wellformed;
