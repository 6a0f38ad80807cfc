//! Front end for a small declarative geometry-description language:
//! a lexer producing positioned tokens and a recursive-descent parser
//! turning them into a syntax tree of function calls.

pub mod ast;
pub mod lexer;
pub mod text;
