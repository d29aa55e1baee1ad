//! A tiny ahead-of-time compiler for a toy stack-machine language:
//! a lexer, a parser, and a code generator that lowers stack-machine
//! instructions to a textual SSA-style intermediate representation.

pub mod gen;
pub mod lexer;
pub mod parser;
pub mod text;
