//! Makovi: a small scripting language compiler.
//!
//! The stages of the compiler are verified here: the lexer, the parser, the
//! intermediate representation, type inference, and the lowering to Cranelift.
pub mod ast;
pub mod compiler;
pub mod error;
pub mod lazy_parser;
pub mod lexer;
pub mod parser;

