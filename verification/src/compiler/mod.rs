//! The compilation pipeline: lexer, parser, type inference and back end.
pub mod backend;
pub mod error;
pub mod hir;
pub mod lexer;
pub mod parser;
pub mod text;
pub mod type_inference;


use vstd::prelude::*;

verus! {

/// Entry point of the staged compilation pipeline.
pub struct CompilationPipeline;

} // verus!
