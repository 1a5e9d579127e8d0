//! Errors with a message and the span of the source they refer to.
use crate::compiler::error::LineSpan;
use vstd::prelude::*;

verus! {

pub struct CompilationError {
    pub message: String,
    pub span: LineSpan,
}

/// The errors found, in the order they were added.
pub struct CompilationErrorSet {
    errors: Vec<CompilationError>,
}

impl View for CompilationErrorSet {
    type V = Seq<CompilationError>;

    closed spec fn view(&self) -> Seq<CompilationError> {
        self.errors@
    }
}

impl Default for CompilationErrorSet {
    fn default() -> (r: Self)
        ensures
            r@ == Seq::<CompilationError>::empty(),
    {
        CompilationErrorSet { errors: Vec::new() }
    }
}

impl CompilationErrorSet {
    pub fn add(&mut self, error: CompilationError)
        ensures
            final(self)@ == old(self)@.push(error),
    {
        self.errors.push(error);
    }

    pub fn is_empty(&self) -> (r: bool)
        ensures
            r == (self@.len() == 0),
    {
        self.errors.len() == 0
    }

    /// The errors, in the order they were added.
    pub fn errors(&self) -> (r: &[CompilationError])
        ensures
            r@ == self@,
    {
        self.errors.as_slice()
    }
}

} // verus!
