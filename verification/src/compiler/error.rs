//! Compilation errors and source positions.
use crate::compiler::hir::definition::ExternFnId;
use crate::compiler::hir::value::ValueType;
use vstd::prelude::*;

verus! {

/// What went wrong, with the data needed to describe it.
#[derive(Debug, PartialEq, Eq)]
pub enum CompilationErrorKind {
    /// A variable is read that is not in scope.
    UndefinedVariable { name: Vec<u8> },
    /// A function with this name is already defined.
    FunctionAlreadyDefined { name: Vec<u8> },
    /// The indentation is not a multiple of the indentation size.
    InvalidIndentation { indent: usize },
    /// The nesting is deeper than the block allows.
    UnexpectedNesting { max_nesting: usize, nesting: usize },
    /// The lexer found a slice that matches no token.
    InvalidToken { slice: Vec<u8> },
    /// Something was expected, but the source ended.
    UnexpectedEndOfFile { expected: &'static str },
    /// Something was expected, but another token was found.
    UnexpectedToken { expected: &'static str, slice: Vec<u8> },
    /// A function is called that is never defined.
    UndefinedFunction { name: Vec<u8> },
    /// A built-in function has no instance for the types of the arguments.
    UnsupportedArgumentTypes { fn_id: ExternFnId, arguments: Vec<ValueType> },
    /// A function is called with a number of arguments other than its parameters.
    WrongArgumentCount { name: Vec<u8>, parameters: usize },
    /// A function returns values of different types.
    ReturnTypeMismatch { return_type: ValueType, value_type: ValueType },
    /// A variable is assigned values of different types.
    VariableTypeMismatch { value_type: ValueType, actual: ValueType },
    /// A constant used where a value of the given type is expected.
    ConstantTypeMismatch { expect: ValueType, actual: ValueType },
    /// A function instance is needed while it is still being inferred.
    RecursiveInstance,
    /// A function without name is used as a value.
    LambdaNotImplemented,
}

pub struct CompilationError {
    pub kind: CompilationErrorKind,
    pub span: LineSpan,
}

/// The errors found during a compilation, in the order they were found.
pub struct CompilationErrorSet {
    errors: Vec<CompilationError>,
}

#[derive(Clone, Copy, Debug, PartialEq, Eq, Structural)]
pub struct LineSpan {
    pub start: LineColumnNumber,
    pub end: LineColumnNumber,
}

#[derive(Clone, Copy, Debug, PartialEq, Eq, Structural)]
pub struct LineColumnNumber {
    pub line: usize,
    pub column: usize,
}

impl Default for LineColumnNumber {
    fn default() -> (r: Self)
        ensures
            r == (LineColumnNumber { line: 1, column: 1 }),
    {
        Self { line: 1, column: 1 }
    }
}

impl Default for LineSpan {
    fn default() -> (r: Self)
        ensures
            r == default_span(),
    {
        LineSpan { start: LineColumnNumber { line: 1, column: 1 }, end: LineColumnNumber { line: 1, column: 1 } }
    }
}

/// The span that the default of `LineSpan` gives: the first column of the first line.
pub open spec fn default_span() -> LineSpan {
    LineSpan { start: LineColumnNumber { line: 1, column: 1 }, end: LineColumnNumber { line: 1, column: 1 } }
}

/// Positions are ordered by line, then by column.
pub open spec fn position_le(a: LineColumnNumber, b: LineColumnNumber) -> bool {
    a.line < b.line || (a.line == b.line && a.column <= b.column)
}

/// The earlier of two positions.
pub open spec fn position_min(a: LineColumnNumber, b: LineColumnNumber) -> LineColumnNumber {
    if position_le(a, b) { a } else { b }
}

impl View for CompilationErrorSet {
    type V = Seq<CompilationError>;

    closed spec fn view(&self) -> Seq<CompilationError> {
        self.errors@
    }
}

impl Default for CompilationErrorSet {
    fn default() -> (r: Self)
        ensures
            r@ == Seq::<CompilationError>::empty(),
    {
        CompilationErrorSet { errors: Vec::new() }
    }
}

impl CompilationErrorSet {
    pub fn push(&mut self, error: CompilationError)
        ensures
            final(self)@ == old(self)@.push(error),
    {
        self.errors.push(error);
    }

    pub fn clear(&mut self)
        ensures
            final(self)@ == Seq::<CompilationError>::empty(),
    {
        self.errors.clear();
    }

    pub fn is_empty(&self) -> (r: bool)
        ensures
            r == (self@.len() == 0),
    {
        self.errors.len() == 0
    }

    /// The errors, in the order they were pushed.
    pub fn errors(&self) -> (r: &[CompilationError])
        ensures
            r@ == self@,
    {
        self.errors.as_slice()
    }
}

impl LineSpan {
    /// Joins two spans: starts at the earlier start and ends where `other` ends.
    pub fn and(self, other: LineSpan) -> (r: LineSpan)
        ensures
            r.start == position_min(self.start, other.start),
            r.end == other.end,
    {
        let start = if self.start.line < other.start.line || (self.start.line == other.start.line
            && self.start.column <= other.start.column) {
            self.start
        } else {
            other.start
        };
        LineSpan { start, end: other.end }
    }
}

} // verus!
