//! Expressions are kept in one buffer, in postfix order: an operator follows its
//! operands, so it refers to them by their offsets back from itself.
use vstd::prelude::*;

verus! {

/// The operand that stands `OFFSET` expressions before its operator.
pub struct ExprOffset<const OFFSET: u32>;

/// A list of arguments: the number of expressions it takes.
pub struct ExprList(pub u32);

} // verus!
