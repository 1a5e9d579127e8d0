//! The binary operators of the language.
use vstd::prelude::*;

verus! {

#[derive(Debug, PartialEq, Eq, Copy, Clone, Structural)]
pub enum Operator {
    // Arithmetic
    Add,
    Sub,
    Mul,
    Div,
    Mod,
    // Comparison
    Eq,
    Ne,
    Lt,
    Le,
    Gt,
    Ge,
    // Boolean
    And,
    Or,
    XOr,
}

/// How tightly an operator binds: products before sums, sums before comparisons,
/// comparisons before `and`, and `and` before `or` and `xor`.
pub open spec fn operator_priority(op: Operator) -> u8 {
    match op {
        Operator::Mul | Operator::Div | Operator::Mod => 4,
        Operator::Add | Operator::Sub => 3,
        Operator::Eq | Operator::Ne | Operator::Lt | Operator::Le | Operator::Gt | Operator::Ge => 2,
        Operator::And => 1,
        Operator::Or | Operator::XOr => 0,
    }
}

/// The operators that order two values; `!=` is not one of them.
pub open spec fn operator_is_comparison(op: Operator) -> bool {
    op is Eq || op is Lt || op is Le || op is Gt || op is Ge
}

/// The text of an operator in the source.
pub open spec fn operator_symbol(op: Operator) -> Seq<char> {
    match op {
        Operator::Add => "+"@,
        Operator::Sub => "-"@,
        Operator::Mul => "*"@,
        Operator::Div => "/"@,
        Operator::Mod => "mod"@,
        Operator::Eq => "=="@,
        Operator::Ne => "!="@,
        Operator::Lt => "<"@,
        Operator::Le => "<="@,
        Operator::Gt => ">"@,
        Operator::Ge => ">="@,
        Operator::And => "and"@,
        Operator::Or => "or"@,
        Operator::XOr => "xor"@,
    }
}

impl Operator {
    pub fn priority(&self) -> (r: u8)
        ensures
            r == operator_priority(*self),
    {
        match self {
            Operator::Mul | Operator::Div | Operator::Mod => 4,
            Operator::Add | Operator::Sub => 3,
            Operator::Eq | Operator::Ne | Operator::Lt | Operator::Le | Operator::Gt | Operator::Ge => 2,
            Operator::And => 1,
            Operator::Or | Operator::XOr => 0,
        }
    }

    pub fn is_comparison(&self) -> (r: bool)
        ensures
            r == operator_is_comparison(*self),
    {
        matches!(self, Operator::Eq | Operator::Lt | Operator::Le | Operator::Gt | Operator::Ge)
    }

    /// The text of the operator, as it is printed.
    pub fn symbol(&self) -> (r: &'static str)
        ensures
            r@ == operator_symbol(*self),
    {
        match self {
            Operator::Add => "+",
            Operator::Sub => "-",
            Operator::Mul => "*",
            Operator::Div => "/",
            Operator::Mod => "mod",
            Operator::Eq => "==",
            Operator::Ne => "!=",
            Operator::Lt => "<",
            Operator::Le => "<=",
            Operator::Gt => ">",
            Operator::Ge => ">=",
            Operator::And => "and",
            Operator::Or => "or",
            Operator::XOr => "xor",
        }
    }
}

/// Operators bind by a fixed priority: `*`, `/` and `mod` more tightly than `+` and
/// `-`, these more tightly than the comparisons and `!=`, these more tightly than
/// `and`, and `and` more tightly than `or` and `xor`.
pub proof fn lemma_priority_order(a: Operator, b: Operator)
    ensures
        (a is Mul || a is Div || a is Mod) && (b is Add || b is Sub) ==> operator_priority(a) > operator_priority(b),
        (a is Add || a is Sub) && (b is Eq || b is Ne || b is Lt || b is Le || b is Gt || b is Ge)
            ==> operator_priority(a) > operator_priority(b),
        (a is Eq || a is Ne || a is Lt || a is Le || a is Gt || a is Ge) && b is And ==> operator_priority(a)
            > operator_priority(b),
        a is And && (b is Or || b is XOr) ==> operator_priority(a) > operator_priority(b),
        (a is Mul || a is Div || a is Mod) && (b is Mul || b is Div || b is Mod) ==> operator_priority(a)
            == operator_priority(b),
        (a is Add || a is Sub) && (b is Add || b is Sub) ==> operator_priority(a) == operator_priority(b),
        (a is Eq || a is Ne || a is Lt || a is Le || a is Gt || a is Ge) && (b is Eq || b is Ne || b is Lt || b is Le
            || b is Gt || b is Ge) ==> operator_priority(a) == operator_priority(b),
{
}

/// The comparisons are the operators that order two values: those of the comparison
/// priority but `!=`. An order and its converse are both comparisons (`<` and `>`, `<=`
/// and `>=`), and so is `==`; arithmetic and boolean operators are not.
pub proof fn lemma_comparisons(op: Operator)
    ensures
        operator_is_comparison(op) <==> operator_priority(op) == 2 && !(op is Ne),
        operator_is_comparison(Operator::Lt) && operator_is_comparison(Operator::Gt),
        operator_is_comparison(Operator::Le) && operator_is_comparison(Operator::Ge),
        operator_is_comparison(Operator::Eq) && !operator_is_comparison(Operator::Ne),
        operator_is_comparison(op) ==> operator_priority(op) < operator_priority(Operator::Add),
{
}

} // verus!
