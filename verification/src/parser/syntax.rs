//! The brace-delimited syntax as mathematical functions: each rule, read from a
//! position, gives the position after what it read and the value it made, or nothing.
//! Choices are ordered: the first alternative that reads wins.
use crate::parser::{Expr, FunctionAST, spec_identifier, spec_literal, text_of};
use vstd::prelude::*;

verus! {

/// A binary operator.
#[derive(Clone, Copy, PartialEq, Eq, Structural)]
pub enum BinOp {
    Eq,
    Ne,
    Lt,
    Le,
    Gt,
    Ge,
    Add,
    Sub,
    Mul,
    Div,
    Mod,
}

/// An expression as a mathematical value.
pub enum ExprView {
    Literal(Seq<char>),
    Identifier(Seq<char>),
    Assign(Seq<char>, Box<ExprView>),
    Binary(BinOp, Box<ExprView>, Box<ExprView>),
    IfElse(Box<ExprView>, Seq<ExprView>, Seq<ExprView>),
    WhileLoop(Box<ExprView>, Seq<ExprView>),
    Call(Seq<char>, Seq<ExprView>),
    GlobalDataAddr(Seq<char>),
}

/// The value of an expression.
pub open spec fn expr_view(e: Expr) -> ExprView
    decreases e,
{
    match e {
        Expr::Literal(s) => ExprView::Literal(s@),
        Expr::Identifier(s) => ExprView::Identifier(s@),
        Expr::Assign(s, v) => ExprView::Assign(s@, Box::new(expr_view(*v))),
        Expr::Eq(a, b) => ExprView::Binary(BinOp::Eq, Box::new(expr_view(*a)), Box::new(expr_view(*b))),
        Expr::Ne(a, b) => ExprView::Binary(BinOp::Ne, Box::new(expr_view(*a)), Box::new(expr_view(*b))),
        Expr::Lt(a, b) => ExprView::Binary(BinOp::Lt, Box::new(expr_view(*a)), Box::new(expr_view(*b))),
        Expr::Le(a, b) => ExprView::Binary(BinOp::Le, Box::new(expr_view(*a)), Box::new(expr_view(*b))),
        Expr::Gt(a, b) => ExprView::Binary(BinOp::Gt, Box::new(expr_view(*a)), Box::new(expr_view(*b))),
        Expr::Ge(a, b) => ExprView::Binary(BinOp::Ge, Box::new(expr_view(*a)), Box::new(expr_view(*b))),
        Expr::Add(a, b) => ExprView::Binary(BinOp::Add, Box::new(expr_view(*a)), Box::new(expr_view(*b))),
        Expr::Sub(a, b) => ExprView::Binary(BinOp::Sub, Box::new(expr_view(*a)), Box::new(expr_view(*b))),
        Expr::Mul(a, b) => ExprView::Binary(BinOp::Mul, Box::new(expr_view(*a)), Box::new(expr_view(*b))),
        Expr::Div(a, b) => ExprView::Binary(BinOp::Div, Box::new(expr_view(*a)), Box::new(expr_view(*b))),
        Expr::Mod(a, b) => ExprView::Binary(BinOp::Mod, Box::new(expr_view(*a)), Box::new(expr_view(*b))),
        Expr::IfElse(c, t, f) => ExprView::IfElse(Box::new(expr_view(*c)), exprs_view(t@), exprs_view(f@)),
        Expr::WhileLoop(c, b) => ExprView::WhileLoop(Box::new(expr_view(*c)), exprs_view(b@)),
        Expr::Call(s, a) => ExprView::Call(s@, exprs_view(a@)),
        Expr::GlobalDataAddr(s) => ExprView::GlobalDataAddr(s@),
    }
}

/// The values of a list of expressions.
pub open spec fn exprs_view(s: Seq<Expr>) -> Seq<ExprView>
    decreases s,
{
    if s.len() == 0 {
        Seq::empty()
    } else {
        exprs_view(s.subrange(0, s.len() - 1)).push(expr_view(s[s.len() - 1]))
    }
}

/// The end of the spaces from `p` on.
pub open spec fn spaces_end(input: Seq<u8>, p: int) -> int
    decreases input.len() - p,
{
    if 0 <= p < input.len() && input[p] == 32 {
        spaces_end(input, p + 1)
    } else {
        p
    }
}

/// The end of the spaces and line breaks from `p` on.
pub open spec fn blank_end(input: Seq<u8>, p: int) -> int
    decreases input.len() - p,
{
    if 0 <= p < input.len() && (input[p] == 32 || input[p] == 10) {
        blank_end(input, p + 1)
    } else {
        p
    }
}

/// The input holds `lit` at `p`.
pub open spec fn lit_at(input: Seq<u8>, p: int, lit: Seq<u8>) -> bool {
    0 <= p && p + lit.len() <= input.len() && input.subrange(p, p + lit.len()) == lit
}

/// Spaces end after where they start.
pub proof fn lemma_spaces_end(input: Seq<u8>, p: int)
    requires
        0 <= p <= input.len(),
    ensures
        p <= spaces_end(input, p) <= input.len(),
    decreases input.len() - p,
{
    if p < input.len() && input[p] == 32 {
        lemma_spaces_end(input, p + 1);
    }
}

/// The text of the operator.
pub open spec fn op_text(op: BinOp) -> Seq<u8> {
    match op {
        BinOp::Eq => seq![61u8, 61u8],
        BinOp::Ne => seq![33u8, 61u8],
        BinOp::Lt => seq![60u8],
        BinOp::Le => seq![60u8, 61u8],
        BinOp::Gt => seq![62u8],
        BinOp::Ge => seq![62u8, 61u8],
        BinOp::Add => seq![43u8],
        BinOp::Sub => seq![45u8],
        BinOp::Mul => seq![42u8],
        BinOp::Div => seq![47u8],
        BinOp::Mod => seq![109u8, 111u8, 100u8],
    }
}

/// The level of the operator: comparisons, then sums, then products, then `mod`.
pub open spec fn op_level(op: BinOp) -> int {
    match op {
        BinOp::Eq | BinOp::Ne | BinOp::Lt | BinOp::Le | BinOp::Gt | BinOp::Ge => 0,
        BinOp::Add | BinOp::Sub => 1,
        BinOp::Mul | BinOp::Div => 2,
        BinOp::Mod => 3,
    }
}

/// The operators in the order in which they are tried.
pub open spec fn op_order() -> Seq<BinOp> {
    seq![
        BinOp::Eq,
        BinOp::Ne,
        BinOp::Lt,
        BinOp::Le,
        BinOp::Gt,
        BinOp::Ge,
        BinOp::Add,
        BinOp::Sub,
        BinOp::Mul,
        BinOp::Div,
        BinOp::Mod,
    ]
}

pub open spec fn kw_if() -> Seq<u8> {
    seq![105u8, 102u8]
}

pub open spec fn kw_else() -> Seq<u8> {
    seq![101u8, 108u8, 115u8, 101u8]
}

pub open spec fn kw_while() -> Seq<u8> {
    seq![119u8, 104u8, 105u8, 108u8, 101u8]
}

pub open spec fn kw_function() -> Seq<u8> {
    seq![102u8, 117u8, 110u8, 99u8, 116u8, 105u8, 111u8, 110u8]
}

/// `expression`: an `if`, a `while`, an assignment or else operations.
pub open spec fn spec_expression(input: Seq<u8>, p: int) -> Option<(int, ExprView)>
    decreases input.len() - p, 10int, 0int,
{
    if !(0 <= p <= input.len()) {
        None
    } else if spec_if_else(input, p) is Some {
        spec_if_else(input, p)
    } else if spec_while_loop(input, p) is Some {
        spec_while_loop(input, p)
    } else if spec_assignment(input, p) is Some {
        spec_assignment(input, p)
    } else {
        spec_binary_op(input, p)
    }
}

/// The start of an `if`: `if`, the condition and the then block, then `else`, each
/// with the spaces around them. Gives the position after the spaces that follow
/// `else`.
pub open spec fn spec_if_head(input: Seq<u8>, p: int) -> Option<(int, ExprView, Seq<ExprView>)>
    decreases input.len() - p, 8int, 0int,
{
    if !(0 <= p <= input.len()) || !lit_at(input, p, kw_if()) {
        None
    } else {
        let a = spaces_end(input, p + 2);
        proof {
            lemma_spaces_end(input, p + 2);
        }
        match spec_expression(input, a) {
            None => None,
            Some((b, condition)) => {
                let c = spaces_end(input, b);
                if !(p < c <= input.len()) {
                    None
                } else {
                    match spec_block(input, c) {
                        None => None,
                        Some((d, then_body)) => {
                            let e = spaces_end(input, d);
                            if lit_at(input, e, kw_else()) {
                                Some((spaces_end(input, e + 4), condition, then_body))
                            } else {
                                None
                            }
                        },
                    }
                }
            },
        }
    }
}

/// `if_else`: `if` with its condition and its then block, then `else` and either a
/// block or another `if_else`.
pub open spec fn spec_if_else(input: Seq<u8>, p: int) -> Option<(int, ExprView)>
    decreases input.len() - p, 9int, 0int,
{
    match spec_if_head(input, p) {
        None => None,
        Some((q, condition, then_body)) => if !(p < q <= input.len()) {
            None
        } else {
            match spec_block(input, q) {
                Some((r, else_body)) => Some(
                    (r, ExprView::IfElse(Box::new(condition), then_body, else_body)),
                ),
                None => match spec_if_else(input, q) {
                    Some((r, other)) => Some(
                        (r, ExprView::IfElse(Box::new(condition), then_body, seq![other])),
                    ),
                    None => None,
                },
            }
        },
    }
}

/// `while_loop`: `while`, the condition and the block.
pub open spec fn spec_while_loop(input: Seq<u8>, p: int) -> Option<(int, ExprView)>
    decreases input.len() - p, 9int, 0int,
{
    if !(0 <= p <= input.len()) || !lit_at(input, p, kw_while()) {
        None
    } else {
        let a = spaces_end(input, p + 5);
        proof {
            lemma_spaces_end(input, p + 5);
        }
        match spec_expression(input, a) {
            None => None,
            Some((b, condition)) => {
                let c = spaces_end(input, b);
                if !(p < c <= input.len()) {
                    None
                } else {
                    match spec_block(input, c) {
                        None => None,
                        Some((d, body)) => Some((d, ExprView::WhileLoop(Box::new(condition), body))),
                    }
                }
            },
        }
    }
}

/// `assignment`: an identifier, `=` and an expression.
pub open spec fn spec_assignment(input: Seq<u8>, p: int) -> Option<(int, ExprView)>
    decreases input.len() - p, 9int, 0int,
{
    match spec_identifier(input, p) {
        None => None,
        Some((q, name)) => {
            let a = spaces_end(input, q);
            if !(p < a) || !lit_at(input, a, seq![61u8]) {
                None
            } else {
                proof {
                    lemma_spaces_end(input, a + 1);
                }
                match spec_expression(input, spaces_end(input, a + 1)) {
                    None => None,
                    Some((r, value)) => Some((r, ExprView::Assign(text_of(name), Box::new(value)))),
                }
            }
        },
    }
}

/// A block: `{`, spaces, a line break, the statements, spaces and `}`.
pub open spec fn spec_block(input: Seq<u8>, p: int) -> Option<(int, Seq<ExprView>)>
    decreases input.len() - p, 8int, 0int,
{
    if !(0 <= p <= input.len()) || !lit_at(input, p, seq![123u8]) {
        None
    } else {
        let a = spaces_end(input, p + 1);
        proof {
            lemma_spaces_end(input, p + 1);
        }
        if !lit_at(input, a, seq![10u8]) {
            None
        } else {
            let (b, body) = spec_statements(input, a + 1, Seq::empty());
            let c = spaces_end(input, b);
            if lit_at(input, c, seq![125u8]) {
                Some((c + 1, body))
            } else {
                None
            }
        }
    }
}

/// `statements`: as many statements as there are from `p` on, after those in `done`.
pub open spec fn spec_statements(input: Seq<u8>, p: int, done: Seq<ExprView>) -> (int, Seq<ExprView>)
    decreases input.len() - p, 13int, 0int,
{
    if !(0 <= p <= input.len()) {
        (p, done)
    } else {
        match spec_statement(input, p) {
            Some((q, e)) => if p < q <= input.len() {
                spec_statements(input, q, done.push(e))
            } else {
                (p, done)
            },
            None => (p, done),
        }
    }
}

/// `statement`: spaces, an expression, spaces and a line break.
pub open spec fn spec_statement(input: Seq<u8>, p: int) -> Option<(int, ExprView)>
    decreases input.len() - p, 12int, 0int,
{
    if !(0 <= p <= input.len()) {
        None
    } else {
        proof {
            lemma_spaces_end(input, p);
        }
        match spec_expression(input, spaces_end(input, p)) {
            None => None,
            Some((q, e)) => {
                let a = spaces_end(input, q);
                if lit_at(input, a, seq![10u8]) {
                    Some((a + 1, e))
                } else {
                    None
                }
            },
        }
    }
}

/// `binary_op`: operations by precedence.
pub open spec fn spec_binary_op(input: Seq<u8>, p: int) -> Option<(int, ExprView)>
    decreases input.len() - p, 9int, 0int,
{
    spec_infix(input, p, 0)
}

/// An operand, then the operations of level `min_level` or more that follow it.
pub open spec fn spec_infix(input: Seq<u8>, p: int, min_level: int) -> Option<(int, ExprView)>
    decreases input.len() - p, 8int, 0int,
{
    match spec_atom(input, p) {
        None => None,
        Some((q, v)) => if p < q <= input.len() {
            spec_climb(input, q, min_level, v)
        } else {
            None
        },
    }
}

/// The operations of level `min_level` or more that follow `v`, from `p` on.
pub open spec fn spec_climb(input: Seq<u8>, p: int, min_level: int, v: ExprView) -> Option<(int, ExprView)>
    decreases input.len() - p, 7int, 0int,
{
    match spec_level(input, p, min_level, 0) {
        Some((q, op, rhs)) => if p < q <= input.len() {
            spec_climb(input, q, min_level, ExprView::Binary(op, Box::new(v), Box::new(rhs)))
        } else {
            Some((p, v))
        },
        None => Some((p, v)),
    }
}

/// The first operator, from the `k`-th on in the order in which they are tried, whose
/// level is `min_level` or more and that reads at `p`, with its right operand.
pub open spec fn spec_level(input: Seq<u8>, p: int, min_level: int, k: int) -> Option<(int, BinOp, ExprView)>
    decreases input.len() - p, 6int, op_order().len() - k,
{
    if !(0 <= k < op_order().len()) {
        None
    } else {
        let op = op_order()[k];
        let mod_group = if op == BinOp::Mod && op_level(op) >= min_level {
            spec_mod_group(input, p)
        } else {
            None
        };
        if mod_group is Some {
            mod_group
        } else if op_level(op) >= min_level && spec_operation(input, p, op) is Some {
            spec_operation(input, p, op)
        } else {
            spec_level(input, p, min_level, k + 1)
        }
    }
}

/// `mod` with its right operand in brackets: spaces, `mod`, spaces, `(`, spaces, an
/// expression, spaces and `)`.
pub open spec fn spec_mod_group(input: Seq<u8>, p: int) -> Option<(int, BinOp, ExprView)>
    decreases input.len() - p, 5int, 0int,
{
    if !(0 <= p <= input.len()) {
        None
    } else {
        let a = spaces_end(input, p);
        proof {
            lemma_spaces_end(input, p);
        }
        if !lit_at(input, a, op_text(BinOp::Mod)) {
            None
        } else {
            let b = spaces_end(input, a + 3);
            if !lit_at(input, b, seq![40u8]) {
                None
            } else {
                proof {
                    lemma_spaces_end(input, a + 3);
                    lemma_spaces_end(input, b + 1);
                }
                match spec_expression(input, spaces_end(input, b + 1)) {
                    None => None,
                    Some((c, rhs)) => {
                        let d = spaces_end(input, c);
                        if lit_at(input, d, seq![41u8]) {
                            Some((d + 1, BinOp::Mod, rhs))
                        } else {
                            None
                        }
                    },
                }
            }
        }
    }
}

/// An operator with its right operand: spaces, the operator, spaces, and the operand
/// with the operations of the operator's level or more that follow it.
pub open spec fn spec_operation(input: Seq<u8>, p: int, op: BinOp) -> Option<(int, BinOp, ExprView)>
    decreases input.len() - p, 5int, 0int,
{
    if !(0 <= p <= input.len()) {
        None
    } else {
        let a = spaces_end(input, p);
        proof {
            lemma_spaces_end(input, p);
        }
        if !lit_at(input, a, op_text(op)) {
            None
        } else {
            proof {
                lemma_spaces_end(input, a + op_text(op).len());
            }
            match spec_infix(input, spaces_end(input, a + op_text(op).len()), op_level(op)) {
                None => None,
                Some((q, rhs)) => Some((q, op, rhs)),
            }
        }
    }
}

/// An operand: a call, an identifier or a literal.
pub open spec fn spec_atom(input: Seq<u8>, p: int) -> Option<(int, ExprView)>
    decreases input.len() - p, 5int, 0int,
{
    match spec_identifier(input, p) {
        Some((q, name)) => {
            let a = spaces_end(input, q);
            if 0 <= p < a && lit_at(input, a, seq![40u8]) {
                let (b, args) = spec_arguments(input, a + 1, Seq::empty());
                if lit_at(input, b, seq![41u8]) {
                    Some((b + 1, ExprView::Call(text_of(name), args)))
                } else {
                    Some((q, ExprView::Identifier(text_of(name))))
                }
            } else {
                Some((q, ExprView::Identifier(text_of(name))))
            }
        },
        None => match spec_literal(input, p) {
            Some((q, false, digits)) => Some((q, ExprView::Literal(text_of(digits)))),
            Some((q, true, name)) => Some((q, ExprView::GlobalDataAddr(text_of(name)))),
            None => None,
        },
    }
}

/// The arguments of a call from `p` on, after those in `done`: expressions with spaces
/// around them, separated by commas, as many as there are.
pub open spec fn spec_arguments(input: Seq<u8>, p: int, done: Seq<ExprView>) -> (int, Seq<ExprView>)
    decreases input.len() - p, 12int, 0int,
{
    if !(0 <= p <= input.len()) {
        (p, done)
    } else {
        let start = if done.len() == 0 {
            p
        } else if lit_at(input, p, seq![44u8]) {
            p + 1
        } else {
            -1
        };
        if start < 0 {
            (p, done)
        } else {
            proof {
                lemma_spaces_end(input, start);
            }
            match spec_expression(input, spaces_end(input, start)) {
                None => (p, done),
                Some((q, e)) => {
                    let b = spaces_end(input, q);
                    if p < b <= input.len() {
                        spec_arguments(input, b, done.push(e))
                    } else {
                        (p, done)
                    }
                },
            }
        }
    }
}

/// A function as mathematical values.
pub struct FunctionView {
    pub name: Seq<char>,
    pub params_names: Seq<Seq<char>>,
    pub return_name: Seq<char>,
    pub statements: Seq<ExprView>,
}

/// The value of a function.
pub open spec fn function_view(f: FunctionAST) -> FunctionView {
    FunctionView {
        name: f.name@,
        params_names: f.params_names@.map_values(|s: String| s@),
        return_name: f.return_name@,
        statements: exprs_view(f.statements@),
    }
}

/// The parameter names from `p` on, after those in `done`: identifiers with spaces
/// around them, separated by commas, as many as there are.
pub open spec fn spec_parameters(input: Seq<u8>, p: int, done: Seq<Seq<char>>) -> (int, Seq<Seq<char>>)
    decreases input.len() - p,
{
    if !(0 <= p <= input.len()) {
        (p, done)
    } else {
        let start = if done.len() == 0 {
            p
        } else if lit_at(input, p, seq![44u8]) {
            p + 1
        } else {
            -1
        };
        if start < 0 {
            (p, done)
        } else {
            match spec_identifier(input, spaces_end(input, start)) {
                None => (p, done),
                Some((q, name)) => {
                    let b = spaces_end(input, q);
                    if p < b <= input.len() {
                        spec_parameters(input, b, done.push(text_of(name)))
                    } else {
                        (p, done)
                    }
                },
            }
        }
    }
}

/// `function`: blanks and line breaks, `function`, its name, its parameter names in
/// brackets, `->`, the name of its result in brackets, its block and a line break, with
/// spaces between them and after the line break.
pub open spec fn spec_function(input: Seq<u8>, p: int) -> Option<(int, FunctionView)> {
    let a = blank_end(input, p);
    if !(0 <= p <= input.len()) || !lit_at(input, a, kw_function()) {
        None
    } else {
        match spec_identifier(input, spaces_end(input, a + 8)) {
            None => None,
            Some((c, name)) => {
                let d = spaces_end(input, c);
                if !lit_at(input, d, seq![40u8]) {
                    None
                } else {
                    let (e, params) = spec_parameters(input, d + 1, Seq::empty());
                    let f = spaces_end(input, e + 1);
                    if !lit_at(input, e, seq![41u8]) || !lit_at(input, f, seq![45u8, 62u8]) {
                        None
                    } else {
                        let g = spaces_end(input, f + 2);
                        if !lit_at(input, g, seq![40u8]) {
                            None
                        } else {
                            match spec_identifier(input, spaces_end(input, g + 1)) {
                                None => None,
                                Some((i, return_name)) => {
                                    let j = spaces_end(input, i);
                                    if !lit_at(input, j, seq![41u8]) {
                                        None
                                    } else {
                                        match spec_block(input, spaces_end(input, j + 1)) {
                                            None => None,
                                            Some((l, statements)) => {
                                                let m = spaces_end(input, l);
                                                if !lit_at(input, m, seq![10u8]) {
                                                    None
                                                } else {
                                                    Some(
                                                        (
                                                            spaces_end(input, m + 1),
                                                            FunctionView {
                                                                name: text_of(name),
                                                                params_names: params,
                                                                return_name: text_of(return_name),
                                                                statements,
                                                            },
                                                        ),
                                                    )
                                                }
                                            },
                                        }
                                    }
                                },
                            }
                        }
                    }
                }
            },
        }
    }
}

/// The levels of the brace syntax: comparisons bind loosest, then `+` and `-`, then
/// `*` and `/`, then `mod`; the operators of one level bind alike.
pub proof fn lemma_level_order(a: BinOp, b: BinOp)
    ensures
        (a is Mul || a is Div) && (b is Add || b is Sub) ==> op_level(a) > op_level(b),
        (a is Add || a is Sub) && (b is Eq || b is Ne || b is Lt || b is Le || b is Gt || b is Ge) ==> op_level(a)
            > op_level(b),
        a is Mod && !(b is Mod) ==> op_level(a) > op_level(b),
        (a is Mul || a is Div) && (b is Mul || b is Div) ==> op_level(a) == op_level(b),
        (a is Add || a is Sub) && (b is Add || b is Sub) ==> op_level(a) == op_level(b),
        (a is Eq || a is Ne || a is Lt || a is Le || a is Gt || a is Ge) && (b is Eq || b is Ne || b is Lt || b is Le
            || b is Gt || b is Ge) ==> op_level(a) == op_level(b),
{
}

} // verus!
