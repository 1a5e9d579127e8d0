//! The rules of the brace-delimited syntax, each read from a position of the input and
//! proved to give what its mathematical counterpart in `syntax` gives.
use crate::parser::syntax::{
    BinOp, ExprView, blank_end, expr_view, exprs_view, lit_at, op_level, op_order, op_text, spaces_end,
    spec_arguments, spec_assignment, spec_atom, spec_binary_op, spec_block, spec_climb, spec_expression,
    spec_if_else, spec_if_head, spec_infix, spec_level, spec_mod_group, spec_operation, spec_statement,
    spec_statements, spec_while_loop, function_view, spec_function, spec_parameters, kw_function,
};
use crate::parser::{Expr, FunctionAST, ParseError, parse_identifier, parse_literal, lit};
use vstd::prelude::*;

verus! {

/// What an expression rule gave is what the mathematical rule gives.
pub open spec fn expr_result(r: Option<(usize, Expr)>, s: Option<(int, ExprView)>) -> bool {
    match s {
        Some((n, v)) => r matches Some((m, e)) && m == n && expr_view(e) == v,
        None => r is None,
    }
}

/// What a list rule gave is what the mathematical rule gives.
pub open spec fn list_result(r: (usize, Vec<Expr>), s: (int, Seq<ExprView>)) -> bool {
    r.0 == s.0 && exprs_view(r.1@) == s.1
}

/// What a block rule gave is what the mathematical rule gives.
pub open spec fn block_result(r: Option<(usize, Vec<Expr>)>, s: Option<(int, Seq<ExprView>)>) -> bool {
    match s {
        Some((n, v)) => r matches Some((m, e)) && m == n && exprs_view(e@) == v,
        None => r is None,
    }
}

/// What an operator rule gave is what the mathematical rule gives.
pub open spec fn level_result(r: Option<(usize, BinOp, Expr)>, s: Option<(int, BinOp, ExprView)>) -> bool {
    match s {
        Some((n, op, v)) => r matches Some((m, o, e)) && m == n && o == op && expr_view(e) == v,
        None => r is None,
    }
}

/// One more expression adds its value to the values.
pub proof fn lemma_exprs_view_push(s: Seq<Expr>, e: Expr)
    ensures
        exprs_view(s.push(e)) == exprs_view(s).push(expr_view(e)),
        exprs_view(Seq::<Expr>::empty()) == Seq::<ExprView>::empty(),
{
    assert(s.push(e).subrange(0, s.len() as int) =~= s);
}

/// A list has as many values as expressions.
pub proof fn lemma_exprs_view_len(s: Seq<Expr>)
    ensures
        exprs_view(s).len() == s.len(),
    decreases s.len(),
{
    if s.len() > 0 {
        lemma_exprs_view_len(s.subrange(0, s.len() - 1));
    }
}

/// Skips spaces.
fn skip_spaces(input: &[u8], p: usize) -> (r: usize)
    ensures
        r == spaces_end(input@, p as int),
        p <= r,
        p <= input@.len() ==> r <= input@.len(),
{
    let mut q = p;
    while q < input.len() && input[q] == 32
        invariant
            p <= q,
            p <= input@.len() ==> q <= input@.len(),
            spaces_end(input@, q as int) == spaces_end(input@, p as int),
        decreases input@.len() - q,
    {
        q = q + 1;
    }
    q
}

/// Skips spaces and line breaks.
fn skip_blank(input: &[u8], p: usize) -> (r: usize)
    ensures
        r == blank_end(input@, p as int),
        p <= r,
        p <= input@.len() ==> r <= input@.len(),
{
    let mut q = p;
    while q < input.len() && (input[q] == 32 || input[q] == 10)
        invariant
            p <= q,
            p <= input@.len() ==> q <= input@.len(),
            blank_end(input@, q as int) == blank_end(input@, p as int),
        decreases input@.len() - q,
    {
        q = q + 1;
    }
    q
}

/// The operator tried at step `k`.
fn op_at(k: usize) -> (r: BinOp)
    requires
        k < 11,
    ensures
        r == op_order()[k as int],
{
    match k {
        0 => BinOp::Eq,
        1 => BinOp::Ne,
        2 => BinOp::Lt,
        3 => BinOp::Le,
        4 => BinOp::Gt,
        5 => BinOp::Ge,
        6 => BinOp::Add,
        7 => BinOp::Sub,
        8 => BinOp::Mul,
        9 => BinOp::Div,
        _ => BinOp::Mod,
    }
}

/// The level of an operator.
fn level_of(op: BinOp) -> (r: usize)
    ensures
        r == op_level(op),
{
    match op {
        BinOp::Eq | BinOp::Ne | BinOp::Lt | BinOp::Le | BinOp::Gt | BinOp::Ge => 0,
        BinOp::Add | BinOp::Sub => 1,
        BinOp::Mul | BinOp::Div => 2,
        BinOp::Mod => 3,
    }
}

/// Whether the input holds the operator at `p`; and the operator's length.
fn lit_op(input: &[u8], p: usize, op: BinOp) -> (r: (bool, usize))
    ensures
        r.0 == lit_at(input@, p as int, op_text(op)),
        r.1 == op_text(op).len(),
{
    match op {
        BinOp::Eq => {
            let text: &[u8] = &[61u8, 61u8];
            proof {
                assert(text@ =~= seq![61u8, 61u8]);
            }
            (lit(input, p, text), 2)
        },
        BinOp::Ne => {
            let text: &[u8] = &[33u8, 61u8];
            proof {
                assert(text@ =~= seq![33u8, 61u8]);
            }
            (lit(input, p, text), 2)
        },
        BinOp::Lt => {
            let text: &[u8] = &[60u8];
            proof {
                assert(text@ =~= seq![60u8]);
            }
            (lit(input, p, text), 1)
        },
        BinOp::Le => {
            let text: &[u8] = &[60u8, 61u8];
            proof {
                assert(text@ =~= seq![60u8, 61u8]);
            }
            (lit(input, p, text), 2)
        },
        BinOp::Gt => {
            let text: &[u8] = &[62u8];
            proof {
                assert(text@ =~= seq![62u8]);
            }
            (lit(input, p, text), 1)
        },
        BinOp::Ge => {
            let text: &[u8] = &[62u8, 61u8];
            proof {
                assert(text@ =~= seq![62u8, 61u8]);
            }
            (lit(input, p, text), 2)
        },
        BinOp::Add => {
            let text: &[u8] = &[43u8];
            proof {
                assert(text@ =~= seq![43u8]);
            }
            (lit(input, p, text), 1)
        },
        BinOp::Sub => {
            let text: &[u8] = &[45u8];
            proof {
                assert(text@ =~= seq![45u8]);
            }
            (lit(input, p, text), 1)
        },
        BinOp::Mul => {
            let text: &[u8] = &[42u8];
            proof {
                assert(text@ =~= seq![42u8]);
            }
            (lit(input, p, text), 1)
        },
        BinOp::Div => {
            let text: &[u8] = &[47u8];
            proof {
                assert(text@ =~= seq![47u8]);
            }
            (lit(input, p, text), 1)
        },
        BinOp::Mod => {
            let text: &[u8] = &[109u8, 111u8, 100u8];
            proof {
                assert(text@ =~= seq![109u8, 111u8, 100u8]);
            }
            (lit(input, p, text), 3)
        },
    }
}

/// The operation of `op` on two expressions.
fn make_binary(op: BinOp, a: Expr, b: Expr) -> (r: Expr)
    ensures
        expr_view(r) == ExprView::Binary(op, Box::new(expr_view(a)), Box::new(expr_view(b))),
{
    match op {
        BinOp::Eq => Expr::Eq(Box::new(a), Box::new(b)),
        BinOp::Ne => Expr::Ne(Box::new(a), Box::new(b)),
        BinOp::Lt => Expr::Lt(Box::new(a), Box::new(b)),
        BinOp::Le => Expr::Le(Box::new(a), Box::new(b)),
        BinOp::Gt => Expr::Gt(Box::new(a), Box::new(b)),
        BinOp::Ge => Expr::Ge(Box::new(a), Box::new(b)),
        BinOp::Add => Expr::Add(Box::new(a), Box::new(b)),
        BinOp::Sub => Expr::Sub(Box::new(a), Box::new(b)),
        BinOp::Mul => Expr::Mul(Box::new(a), Box::new(b)),
        BinOp::Div => Expr::Div(Box::new(a), Box::new(b)),
        BinOp::Mod => Expr::Mod(Box::new(a), Box::new(b)),
    }
}

/// Reads an expression at `p`: an `if`, a `while`, an assignment or operations.
pub fn parse_expression(input: &[u8], p: usize) -> (r: Option<(usize, Expr)>)
    ensures
        expr_result(r, spec_expression(input@, p as int)),
    decreases input@.len() - p, 10int, 0int,
{
    if p > input.len() {
        return None;
    }
    match parse_if_else(input, p) {
        Some(x) => {
            return Some(x);
        },
        None => {},
    }
    match parse_while_loop(input, p) {
        Some(x) => {
            return Some(x);
        },
        None => {},
    }
    match parse_assignment(input, p) {
        Some(x) => {
            return Some(x);
        },
        None => {},
    }
    parse_binary_op(input, p)
}

/// Reads `if`, the condition, the then block and `else`, with the spaces around them.
fn parse_if_head(input: &[u8], p: usize) -> (r: Option<(usize, Expr, Vec<Expr>)>)
    ensures
        match spec_if_head(input@, p as int) {
            Some((n, c, t)) => r matches Some((m, e, v)) && m == n && expr_view(e) == c && exprs_view(v@) == t,
            None => r is None,
        },
    decreases input@.len() - p, 8int, 0int,
{
    let if_keyword: &[u8] = &[105u8, 102u8];
    proof {
        assert(if_keyword@ =~= seq![105u8, 102u8]);
    }
    if !lit(input, p, if_keyword) {
        return None;
    }
    let a = skip_spaces(input, p + 2);
    let (b, condition) = match parse_expression(input, a) {
        Some(x) => x,
        None => {
            return None;
        },
    };
    let c = skip_spaces(input, b);
    if !(p < c && c <= input.len()) {
        return None;
    }
    let (d, then_body) = match parse_block(input, c) {
        Some(x) => x,
        None => {
            return None;
        },
    };
    let e = skip_spaces(input, d);
    let else_keyword: &[u8] = &[101u8, 108u8, 115u8, 101u8];
    proof {
        assert(else_keyword@ =~= seq![101u8, 108u8, 115u8, 101u8]);
    }
    if lit(input, e, else_keyword) {
        Some((skip_spaces(input, e + 4), condition, then_body))
    } else {
        None
    }
}

/// Reads `if` with its condition and then block, `else`, and a block or another `if`.
pub fn parse_if_else(input: &[u8], p: usize) -> (r: Option<(usize, Expr)>)
    ensures
        expr_result(r, spec_if_else(input@, p as int)),
    decreases input@.len() - p, 9int, 0int,
{
    if p > input.len() {
        return None;
    }
    let (q, condition, then_body) = match parse_if_head(input, p) {
        Some(x) => x,
        None => {
            return None;
        },
    };
    if !(p < q && q <= input.len()) {
        return None;
    }
    match parse_block(input, q) {
        Some((r, else_body)) => Some((r, Expr::IfElse(Box::new(condition), then_body, else_body))),
        None => match parse_if_else(input, q) {
            Some((r, other)) => {
                let mut else_body: Vec<Expr> = Vec::new();
                proof {
                    lemma_exprs_view_push(else_body@, other);
                }
                else_body.push(other);
                Some((r, Expr::IfElse(Box::new(condition), then_body, else_body)))
            },
            None => None,
        },
    }
}

/// Reads `while`, the condition and the block.
pub fn parse_while_loop(input: &[u8], p: usize) -> (r: Option<(usize, Expr)>)
    ensures
        expr_result(r, spec_while_loop(input@, p as int)),
    decreases input@.len() - p, 9int, 0int,
{
    let while_keyword: &[u8] = &[119u8, 104u8, 105u8, 108u8, 101u8];
    proof {
        assert(while_keyword@ =~= seq![119u8, 104u8, 105u8, 108u8, 101u8]);
    }
    if !lit(input, p, while_keyword) {
        return None;
    }
    let a = skip_spaces(input, p + 5);
    let (b, condition) = match parse_expression(input, a) {
        Some(x) => x,
        None => {
            return None;
        },
    };
    let c = skip_spaces(input, b);
    if !(p < c && c <= input.len()) {
        return None;
    }
    match parse_block(input, c) {
        Some((d, body)) => Some((d, Expr::WhileLoop(Box::new(condition), body))),
        None => None,
    }
}

/// Reads an identifier, `=` and an expression.
pub fn parse_assignment(input: &[u8], p: usize) -> (r: Option<(usize, Expr)>)
    ensures
        expr_result(r, spec_assignment(input@, p as int)),
    decreases input@.len() - p, 9int, 0int,
{
    let (q, name) = match parse_identifier(input, p) {
        Some(x) => x,
        None => {
            return None;
        },
    };
    let a = skip_spaces(input, q);
    let equals_sign: &[u8] = &[61u8];
    proof {
        assert(equals_sign@ =~= seq![61u8]);
    }
    if !(p < a) || !lit(input, a, equals_sign) {
        return None;
    }
    let b = skip_spaces(input, a + 1);
    match parse_expression(input, b) {
        Some((r, value)) => Some((r, Expr::Assign(name, Box::new(value)))),
        None => None,
    }
}

/// Reads a block: `{`, a line break, the statements and `}`.
fn parse_block(input: &[u8], p: usize) -> (r: Option<(usize, Vec<Expr>)>)
    ensures
        block_result(r, spec_block(input@, p as int)),
    decreases input@.len() - p, 8int, 0int,
{
    let open_brace: &[u8] = &[123u8];
    proof {
        assert(open_brace@ =~= seq![123u8]);
    }
    if !lit(input, p, open_brace) {
        return None;
    }
    let a = skip_spaces(input, p + 1);
    let line_break: &[u8] = &[10u8];
    proof {
        assert(line_break@ =~= seq![10u8]);
    }
    if !lit(input, a, line_break) {
        return None;
    }
    let (b, body) = parse_statements(input, a + 1);
    let c = skip_spaces(input, b);
    let close_brace: &[u8] = &[125u8];
    proof {
        assert(close_brace@ =~= seq![125u8]);
    }
    if lit(input, c, close_brace) {
        Some((c + 1, body))
    } else {
        None
    }
}

/// Reads as many statements as there are.
pub fn parse_statements(input: &[u8], p: usize) -> (r: (usize, Vec<Expr>))
    ensures
        list_result(r, spec_statements(input@, p as int, Seq::empty())),
    decreases input@.len() - p, 13int, 0int,
{
    let mut done: Vec<Expr> = Vec::new();
    assert(exprs_view(done@) == Seq::<ExprView>::empty());
    if p > input.len() {
        return (p, done);
    }
    let mut pos = p;
    loop
        invariant
            p <= pos <= input@.len(),
            spec_statements(input@, p as int, Seq::empty()) == spec_statements(input@, pos as int, exprs_view(done@)),
        decreases input@.len() - pos,
    {
        match parse_statement(input, pos) {
            Some((q, e)) => {
                if pos < q && q <= input.len() {
                    proof {
                        lemma_exprs_view_push(done@, e);
                    }
                    done.push(e);
                    pos = q;
                } else {
                    return (pos, done);
                }
            },
            None => {
                return (pos, done);
            },
        }
    }
}

/// Reads a statement: an expression and the end of its line.
pub fn parse_statement(input: &[u8], p: usize) -> (r: Option<(usize, Expr)>)
    ensures
        expr_result(r, spec_statement(input@, p as int)),
    decreases input@.len() - p, 12int, 0int,
{
    if p > input.len() {
        return None;
    }
    let a = skip_spaces(input, p);
    let (q, e) = match parse_expression(input, a) {
        Some(x) => x,
        None => {
            return None;
        },
    };
    let b = skip_spaces(input, q);
    let line_break: &[u8] = &[10u8];
    proof {
        assert(line_break@ =~= seq![10u8]);
    }
    if lit(input, b, line_break) {
        Some((b + 1, e))
    } else {
        None
    }
}

/// Reads operations by precedence.
pub fn parse_binary_op(input: &[u8], p: usize) -> (r: Option<(usize, Expr)>)
    ensures
        expr_result(r, spec_binary_op(input@, p as int)),
    decreases input@.len() - p, 9int, 0int,
{
    if p > input.len() {
        return None;
    }
    parse_infix(input, p, 0)
}

/// Reads an operand and the operations of level `min_level` or more that follow it.
fn parse_infix(input: &[u8], p: usize, min_level: usize) -> (r: Option<(usize, Expr)>)
    ensures
        expr_result(r, spec_infix(input@, p as int, min_level as int)),
    decreases input@.len() - p, 8int, 0int,
{
    if p > input.len() {
        return None;
    }
    let (q, first) = match parse_atom(input, p) {
        Some(x) => x,
        None => {
            return None;
        },
    };
    if !(p < q && q <= input.len()) {
        return None;
    }
    let mut pos = q;
    let mut v = first;
    loop
        invariant
            p < pos <= input@.len(),
            spec_infix(input@, p as int, min_level as int) == spec_climb(input@, pos as int, min_level as int, expr_view(v)),
        decreases input@.len() - pos,
    {
        match parse_level(input, pos, min_level) {
            Some((n, op, rhs)) => {
                if pos < n && n <= input.len() {
                    v = make_binary(op, v, rhs);
                    pos = n;
                } else {
                    return Some((pos, v));
                }
            },
            None => {
                return Some((pos, v));
            },
        }
    }
}

/// Reads the first operator, in the order in which they are tried, whose level is
/// `min_level` or more, with its right operand.
fn parse_level(input: &[u8], p: usize, min_level: usize) -> (r: Option<(usize, BinOp, Expr)>)
    ensures
        level_result(r, spec_level(input@, p as int, min_level as int, 0)),
    decreases input@.len() - p, 6int, 11int,
{
    let mut k: usize = 0;
    while k < 11
        invariant
            k <= 11,
            spec_level(input@, p as int, min_level as int, 0) == spec_level(input@, p as int, min_level as int, k as int),
        decreases 11 - k,
    {
        let op = op_at(k);
        if op == BinOp::Mod && level_of(op) >= min_level {
            match parse_mod_group(input, p) {
                Some(x) => {
                    return Some(x);
                },
                None => {},
            }
        }
        if level_of(op) >= min_level {
            match parse_operation(input, p, op) {
                Some(x) => {
                    return Some(x);
                },
                None => {},
            }
        }
        k = k + 1;
    }
    None
}

/// Reads `mod` with its right operand in brackets.
fn parse_mod_group(input: &[u8], p: usize) -> (r: Option<(usize, BinOp, Expr)>)
    ensures
        level_result(r, spec_mod_group(input@, p as int)),
    decreases input@.len() - p, 5int, 0int,
{
    if p > input.len() {
        return None;
    }
    let a = skip_spaces(input, p);
    let mod_keyword: &[u8] = &[109u8, 111u8, 100u8];
    proof {
        assert(mod_keyword@ =~= seq![109u8, 111u8, 100u8]);
    }
    if !lit(input, a, mod_keyword) {
        return None;
    }
    let b = skip_spaces(input, a + 3);
    let open_bracket: &[u8] = &[40u8];
    proof {
        assert(open_bracket@ =~= seq![40u8]);
    }
    if !lit(input, b, open_bracket) {
        return None;
    }
    let c = skip_spaces(input, b + 1);
    let (d0, rhs) = match parse_expression(input, c) {
        Some(x) => x,
        None => {
            return None;
        },
    };
    let d = skip_spaces(input, d0);
    let close_bracket: &[u8] = &[41u8];
    proof {
        assert(close_bracket@ =~= seq![41u8]);
    }
    if lit(input, d, close_bracket) {
        Some((d + 1, BinOp::Mod, rhs))
    } else {
        None
    }
}

/// Reads an operator and its right operand.
fn parse_operation(input: &[u8], p: usize, op: BinOp) -> (r: Option<(usize, BinOp, Expr)>)
    ensures
        level_result(r, spec_operation(input@, p as int, op)),
    decreases input@.len() - p, 5int, 0int,
{
    if p > input.len() {
        return None;
    }
    let a = skip_spaces(input, p);
    let (matched, length) = lit_op(input, a, op);
    if !matched {
        return None;
    }
    let b = skip_spaces(input, a + length);
    match parse_infix(input, b, level_of(op)) {
        Some((q, rhs)) => Some((q, op, rhs)),
        None => None,
    }
}

/// Reads an operand: a call, an identifier or a literal.
fn parse_atom(input: &[u8], p: usize) -> (r: Option<(usize, Expr)>)
    ensures
        expr_result(r, spec_atom(input@, p as int)),
    decreases input@.len() - p, 5int, 0int,
{
    match parse_identifier(input, p) {
        Some((q, name)) => {
            let a = skip_spaces(input, q);
            let open_bracket: &[u8] = &[40u8];
            proof {
                assert(open_bracket@ =~= seq![40u8]);
            }
            if p < a && lit(input, a, open_bracket) {
                let (b, args) = parse_arguments(input, a + 1);
                let close_bracket: &[u8] = &[41u8];
                proof {
                    assert(close_bracket@ =~= seq![41u8]);
                }
                if lit(input, b, close_bracket) {
                    return Some((b + 1, Expr::Call(name, args)));
                }
            }
            Some((q, Expr::Identifier(name)))
        },
        None => parse_literal(input, p),
    }
}

/// Reads the arguments of a call: expressions separated by commas.
fn parse_arguments(input: &[u8], p: usize) -> (r: (usize, Vec<Expr>))
    ensures
        list_result(r, spec_arguments(input@, p as int, Seq::empty())),
    decreases input@.len() - p, 12int, 0int,
{
    let mut done: Vec<Expr> = Vec::new();
    assert(exprs_view(done@) == Seq::<ExprView>::empty());
    if p > input.len() {
        return (p, done);
    }
    let mut pos = p;
    loop
        invariant
            p <= pos <= input@.len(),
            done@.len() == 0 ==> pos == p,
            spec_arguments(input@, p as int, Seq::empty()) == spec_arguments(input@, pos as int, exprs_view(done@)),
        decreases input@.len() - pos,
    {
        proof {
            lemma_exprs_view_len(done@);
        }
        let start: usize;
        let comma: &[u8] = &[44u8];
        proof {
            assert(comma@ =~= seq![44u8]);
        }
        if done.len() == 0 {
            start = pos;
        } else if lit(input, pos, comma) {
            start = pos + 1;
        } else {
            return (pos, done);
        }
        let a = skip_spaces(input, start);
        match parse_expression(input, a) {
            None => {
                return (pos, done);
            },
            Some((q, e)) => {
                let b = skip_spaces(input, q);
                if pos < b && b <= input.len() {
                    proof {
                        lemma_exprs_view_push(done@, e);
                    }
                    done.push(e);
                    pos = b;
                } else {
                    return (pos, done);
                }
            },
        }
    }
}

/// Reads the parameter names: identifiers separated by commas.
fn parse_parameters(input: &[u8], p: usize) -> (r: (usize, Vec<String>))
    ensures
        r.0 == spec_parameters(input@, p as int, Seq::empty()).0,
        r.1@.map_values(|s: String| s@) == spec_parameters(input@, p as int, Seq::empty()).1,
{
    let mut done: Vec<String> = Vec::new();
    assert(done@.map_values(|s: String| s@) =~= Seq::<Seq<char>>::empty());
    if p > input.len() {
        return (p, done);
    }
    let mut pos = p;
    loop
        invariant
            p <= pos <= input@.len(),
            done@.len() == 0 ==> pos == p,
            spec_parameters(input@, p as int, Seq::empty()) == spec_parameters(
                input@,
                pos as int,
                done@.map_values(|s: String| s@),
            ),
        decreases input@.len() - pos,
    {
        let start: usize;
        let comma: &[u8] = &[44u8];
        proof {
            assert(comma@ =~= seq![44u8]);
        }
        if done.len() == 0 {
            start = pos;
        } else if lit(input, pos, comma) {
            start = pos + 1;
        } else {
            return (pos, done);
        }
        let a = skip_spaces(input, start);
        match parse_identifier(input, a) {
            None => {
                return (pos, done);
            },
            Some((q, name)) => {
                let b = skip_spaces(input, q);
                if pos < b && b <= input.len() {
                    let ghost before = done@;
                    done.push(name);
                    assert(done@.map_values(|s: String| s@) =~= before.map_values(|s: String| s@).push(name@));
                    pos = b;
                } else {
                    return (pos, done);
                }
            },
        }
    }
}

/// Reads a function at `p`.
fn parse_function_at(input: &[u8], p: usize) -> (r: Option<(usize, FunctionAST)>)
    ensures
        match spec_function(input@, p as int) {
            Some((n, f)) => r matches Some((m, g)) && m == n && function_view(g) == f,
            None => r is None,
        },
{
    if p > input.len() {
        return None;
    }
    let a = skip_blank(input, p);
    let function_keyword: &[u8] = &[102u8, 117u8, 110u8, 99u8, 116u8, 105u8, 111u8, 110u8];
    let open_bracket: &[u8] = &[40u8];
    let close_bracket: &[u8] = &[41u8];
    let arrow: &[u8] = &[45u8, 62u8];
    let line_break: &[u8] = &[10u8];
    proof {
        assert(function_keyword@ =~= kw_function());
        assert(open_bracket@ =~= seq![40u8]);
        assert(close_bracket@ =~= seq![41u8]);
        assert(arrow@ =~= seq![45u8, 62u8]);
        assert(line_break@ =~= seq![10u8]);
    }
    if !lit(input, a, function_keyword) {
        return None;
    }
    let (c, name) = match parse_identifier(input, skip_spaces(input, a + 8)) {
        Some(x) => x,
        None => {
            return None;
        },
    };
    let d = skip_spaces(input, c);
    if !lit(input, d, open_bracket) {
        return None;
    }
    let (e, params_names) = parse_parameters(input, d + 1);
    if !lit(input, e, close_bracket) {
        return None;
    }
    let f = skip_spaces(input, e + 1);
    if !lit(input, f, arrow) {
        return None;
    }
    let g = skip_spaces(input, f + 2);
    if !lit(input, g, open_bracket) {
        return None;
    }
    let (i, return_name) = match parse_identifier(input, skip_spaces(input, g + 1)) {
        Some(x) => x,
        None => {
            return None;
        },
    };
    let j = skip_spaces(input, i);
    if !lit(input, j, close_bracket) {
        return None;
    }
    let (l, statements) = match parse_block(input, skip_spaces(input, j + 1)) {
        Some(x) => x,
        None => {
            return None;
        },
    };
    let m = skip_spaces(input, l);
    if !lit(input, m, line_break) {
        return None;
    }
    Some((skip_spaces(input, m + 1), FunctionAST { name, params_names, return_name, statements }))
}

/// Reads the input as one function, from its start to its end.
pub fn function(input: &[u8]) -> (r: Result<FunctionAST, ParseError>)
    ensures
        r is Ok <==> (spec_function(input@, 0) matches Some((n, _)) && n == input@.len()),
        r matches Ok(f) ==> spec_function(input@, 0) == Some((input@.len() as int, function_view(f))),
{
    match parse_function_at(input, 0) {
        Some((n, f)) => if n == input.len() {
            Ok(f)
        } else {
            Err(ParseError)
        },
        None => Err(ParseError),
    }
}

} // verus!
