//! The brace-delimited syntax: a function with its parameters and its result, whose
//! statements are assignments, `if` / `else`, `while` and operations by precedence.
//! Each rule, read from a position of the input, gives the position after what it read
//! and the value it made, or nothing where the input does not start with what it reads.
//! This file holds the token rules, identifiers and literals; `rules` holds the others,
//! proved against their mathematical statement in `syntax`.
use crate::lexer::ascii_string;

pub mod rules;
pub mod syntax;
use vstd::prelude::*;

verus! {

/// An expression of the brace-delimited syntax.
#[derive(Debug)]
pub enum Expr {
    Literal(String),
    Identifier(String),
    Assign(String, Box<Expr>),
    Eq(Box<Expr>, Box<Expr>),
    Ne(Box<Expr>, Box<Expr>),
    Lt(Box<Expr>, Box<Expr>),
    Le(Box<Expr>, Box<Expr>),
    Gt(Box<Expr>, Box<Expr>),
    Ge(Box<Expr>, Box<Expr>),
    Add(Box<Expr>, Box<Expr>),
    Sub(Box<Expr>, Box<Expr>),
    Mul(Box<Expr>, Box<Expr>),
    Div(Box<Expr>, Box<Expr>),
    Mod(Box<Expr>, Box<Expr>),
    IfElse(Box<Expr>, Vec<Expr>, Vec<Expr>),
    WhileLoop(Box<Expr>, Vec<Expr>),
    Call(String, Vec<Expr>),
    GlobalDataAddr(String),
}

/// A function of the brace-delimited syntax: its name, the names of its parameters, the
/// name of its result and its statements.
#[derive(Debug)]
pub struct FunctionAST {
    pub name: String,
    pub params_names: Vec<String>,
    pub return_name: String,
    pub statements: Vec<Expr>,
}

/// The input is not one function.
#[derive(Clone, Copy, Debug, PartialEq, Eq)]
pub struct ParseError;

/// A byte that can start an identifier: a letter or `_`.
pub open spec fn identifier_start(b: u8) -> bool {
    (97 <= b <= 122) || (65 <= b <= 90) || b == 95
}

/// A byte that can follow the first one of an identifier: a letter, a digit or `_`.
pub open spec fn identifier_byte(b: u8) -> bool {
    identifier_start(b) || is_digit(b)
}

/// A decimal digit.
pub open spec fn is_digit(b: u8) -> bool {
    48 <= b <= 57
}

/// The end of the identifier bytes that start at `pos`.
pub open spec fn identifier_end(input: Seq<u8>, pos: int) -> int
    decreases input.len() - pos,
{
    if 0 <= pos < input.len() && identifier_byte(input[pos]) {
        identifier_end(input, pos + 1)
    } else {
        pos
    }
}

/// The end of the digits that start at `pos`.
pub open spec fn digits_end(input: Seq<u8>, pos: int) -> int
    decreases input.len() - pos,
{
    if 0 <= pos < input.len() && is_digit(input[pos]) {
        digits_end(input, pos + 1)
    } else {
        pos
    }
}

/// The text of ASCII bytes.
pub open spec fn text_of(bytes: Seq<u8>) -> Seq<char> {
    bytes.map_values(|b: u8| b as char)
}

/// An identifier at `pos`: a letter or `_`, then letters, digits and `_`, as many as
/// there are. Gives the position after it and its bytes.
pub open spec fn spec_identifier(input: Seq<u8>, pos: int) -> Option<(int, Seq<u8>)> {
    if 0 <= pos < input.len() && identifier_start(input[pos]) {
        let end = identifier_end(input, pos + 1);
        Some((end, input.subrange(pos, end)))
    } else {
        None
    }
}

/// A literal at `pos`: one digit or more, as many as there are; or else `&` and an
/// identifier, the address of that global data. Gives the position after it, whether it
/// is an address, and its digits or the identifier.
pub open spec fn spec_literal(input: Seq<u8>, pos: int) -> Option<(int, bool, Seq<u8>)> {
    if 0 <= pos < input.len() && is_digit(input[pos]) {
        let end = digits_end(input, pos + 1);
        Some((end, false, input.subrange(pos, end)))
    } else if 0 <= pos < input.len() && input[pos] == 38 {
        match spec_identifier(input, pos + 1) {
            Some((end, name)) => Some((end, true, name)),
            None => None,
        }
    } else {
        None
    }
}

/// The run ends where its bytes end.
proof fn lemma_identifier_end(input: Seq<u8>, pos: int)
    requires
        0 <= pos <= input.len(),
    ensures
        pos <= identifier_end(input, pos) <= input.len(),
        forall|i: int| pos <= i < identifier_end(input, pos) ==> identifier_byte(#[trigger] input[i]),
    decreases input.len() - pos,
{
    if pos < input.len() && identifier_byte(input[pos]) {
        lemma_identifier_end(input, pos + 1);
    }
}

/// The run ends where its bytes end.
proof fn lemma_digits_end(input: Seq<u8>, pos: int)
    requires
        0 <= pos <= input.len(),
    ensures
        pos <= digits_end(input, pos) <= input.len(),
        forall|i: int| pos <= i < digits_end(input, pos) ==> is_digit(#[trigger] input[i]),
    decreases input.len() - pos,
{
    if pos < input.len() && is_digit(input[pos]) {
        lemma_digits_end(input, pos + 1);
    }
}

/// Copies ASCII bytes into a `String`.
fn ascii_text(input: &[u8], start: usize, end: usize) -> (r: String)
    requires
        start <= end <= input@.len(),
        forall|i: int| start <= i < end ==> #[trigger] input@[i] < 128,
    ensures
        r@ == text_of(input@.subrange(start as int, end as int)),
{
    let mut bytes: Vec<u8> = Vec::new();
    let mut i: usize = start;
    while i < end
        invariant
            start <= i <= end <= input@.len(),
            bytes@ == input@.subrange(start as int, i as int),
        decreases end - i,
    {
        bytes.push(input[i]);
        i = i + 1;
        assert(bytes@ =~= input@.subrange(start as int, i as int));
    }
    let ghost copied = bytes@;
    let r = ascii_string(bytes);
    assert(r@ =~= text_of(input@.subrange(start as int, end as int))) by {
        assert(copied == input@.subrange(start as int, end as int));
    }
    r
}

/// Reads an identifier at `pos`.
pub fn parse_identifier(input: &[u8], pos: usize) -> (r: Option<(usize, String)>)
    ensures
        match spec_identifier(input@, pos as int) {
            Some((end, name)) => r matches Some((n, s)) && n == end && s@ == text_of(name),
            None => r is None,
        },
{
    if pos >= input.len() {
        return None;
    }
    let first = input[pos];
    if !((97 <= first && first <= 122) || (65 <= first && first <= 90) || first == 95) {
        return None;
    }
    let mut end: usize = pos + 1;
    while end < input.len() && ((97 <= input[end] && input[end] <= 122) || (65 <= input[end] && input[end] <= 90)
        || input[end] == 95 || (48 <= input[end] && input[end] <= 57))
        invariant
            pos < end <= input@.len(),
            identifier_end(input@, end as int) == identifier_end(input@, pos + 1),
            forall|i: int| pos <= i < end ==> identifier_byte(#[trigger] input@[i]),
        decreases input@.len() - end,
    {
        end = end + 1;
    }
    proof {
        lemma_identifier_end(input@, end as int);
    }
    let name = ascii_text(input, pos, end);
    Some((end, name))
}

/// Reads a literal at `pos`: digits, or `&` and the identifier of global data.
pub fn parse_literal(input: &[u8], pos: usize) -> (r: Option<(usize, Expr)>)
    ensures
        match spec_literal(input@, pos as int) {
            Some((end, false, digits)) => r matches Some((n, Expr::Literal(s))) && n == end && s@ == text_of(digits),
            Some((end, true, name)) => r matches Some((n, Expr::GlobalDataAddr(s))) && n == end && s@ == text_of(name),
            None => r is None,
        },
{
    if pos >= input.len() {
        return None;
    }
    if 48 <= input[pos] && input[pos] <= 57 {
        let mut end: usize = pos + 1;
        while end < input.len() && 48 <= input[end] && input[end] <= 57
            invariant
                pos < end <= input@.len(),
                digits_end(input@, end as int) == digits_end(input@, pos + 1),
                forall|i: int| pos <= i < end ==> is_digit(#[trigger] input@[i]),
            decreases input@.len() - end,
        {
            end = end + 1;
        }
        proof {
            lemma_digits_end(input@, end as int);
        }
        let digits = ascii_text(input, pos, end);
        return Some((end, Expr::Literal(digits)));
    }
    if input[pos] == 38 {
        assert(pos + 1 <= input@.len());
        match parse_identifier(input, pos + 1) {
            Some((end, name)) => {
                return Some((end, Expr::GlobalDataAddr(name)));
            },
            None => {
                return None;
            },
        }
    }
    None
}

} // verus!


verus! {

/// Whether the input holds `lit` at `p`.
pub(crate) fn lit(input: &[u8], p: usize, l: &[u8]) -> (r: bool)
    ensures
        r == syntax::lit_at(input@, p as int, l@),
        input@.len() <= usize::MAX,
{
    if p > input.len() || l.len() > input.len() - p {
        return false;
    }
    let mut i: usize = 0;
    assert(input@.len() <= usize::MAX);
    while i < l.len()
        invariant
            i <= l@.len(),
            p + l@.len() <= input@.len(),
            input@.len() <= usize::MAX,
            forall|j: int| 0 <= j < i ==> input@[p + j] == l@[j],
        decreases l@.len() - i,
    {
        assert(p + i < input@.len());
        if input[p + i] != l[i] {
            proof {
                assert(input@.subrange(p as int, p + l@.len())[i as int] != l@[i as int]);
            }
            return false;
        }
        i = i + 1;
    }
    assert(input@.subrange(p as int, p + l@.len()) =~= l@);
    true
}

} // verus!

