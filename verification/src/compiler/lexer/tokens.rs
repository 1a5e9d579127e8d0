//! The tokens of the language, and the patterns they match.
use vstd::prelude::*;

verus! {

#[derive(Clone, Copy, Debug, PartialEq, Eq, Structural)]
pub enum Token {
    Fn,
    Return,
    Comma,
    BracketOpen,
    BracketClose,
    If,
    Else,
    While,
    Let,
    Assign,
    AddAssign,
    SubAssign,
    Add,
    Sub,
    Mul,
    Div,
    Mod,
    Eq,
    Ne,
    Lt,
    Le,
    Gt,
    Ge,
    And,
    Or,
    XOr,
    Identifier,
    Integer,
    True,
    False,
    NewLine,
    /// The found slice doesn't match any restriction.
    Invalid,
    /// All sources end with this token.
    EndOfFile,
}

pub type OperatorPriority = usize;

/// Letters and underscore: the bytes of an identifier.
pub open spec fn is_ident_byte(b: u8) -> bool {
    (97u8 <= b <= 122u8) || (65u8 <= b <= 90u8) || b == 95u8
}

pub open spec fn is_digit_byte(b: u8) -> bool {
    48u8 <= b <= 57u8
}

/// Tokens defined by a pattern rather than by a fixed text.
pub open spec fn is_regex_token(t: Token) -> bool {
    t is Identifier || t is Integer || t is NewLine
}

/// Tokens that no slice of the source matches.
pub open spec fn is_pattern_token(t: Token) -> bool {
    !(t is Invalid) && !(t is EndOfFile)
}

/// The text of a token defined by a fixed text.
pub open spec fn literal(t: Token) -> Seq<u8> {
    match t {
        Token::Fn => seq![102u8, 110u8],
        Token::Return => seq![114u8, 101u8, 116u8, 117u8, 114u8, 110u8],
        Token::Comma => seq![44u8],
        Token::BracketOpen => seq![40u8],
        Token::BracketClose => seq![41u8],
        Token::If => seq![105u8, 102u8],
        Token::Else => seq![101u8, 108u8, 115u8, 101u8],
        Token::While => seq![119u8, 104u8, 105u8, 108u8, 101u8],
        Token::Let => seq![108u8, 101u8, 116u8],
        Token::Assign => seq![61u8],
        Token::AddAssign => seq![43u8, 61u8],
        Token::SubAssign => seq![45u8, 61u8],
        Token::Add => seq![43u8],
        Token::Sub => seq![45u8],
        Token::Mul => seq![42u8],
        Token::Div => seq![47u8],
        Token::Mod => seq![109u8, 111u8, 100u8],
        Token::Eq => seq![61u8, 61u8],
        Token::Ne => seq![33u8, 61u8],
        Token::Lt => seq![60u8],
        Token::Le => seq![60u8, 61u8],
        Token::Gt => seq![62u8],
        Token::Ge => seq![62u8, 61u8],
        Token::And => seq![97u8, 110u8, 100u8],
        Token::Or => seq![111u8, 114u8],
        Token::XOr => seq![120u8, 111u8, 114u8],
        Token::True => seq![116u8, 114u8, 117u8, 101u8],
        Token::False => seq![102u8, 97u8, 108u8, 115u8, 101u8],
        _ => Seq::empty(),
    }
}

/// `w` is a slice that the token's pattern matches:
/// identifiers are `[a-zA-Z_]+`, integers `[0-9]+`, new lines `\n *`,
/// and every other token its fixed text.
pub open spec fn token_matches(t: Token, w: Seq<u8>) -> bool {
    match t {
        Token::Identifier => w.len() > 0 && forall|i: int| 0 <= i < w.len() ==> is_ident_byte(#[trigger] w[i]),
        Token::Integer => w.len() > 0 && forall|i: int| 0 <= i < w.len() ==> is_digit_byte(#[trigger] w[i]),
        Token::NewLine => w.len() > 0 && w[0] == 10u8 && forall|i: int| 1 <= i < w.len() ==> #[trigger] w[i] == 32u8,
        Token::Invalid => false,
        Token::EndOfFile => false,
        _ => w == literal(t),
    }
}

/// The priority of the binary operator that a token stands for.
pub open spec fn operator_priority_of(t: Token) -> Option<OperatorPriority> {
    match t {
        Token::Mul | Token::Div | Token::Mod => Some(4),
        Token::Add | Token::Sub => Some(3),
        Token::Eq | Token::Ne | Token::Lt | Token::Le | Token::Gt | Token::Ge => Some(2),
        Token::And => Some(1),
        Token::Or | Token::XOr => Some(0),
        _ => None,
    }
}

impl Token {
    pub fn operator_priority(&self) -> (r: Option<OperatorPriority>)
        ensures
            r == operator_priority_of(*self),
    {
        match self {
            Token::Mul | Token::Div | Token::Mod => Some(4),
            Token::Add | Token::Sub => Some(3),
            Token::Eq | Token::Ne | Token::Lt | Token::Le | Token::Gt | Token::Ge => Some(2),
            Token::And => Some(1),
            Token::Or | Token::XOr => Some(0),
            _ => None,
        }
    }

    pub fn is_comparison(&self) -> (r: bool)
        ensures
            r == (*self is Eq || *self is Lt || *self is Le || *self is Gt || *self is Ge),
    {
        match self {
            Token::Eq | Token::Lt | Token::Le | Token::Gt | Token::Ge => true,
            _ => false,
        }
    }

    /// A description of the token: its text, or the name of its pattern.
    pub fn get_str(&self) -> (r: &'static str)
        ensures
            r@ == token_description(*self),
    {
        match self {
            Token::Fn => "fn",
            Token::Return => "return",
            Token::Comma => ",",
            Token::BracketOpen => "(",
            Token::BracketClose => ")",
            Token::If => "if",
            Token::Else => "else",
            Token::While => "while",
            Token::Let => "let",
            Token::Assign => "=",
            Token::AddAssign => "+=",
            Token::SubAssign => "-=",
            Token::Add => "+",
            Token::Sub => "-",
            Token::Mul => "*",
            Token::Div => "/",
            Token::Mod => "mod",
            Token::Eq => "==",
            Token::Ne => "!=",
            Token::Lt => "<",
            Token::Le => "<=",
            Token::Gt => ">",
            Token::Ge => ">=",
            Token::And => "and",
            Token::Or => "or",
            Token::XOr => "xor",
            Token::Identifier => "Identifier",
            Token::Integer => "Integer",
            Token::True => "true",
            Token::False => "false",
            Token::NewLine => "NewLine",
            Token::Invalid => "<invalid token>",
            Token::EndOfFile => "end of file",
        }
    }
}

/// The text that describes a token in messages.
pub open spec fn token_description(t: Token) -> Seq<char> {
    match t {
        Token::Fn => "fn"@,
        Token::Return => "return"@,
        Token::Comma => ","@,
        Token::BracketOpen => "("@,
        Token::BracketClose => ")"@,
        Token::If => "if"@,
        Token::Else => "else"@,
        Token::While => "while"@,
        Token::Let => "let"@,
        Token::Assign => "="@,
        Token::AddAssign => "+="@,
        Token::SubAssign => "-="@,
        Token::Add => "+"@,
        Token::Sub => "-"@,
        Token::Mul => "*"@,
        Token::Div => "/"@,
        Token::Mod => "mod"@,
        Token::Eq => "=="@,
        Token::Ne => "!="@,
        Token::Lt => "<"@,
        Token::Le => "<="@,
        Token::Gt => ">"@,
        Token::Ge => ">="@,
        Token::And => "and"@,
        Token::Or => "or"@,
        Token::XOr => "xor"@,
        Token::Identifier => "Identifier"@,
        Token::Integer => "Integer"@,
        Token::True => "true"@,
        Token::False => "false"@,
        Token::NewLine => "NewLine"@,
        Token::Invalid => "<invalid token>"@,
        Token::EndOfFile => "end of file"@,
    }
}

/// Operators bind by a fixed priority: `*`, `/` and `mod` more tightly than `+` and
/// `-`, these more tightly than the comparisons (`==`, `!=`, `<`, `<=`, `>`, `>=`), these
/// more tightly than `and`, and `and` more tightly than `or` and `xor`; operators of one
/// group bind alike, and no other token is an operator.
pub proof fn lemma_operator_priority_order(a: Token, b: Token)
    ensures
        (a is Mul || a is Div || a is Mod) && (b is Mul || b is Div || b is Mod) ==> operator_priority_of(a)
            == operator_priority_of(b),
        (a is Add || a is Sub) && (b is Add || b is Sub) ==> operator_priority_of(a) == operator_priority_of(b),
        (a is Eq || a is Ne || a is Lt || a is Le || a is Gt || a is Ge) && (b is Eq || b is Ne || b is Lt || b is Le
            || b is Gt || b is Ge) ==> operator_priority_of(a) == operator_priority_of(b),
        (a is Or || a is XOr) && (b is Or || b is XOr) ==> operator_priority_of(a) == operator_priority_of(b),
        (a is Mul || a is Div || a is Mod) && (b is Add || b is Sub) ==> operator_priority_of(a)->0
            > operator_priority_of(b)->0,
        (a is Add || a is Sub) && (b is Eq || b is Ne || b is Lt || b is Le || b is Gt || b is Ge)
            ==> operator_priority_of(a)->0 > operator_priority_of(b)->0,
        (a is Eq || a is Ne || a is Lt || a is Le || a is Gt || a is Ge) && b is And ==> operator_priority_of(a)->0
            > operator_priority_of(b)->0,
        a is And && (b is Or || b is XOr) ==> operator_priority_of(a)->0 > operator_priority_of(b)->0,
        operator_priority_of(a) is Some <==> (a is Mul || a is Div || a is Mod || a is Add || a is Sub || a is Eq
            || a is Ne || a is Lt || a is Le || a is Gt || a is Ge || a is And || a is Or || a is XOr),
{
}

} // verus!
