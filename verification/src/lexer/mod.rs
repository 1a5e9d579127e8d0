//! Tokens with their position in the lines of the source.
use crate::compiler::error::{LineColumnNumber, LineSpan};
use crate::compiler::hir::display::{decimal, push_decimal, push_text};
use crate::compiler::lexer::tokens::Token;
use crate::error::CompilationError;
use vstd::prelude::*;
use vstd::string::StringSliceAdditionalSpecFns;

verus! {

/// Spaces per nesting level.
pub const INDENT_SIZE: usize = 4;

/// A token read from the source, with its text and position.
pub struct TokenResult<'a> {
    pub token: Option<Token>,
    pub slice: &'a str,
    pub span: LineSpan,
    /// Spaces before the first token of the line.
    pub indent: usize,
}

/// Where the lexer stands in the lines of the source.
#[derive(Clone, Copy)]
pub struct LexerContext {
    line_number: usize,
    line_char_index: usize,
    indent: usize,
}

/// `String::from_utf8` on ASCII bytes: the text with one character per byte.
#[verifier::external_body]
pub(crate) fn ascii_string(bytes: Vec<u8>) -> (r: String)
    requires
        forall|i: int| 0 <= i < bytes@.len() ==> #[trigger] bytes@[i] < 128,
    ensures
        r@.len() == bytes@.len(),
        forall|i: int| 0 <= i < bytes@.len() ==> #[trigger] r@[i] == (bytes@[i] as char),
{
    String::from_utf8(bytes).unwrap()
}

/// The message for an indentation that is not a multiple of the indent size.
pub open spec fn indentation_message(indent: nat) -> Seq<u8> {
    "Invalid indentation of ".spec_bytes() + decimal(indent)
        + " spaces. Expected an indentation multiple of ".spec_bytes() + decimal(INDENT_SIZE as nat)
}

/// Decimal digits are ASCII.
proof fn lemma_decimal_ascii(n: nat)
    ensures
        forall|i: int| 0 <= i < decimal(n).len() ==> #[trigger] decimal(n)[i] < 128,
    decreases n,
{
    if n >= 10 {
        lemma_decimal_ascii(n / 10);
        assert forall|i: int| 0 <= i < decimal(n).len() implies #[trigger] decimal(n)[i] < 128 by {
            if i < decimal(n / 10).len() {
                assert(decimal(n)[i] == decimal(n / 10)[i]);
            }
        }
    }
}

impl LexerContext {
    pub fn new(line_number: usize, line_char_index: usize, indent: usize) -> (r: Self)
        ensures
            r.line_number() == line_number,
            r.line_char_index() == line_char_index,
            r.indent() == indent,
    {
        LexerContext { line_number, line_char_index, indent }
    }

    pub closed spec fn line_number(&self) -> usize {
        self.line_number
    }

    pub closed spec fn line_char_index(&self) -> usize {
        self.line_char_index
    }

    pub closed spec fn indent(&self) -> usize {
        self.indent
    }

    /// Moves to the line after the newline characters at `start..end`; the spaces that
    /// follow the first of them are the indentation of that line.
    pub fn new_line(&mut self, start: usize, end: usize)
        requires
            old(self).line_number() < usize::MAX,
            start < end,
        ensures
            final(self).line_number() == old(self).line_number() + 1,
            final(self).line_char_index() == start + 1,
            final(self).indent() == end - start - 1,
    {
        self.line_number = self.line_number + 1;
        self.line_char_index = start + 1;
        self.indent = end - start - 1;
    }

    /// The position of the characters at `start..end` of the current line.
    pub fn span(&self, start: usize, end: usize) -> (r: LineSpan)
        requires
            self.line_char_index() <= start,
            self.line_char_index() <= end,
            start - self.line_char_index() + 1 <= usize::MAX,
        ensures
            r.start == (LineColumnNumber {
                line: self.line_number(),
                column: (start - self.line_char_index() + 1) as usize,
            }),
            r.end == (LineColumnNumber {
                line: self.line_number(),
                column: (end - self.line_char_index()) as usize,
            }),
    {
        LineSpan {
            start: LineColumnNumber { line: self.line_number, column: start - self.line_char_index + 1 },
            end: LineColumnNumber { line: self.line_number, column: end - self.line_char_index },
        }
    }
}

impl<'a> TokenResult<'a> {
    pub fn new(token: Option<Token>, slice: &'a str, span: LineSpan, indent: usize) -> (r: Self)
        ensures
            r.token == token,
            r.slice == slice,
            r.span == span,
            r.indent == indent,
    {
        TokenResult { token, slice, span, indent }
    }

    /// The first column of the line of the token.
    pub fn line_span(&self) -> (r: LineSpan)
        ensures
            r.start == (LineColumnNumber { line: self.span.start.line, column: 1 }),
            r.end == (LineColumnNumber { line: self.span.start.line, column: 1 }),
    {
        LineSpan {
            start: LineColumnNumber { line: self.span.start.line, column: 1 },
            end: LineColumnNumber { line: self.span.start.line, column: 1 },
        }
    }

    /// The indentation of the line of the token.
    pub fn nesting_span(&self) -> (r: LineSpan)
        ensures
            r.start == (LineColumnNumber { line: self.span.start.line, column: 1 }),
            r.end == (LineColumnNumber { line: self.span.start.line, column: self.indent }),
    {
        LineSpan {
            start: LineColumnNumber { line: self.span.start.line, column: 1 },
            end: LineColumnNumber { line: self.span.start.line, column: self.indent },
        }
    }

    /// The nesting level of the line: its indentation in steps of `INDENT_SIZE` spaces.
    pub fn nesting(&self) -> (r: Result<usize, CompilationError>)
        ensures
            self.indent % INDENT_SIZE == 0 <==> r is Ok,
            r matches Ok(n) ==> n == self.indent / INDENT_SIZE,
            r matches Err(e) ==> e.span == (LineSpan {
                start: LineColumnNumber { line: self.span.start.line, column: 1 },
                end: LineColumnNumber { line: self.span.start.line, column: self.indent },
            }) && e.message@.len() == indentation_message(self.indent as nat).len() && forall|i: int|
                0 <= i < e.message@.len() ==> #[trigger] e.message@[i] == (indentation_message(
                    self.indent as nat,
                )[i] as char),
    {
        if self.indent % INDENT_SIZE != 0 {
            let mut message: Vec<u8> = Vec::new();
            push_text(&mut message, "Invalid indentation of ");
            push_decimal(&mut message, self.indent);
            push_text(&mut message, " spaces. Expected an indentation multiple of ");
            push_decimal(&mut message, INDENT_SIZE);
            assert(message@ =~= indentation_message(self.indent as nat));
            proof {
                let prefix = "Invalid indentation of ";
                let middle = " spaces. Expected an indentation multiple of ";
                reveal_strlit("Invalid indentation of ");
                reveal_strlit(" spaces. Expected an indentation multiple of ");
                vstd::string::is_ascii_spec_bytes(prefix);
                vstd::string::is_ascii_spec_bytes(middle);
                lemma_decimal_ascii(self.indent as nat);
                lemma_decimal_ascii(INDENT_SIZE as nat);
                assert forall|i: int| 0 <= i < message@.len() implies #[trigger] message@[i] < 128 by {
                    let a = prefix.spec_bytes().len();
                    let b = a + decimal(self.indent as nat).len();
                    let c = b + middle.spec_bytes().len();
                    if i < a {
                        assert(message@[i] == prefix.spec_bytes()[i]);
                    } else if i < b {
                        assert(message@[i] == decimal(self.indent as nat)[i - a]);
                    } else if i < c {
                        assert(message@[i] == middle.spec_bytes()[i - b]);
                    } else {
                        assert(message@[i] == decimal(INDENT_SIZE as nat)[i - c]);
                    }
                }
            }
            return Err(CompilationError { message: ascii_string(message), span: self.nesting_span() });
        }
        Ok(self.indent / INDENT_SIZE)
    }
}

} // verus!
