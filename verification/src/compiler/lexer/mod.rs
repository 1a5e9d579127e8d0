//! Breaks the source code into tokens (keywords, identifiers, literals).
pub mod scan;
pub mod tokens;

use crate::compiler::error::{LineColumnNumber, LineSpan};
use crate::compiler::lexer::scan::{scan_token, scanned, skips_spaces, space_run_end};
use crate::compiler::lexer::tokens::{Token, is_pattern_token, token_matches};
use vstd::prelude::*;
use vstd::string::StringSliceAdditionalSpecFns;

verus! {

/// The position of the current line: its number, the index of its first byte,
/// and its indentation.
#[derive(Clone, Copy)]
pub struct LexerContext {
    line_number: usize,
    line_char_index: usize,
    indent: usize,
}

/// Reads the tokens of a source one at a time.
pub struct Lexer<'a> {
    source: &'a [u8],
    token_start: usize,
    token_end: usize,
    token: Token,
    extras: LexerContext,
}

/// The span of `source[start..end]` on a line that starts at `line_start`.
pub open spec fn line_span_of(line: usize, line_start: int, start: int, end: int) -> LineSpan {
    LineSpan {
        start: LineColumnNumber { line, column: (start - line_start + 1) as usize },
        end: LineColumnNumber { line, column: (end - line_start) as usize },
    }
}

impl<'a> Lexer<'a> {
    /// The source, without its leading spaces.
    pub closed spec fn source(&self) -> Seq<u8> {
        self.source@
    }

    /// Where the current token starts.
    pub closed spec fn pos(&self) -> int {
        self.token_start as int
    }

    /// Where the current token ends.
    pub closed spec fn end_pos(&self) -> int {
        self.token_end as int
    }

    pub closed spec fn current(&self) -> Token {
        self.token
    }

    pub closed spec fn line(&self) -> usize {
        self.extras.line_number
    }

    /// Index of the first byte of the current line.
    pub closed spec fn line_start(&self) -> int {
        self.extras.line_char_index as int
    }

    pub closed spec fn indentation(&self) -> usize {
        self.extras.indent
    }

    pub closed spec fn wf(&self) -> bool {
        &&& self.wf_position()
        &&& !(self.token is EndOfFile) ==> self.token_start < self.token_end
    }

    closed spec fn wf_position(&self) -> bool {
        &&& self.token_start <= self.token_end <= self.source@.len() < usize::MAX
        &&& self.token is EndOfFile ==> self.token_start == self.source@.len()
        &&& self.token is NewLine ==> self.token_start < self.token_end && self.source@[self.token_start as int] == 10u8
        &&& is_pattern_token(self.token) ==> token_matches(
            self.token,
            self.source@.subrange(self.token_start as int, self.token_end as int),
        )
        &&& 1 <= self.extras.line_number <= self.extras.line_char_index + 1
        &&& self.extras.line_char_index <= self.token_start
    }

    /// The text of the current token matches its pattern.
    pub proof fn lemma_token_text(&self)
        requires
            self.wf(),
        ensures
            is_pattern_token(self.current()) ==> token_matches(
                self.current(),
                self.source().subrange(self.pos(), self.end_pos()),
            ),
    {
    }

    /// Starts reading `source`; its leading spaces give the indentation of the first line.
    pub fn new(source: &'a str) -> (r: Self)
        requires
            source.spec_bytes().len() < usize::MAX,
        ensures
            r.wf(),
            skips_spaces(source.spec_bytes(), 0, source.spec_bytes().len() - r.source().len()),
            r.source() == source.spec_bytes().subrange(
                source.spec_bytes().len() - r.source().len(),
                source.spec_bytes().len() as int,
            ),
            r.line() == 1,
            r.line_start() == 0,
            r.indentation() == source.spec_bytes().len() - r.source().len(),
            0 <= r.pos() <= r.end_pos() <= r.source().len() < usize::MAX,
            scanned(r.source(), 0, r.current(), r.pos(), r.end_pos()),
    {
        let bytes = source.as_bytes();
        let indent = space_run_end(bytes, 0);
        let trimed_source = vstd::slice::slice_subrange(bytes, indent, bytes.len());
        let context = LexerContext { line_number: 1, line_char_index: 0, indent };
        let mut lexer = Lexer {
            source: trimed_source,
            token_start: 0,
            token_end: 0,
            token: Token::Invalid,
            extras: context,
        };
        lexer.advance();
        lexer
    }

    /// The source that follows the current token.
    pub fn remainder(&self) -> (r: &'a [u8])
        requires
            self.wf(),
        ensures
            r@ == self.source().subrange(self.end_pos(), self.source().len() as int),
    {
        vstd::slice::slice_subrange(self.source, self.token_end, self.source.len())
    }

    /// Moves to the next token and returns it.
    pub fn next(&mut self) -> (r: Token)
        requires
            old(self).wf(),
        ensures
            final(self).wf(),
            r == final(self).current(),
            final(self).source() == old(self).source(),
            scanned(
                old(self).source(),
                old(self).end_pos(),
                final(self).current(),
                final(self).pos(),
                final(self).end_pos(),
            ),
            old(self).current() is NewLine ==> {
                &&& final(self).line() == old(self).line() + 1
                &&& final(self).line_start() == old(self).pos() + 1
                &&& final(self).indentation() == old(self).end_pos() - old(self).pos() - 1
            },
            !(old(self).current() is NewLine) ==> {
                &&& final(self).line() == old(self).line()
                &&& final(self).line_start() == old(self).line_start()
                &&& final(self).indentation() == old(self).indentation()
            },
            final(self).pos() >= old(self).pos(),
            0 <= final(self).pos() <= final(self).end_pos() <= final(self).source().len(),
            !(old(self).current() is EndOfFile) ==> final(self).pos() > old(self).pos(),
            old(self).current() is EndOfFile ==> final(self).current() is EndOfFile,
    {
        self.advance()
    }

    fn advance(&mut self) -> (r: Token)
        requires
            old(self).wf_position(),
        ensures
            final(self).wf(),
            r == final(self).current(),
            final(self).source() == old(self).source(),
            scanned(
                old(self).source(),
                old(self).end_pos(),
                final(self).current(),
                final(self).pos(),
                final(self).end_pos(),
            ),
            old(self).current() is NewLine ==> {
                &&& final(self).line() == old(self).line() + 1
                &&& final(self).line_start() == old(self).pos() + 1
                &&& final(self).indentation() == old(self).end_pos() - old(self).pos() - 1
            },
            !(old(self).current() is NewLine) ==> {
                &&& final(self).line() == old(self).line()
                &&& final(self).line_start() == old(self).line_start()
                &&& final(self).indentation() == old(self).indentation()
            },
            final(self).pos() >= old(self).end_pos(),
            0 <= final(self).pos() <= final(self).end_pos() <= final(self).source().len(),
            old(self).current() is EndOfFile ==> final(self).current() is EndOfFile,
    {
        if self.token == Token::NewLine {
            self.extras.line_number = self.extras.line_number + 1;
            self.extras.line_char_index = self.token_start + 1;
            self.extras.indent = self.token_end - self.token_start - 1;
        }
        let (token, start, end) = scan_token(self.source, self.token_end);
        proof {
            if start < self.source@.len() && !(token is Invalid) {
                assert(token_matches_first(token, self.source@, start as int, end as int));
            }
        }
        self.token_start = start;
        self.token_end = end;
        self.token = token;
        token
    }

    pub fn token(&self) -> (r: Token)
        ensures
            r == self.current(),
    {
        self.token
    }

    /// The text of the current token.
    pub fn slice(&self) -> (r: &'a [u8])
        requires
            self.wf(),
        ensures
            r@ == self.source().subrange(self.pos(), self.end_pos()),
    {
        vstd::slice::slice_subrange(self.source, self.token_start, self.token_end)
    }

    /// Where the current token stands: line and columns.
    pub fn span(&self) -> (r: LineSpan)
        requires
            self.wf(),
        ensures
            r == line_span_of(self.line(), self.line_start(), self.pos(), self.end_pos()),
    {
        LineSpan {
            start: LineColumnNumber {
                line: self.extras.line_number,
                column: self.token_start - self.extras.line_char_index + 1,
            },
            end: LineColumnNumber {
                line: self.extras.line_number,
                column: self.token_end - self.extras.line_char_index,
            },
        }
    }

    /// The indentation of the current line, in spaces.
    pub fn indent(&self) -> (r: usize)
        ensures
            r == self.indentation(),
    {
        self.extras.indent
    }

    /// The span from the first column of the line to the end of the current token.
    pub fn line_span(&self) -> (r: LineSpan)
        requires
            self.wf(),
        ensures
            r == (LineSpan {
                start: LineColumnNumber { line: self.line(), column: 1 },
                end: LineColumnNumber {
                    line: self.line(),
                    column: (self.end_pos() - self.line_start()) as usize,
                },
            }),
    {
        let span = self.span();
        LineSpan {
            start: LineColumnNumber { line: span.start.line, column: 1 },
            end: LineColumnNumber { line: span.end.line, column: span.end.column },
        }
    }

    /// The span of the indentation of the current line.
    pub fn indent_span(&self) -> (r: LineSpan)
        requires
            self.wf(),
        ensures
            r == (LineSpan {
                start: LineColumnNumber { line: self.line(), column: 1 },
                end: LineColumnNumber { line: self.line(), column: self.indentation() },
            }),
    {
        let span = self.span();
        LineSpan {
            start: LineColumnNumber { line: span.start.line, column: 1 },
            end: LineColumnNumber { line: span.start.line, column: self.extras.indent },
        }
    }
}

/// A matched token covers at least its first byte, and a new line starts with `\n`.
spec fn token_matches_first(tok: Token, s: Seq<u8>, start: int, end: int) -> bool {
    start < end && (tok is NewLine ==> s[start] == 10u8)
}

} // verus!
