//! Checking and skipping tokens, and reporting the unexpected ones.
use crate::compiler::error::{CompilationError, CompilationErrorKind};
use crate::compiler::lexer::tokens::{Token, token_description};
use crate::compiler::lexer::line_span_of;
use crate::compiler::parser::FunctionParser;
use vstd::prelude::*;

verus! {

impl<'code> FunctionParser<'code> {
    /// Moves the lexer to the next token.
    pub fn advance(&mut self) -> (r: Token)
        requires
            old(self).wf(),
        ensures
            final(self).wf(),
            final(self).continues(old(self)),
            final(self).same_code(old(self)),
            final(self).errors == old(self).errors,
            r == final(self).lexer.current(),
            !(old(self).lexer.current() is EndOfFile) ==> final(self).lexer.pos() > old(self).lexer.pos(),
            old(self).lexer.current() is EndOfFile ==> final(self).lexer.current() is EndOfFile,
            crate::compiler::lexer::scan::scanned(
                old(self).lexer.source(),
                old(self).lexer.end_pos(),
                final(self).lexer.current(),
                final(self).lexer.pos(),
                final(self).lexer.end_pos(),
            ),
    {
        let r = self.lexer.next();
        proof {
            lemma_continues_refl(old(self));
            assert(self.errors@.subrange(0, old(self).errors@.len() as int) =~= old(self).errors@);
            assert(self.function.instructions@.subrange(0, old(self).function.instructions@.len() as int)
                =~= old(self).function.instructions@);
            assert(self.function.arguments@.subrange(0, old(self).function.arguments@.len() as int) =~= old(self).function.arguments@);
        }
        r
    }

    /// The error that reports the current token where `expected` was expected.
    pub open spec fn unexpected_error(&self, error: CompilationError, expected: &'static str) -> bool {
        &&& error.span == line_span_of(
            self.lexer.line(),
            self.lexer.line_start(),
            self.lexer.pos(),
            self.lexer.end_pos(),
        )
        &&& if self.lexer.current() is EndOfFile {
            error.kind == CompilationErrorKind::UnexpectedEndOfFile { expected }
        } else {
            error.kind matches CompilationErrorKind::UnexpectedToken { expected: e, slice }
                && e == expected && slice@ == self.lexer.source().subrange(
                self.lexer.pos(),
                self.lexer.end_pos(),
            )
        }
    }

    pub fn unexpected_token(&mut self, expected: &'static str)
        requires
            old(self).wf(),
        ensures
            final(self).wf(),
            final(self).lexer == old(self).lexer,
            final(self).same_code(old(self)),
            final(self).continues(old(self)),
            final(self).errors@.len() == old(self).errors@.len() + 1,
            final(self).errors@.subrange(0, old(self).errors@.len() as int) == old(self).errors@,
            old(self).unexpected_error(final(self).errors@.last(), expected),
    {
        let span = self.lexer.span();
        if self.lexer.token() == Token::EndOfFile {
            self.errors.push(
                CompilationError { span, kind: CompilationErrorKind::UnexpectedEndOfFile { expected } },
            );
        } else {
            let slice = vstd::slice::slice_to_vec(self.lexer.slice());
            self.errors.push(
                CompilationError { span, kind: CompilationErrorKind::UnexpectedToken { expected, slice } },
            );
        }
        assert(self.errors@.subrange(0, old(self).errors@.len() as int) =~= old(self).errors@);
        assert(self.function.instructions@.subrange(0, old(self).function.instructions@.len() as int)
            =~= old(self).function.instructions@);
        assert(self.function.arguments@.subrange(0, old(self).function.arguments@.len() as int) =~= old(self).function.arguments@);
    }

    /// Reports the current token unless it is `token`.
    pub fn expect_token(&mut self, token: Token) -> (r: Result<(), ()>)
        requires
            old(self).wf(),
        ensures
            final(self).wf(),
            final(self).lexer == old(self).lexer,
            final(self).same_code(old(self)),
            final(self).continues(old(self)),
            r is Ok <==> old(self).lexer.current() == token,
            r is Ok ==> final(self).errors == old(self).errors,
            r is Err ==> {
                &&& final(self).errors@.len() == old(self).errors@.len() + 1
                &&& final(self).errors@.subrange(0, old(self).errors@.len() as int) == old(self).errors@
                &&& exists|expected: &'static str|
                    expected@ == token_description(token) && old(self).unexpected_error(
                        #[trigger] final(self).errors@.last(),
                        expected,
                    )
            },
    {
        if self.lexer.token() != token {
            let expected = token.get_str();
            self.unexpected_token(expected);
            return Err(());
        }
        proof {
            lemma_continues_refl(self);
        }
        Ok(())
    }

    /// Reports each invalid token and moves past it.
    pub fn consume_invalid_tokens(&mut self)
        requires
            old(self).wf(),
        ensures
            final(self).wf(),
            final(self).continues(old(self)),
            final(self).same_code(old(self)),
            !(final(self).lexer.current() is Invalid),
            old(self).lexer.current() is Invalid ==> final(self).lexer.pos() > old(self).lexer.pos(),
            !(old(self).lexer.current() is Invalid) ==> *final(self) == *old(self),
            forall|i: int|
                old(self).errors@.len() <= i < final(self).errors@.len() ==> (
                #[trigger] final(self).errors@[i]).kind is InvalidToken,
    {
        proof {
            lemma_continues_refl(self);
        }
        while self.lexer.token() == Token::Invalid
            invariant
                self.wf(),
                self.continues(old(self)),
                self.same_code(old(self)),
                old(self).lexer.current() is Invalid ==> (self.lexer.pos() > old(self).lexer.pos()
                    || self.lexer.current() is Invalid),
                !(old(self).lexer.current() is Invalid) ==> *self == *old(self),
                forall|i: int|
                    old(self).errors@.len() <= i < self.errors@.len() ==> (
                    #[trigger] self.errors@[i]).kind is InvalidToken,
            decreases self.lexer.source().len() - self.lexer.pos(),
        {
            let ghost before = *self;
            let span = self.lexer.span();
            let slice = vstd::slice::slice_to_vec(self.lexer.slice());
            self.errors.push(CompilationError { span, kind: CompilationErrorKind::InvalidToken { slice } });
            let ghost pushed = *self;
            proof {
                assert(pushed.errors@.subrange(0, before.errors@.len() as int) =~= before.errors@);
                assert(pushed.function.instructions@.subrange(0, before.function.instructions@.len() as int)
                    =~= before.function.instructions@);
                assert(pushed.function.arguments@.subrange(0, before.function.arguments@.len() as int) =~= before.function.arguments@);
                assert(pushed.continues(&before));
            }
            self.advance();
            proof {
                lemma_continues_trans(&before, &pushed, self);
                lemma_continues_trans(old(self), &before, self);
            }
        }
    }

    /// Use to skip the tokens of a statement after a syntax error
    pub fn skip_statement(&mut self)
        requires
            old(self).wf(),
        ensures
            final(self).wf(),
            final(self).continues(old(self)),
            final(self).same_code(old(self)),
            !(final(self).lexer.current() is NewLine),
            !(old(self).lexer.current() is EndOfFile) ==> final(self).lexer.pos() > old(self).lexer.pos(),
            forall|i: int|
                old(self).errors@.len() <= i < final(self).errors@.len() ==> (
                #[trigger] final(self).errors@[i]).kind is InvalidToken,
    {
        proof {
            lemma_continues_refl(self);
        }
        // Consume remaining statement tokens
        while !(self.lexer.token() == Token::EndOfFile || self.lexer.token() == Token::NewLine)
            invariant
                self.wf(),
                self.continues(old(self)),
                self.same_code(old(self)),
                forall|i: int|
                    old(self).errors@.len() <= i < self.errors@.len() ==> (
                    #[trigger] self.errors@[i]).kind is InvalidToken,
                !(old(self).lexer.current() is EndOfFile) ==> (self.lexer.pos() > old(self).lexer.pos()
                    || self.lexer.current() == old(self).lexer.current()),
            decreases self.lexer.source().len() - self.lexer.pos(),
        {
            let ghost before = *self;
            self.consume_invalid_tokens();
            let ghost consumed = *self;
            assert(consumed.lexer.pos() > before.lexer.pos() || consumed.lexer.current() == before.lexer.current());
            if self.lexer.token() != Token::EndOfFile {
                self.advance();
            }
            assert(self.lexer.pos() > before.lexer.pos());
            proof {
                lemma_continues_trans(old(self), &before, self);
                assert forall|i: int| old(self).errors@.len() <= i < self.errors@.len() implies (
                #[trigger] self.errors@[i]).kind is InvalidToken by {
                    if i < before.errors@.len() {
                        assert(self.errors@[i] == consumed.errors@.subrange(0, before.errors@.len() as int)[i]);
                    }
                }
            }
        }
        // Consume white space
        while self.lexer.token() == Token::NewLine
            invariant
                self.wf(),
                self.continues(old(self)),
                self.same_code(old(self)),
                forall|i: int|
                    old(self).errors@.len() <= i < self.errors@.len() ==> (
                    #[trigger] self.errors@[i]).kind is InvalidToken,
                !(old(self).lexer.current() is EndOfFile) ==> (self.lexer.pos() > old(self).lexer.pos()
                    || self.lexer.current() is NewLine),
            decreases self.lexer.source().len() - self.lexer.pos(),
        {
            let ghost before = *self;
            self.advance();
            proof {
                lemma_continues_trans(old(self), &before, self);
            }
        }
    }

    /// Makes sure that the statement has ended. Aka, makes sure that the line has ended.
    /// If not, it will do `Self::skip_statement`.
    pub fn end_statement(&mut self)
        requires
            old(self).wf(),
        ensures
            final(self).wf(),
            final(self).continues(old(self)),
            final(self).same_code(old(self)),
            !(final(self).lexer.current() is NewLine),
            !(old(self).lexer.current() is EndOfFile) ==> final(self).lexer.pos() > old(self).lexer.pos(),
            ({
                let ended = old(self).lexer.current() is NewLine || old(self).lexer.current() is EndOfFile;
                let first = if ended { old(self).errors@.len() } else { old(self).errors@.len() + 1 };
                &&& !ended ==> final(self).errors@.len() > old(self).errors@.len()
                    && old(self).unexpected_error(final(self).errors@[old(self).errors@.len() as int], "a new line")
                &&& forall|i: int| first <= i < final(self).errors@.len() ==> (#[trigger] final(self).errors@[i]).kind is InvalidToken
            }),
    {
        proof {
            lemma_continues_refl(self);
        }
        if !(self.lexer.token() == Token::NewLine || self.lexer.token() == Token::EndOfFile) {
            self.unexpected_token("a new line");
        }
        let ghost before = *self;
        self.skip_statement();
        proof {
            lemma_continues_trans(old(self), &before, self);
            if !(old(self).lexer.current() is NewLine || old(self).lexer.current() is EndOfFile) {
                assert(self.errors@[old(self).errors@.len() as int] == self.errors@.subrange(
                    0,
                    before.errors@.len() as int,
                )[old(self).errors@.len() as int]);
            }
        }
    }
}

/// Every state continues itself.
pub proof fn lemma_continues_refl<'code>(a: &FunctionParser<'code>)
    ensures
        a.continues(a),
{
    assert(a.errors@.subrange(0, a.errors@.len() as int) =~= a.errors@);
    assert(a.function.instructions@.subrange(0, a.function.instructions@.len() as int)
        =~= a.function.instructions@);
    assert(a.function.arguments@.subrange(0, a.function.arguments@.len() as int) =~= a.function.arguments@);
}

/// Continuing is transitive.
pub proof fn lemma_continues_trans<'code>(
    a: &FunctionParser<'code>,
    b: &FunctionParser<'code>,
    c: &FunctionParser<'code>,
)
    requires
        b.continues(a),
        c.continues(b),
    ensures
        c.continues(a),
{
    vstd::map_lib::lemma_submap_of_trans(a.module.names(), b.module.names(), c.module.names());
    assert(c.function.arguments@.subrange(0, a.function.arguments@.len() as int)
        =~= c.function.arguments@.subrange(0, b.function.arguments@.len() as int).subrange(
        0,
        a.function.arguments@.len() as int,
    ));
    assert(c.errors@.subrange(0, a.errors@.len() as int) =~= c.errors@.subrange(
        0,
        b.errors@.len() as int,
    ).subrange(0, a.errors@.len() as int));
    assert(c.function.instructions@.subrange(0, a.function.instructions@.len() as int)
        =~= c.function.instructions@.subrange(0, b.function.instructions@.len() as int).subrange(
        0,
        a.function.instructions@.len() as int,
    ));
}

} // verus!
