//! Statements and blocks of statements, nested by indentation.
use crate::compiler::error::{CompilationError, CompilationErrorKind};
use crate::compiler::hir::definition::{
    FnDefinition, FnDefinitionStage, FnId, Instruction, RunIf, ScopeKind, balanced, instruction_wf,
    lemma_balanced_delta, lemma_delta_append, lemma_delta_push, lemma_neutral_balanced, runs_delta,
    step_scopes,
};
use crate::compiler::hir::value::{Value, Variable};
use crate::compiler::lexer::scan::{lemma_scan_at, scan_at};
use crate::compiler::lexer::tokens::Token;
use crate::compiler::lexer::Lexer;
use crate::compiler::parser::FunctionParser;
use crate::compiler::parser::expressions::{straight_code, value_of_code};
use crate::compiler::parser::scope::{FunctionScope, ids_below, lemma_close_scopes};
use crate::compiler::parser::tokens::{lemma_continues_refl, lemma_continues_trans};
use crate::compiler::parser::grammar::{
    CallShape, Parsed, call_code, emitted, expression_parsed, lemma_call_code_len, lemma_call_code_names,
    next_token,
};
use vstd::prelude::*;

verus! {

/// The instructions of a `while` loop: the loop opens, the condition is computed by calls
/// and assignments (the result of the last of them where there are any), the loop breaks
/// when the condition is false, then the body runs, a well nested block, and the loop
/// closes.
pub open spec fn loop_shape(seg: Seq<Instruction>) -> bool {
    &&& seg.len() >= 5
    &&& seg[0] == Instruction::LoopStart
    &&& seg.last() == Instruction::LoopEnd
    &&& exists|k: int|
        1 <= k && k + 3 < seg.len() && (#[trigger] seg[k] matches Instruction::IfStart(_, RunIf::False))
            && seg[k + 1] == Instruction::Break && seg[k + 2] == Instruction::IfEnd(1) && forall|i: int|
            1 <= i < k ==> (#[trigger] seg[i] is Call || seg[i] is Assign) && value_of_code(
            seg.subrange(0, k),
            1,
            seg[k]->IfStart_0,
        ) && balanced(seg.subrange(k + 3, seg.len() - 1))
}

/// One link of an `if` chain, found at `k`: the condition computed by calls and
/// assignments (the result of the last of them where there are any), the `if` at `k` that
/// runs when that condition is true, then its block, a well nested block.
pub open spec fn link_at(piece: Seq<Instruction>, k: int) -> bool {
    &&& 0 <= k < piece.len()
    &&& piece[k] matches Instruction::IfStart(_, RunIf::True)
    &&& straight_code(piece.subrange(0, k), 0)
    &&& value_of_code(piece.subrange(0, k), 0, piece[k]->IfStart_0)
    &&& balanced(piece.subrange(k + 1, piece.len() as int))
}

/// One link of an `if` chain: a condition, its `if` and its block.
pub open spec fn if_link(piece: Seq<Instruction>) -> bool {
    exists|k: int| #[trigger] link_at(piece, k)
}

/// The pieces, with an `Else` between each two of them.
pub open spec fn joined(pieces: Seq<Seq<Instruction>>) -> Seq<Instruction>
    decreases pieces.len(),
{
    if pieces.len() == 0 {
        Seq::empty()
    } else if pieces.len() == 1 {
        pieces[0]
    } else {
        joined(pieces.drop_last()).push(Instruction::Else) + pieces.last()
    }
}

/// The instructions of an `if` chain of `n` links, given as its pieces: each of the first
/// `n` pieces is a link (`if` or `else if`), an optional last piece is the block of the
/// final `else`, an `Else` stands between each two pieces, and one `IfEnd(n)` closes the
/// whole chain.
pub open spec fn chain_of(seg: Seq<Instruction>, pieces: Seq<Seq<Instruction>>, n: nat) -> bool {
    &&& n >= 1
    &&& pieces.len() == n || (pieces.len() == n + 1 && balanced(pieces[n as int]))
    &&& forall|j: int| 0 <= j < n ==> if_link(#[trigger] pieces[j])
    &&& seg == joined(pieces).push(Instruction::IfEnd(n as usize))
}

/// The instructions of an `if` chain with `n` links.
pub open spec fn if_chain(seg: Seq<Instruction>, n: nat) -> bool {
    exists|pieces: Seq<Seq<Instruction>>| #[trigger] chain_of(seg, pieces, n)
}

/// The instructions of an `if` chain with `n` links, read up to `next`: where the chain
/// has no final `else` block, it stopped because no `else` follows its last block.
pub open spec fn if_chain_read(seg: Seq<Instruction>, n: nat, next: Token) -> bool {
    exists|pieces: Seq<Seq<Instruction>>|
        #[trigger] chain_of(seg, pieces, n) && (pieces.len() == n ==> !(next is Else))
}

/// The piece starts with the code of `calls`, named by `names` and numbered on from the
/// definition `f`, followed by an `if` on `value`.
pub open spec fn starts_with_condition<'code>(
    piece: Seq<Instruction>,
    calls: Seq<CallShape>,
    value: Variable,
    names: Map<Seq<u8>, FnId>,
    f: FnDefinition<'code>,
) -> bool {
    let code = call_code(calls, names, f.variables_metadata@.len(), f.arguments@.len(), f.calls as nat);
    &&& code.len() < piece.len()
    &&& piece.subrange(0, code.len() as int) == code
    &&& piece[code.len() as int] == Instruction::IfStart(value, RunIf::True)
}

/// The lexer stands where a block nested `block_nesting` deep ends: at the end of the
/// source, or on a line whose nesting is another.
pub open spec fn block_ended(lexer: Lexer<'_>, block_nesting: usize) -> bool {
    lexer.current() is EndOfFile || nesting_of(lexer.indentation(), block_nesting) != block_nesting
}

/// The lexer stands on the first statement of a block nested `block_nesting` deep.
pub open spec fn block_starts(lexer: Lexer<'_>, block_nesting: usize) -> bool {
    !(lexer.current() is EndOfFile) && nesting_of(lexer.indentation(), block_nesting) == block_nesting
}

/// The token can start a statement that emits instructions: a declaration, a return,
/// an expression or a control structure.
pub open spec fn starts_statement(token: Token) -> bool {
    token is Let || token is Return || token is Identifier || token is If || token is While
}

/// Spaces per level of nesting.
pub const INDENT_SIZE: usize = 4;

/// `k` open ifs.
pub open spec fn open_ifs(k: nat) -> Seq<ScopeKind> {
    Seq::new(k, |i: int| ScopeKind::If)
}

/// The nesting that an indentation gives, at most `max_nesting`.
pub open spec fn nesting_of(indent: usize, max_nesting: usize) -> usize {
    if indent % 4 != 0 {
        if max_nesting < indent / 4 + 1 { max_nesting } else { (indent / 4 + 1) as usize }
    } else if indent / 4 > max_nesting {
        max_nesting
    } else {
        (indent / 4) as usize
    }
}

impl<'code> FunctionParser<'code> {
    /// The instructions added since `old` hold, from `offset` on, the code of the
    /// expression that follows the current token of `old`, then an `if` on its value that
    /// runs as `run_if` says.
    pub open spec fn condition_at(&self, old: &Self, offset: int, run_if: RunIf) -> bool {
        let src = old.lexer.source();
        let condition = expression_parsed(
            src,
            old.scope@,
            next_token(src, old.cursor()),
            old.function.variables_metadata@.len(),
        );
        let seg = self.segment(old);
        let k = offset + condition.calls.len();
        &&& seg.subrange(offset, k) == call_code(
            condition.calls,
            self.module.names(),
            old.function.variables_metadata@.len(),
            old.function.arguments@.len(),
            old.function.calls as nat,
        )
        &&& seg[k] == Instruction::IfStart(condition.value, run_if)
    }

    /// The instructions are those of a block nested `block_nesting` deep, read from the
    /// source of `old`, from after the current token of `old` to no further than the
    /// current token of `self`.
    pub open spec fn is_block(&self, old: &Self, code: Seq<Instruction>, block_nesting: usize) -> bool {
        exists|a: Self, b: Self, steps: Seq<(Self, Self)>|
            #[trigger] b.block_read(&a, block_nesting, steps) && b.segment(&a) == code && a.lexer.source()
                == old.lexer.source() && old.lexer.pos() < a.lexer.pos() && b.lexer.pos() <= self.lexer.pos()
    }

    /// The link's condition and `if` are followed by a block nested `block_nesting` deep,
    /// read between `old` and `self`.
    pub open spec fn link_block(&self, old: &Self, piece: Seq<Instruction>, block_nesting: usize) -> bool {
        exists|w: int| #[trigger] link_at(piece, w) && self.is_block(old, piece.subrange(w + 1, piece.len() as int), block_nesting)
    }

    /// The piece opens with the code of the expression that follows the `if` under the
    /// cursor of `head`, named as in `self` and numbered on from the definition in
    /// `head`, then an `if` on its value.
    #[verifier::opaque]
    pub open spec fn link_condition(&self, head: &Self, piece: Seq<Instruction>) -> bool {
        let src = head.lexer.source();
        let condition = expression_parsed(
            src,
            head.scope@,
            next_token(src, head.cursor()),
            head.function.variables_metadata@.len(),
        );
        let k = condition.calls.len() as int;
        &&& head.lexer.current() is If
        &&& k < piece.len()
        &&& piece.subrange(0, k) == call_code(
            condition.calls,
            self.module.names(),
            head.function.variables_metadata@.len(),
            head.function.arguments@.len(),
            head.function.calls as nat,
        )
        &&& piece[k] == Instruction::IfStart(condition.value, RunIf::True)
        &&& forall|i: int|
            0 <= i < condition.calls.len() ==> self.module.names().dom().contains(#[trigger] condition.calls[i].name)
    }

    /// The states at the `if` of each of the `n` links, in the order they were read from
    /// the source of `old`: the first is `old`, each later one stands on the token after
    /// the `else` in `elses` at its index, read after the previous one, and each link opens
    /// with the condition that follows its `if`.
    pub open spec fn chain_heads(
        &self,
        old: &Self,
        heads: Seq<Self>,
        elses: Seq<(Token, int, int)>,
        pieces: Seq<Seq<Instruction>>,
        n: nat,
    ) -> bool {
        &&& heads.len() == n
        &&& n > 0 ==> heads[0] == *old
        &&& forall|j: int|
            0 <= j < n ==> (#[trigger] heads[j]).lexer.source() == old.lexer.source() && old.lexer.pos()
                <= heads[j].lexer.pos() < self.lexer.pos() && self.link_condition(&heads[j], pieces[j])
        &&& elses.len() == n
        &&& forall|j: int|
            0 < j < n ==> (#[trigger] elses[j]).0 is Else && heads[j - 1].lexer.pos() < elses[j].1 && heads[j].cursor()
                == next_token(old.lexer.source(), elses[j])
    }

    /// The instructions added since `old` are an `if` chain of `n` links read up to the
    /// current token, each link's block and the final `else` block, where there is one,
    /// being blocks nested `block_nesting` deep, and each link opening with the condition
    /// that follows its own `if`.
    #[verifier::opaque]
    pub open spec fn chain_read(&self, old: &Self, n: nat, block_nesting: usize) -> bool {
        exists|pieces: Seq<Seq<Instruction>>|
            #[trigger] chain_of(self.segment(old), pieces, n) && (pieces.len() == n ==> !(self.lexer.current() is Else))
                && (pieces.len() == n + 1 ==> self.is_block(old, pieces[n as int], block_nesting)) && (forall|j: int|
                0 <= j < n ==> self.link_block(old, #[trigger] pieces[j], block_nesting)) && exists|heads: Seq<Self>, elses: Seq<(Token, int, int)>|
                #[trigger] self.chain_heads(old, heads, elses, pieces, n)
    }

    /// The instructions added since `old`, from `from` on and but for the last one, are
    /// those of a block nested `block_nesting` deep, read from the source of `old` from
    /// after its current token up to where the lexer is now.
    pub open spec fn block_body(&self, old: &Self, from: int, block_nesting: usize) -> bool {
        exists|a: FunctionParser<'code>, b: FunctionParser<'code>, steps: Seq<(FunctionParser<'code>, FunctionParser<'code>)>|
            #[trigger] b.block_read(&a, block_nesting, steps) && b.lexer == self.lexer && b.segment(&a)
                == self.segment(old).subrange(from, self.segment(old).len() - 1) && a.lexer.source()
                == old.lexer.source() && old.lexer.pos() < a.lexer.pos()
    }

    /// The instructions added since `old` are a `while` loop: the loop, the code of the
    /// condition after `while`, the `if` on its negation that breaks, a body and the end
    /// of the loop.
    pub open spec fn while_head(&self, old: &Self, nesting: usize) -> bool {
        let src = old.lexer.source();
        let condition = expression_parsed(
            src,
            old.scope@,
            next_token(src, old.cursor()),
            old.function.variables_metadata@.len(),
        );
        let seg = self.segment(old);
        let k = 1 + condition.calls.len() as int;
        &&& seg[0] == Instruction::LoopStart
        &&& self.condition_at(old, 1, RunIf::False)
        &&& seg[k + 1] == Instruction::Break
        &&& seg[k + 2] == Instruction::IfEnd(1)
        &&& seg.last() == Instruction::LoopEnd
    }

    /// The body of the `while` loop that `while_head` describes is a block nested
    /// `nesting + 1` deep.
    pub open spec fn while_body(&self, old: &Self, nesting: usize) -> bool {
        let src = old.lexer.source();
        let condition = expression_parsed(
            src,
            old.scope@,
            next_token(src, old.cursor()),
            old.function.variables_metadata@.len(),
        );
        self.block_body(old, 4 + condition.calls.len() as int, (nesting + 1) as usize)
    }

    /// `self` is where reading one statement nested `nesting` deep from `old` ends: the
    /// code added is well nested, and its shape follows the token the statement starts
    /// with.
    pub open spec fn statement_read(&self, old: &Self, nesting: usize) -> bool {
        let seg = self.segment(old);
        let t = old.lexer.current();
        &&& self.continues(old)
        &&& balanced(seg)
        &&& !(t is EndOfFile) ==> self.lexer.pos() > old.lexer.pos()
        &&& t is Return ==> seg.len() > 0 && seg.last() is Return
        &&& t is While ==> loop_shape(seg) && self.while_head(old, nesting) && block_ended(self.lexer, (nesting + 1) as usize)
        &&& t is If ==> seg.len() > 0 && (seg.last() matches Instruction::IfEnd(n) && if_chain_read(
            seg,
            n as nat,
            self.lexer.current(),
        )) && block_ended(self.lexer, (nesting + 1) as usize) && self.condition_at(old, 0, RunIf::True)
        &&& (t is Let || t is Identifier) ==> straight_code(
            self.function.instructions@,
            old.function.instructions@.len() as int,
        )
        &&& !starts_statement(t) ==> seg.len() == 0
    }

    /// `self` is where reading a block nested `block_nesting` deep from `old` ends, as the
    /// statements in `steps` (where each starts, where it ends): each starts a line of
    /// that nesting, and between two of them, and before the first and after the last,
    /// the lexer stays and no code is added.
    #[verifier::opaque]
    pub open spec fn block_read(
        &self,
        old: &Self,
        block_nesting: usize,
        steps: Seq<(FunctionParser<'code>, FunctionParser<'code>)>,
    ) -> bool {
        &&& steps.len() == 0 ==> self.lexer == old.lexer && self.function == old.function && self.module
            == old.module
        &&& steps.len() > 0 ==> {
            &&& steps[0].0.lexer == old.lexer
            &&& steps[0].0.same_code(old)
            &&& self.lexer == steps.last().1.lexer
            &&& self.function == steps.last().1.function
            &&& self.module == steps.last().1.module
        }
        &&& forall|i: int|
            0 <= i < steps.len() ==> block_starts((#[trigger] steps[i]).0.lexer, block_nesting)
                && steps[i].1.statement_read(&steps[i].0, block_nesting)
        &&& forall|i: int|
            0 <= i < steps.len() - 1 ==> (#[trigger] steps[i + 1]).0.lexer == steps[i].1.lexer
                && steps[i + 1].0.same_code(&steps[i].1)
    }

    /// The instructions added since `old`.
    pub open spec fn segment(&self, old: &Self) -> Seq<Instruction> {
        self.function.instructions@.subrange(
            old.function.instructions@.len() as int,
            self.function.instructions@.len() as int,
        )
    }

    /// Pushes an instruction other than a call.
    fn emit(&mut self, instruction: Instruction)
        requires
            old(self).wf(),
            instruction_wf(
                instruction,
                old(self).function.variables_metadata@.len(),
                old(self).function.arguments@.len(),
            ),
            !(instruction is Call),
        ensures
            final(self).wf(),
            final(self).continues(old(self)),
            final(self).lexer == old(self).lexer,
            final(self).scope == old(self).scope,
            final(self).errors == old(self).errors,
            final(self).function.instructions@ == old(self).function.instructions@.push(instruction),
            final(self).function.variables_metadata == old(self).function.variables_metadata,
            final(self).function.arguments == old(self).function.arguments,
            final(self).function.calls == old(self).function.calls,
    {
        self.function.push(instruction);
        proof {
            assert(self.errors@.subrange(0, old(self).errors@.len() as int) =~= old(self).errors@);
            assert(self.function.instructions@.subrange(0, old(self).function.instructions@.len() as int)
                =~= old(self).function.instructions@);
            assert(self.function.arguments@.subrange(0, old(self).function.arguments@.len() as int) =~= old(self).function.arguments@);
        }
    }

    /// Validates for correct indentation and returns the
    /// current nesting. In case of error, an estimation will be provided.
    fn nesting(&mut self, max_nesting: usize) -> (r: usize)
        requires
            old(self).wf(),
        ensures
            final(self).wf(),
            final(self).continues(old(self)),
            final(self).same_code(old(self)),
            final(self).lexer == old(self).lexer,
            r == nesting_of(old(self).lexer.indentation(), max_nesting),
            r <= max_nesting,
            ({
                let indent = old(self).lexer.indentation();
                &&& indent % 4 == 0 && indent / 4 <= max_nesting ==> final(self).errors == old(self).errors
                &&& !(indent % 4 == 0 && indent / 4 <= max_nesting) ==> final(self).errors@.len() == old(self).errors@.len() + 1
                    && final(self).errors@.last().span == (crate::compiler::error::LineSpan {
                        start: crate::compiler::error::LineColumnNumber { line: old(self).lexer.line(), column: 1 },
                        end: crate::compiler::error::LineColumnNumber { line: old(self).lexer.line(), column: indent },
                    })
            }),
    {
        proof {
            lemma_continues_refl(self);
        }
        let indent = self.lexer.indent();
        let nesting = indent / INDENT_SIZE;
        if indent % INDENT_SIZE != 0 {
            let span = self.lexer.indent_span();
            self.errors.push(CompilationError { kind: CompilationErrorKind::InvalidIndentation { indent }, span });
            proof {
                assert(self.errors@.subrange(0, old(self).errors@.len() as int) =~= old(self).errors@);
            }
            return if max_nesting < nesting + 1 { max_nesting } else { nesting + 1 };
        }
        if nesting > max_nesting {
            let span = self.lexer.indent_span();
            self.errors.push(
                CompilationError { kind: CompilationErrorKind::UnexpectedNesting { max_nesting, nesting }, span },
            );
            proof {
                assert(self.errors@.subrange(0, old(self).errors@.len() as int) =~= old(self).errors@);
            }
            return max_nesting;
        }
        nesting
    }

    /// Parses the statements of a block: those nested exactly `block_nesting` deep.
    pub fn parse_block(&mut self, block_nesting: usize)
        requires
            old(self).wf(),
            block_nesting <= old(self).lexer.pos(),
        ensures
            final(self).wf(),
            final(self).continues(old(self)),
            balanced(final(self).segment(old(self))),
            block_nesting == 0 && !(old(self).lexer.current() is EndOfFile) ==> final(self).lexer.pos()
                > old(self).lexer.pos(),
            block_ended(final(self).lexer, block_nesting),
            block_starts(old(self).lexer, block_nesting) ==> final(self).lexer.pos() > old(self).lexer.pos(),
            exists|steps: Seq<(FunctionParser<'code>, FunctionParser<'code>)>|
                #[trigger] final(self).block_read(old(self), block_nesting, steps),
        decreases old(self).lexer.source().len() - old(self).lexer.pos(), 2int,
    {
        proof {
            lemma_continues_refl(self);
            assert(self.segment(self) =~= Seq::<Instruction>::empty());
            lemma_neutral_balanced(Seq::<Instruction>::empty());
        }
        let mut nesting = self.nesting(block_nesting);
        let ghost mut steps: Seq<(FunctionParser<'code>, FunctionParser<'code>)> = seq![];
        proof {
            lemma_segment_concat(old(self), old(self), self);
        }
        while nesting == block_nesting && self.lexer.token() != Token::EndOfFile
            invariant
                self.wf(),
                self.continues(old(self)),
                balanced(self.segment(old(self))),
                block_nesting <= old(self).lexer.pos(),
                nesting <= block_nesting,
                block_nesting == 0 && !(old(self).lexer.current() is EndOfFile) ==> (self.lexer.pos()
                    > old(self).lexer.pos() || (nesting == 0 && self.lexer.current()
                    == old(self).lexer.current())),
                nesting == nesting_of(self.lexer.indentation(), block_nesting),
                block_starts(old(self).lexer, block_nesting) ==> (self.lexer.pos() > old(self).lexer.pos()
                    || self.lexer == old(self).lexer),
                steps.len() == 0 ==> self.lexer == old(self).lexer && self.same_code(old(self)),
                steps.len() > 0 ==> {
                    &&& steps[0].0.lexer == old(self).lexer
                    &&& steps[0].0.same_code(old(self))
                    &&& self.lexer == steps.last().1.lexer
                    &&& self.same_code(&steps.last().1)
                },
                forall|i: int|
                    0 <= i < steps.len() ==> block_starts((#[trigger] steps[i]).0.lexer, block_nesting)
                        && steps[i].1.statement_read(&steps[i].0, block_nesting),
                forall|i: int|
                    0 <= i < steps.len() - 1 ==> (#[trigger] steps[i + 1]).0.lexer == steps[i].1.lexer
                        && steps[i + 1].0.same_code(&steps[i].1),
            decreases self.lexer.source().len() - self.lexer.pos(),
        {
            let ghost s0 = *self;
            let _ = self.parse_statement(nesting);
            let ghost s1 = *self;
            nesting = self.nesting(block_nesting);
            proof {
                assert(s1.statement_read(&s0, block_nesting));
                let before = steps;
                steps = steps.push((s0, s1));
                assert forall|i: int| 0 <= i < steps.len() - 1 implies (#[trigger] steps[i + 1]).0.lexer
                    == steps[i].1.lexer && steps[i + 1].0.same_code(&steps[i].1) by {
                    if i + 1 < before.len() {
                        assert(steps[i + 1] == before[i + 1]);
                        assert(steps[i] == before[i]);
                    } else {
                        assert(steps[i] == before.last());
                    }
                }
            }
            proof {
                lemma_continues_trans(&s0, &s1, self);
                lemma_segment_concat(&s0, &s1, self);
                assert(self.segment(&s1) =~= Seq::<Instruction>::empty());
                lemma_neutral_balanced(self.segment(&s1));
                lemma_balanced_concat(&s0, &s1, self);
                lemma_continues_trans(old(self), &s0, self);
                lemma_segment_concat(old(self), &s0, self);
                lemma_balanced_concat(old(self), &s0, self);
            }
        }
        let ghost s2 = *self;
        self.scope.set_nesting(nesting);
        proof {
            lemma_close_scopes(s2.scope@, nesting, self.function.variables_metadata@.len());
            assert(self.segment(old(self)) == s2.segment(old(self)));
            assert(self.block_read(old(self), block_nesting, steps)) by {
                reveal(FunctionParser::block_read);
            }
        }
    }

    /// Parses one statement with its nested block.
    pub fn parse_statement(&mut self, nesting: usize) -> (r: Result<(), ()>)
        requires
            old(self).wf(),
            nesting <= old(self).lexer.pos(),
        ensures
            final(self).wf(),
            final(self).continues(old(self)),
            balanced(final(self).segment(old(self))),
            !(old(self).lexer.current() is EndOfFile) ==> final(self).lexer.pos() > old(self).lexer.pos(),
            old(self).lexer.current() is Return ==> final(self).segment(old(self)).len() > 0
                && final(self).segment(old(self)).last() is Return,
            old(self).lexer.current() is Return && (scan_at(old(self).lexer.source(), old(self).lexer.end_pos()).0 is NewLine
                || scan_at(old(self).lexer.source(), old(self).lexer.end_pos()).0 is EndOfFile)
                ==> final(self).segment(old(self)) == seq![Instruction::Return(Variable::Const(Value::Null))],
            old(self).lexer.current() is While ==> loop_shape(final(self).segment(old(self)))
                && block_ended(final(self).lexer, (nesting + 1) as usize) && final(self).while_head(old(self), nesting)
                && final(self).while_body(old(self), nesting),
            old(self).lexer.current() is If ==> final(self).segment(old(self)).len() > 0
                && (final(self).segment(old(self)).last() matches Instruction::IfEnd(n)
                && if_chain_read(final(self).segment(old(self)), n as nat, final(self).lexer.current()))
                && block_ended(final(self).lexer, (nesting + 1) as usize)
                && final(self).condition_at(old(self), 0, RunIf::True)
                && (final(self).segment(old(self)).last() matches Instruction::IfEnd(n)
                && final(self).chain_read(old(self), n as nat, (nesting + 1) as usize)),
            old(self).lexer.current() is Let || old(self).lexer.current() is Identifier ==> straight_code(
                final(self).function.instructions@,
                old(self).function.instructions@.len() as int,
            ),
            !starts_statement(old(self).lexer.current()) ==> final(self).segment(old(self)).len() == 0,
            !(old(self).lexer.current() is Let) ==> r is Ok,
            old(self).lexer.current() is Let ==> {
                let source = old(self).lexer.source();
                let name_token = scan_at(source, old(self).lexer.end_pos());
                let name = source.subrange(name_token.1, name_token.2);
                &&& r is Ok <==> name_token.0 is Identifier && scan_at(source, name_token.2).0 is Assign
                &&& r is Ok ==> {
                    &&& final(self).scope@ == old(self).scope@.push(final(self).scope@.last())
                    &&& final(self).scope@.last().name@ == name
                    &&& final(self).scope@.last().nesting == nesting
                    &&& final(self).scope@.last().id.0 < final(self).function.variables_metadata@.len()
                }
                &&& r is Err ==> final(self).segment(old(self)).len() == 0
                    && final(self).errors@.len() > old(self).errors@.len()
            },
            old(self).lexer.current() is Return || old(self).lexer.current() is Identifier
                ==> final(self).scope == old(self).scope,
            old(self).lexer.current() is Fn ==> {
                let source = old(self).lexer.source();
                let name_token = scan_at(source, old(self).lexer.end_pos());
                let name = source.subrange(name_token.1, name_token.2);
                &&& final(self).scope == old(self).scope
                &&& final(self).function == old(self).function
                &&& name_token.0 is Identifier ==> {
                    &&& final(self).module.names().dom().contains(name)
                    &&& (final(self).module.names()[name] matches FnId::Local(id)
                        ==> final(self).module.stages()[id.0 as int] is Defined)
                }
            },
            !starts_statement(old(self).lexer.current()) && !(old(self).lexer.current() is Fn)
                ==> final(self).errors@.len() > old(self).errors@.len(),
        decreases old(self).lexer.source().len() - old(self).lexer.pos(), 1int,
    {
        proof {
            lemma_continues_refl(self);
            assert(self.segment(self) =~= Seq::<Instruction>::empty());
            lemma_neutral_balanced(Seq::<Instruction>::empty());
        }
        match self.lexer.token() {
            Token::Fn => {
                self.advance();
                let ghost s1 = *self;
                proof {
                    lemma_scan_at(
                        old(self).lexer.source(),
                        old(self).lexer.end_pos(),
                        s1.lexer.current(),
                        s1.lexer.pos(),
                        s1.lexer.end_pos(),
                    );
                }
                let name = if self.expect_token(Token::Identifier).is_ok() {
                    Some(self.lexer.slice())
                } else {
                    None
                };
                let name_span = self.lexer.span();
                self.advance();
                let ghost s2 = *self;
                let mut scope = FunctionScope::new();
                let parameters = self.parse_parameters(&mut scope);
                let ghost s3 = *self;
                self.end_statement();
                let ghost s4 = *self;
                proof {
                    lemma_continues_trans(&s1, &s2, &s3);
                    lemma_continues_trans(&s1, &s3, &s4);
                    lemma_continues_trans(old(self), &s1, &s4);
                }
                let arity = match parameters {
                    Ok(arity) => arity,
                    Err(_) => {
                        // The parameters are not known: none are in scope.
                        scope = FunctionScope::new();
                        0
                    },
                };
                proof {
                    assert(ids_below(scope@, arity as nat)) by {
                        if parameters is Ok {
                            assert forall|i: int| 0 <= i < scope@.len() implies (#[trigger] scope@[i]).id.0
                                < arity by {
                                assert(scope@[i].id.0 == i);
                            }
                        }
                    }
                }
                let mut function = match name {
                    Some(name) => FnDefinition::new(name, arity),
                    None => FnDefinition::new(crate::compiler::hir::names::no_name(), arity),
                };
                std::mem::swap(&mut self.function, &mut function);
                std::mem::swap(&mut self.scope, &mut scope);
                let ghost inner0 = *self;
                self.parse_block(nesting + 1);
                let ghost inner1 = *self;
                std::mem::swap(&mut self.function, &mut function);
                std::mem::swap(&mut self.scope, &mut scope);
                let ghost s5 = *self;
                proof {
                    lemma_restore_function(&s4, &inner0, &inner1, self);
                    assert(function.wf());
                    lemma_balanced_delta(inner1.segment(&inner0));
                    assert(function.instructions@ =~= inner1.segment(&inner0));
                    crate::compiler::hir::definition::lemma_balanced_well_nested(function.instructions@);
                    lemma_continues_trans(old(self), &s4, &s5);
                }
                if name.is_some() {
                    let ghost g = function;
                    let ghost old_module = self.module;
                    let defined_before = self.module.len();
                    let defined = self.module.define(function);
                    proof {
                        if g.name@.len() != 0 && old_module.names().dom().contains(g.name@) {
                            if let crate::compiler::hir::definition::FnId::Local(id) = old_module.names()[g.name@] {
                                if old_module.stages()[id.0 as int] is ToDefine {
                                    assert(self.module.stages() == old_module.stages().update(
                                        id.0 as int,
                                        FnDefinitionStage::Defined(g),
                                    ));
                                }
                            }
                        }
                        lemma_define_ok(old_module.stages(), self.module.stages(), g);
                        assert(g.name@.len() != 0);
                        if let FnId::Local(id) = self.module.names()[g.name@] {
                            if !old_module.names().dom().contains(g.name@) {
                                assert(id.0 == defined_before);
                                assert(self.module.stages()[id.0 as int] == FnDefinitionStage::Defined(g));
                            } else if let FnId::Local(old_id) = old_module.names()[g.name@] {
                                assert(old_id.0 < old_module.stages().len());
                                if old_module.stages()[old_id.0 as int] is ToDefine {
                                    assert(self.module.stages()[id.0 as int] == FnDefinitionStage::Defined(g));
                                } else {
                                    assert(self.module.stages()[id.0 as int] is Defined);
                                }
                            }
                        }
                    }
                    if defined.is_err() {
                        let name_vec = match name {
                            Some(n) => vstd::slice::slice_to_vec(n),
                            None => Vec::new(),
                        };
                        self.errors.push(
                            CompilationError {
                                kind: CompilationErrorKind::FunctionAlreadyDefined { name: name_vec },
                                span: name_span,
                            },
                        );
                    }
                    proof {
                        assert(self.errors@.subrange(0, s5.errors@.len() as int) =~= s5.errors@);
                        assert(self.function.instructions@.subrange(0, s5.function.instructions@.len() as int)
                            =~= s5.function.instructions@);
                        assert(self.function.arguments@.subrange(0, s5.function.arguments@.len() as int) =~= s5.function.arguments@);
                        assert(self.continues(&s5));
                        lemma_continues_trans(old(self), &s5, self);
                    }
                }
                proof {
                    assert(self.segment(old(self)) =~= Seq::<Instruction>::empty());
                }
            },
            Token::Return => {
                self.advance();
                let ghost s1 = *self;
                proof {
                    lemma_scan_at(
                        old(self).lexer.source(),
                        old(self).lexer.end_pos(),
                        s1.lexer.current(),
                        s1.lexer.pos(),
                        s1.lexer.end_pos(),
                    );
                }
                let value = if !(self.lexer.token() == Token::NewLine || self.lexer.token() == Token::EndOfFile) {
                    self.parse_expression()
                } else {
                    proof {
                        assert(straight_code(self.function.instructions@, self.function.instructions@.len() as int));
                    }
                    Variable::Const(Value::Null)
                };
                let ghost s2 = *self;
                self.end_statement();
                let ghost s3 = *self;
                self.emit(Instruction::Return(value));
                proof {
                    lemma_continues_refl(&s1);
                    lemma_continues_trans(&s1, &s2, &s3);
                    lemma_continues_trans(&s1, &s3, self);
                    lemma_continues_trans(old(self), &s1, self);
                    assert(self.function.instructions@.subrange(
                        old(self).function.instructions@.len() as int,
                        self.function.instructions@.len() as int,
                    ) =~= s2.function.instructions@.subrange(
                        s1.function.instructions@.len() as int,
                        s2.function.instructions@.len() as int,
                    ).push(Instruction::Return(value)));
                    assert forall|i: int| 0 <= i < self.segment(old(self)).len() implies crate::compiler::hir::definition::neutral(
                        #[trigger] self.segment(old(self))[i],
                    ) by {
                        if i < self.segment(old(self)).len() - 1 {
                            assert(self.segment(old(self))[i] == s2.function.instructions@[s1.function.instructions@.len() + i]);
                        }
                    }
                    lemma_neutral_balanced(self.segment(old(self)));
                }
            },
            Token::Let => {
                self.advance();
                let ghost s1 = *self;
                proof {
                    lemma_scan_at(
                        old(self).lexer.source(),
                        old(self).lexer.end_pos(),
                        s1.lexer.current(),
                        s1.lexer.pos(),
                        s1.lexer.end_pos(),
                    );
                }
                if self.expect_token(Token::Identifier).is_err() {
                    let ghost e = *self;
                    self.skip_statement();
                    proof {
                        lemma_continues_trans(&s1, &e, self);
                        lemma_continues_trans(old(self), &s1, self);
                        assert(self.segment(old(self)) =~= Seq::<Instruction>::empty());
                    }
                    return Err(());
                }
                let name = self.lexer.slice();
                self.advance();
                let ghost s2 = *self;
                proof {
                    lemma_scan_at(s1.lexer.source(), s1.lexer.end_pos(), s2.lexer.current(), s2.lexer.pos(), s2.lexer.end_pos());
                }
                if self.expect_token(Token::Assign).is_err() {
                    let ghost e = *self;
                    self.skip_statement();
                    proof {
                        lemma_continues_trans(old(self), &s1, &s2);
                        lemma_continues_trans(&s2, &e, self);
                        lemma_continues_trans(old(self), &s2, self);
                        assert(self.segment(old(self)) =~= Seq::<Instruction>::empty());
                    }
                    return Err(());
                }
                self.advance();
                let ghost s3 = *self;
                let value = self.parse_expression();
                let ghost s4 = *self;
                self.end_statement();
                let ghost s5 = *self;
                proof {
                    lemma_continues_trans(old(self), &s1, &s2);
                    lemma_continues_trans(old(self), &s2, &s3);
                    lemma_continues_trans(&s3, &s4, &s5);
                    lemma_continues_trans(old(self), &s3, &s5);
                }
                let variable = if let Variable::Id(variable) = value {
                    variable
                } else {
                    let variable = self.function.new_variable();
                    let ghost s6 = *self;
                    proof {
                        assert(self.errors@.subrange(0, s5.errors@.len() as int) =~= s5.errors@);
                        assert(self.function.instructions@.subrange(0, s5.function.instructions@.len() as int)
                            =~= s5.function.instructions@);
                        assert(self.function.arguments@.subrange(0, s5.function.arguments@.len() as int) =~= s5.function.arguments@);
                        assert(ids_below(self.scope@, self.function.variables_metadata@.len()));
                    }
                    self.emit(Instruction::Assign { variable, value });
                    proof {
                        lemma_continues_trans(&s5, &s6, self);
                    }
                    variable
                };
                let ghost s7 = *self;
                self.scope.define_variable(nesting, name, variable);
                proof {
                    lemma_continues_refl(&s7);
                    assert(self.continues(&s7));
                    assert(ids_below(self.scope@, self.function.variables_metadata@.len())) by {
                        assert forall|i: int| 0 <= i < self.scope@.len() implies (#[trigger] self.scope@[i]).id.0
                            < self.function.variables_metadata@.len() by {
                            if i < s7.scope@.len() {
                                assert(self.scope@[i] == s7.scope@[i]);
                            }
                        }
                    }
                    lemma_continues_trans(&s5, &s7, self);
                    lemma_continues_trans(old(self), &s5, self);
                    lemma_continues_trans(&s3, &s5, self);
                    assert forall|i: int| 0 <= i < self.segment(old(self)).len() implies crate::compiler::hir::definition::neutral(
                        #[trigger] self.segment(old(self))[i],
                    ) by {
                        let k = old(self).function.instructions@.len() + i;
                        assert(self.segment(old(self))[i] == self.function.instructions@[k]);
                        if k < s4.function.instructions@.len() {
                            assert(self.function.instructions@[k] == s4.function.instructions@[k]);
                        }
                    }
                    lemma_neutral_balanced(self.segment(old(self)));
                }
            },
            Token::Identifier => {
                self.parse_statement_expression();
                proof {
                    assert forall|i: int| 0 <= i < self.segment(old(self)).len() implies crate::compiler::hir::definition::neutral(
                        #[trigger] self.segment(old(self))[i],
                    ) by {
                        assert(self.segment(old(self))[i] == self.function.instructions@[old(self).function.instructions@.len() + i]);
                    }
                    lemma_neutral_balanced(self.segment(old(self)));
                }
            },
            Token::If => {
                self.parse_if_chain(nesting);
            },
            Token::Else => {
                self.unexpected_token("if before else");
                let ghost s1 = *self;
                self.skip_statement();
                proof {
                    lemma_continues_trans(old(self), &s1, self);
                    assert(self.segment(old(self)) =~= Seq::<Instruction>::empty());
                }
            },
            Token::While => {
                self.parse_while(nesting);
            },
            _ => {
                self.unexpected_token("statement");
                let ghost s1 = *self;
                self.skip_statement();
                proof {
                    lemma_continues_trans(old(self), &s1, self);
                    assert(self.segment(old(self)) =~= Seq::<Instruction>::empty());
                }
            },
        };
        Ok(())
    }

    /// `while <condition>` and its block: the condition is checked at the start of
    /// each iteration, and breaks the loop when false.
    #[verifier::rlimit(60)]
    fn parse_while(&mut self, nesting: usize)
        requires
            old(self).wf(),
            nesting <= old(self).lexer.pos(),
            old(self).lexer.current() is While,
        ensures
            final(self).wf(),
            final(self).continues(old(self)),
            balanced(final(self).segment(old(self))),
            final(self).lexer.pos() > old(self).lexer.pos(),
            loop_shape(final(self).segment(old(self))),
            block_ended(final(self).lexer, (nesting + 1) as usize),
            final(self).while_head(old(self), nesting),
            final(self).while_body(old(self), nesting),
        decreases old(self).lexer.source().len() - old(self).lexer.pos(), 0int,
    {
        proof {
            lemma_continues_refl(self);
            lemma_seg_empty(self);
        }
        self.advance();
        let ghost s1 = *self;
        proof {
            lemma_seg_empty_after(old(self), &s1);
            lemma_scan_at(old(self).lexer.source(), old(self).lexer.end_pos(), s1.lexer.current(), s1.lexer.pos(), s1.lexer.end_pos());
        }
        self.emit(Instruction::LoopStart);
        let ghost s2 = *self;
        let ghost cond_calls = expression_parsed(
            s2.lexer.source(),
            s2.scope@,
            s2.cursor(),
            s2.function.variables_metadata@.len(),
        ).calls;
        proof {
            lemma_seg_push_delta(old(self), &s1, &s2, Seq::empty());
            assert(step_scopes(Seq::empty(), Instruction::LoopStart)->0 =~= seq![ScopeKind::Loop]);
        }
        let condition = self.parse_expression();
        let ghost s3 = *self;
        self.end_statement();
        let ghost s4 = *self;
        proof {
            lemma_seg_straight(&s2, &s3, &s4);
            lemma_seg_extend(old(self), &s2, &s4, seq![ScopeKind::Loop]);
        }
        self.emit(Instruction::IfStart(condition, RunIf::False));
        let ghost s5 = *self;
        proof {
            lemma_seg_push_delta(old(self), &s4, &s5, seq![ScopeKind::Loop]);
            assert(step_scopes(seq![ScopeKind::Loop], Instruction::IfStart(condition, RunIf::False))->0
                =~= seq![ScopeKind::Loop, ScopeKind::If]);
        }
        self.emit(Instruction::Break);
        let ghost s6 = *self;
        proof {
            assert(seq![ScopeKind::Loop, ScopeKind::If][0] == ScopeKind::Loop);
            lemma_seg_push_delta(old(self), &s5, &s6, seq![ScopeKind::Loop, ScopeKind::If]);
        }
        self.emit(Instruction::IfEnd(1));
        let ghost s7 = *self;
        proof {
            lemma_seg_push_delta(old(self), &s6, &s7, seq![ScopeKind::Loop, ScopeKind::If]);
            assert(step_scopes(seq![ScopeKind::Loop, ScopeKind::If], Instruction::IfEnd(1))->0
                =~= seq![ScopeKind::Loop]);
        }
        self.parse_block(nesting + 1);
        let ghost s8 = *self;
        proof {
            lemma_seg_extend(old(self), &s7, &s8, seq![ScopeKind::Loop]);
        }
        self.emit(Instruction::LoopEnd);
        proof {
            let base = old(self).function.instructions@.len() as int;
            let seg = self.segment(old(self));
            let k = s4.function.instructions@.len() - base;
            assert(self.function.instructions@.subrange(0, s7.function.instructions@.len() as int)
                == s7.function.instructions@);
            assert(seg[0] == s7.function.instructions@[base]);
            assert(seg[k] == s7.function.instructions@[base + k]);
            assert(seg[k + 1] == s7.function.instructions@[base + k + 1]);
            assert(seg[k + 2] == s7.function.instructions@[base + k + 2]);
            assert forall|i: int| 1 <= i < k implies (#[trigger] seg[i] is Call || seg[i] is Assign) by {
                assert(seg[i] == s7.function.instructions@[base + i]);
                assert(s7.function.instructions@[base + i] == s3.function.instructions@[base + i]);
            }
            assert(seg[k] matches Instruction::IfStart(_, RunIf::False));
            assert(seg.subrange(0, k) =~= s3.function.instructions@.subrange(base, s3.function.instructions@.len() as int));
            assert(seg[k]->IfStart_0 == condition);
            if k > 1 {
                assert(seg.subrange(0, k).last() == s3.function.instructions@.last());
            }
            assert(self.function.instructions@.subrange(0, s8.function.instructions@.len() as int)
                =~= s8.function.instructions@);
            assert(seg.subrange(k + 3, seg.len() - 1) =~= s8.segment(&s7));
            let steps = choose|st: Seq<(FunctionParser<'code>, FunctionParser<'code>)>| #[trigger] s8.block_read(
                &s7,
                (nesting + 1) as usize,
                st,
            );
            assert(s8.block_read(&s7, (nesting + 1) as usize, steps));
            assert(s3.module.names().submap_of(self.module.names())) by {
                lemma_continues_trans(&s3, &s4, &s5);
                lemma_continues_trans(&s3, &s5, &s6);
                lemma_continues_trans(&s3, &s6, &s7);
                lemma_continues_trans(&s3, &s7, &s8);
                lemma_continues_trans(&s3, &s8, self);
            }
            lemma_call_code_names(
                cond_calls,
                s3.module.names(),
                self.module.names(),
                s2.function.variables_metadata@.len(),
                s2.function.arguments@.len(),
                s2.function.calls as nat,
            );
            assert(seg.subrange(1, k) =~= s3.function.instructions@.subrange(base + 1, s3.function.instructions@.len() as int));
            crate::compiler::parser::grammar::lemma_call_code_len(
                cond_calls,
                s3.module.names(),
                s2.function.variables_metadata@.len(),
                s2.function.arguments@.len(),
                s2.function.calls as nat,
            );
            assert(k == 1 + cond_calls.len());
            lemma_seg_push_delta(old(self), &s8, self, seq![ScopeKind::Loop]);
            assert(seg.subrange(1, k) == call_code(
                cond_calls,
                self.module.names(),
                old(self).function.variables_metadata@.len(),
                old(self).function.arguments@.len(),
                old(self).function.calls as nat,
            ));
            assert(self.condition_at(old(self), 1, RunIf::False));
            assert(seg[0] == Instruction::LoopStart);
            assert(seg[k + 1] == Instruction::Break);
            assert(step_scopes(seq![ScopeKind::Loop], Instruction::LoopEnd)->0 =~= Seq::<ScopeKind>::empty());
            lemma_balanced_delta(self.segment(old(self)));
        }
    }

    /// `if <condition>`, its block, and the `else if` and `else` that follow it.
    #[verifier::rlimit(80)]
    #[verifier::spinoff_prover]
    fn parse_if_chain(&mut self, nesting: usize)
        requires
            old(self).wf(),
            nesting <= old(self).lexer.pos(),
            old(self).lexer.current() is If,
        ensures
            final(self).wf(),
            final(self).continues(old(self)),
            balanced(final(self).segment(old(self))),
            final(self).lexer.pos() > old(self).lexer.pos(),
            final(self).segment(old(self)).len() > 0,
            final(self).segment(old(self)).last() matches Instruction::IfEnd(n)
                && if_chain_read(final(self).segment(old(self)), n as nat, final(self).lexer.current()),
            block_ended(final(self).lexer, (nesting + 1) as usize),
            final(self).condition_at(old(self), 0, RunIf::True),
            final(self).segment(old(self)).last() matches Instruction::IfEnd(n)
                && final(self).chain_read(old(self), n as nat, (nesting + 1) as usize),
        decreases old(self).lexer.source().len() - old(self).lexer.pos(), 0int,
    {
        proof {
            lemma_continues_refl(self);
            lemma_seg_empty(self);
            assert(open_ifs(0) =~= Seq::<ScopeKind>::empty());
        }
        let mut if_chain_size: usize = 0;
        let mut more = true;
        let ghost mut pieces: Seq<Seq<Instruction>> = seq![Seq::empty()];
        let ghost first = expression_parsed(
            old(self).lexer.source(),
            old(self).scope@,
            next_token(old(self).lexer.source(), old(self).cursor()),
            old(self).function.variables_metadata@.len(),
        );
        let ghost mut first_names: Map<Seq<u8>, FnId> = Map::empty();
        let ghost mut heads: Seq<FunctionParser<'code>> = seq![];
        let ghost mut elses: Seq<(Token, int, int)> = seq![];
        let ghost mut pending: (Token, int, int) = old(self).cursor();
        proof {
            assert(self.segment(old(self)) =~= joined(pieces));
        }
        while more
            invariant
                self.wf(),
                self.continues(old(self)),
                old(self).wf(),
                nesting <= old(self).lexer.pos(),
                runs_delta(self.segment(old(self)), open_ifs(if_chain_size as nat)),
                if_chain_size <= self.lexer.pos() - old(self).lexer.pos(),
                more ==> self.lexer.current() is If,
                !more ==> self.lexer.pos() > old(self).lexer.pos(),
                self.segment(old(self)) == joined(pieces),
                forall|j: int| 0 <= j < if_chain_size ==> if_link(#[trigger] pieces[j]),
                more ==> pieces.len() == if_chain_size + 1 && pieces[if_chain_size as int].len() == 0,
                !more ==> if_chain_size > 0 && (pieces.len() == if_chain_size || (pieces.len()
                    == if_chain_size + 1 && balanced(pieces[if_chain_size as int]))),
                !more ==> block_ended(self.lexer, (nesting + 1) as usize),
                !more && pieces.len() == if_chain_size ==> !(self.lexer.current() is Else),
                if_chain_size == 0 ==> *self == *old(self),
                forall|j: int|
                    0 <= j < if_chain_size ==> self.link_block(old(self), #[trigger] pieces[j], (nesting + 1) as usize),
                !more && pieces.len() == if_chain_size + 1 ==> self.is_block(
                    old(self),
                    pieces[if_chain_size as int],
                    (nesting + 1) as usize,
                ),
                if_chain_size > 0 ==> starts_with_condition(
                    pieces[0],
                    first.calls,
                    first.value,
                    first_names,
                    old(self).function,
                ),
                if_chain_size > 0 ==> first_names.submap_of(self.module.names()),
                if_chain_size > 0 ==> forall|i: int|
                    0 <= i < first.calls.len() ==> first_names.dom().contains(#[trigger] first.calls[i].name),
                first == expression_parsed(
                    old(self).lexer.source(),
                    old(self).scope@,
                    next_token(old(self).lexer.source(), old(self).cursor()),
                    old(self).function.variables_metadata@.len(),
                ),
                heads.len() == if_chain_size,
                if_chain_size > 0 ==> heads[0] == *old(self),
                forall|j: int|
                    0 <= j < if_chain_size ==> (#[trigger] heads[j]).lexer.source() == old(self).lexer.source()
                        && old(self).lexer.pos() <= heads[j].lexer.pos() < self.lexer.pos()
                        && self.link_condition(&heads[j], pieces[j]),
                elses.len() == if_chain_size,
                forall|j: int|
                    0 < j < if_chain_size ==> (#[trigger] elses[j]).0 is Else && heads[j - 1].lexer.pos() < elses[j].1
                        && heads[j].cursor() == next_token(old(self).lexer.source(), elses[j]),
                more && if_chain_size > 0 ==> pending.0 is Else && heads[if_chain_size - 1].lexer.pos() < pending.1
                    && self.cursor() == next_token(old(self).lexer.source(), pending),
            decreases self.lexer.source().len() - self.lexer.pos(), if more { 1int } else { 0int },
        {
            let ghost s0 = *self;
            let ghost k = if_chain_size as nat;
            let ghost heads0 = heads;
            let ghost elses0 = elses;
            proof {
                heads = heads.push(s0);
                elses = elses.push(pending);
            }
            if_chain_size = if_chain_size + 1;
            self.advance();
            let ghost s1 = *self;
            proof {
                lemma_seg_empty_after(&s0, &s1);
                lemma_seg_extend(old(self), &s0, &s1, open_ifs(k));
            }
            // if condition
            let condition = self.parse_expression();
            let ghost s2 = *self;
            self.end_statement();
            let ghost s3 = *self;
            proof {
                lemma_seg_straight(&s1, &s2, &s3);
                lemma_seg_extend(old(self), &s1, &s3, open_ifs(k));
            }
            self.emit(Instruction::IfStart(condition, RunIf::True));
            let ghost s4 = *self;
            proof {
                lemma_seg_push_delta(old(self), &s3, &s4, open_ifs(k));
                assert(step_scopes(open_ifs(k), Instruction::IfStart(condition, RunIf::True))->0
                    =~= open_ifs(k + 1));
            }
            // if body
            self.parse_block(nesting + 1);
            let ghost s5 = *self;
            proof {
                lemma_seg_extend(old(self), &s4, &s5, open_ifs(k + 1));
                lemma_continues_trans(&s0, &s1, &s3);
                lemma_continues_trans(&s0, &s3, &s4);
                lemma_continues_trans(&s0, &s4, &s5);
                lemma_link(&s0, &s1, &s2, &s3, &s4, &s5, condition);
                lemma_segment_concat(old(self), &s0, &s5);
                lemma_joined_extend(pieces, s5.segment(&s0));
                assert(pieces[k as int] + s5.segment(&s0) =~= s5.segment(&s0));
                let body_steps = choose|st: Seq<(FunctionParser<'code>, FunctionParser<'code>)>| #[trigger] s5.block_read(
                    &s4,
                    (nesting + 1) as usize,
                    st,
                );
                assert(s5.block_read(&s4, (nesting + 1) as usize, body_steps));
                let w = s3.function.instructions@.len() - s0.function.instructions@.len();
                let piece = s5.segment(&s0);
                assert(s5.is_block(old(self), piece.subrange(w + 1, piece.len() as int), (nesting + 1) as usize));
                assert(link_at(piece, w));
                assert(s5.link_block(old(self), piece, (nesting + 1) as usize));
                assert forall|j: int| 0 <= j < k implies s5.link_block(old(self), #[trigger] pieces[j], (nesting + 1) as usize) by {
                    lemma_link_block_later(old(self), &s0, &s5, pieces[j], (nesting + 1) as usize);
                }
                let pieces0 = pieces;
                pieces = pieces.update(k as int, s5.segment(&s0));
                let ek = expression_parsed(
                    s0.lexer.source(),
                    s0.scope@,
                    next_token(s0.lexer.source(), s0.cursor()),
                    s0.function.variables_metadata@.len(),
                );
                lemma_first_condition(&s0, &s1, &s2, &s3, &s4, &s5, condition, ek);
                lemma_link_condition_from(&s0, &s5, s5.segment(&s0), s2.module.names());
                assert forall|j: int| 0 <= j < k implies s5.link_condition(&heads[j], pieces[j]) by {
                    assert(heads[j] == heads0[j]);
                    assert(pieces[j] == pieces0[j]);
                    lemma_link_condition_later(&heads[j], pieces[j], &s0, &s5);
                }
                if k == 0 {
                    first_names = s2.module.names();
                } else {
                    vstd::map_lib::lemma_submap_of_trans(first_names, s0.module.names(), s5.module.names());
                }
            }
            more = false;
            // else / else if
            if self.lexer.token() == Token::Else {
                self.advance();
                let ghost s6 = *self;
                proof {
                    lemma_seg_empty_after(&s5, &s6);
                    lemma_seg_extend(old(self), &s5, &s6, open_ifs(k + 1));
                }
                self.emit(Instruction::Else);
                let ghost s7 = *self;
                proof {
                    assert(open_ifs(k + 1).last() == ScopeKind::If);
                    lemma_seg_push_delta(old(self), &s6, &s7, open_ifs(k + 1));
                    lemma_joined_push_empty(pieces);
                    assert(s7.segment(old(self)) =~= s5.segment(old(self)).push(Instruction::Else));
                    pieces = pieces.push(Seq::empty());
                    vstd::map_lib::lemma_submap_of_trans(first_names, s5.module.names(), s6.module.names());
                    vstd::map_lib::lemma_submap_of_trans(first_names, s6.module.names(), s7.module.names());
                }
                proof {
                    lemma_continues_trans(&s5, &s6, &s7);
                    lemma_scan_at(s5.lexer.source(), s5.lexer.end_pos(), s6.lexer.current(), s6.lexer.pos(), s6.lexer.end_pos());
                    assert(s7.cursor() == next_token(old(self).lexer.source(), s5.cursor()));
                    pending = s5.cursor();
                    assert forall|j: int| 0 <= j <= k implies s7.link_condition(&heads[j], pieces[j]) by {
                        lemma_link_condition_later(&heads[j], pieces[j], &s5, &s7);
                    }
                }
                if self.lexer.token() == Token::If {
                    more = true;
                } else {
                    // else body
                    self.end_statement();
                    let ghost s8 = *self;
                    proof {
                        lemma_seg_straight(&s7, &s7, &s8);
                        lemma_seg_extend(old(self), &s7, &s8, open_ifs(k + 1));
                    }
                    self.parse_block(nesting + 1);
                    proof {
                        lemma_seg_extend(old(self), &s8, self, open_ifs(k + 1));
                        assert(s8.segment(old(self)) == s7.segment(old(self)));
                        lemma_segment_concat(old(self), &s8, self);
                        lemma_joined_extend(pieces, self.segment(&s8));
                        assert(pieces[k + 1int] + self.segment(&s8) =~= self.segment(&s8));
                        let else_steps = choose|st: Seq<(FunctionParser<'code>, FunctionParser<'code>)>| #[trigger] self.block_read(
                            &s8,
                            (nesting + 1) as usize,
                            st,
                        );
                        assert(self.block_read(&s8, (nesting + 1) as usize, else_steps));
                        assert(self.is_block(old(self), self.segment(&s8), (nesting + 1) as usize));
                        assert forall|j: int| 0 <= j < k + 1 implies self.link_block(
                            old(self),
                            #[trigger] pieces[j],
                            (nesting + 1) as usize,
                        ) by {
                            lemma_link_block_later(old(self), &s5, self, pieces[j], (nesting + 1) as usize);
                        }
                        pieces = pieces.update(k + 1int, self.segment(&s8));
                        vstd::map_lib::lemma_submap_of_trans(first_names, s7.module.names(), s8.module.names());
                        vstd::map_lib::lemma_submap_of_trans(first_names, s8.module.names(), self.module.names());
                        lemma_continues_trans(&s7, &s8, self);
                        assert forall|j: int| 0 <= j <= k implies self.link_condition(&heads[j], pieces[j]) by {
                            lemma_link_condition_later(&heads[j], pieces[j], &s7, self);
                        }
                    }
                }
            }
            proof {
                assert forall|j: int| 0 < j < if_chain_size implies (#[trigger] elses[j]).0 is Else && heads[j
                    - 1].lexer.pos() < elses[j].1 && heads[j].cursor() == next_token(old(self).lexer.source(), elses[j]) by {
                    if j < k {
                        assert(heads[j] == heads0[j]);
                        assert(elses[j] == elses0[j]);
                        assert(heads[j - 1] == heads0[j - 1]);
                    } else {
                        assert(heads[j] == s0);
                        assert(elses[j] == elses0.push(elses[j])[j]);
                        assert(heads[j - 1] == heads0[j - 1]);
                    }
                }
            }
        }
        let ghost s9 = *self;
        self.emit(Instruction::IfEnd(if_chain_size));
        proof {
            let d = open_ifs(if_chain_size as nat);
            lemma_seg_push_delta(old(self), &s9, self, d);
            assert(self.segment(old(self)) =~= s9.segment(old(self)).push(Instruction::IfEnd(if_chain_size)));
            assert(step_scopes(d, Instruction::IfEnd(if_chain_size))->0 =~= Seq::<ScopeKind>::empty());
            lemma_balanced_delta(self.segment(old(self)));
            assert(chain_of(self.segment(old(self)), pieces, if_chain_size as nat));
            assert(pieces.len() == if_chain_size ==> !(self.lexer.current() is Else));
            lemma_chain_heads_kept(old(self), &s9, self, heads, elses, pieces, if_chain_size as nat);
            assert(self.chain_read(old(self), if_chain_size as nat, (nesting + 1) as usize)) by {
                reveal(FunctionParser::chain_read);
            }
            lemma_joined_prefix(pieces);
            vstd::map_lib::lemma_submap_of_trans(first_names, s9.module.names(), self.module.names());
            lemma_call_code_names(
                first.calls,
                first_names,
                self.module.names(),
                old(self).function.variables_metadata@.len(),
                old(self).function.arguments@.len(),
                old(self).function.calls as nat,
            );
            lemma_call_code_len(
                first.calls,
                first_names,
                old(self).function.variables_metadata@.len(),
                old(self).function.arguments@.len(),
                old(self).function.calls as nat,
            );
            let seg = self.segment(old(self));
            let kk = first.calls.len() as int;
            assert(seg.subrange(0, kk) =~= pieces[0].subrange(0, kk));
            assert(seg[kk] == pieces[0][kk]);
        }
    }
}

/// The first link of a chain starts with the code of the expression after `if`, then
/// an `if` on its value.
proof fn lemma_first_condition<'code>(
    s0: &FunctionParser<'code>,
    s1: &FunctionParser<'code>,
    s2: &FunctionParser<'code>,
    s3: &FunctionParser<'code>,
    s4: &FunctionParser<'code>,
    s5: &FunctionParser<'code>,
    condition: Variable,
    first: Parsed,
)
    requires
        first == expression_parsed(
            s0.lexer.source(),
            s0.scope@,
            next_token(s0.lexer.source(), s0.cursor()),
            s0.function.variables_metadata@.len(),
        ),
        crate::compiler::lexer::scan::scanned(
            s0.lexer.source(),
            s0.lexer.end_pos(),
            s1.lexer.current(),
            s1.lexer.pos(),
            s1.lexer.end_pos(),
        ),
        s1.lexer.source() == s0.lexer.source(),
        s1.function == s0.function,
        s1.scope == s0.scope,
        ({
            let e = expression_parsed(
                s1.lexer.source(),
                s1.scope@,
                s1.cursor(),
                s1.function.variables_metadata@.len(),
            );
            &&& condition == e.value
            &&& emitted(s1.function, s2.function, s2.module.names(), e.calls)
        }),
        s3.function == s2.function,
        s3.continues(s2),
        s4.function.instructions@ == s3.function.instructions@.push(Instruction::IfStart(condition, RunIf::True)),
        s4.continues(s3),
        s5.continues(s4),
    ensures
        starts_with_condition(s5.segment(s0), first.calls, first.value, s2.module.names(), s0.function),
        s2.module.names().submap_of(s5.module.names()),
        forall|i: int|
            0 <= i < first.calls.len() ==> s2.module.names().dom().contains(#[trigger] first.calls[i].name),
{
    lemma_scan_at(s0.lexer.source(), s0.lexer.end_pos(), s1.lexer.current(), s1.lexer.pos(), s1.lexer.end_pos());
    lemma_continues_trans(s2, s3, s4);
    lemma_continues_trans(s2, s4, s5);
    let base = s0.function.instructions@.len() as int;
    let code = call_code(
        first.calls,
        s2.module.names(),
        s0.function.variables_metadata@.len(),
        s0.function.arguments@.len(),
        s0.function.calls as nat,
    );
    lemma_call_code_len(
        first.calls,
        s2.module.names(),
        s0.function.variables_metadata@.len(),
        s0.function.arguments@.len(),
        s0.function.calls as nat,
    );
    let piece = s5.segment(s0);
    assert(s1.cursor() == next_token(s0.lexer.source(), s0.cursor()));
    assert(s2.function.instructions@ == s0.function.instructions@ + code);
    assert(s5.function.instructions@.subrange(0, s4.function.instructions@.len() as int) == s4.function.instructions@);
    assert(s5.function.instructions@.subrange(0, s2.function.instructions@.len() as int) == s2.function.instructions@);
    assert forall|i: int| 0 <= i < code.len() implies piece.subrange(0, code.len() as int)[i] == code[i] by {
        assert(piece.subrange(0, code.len() as int)[i] == s5.function.instructions@[base + i]);
        assert(s5.function.instructions@[base + i] == s5.function.instructions@.subrange(
            0,
            s2.function.instructions@.len() as int,
        )[base + i]);
        assert(s2.function.instructions@[base + i] == code[i]);
    }
    assert(piece.subrange(0, code.len() as int) =~= code);
    assert(piece[code.len() as int] == s4.function.instructions@[base + code.len()]);
}

/// The code of one link: a condition, its `if` and its block.
proof fn lemma_link<'code>(
    s0: &FunctionParser<'code>,
    s1: &FunctionParser<'code>,
    s2: &FunctionParser<'code>,
    s3: &FunctionParser<'code>,
    s4: &FunctionParser<'code>,
    s5: &FunctionParser<'code>,
    condition: Variable,
)
    requires
        s1.continues(s0),
        s2.continues(s1),
        s3.continues(s2),
        s4.continues(s3),
        s5.continues(s4),
        s1.function.instructions == s0.function.instructions,
        straight_code(s2.function.instructions@, s1.function.instructions@.len() as int),
        value_of_code(s2.function.instructions@, s1.function.instructions@.len() as int, condition),
        s3.function.instructions == s2.function.instructions,
        s4.function.instructions@ == s3.function.instructions@.push(Instruction::IfStart(condition, RunIf::True)),
        balanced(s5.segment(s4)),
    ensures
        if_link(s5.segment(s0)),
        link_at(s5.segment(s0), s3.function.instructions@.len() - s0.function.instructions@.len()),
        s5.segment(s0).subrange(
            s3.function.instructions@.len() - s0.function.instructions@.len() + 1,
            s5.segment(s0).len() as int,
        ) == s5.segment(s4),
{
    let base = s0.function.instructions@.len() as int;
    let piece = s5.segment(s0);
    let w = s3.function.instructions@.len() - base;
    lemma_continues_trans(s0, s1, s2);
    lemma_continues_trans(s0, s2, s3);
    lemma_continues_trans(s0, s3, s4);
    lemma_continues_trans(s0, s4, s5);
    assert(s5.function.instructions@.subrange(0, s4.function.instructions@.len() as int) == s4.function.instructions@);
    assert(piece.subrange(0, w) =~= s2.function.instructions@.subrange(base, s2.function.instructions@.len() as int));
    assert(piece[w] == s4.function.instructions@[base + w]);
    assert(piece.subrange(w + 1, piece.len() as int) =~= s5.segment(s4));
    if w > 0 {
        assert(piece.subrange(0, w).last() == s2.function.instructions@.last());
    }
    assert forall|i: int| 0 <= i < w implies (#[trigger] piece.subrange(0, w)[i] is Call || piece.subrange(0, w)[i] is Assign) by {
        assert(piece.subrange(0, w)[i] == s2.function.instructions@[base + i]);
    }
    assert(link_at(piece, w));
}

/// A link's block read before one state was read before any later state too.
proof fn lemma_link_block_later<'code>(
    old: &FunctionParser<'code>,
    a: &FunctionParser<'code>,
    b: &FunctionParser<'code>,
    piece: Seq<Instruction>,
    block_nesting: usize,
)
    requires
        a.link_block(old, piece, block_nesting),
        a.lexer.pos() <= b.lexer.pos(),
    ensures
        b.link_block(old, piece, block_nesting),
{
    let w = choose|w: int| #[trigger] link_at(piece, w) && a.is_block(old, piece.subrange(w + 1, piece.len() as int), block_nesting);
    let code = piece.subrange(w + 1, piece.len() as int);
    let (x, y, steps) = choose|x: FunctionParser<'code>, y: FunctionParser<'code>, steps: Seq<(FunctionParser<'code>, FunctionParser<'code>)>|
        #[trigger] y.block_read(&x, block_nesting, steps) && y.segment(&x) == code && x.lexer.source()
            == old.lexer.source() && old.lexer.pos() < x.lexer.pos() && y.lexer.pos() <= a.lexer.pos();
    assert(y.block_read(&x, block_nesting, steps));
    assert(b.is_block(old, code, block_nesting));
    assert(link_at(piece, w));
}

/// The heads of a chain read up to one state are its heads in a later state on the same
/// token.
proof fn lemma_chain_heads_kept<'code>(
    old: &FunctionParser<'code>,
    a: &FunctionParser<'code>,
    b: &FunctionParser<'code>,
    heads: Seq<FunctionParser<'code>>,
    elses: Seq<(Token, int, int)>,
    pieces: Seq<Seq<Instruction>>,
    n: nat,
)
    requires
        b.continues(a),
        b.lexer == a.lexer,
        heads.len() == n,
        n > 0 ==> heads[0] == *old,
        forall|j: int|
            0 <= j < n ==> (#[trigger] heads[j]).lexer.source() == old.lexer.source() && old.lexer.pos()
                <= heads[j].lexer.pos() < a.lexer.pos() && a.link_condition(&heads[j], pieces[j]),
        elses.len() == n,
        forall|j: int|
            0 < j < n ==> (#[trigger] elses[j]).0 is Else && heads[j - 1].lexer.pos() < elses[j].1 && heads[j].cursor()
                == next_token(old.lexer.source(), elses[j]),
    ensures
        b.chain_heads(old, heads, elses, pieces, n),
{
    assert forall|j: int| 0 <= j < n implies b.link_condition(&heads[j], pieces[j]) by {
        lemma_link_condition_later(&heads[j], pieces[j], a, b);
    }
    assert forall|j: int| 0 <= j < n implies (#[trigger] heads[j]).lexer.source() == old.lexer.source()
        && old.lexer.pos() <= heads[j].lexer.pos() < b.lexer.pos() && b.link_condition(&heads[j], pieces[j]) by {
        assert(a.link_condition(&heads[j], pieces[j]));
    }
}

/// A link that opens with the condition after its `if`, named by a map that a later
/// state extends, opens with it as that later state names it.
proof fn lemma_link_condition_from<'code>(
    head: &FunctionParser<'code>,
    s: &FunctionParser<'code>,
    piece: Seq<Instruction>,
    m: Map<Seq<u8>, FnId>,
)
    requires
        head.lexer.current() is If,
        ({
            let e = expression_parsed(
                head.lexer.source(),
                head.scope@,
                next_token(head.lexer.source(), head.cursor()),
                head.function.variables_metadata@.len(),
            );
            &&& starts_with_condition(piece, e.calls, e.value, m, head.function)
            &&& forall|i: int| 0 <= i < e.calls.len() ==> m.dom().contains(#[trigger] e.calls[i].name)
        }),
        m.submap_of(s.module.names()),
    ensures
        s.link_condition(head, piece),
{
    reveal(FunctionParser::link_condition);
    let e = expression_parsed(
        head.lexer.source(),
        head.scope@,
        next_token(head.lexer.source(), head.cursor()),
        head.function.variables_metadata@.len(),
    );
    let n = head.function.variables_metadata@.len();
    let a = head.function.arguments@.len();
    let k = head.function.calls as nat;
    lemma_call_code_names(e.calls, m, s.module.names(), n, a, k);
    lemma_call_code_len(e.calls, m, n, a, k);
    assert forall|i: int| 0 <= i < e.calls.len() implies s.module.names().dom().contains(#[trigger] e.calls[i].name) by {
        assert(m.dom().contains(e.calls[i].name));
        assert(s.module.names().dom().contains(e.calls[i].name));
    }
}

/// A link's opening condition, as one state names it, is named the same by any state
/// whose names extend those.
proof fn lemma_link_condition_later<'code>(
    head: &FunctionParser<'code>,
    piece: Seq<Instruction>,
    a: &FunctionParser<'code>,
    b: &FunctionParser<'code>,
)
    requires
        a.link_condition(head, piece),
        b.continues(a),
    ensures
        b.link_condition(head, piece),
{
    reveal(FunctionParser::link_condition);
    let e = expression_parsed(
        head.lexer.source(),
        head.scope@,
        next_token(head.lexer.source(), head.cursor()),
        head.function.variables_metadata@.len(),
    );
    lemma_call_code_names(
        e.calls,
        a.module.names(),
        b.module.names(),
        head.function.variables_metadata@.len(),
        head.function.arguments@.len(),
        head.function.calls as nat,
    );
    assert forall|i: int| 0 <= i < e.calls.len() implies b.module.names().dom().contains(#[trigger] e.calls[i].name) by {
        assert(a.module.names().dom().contains(e.calls[i].name));
        assert(b.module.names().dom().contains(e.calls[i].name));
    }
}

/// The joined pieces start with the first piece.
proof fn lemma_joined_prefix(pieces: Seq<Seq<Instruction>>)
    requires
        pieces.len() >= 1,
    ensures
        joined(pieces).len() >= pieces[0].len(),
        joined(pieces).subrange(0, pieces[0].len() as int) == pieces[0],
    decreases pieces.len(),
{
    if pieces.len() > 1 {
        lemma_joined_prefix(pieces.drop_last());
        assert(pieces.drop_last()[0] == pieces[0]);
        let j = joined(pieces.drop_last());
        assert(joined(pieces).subrange(0, pieces[0].len() as int) =~= j.subrange(0, pieces[0].len() as int));
    }
}

/// Code added to the last piece is added at the end of the joined pieces.
proof fn lemma_joined_extend(pieces: Seq<Seq<Instruction>>, x: Seq<Instruction>)
    requires
        pieces.len() >= 1,
    ensures
        joined(pieces.update(pieces.len() - 1, pieces.last() + x)) == joined(pieces) + x,
{
    let q = pieces.update(pieces.len() - 1, pieces.last() + x);
    if pieces.len() > 1 {
        assert(q.drop_last() =~= pieces.drop_last());
        assert(joined(q) =~= joined(pieces) + x);
    }
}

/// A new, empty piece adds the `Else` that separates it.
proof fn lemma_joined_push_empty(pieces: Seq<Seq<Instruction>>)
    requires
        pieces.len() >= 1,
    ensures
        joined(pieces.push(Seq::empty())) == joined(pieces).push(Instruction::Else),
{
    assert(pieces.push(Seq::empty()).drop_last() =~= pieces);
    assert(joined(pieces.push(Seq::empty())) =~= joined(pieces).push(Instruction::Else));
}

/// No instructions were added since the state itself.
proof fn lemma_seg_empty<'code>(a: &FunctionParser<'code>)
    ensures
        runs_delta(a.segment(a), Seq::empty()),
{
    assert(a.segment(a) =~= Seq::<Instruction>::empty());
    lemma_neutral_balanced(Seq::<Instruction>::empty());
    lemma_balanced_delta(Seq::<Instruction>::empty());
}

/// Moving the lexer adds no instruction.
proof fn lemma_seg_empty_after<'code>(a: &FunctionParser<'code>, b: &FunctionParser<'code>)
    requires
        b.continues(a),
        b.function.instructions == a.function.instructions,
    ensures
        runs_delta(b.segment(a), Seq::empty()),
{
    assert(b.segment(a) =~= Seq::<Instruction>::empty());
    lemma_neutral_balanced(Seq::<Instruction>::empty());
    lemma_balanced_delta(Seq::<Instruction>::empty());
}

/// Straight code opens nothing.
proof fn lemma_seg_straight<'code>(a: &FunctionParser<'code>, b: &FunctionParser<'code>, c: &FunctionParser<'code>)
    requires
        b.continues(a),
        c.continues(b),
        straight_code(b.function.instructions@, a.function.instructions@.len() as int),
        c.function.instructions == b.function.instructions,
    ensures
        c.continues(a),
        runs_delta(c.segment(a), Seq::empty()),
{
    lemma_continues_trans(a, b, c);
    assert forall|i: int| 0 <= i < c.segment(a).len() implies crate::compiler::hir::definition::neutral(
        #[trigger] c.segment(a)[i],
    ) by {
        assert(c.segment(a)[i] == b.function.instructions@[a.function.instructions@.len() + i]);
    }
    lemma_neutral_balanced(c.segment(a));
    lemma_balanced_delta(c.segment(a));
}

/// Code that opens nothing keeps what the code before it opened.
proof fn lemma_seg_extend<'code>(
    a: &FunctionParser<'code>,
    b: &FunctionParser<'code>,
    c: &FunctionParser<'code>,
    d: Seq<ScopeKind>,
)
    requires
        b.continues(a),
        c.continues(b),
        runs_delta(b.segment(a), d),
        runs_delta(c.segment(b), Seq::empty()) || balanced(c.segment(b)),
    ensures
        c.continues(a),
        runs_delta(c.segment(a), d),
{
    lemma_continues_trans(a, b, c);
    lemma_segment_concat(a, b, c);
    lemma_balanced_delta(c.segment(b));
    lemma_delta_append(b.segment(a), d, c.segment(b), Seq::empty());
    assert(d + Seq::<ScopeKind>::empty() =~= d);
}

/// Pushing one instruction applies it on top of what the code before it opened.
proof fn lemma_seg_push_delta<'code>(
    a: &FunctionParser<'code>,
    b: &FunctionParser<'code>,
    c: &FunctionParser<'code>,
    d: Seq<ScopeKind>,
)
    requires
        b.continues(a),
        c.continues(b),
        runs_delta(b.segment(a), d),
        c.function.instructions@ == b.function.instructions@.push(c.function.instructions@.last()),
        step_scopes(d, c.function.instructions@.last()) is Some,
    ensures
        c.continues(a),
        runs_delta(c.segment(a), step_scopes(d, c.function.instructions@.last())->0),
{
    lemma_continues_trans(a, b, c);
    assert(c.segment(a) =~= b.segment(a).push(c.function.instructions@.last()));
    lemma_delta_push(b.segment(a), d, c.function.instructions@.last());
}

/// The instructions since `a` are those since `a` up to `b`, then those since `b`.
pub proof fn lemma_segment_concat<'code>(
    a: &FunctionParser<'code>,
    b: &FunctionParser<'code>,
    c: &FunctionParser<'code>,
)
    requires
        b.continues(a),
        c.continues(b),
    ensures
        c.segment(a) == b.segment(a) + c.segment(b),
{
    let la = a.function.instructions@.len() as int;
    let lb = b.function.instructions@.len() as int;
    let ci = c.function.instructions@;
    assert(ci.subrange(0, lb) == b.function.instructions@);
    assert(b.segment(a) =~= ci.subrange(la, lb));
    assert(c.segment(a) =~= ci.subrange(la, lb) + ci.subrange(lb, ci.len() as int));
}

/// Balanced code followed by balanced code is balanced.
pub proof fn lemma_balanced_concat<'code>(
    a: &FunctionParser<'code>,
    b: &FunctionParser<'code>,
    c: &FunctionParser<'code>,
)
    requires
        b.continues(a),
        c.continues(b),
        balanced(b.segment(a)),
        balanced(c.segment(b)),
    ensures
        balanced(c.segment(a)),
{
    lemma_segment_concat(a, b, c);
    crate::compiler::hir::definition::lemma_balanced_append(b.segment(a), c.segment(b));
}

/// After a nested function is parsed in place of the current one and the current one
/// is put back, the state continues the one before.
proof fn lemma_restore_function<'code>(
    s4: &FunctionParser<'code>,
    inner0: &FunctionParser<'code>,
    inner1: &FunctionParser<'code>,
    s5: &FunctionParser<'code>,
)
    requires
        inner1.continues(inner0),
        inner0.lexer == s4.lexer,
        inner0.errors == s4.errors,
        inner0.module == s4.module,
        s5.lexer == inner1.lexer,
        s5.errors == inner1.errors,
        s5.module == inner1.module,
        s5.function == s4.function,
        s5.scope == s4.scope,
        s4.wf(),
        inner1.wf(),
    ensures
        s5.continues(s4),
        s5.wf(),
{
    assert(s5.function.instructions@.subrange(0, s4.function.instructions@.len() as int)
        =~= s4.function.instructions@);
    assert(s5.function.arguments@.subrange(0, s4.function.arguments@.len() as int) =~= s4.function.arguments@);
}

/// Pushing a well formed, well nested definition keeps every definition so.
pub proof fn lemma_define_ok_push<'code>(
    before: Seq<FnDefinitionStage<'code>>,
    after: Seq<FnDefinitionStage<'code>>,
    def: FnDefinition<'code>,
)
    requires
        crate::compiler::parser::definitions_ok(before),
        def.wf(),
        crate::compiler::hir::definition::well_nested(def.instructions@),
        crate::compiler::hir::definition::calls_in_range(def.instructions@, before.len()),
        after == before.push(FnDefinitionStage::Defined(def)),
    ensures
        crate::compiler::parser::definitions_ok(after),
{
    lemma_define_ok(before, after, def);
}

/// Defining a function that is well formed and well nested keeps every definition so.
proof fn lemma_define_ok<'code>(
    before: Seq<FnDefinitionStage<'code>>,
    after: Seq<FnDefinitionStage<'code>>,
    def: FnDefinition<'code>,
)
    requires
        crate::compiler::parser::definitions_ok(before),
        def.wf(),
        crate::compiler::hir::definition::well_nested(def.instructions@),
        crate::compiler::hir::definition::calls_in_range(def.instructions@, before.len()),
        after == before || after == before.push(FnDefinitionStage::Defined(def)) || exists|i: int|
            0 <= i < before.len() && after == before.update(i, FnDefinitionStage::Defined(def)),
    ensures
        crate::compiler::parser::definitions_ok(after),
        before.len() <= after.len(),
{
    assert forall|i: int| 0 <= i < after.len() implies (#[trigger] after[i] matches FnDefinitionStage::Defined(
        d,
    ) ==> d.wf() && crate::compiler::hir::definition::well_nested(d.instructions@)
        && crate::compiler::hir::definition::calls_in_range(d.instructions@, after.len())) by {
        if let FnDefinitionStage::Defined(d) = after[i] {
            if i < before.len() && after[i] == before[i] {
                crate::compiler::parser::lemma_calls_in_range_grows(d.instructions@, before.len(), after.len());
            } else {
                if after == before.push(FnDefinitionStage::Defined(def)) {
                    assert(d == def);
                } else if after != before {
                    let j = choose|j: int| 0 <= j < before.len() && after == before.update(j, FnDefinitionStage::Defined(def));
                    assert(i == j);
                    assert(d == def);
                }
                crate::compiler::parser::lemma_calls_in_range_grows(d.instructions@, before.len(), after.len());
            }
        }
    }
}

} // verus!
