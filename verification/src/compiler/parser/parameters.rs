//! The parameter list of a function definition.
use crate::compiler::hir::value::VariableId;
use crate::compiler::lexer::scan::{lemma_scan_at, scan_at};
use crate::compiler::lexer::tokens::Token;
use crate::compiler::parser::FunctionParser;
use crate::compiler::parser::scope::{FunctionScope, VariableScope};
use crate::compiler::parser::tokens::{lemma_continues_refl, lemma_continues_trans};
use vstd::prelude::*;

verus! {

/// The scan from `start` finds the identifier `name`.
pub open spec fn identifier_at(source: Seq<u8>, start: int, name: Seq<u8>) -> bool {
    let t = scan_at(source, start);
    t.0 is Identifier && name == source.subrange(t.1, t.2)
}

/// The token that follows the one scanned from `start`.
pub open spec fn token_after(source: Seq<u8>, start: int) -> (Token, int, int) {
    scan_at(source, scan_at(source, start).2)
}

/// The source holds a list of parameter names: the `i`-th is the identifier scanned from
/// `starts[i]`, a comma follows each name but the last, and the next name is scanned
/// from the end of that comma; `)` follows the last name and ends at `end`.
pub open spec fn parameter_names(source: Seq<u8>, names: Seq<Seq<u8>>, starts: Seq<int>, end: int) -> bool {
    let n = names.len() as int;
    &&& n >= 1
    &&& starts.len() == n
    &&& forall|i: int| 0 <= i < n ==> identifier_at(source, #[trigger] starts[i], names[i])
    &&& forall|i: int|
        0 <= i < n - 1 ==> (#[trigger] token_after(source, starts[i])).0 is Comma && starts[i + 1]
            == token_after(source, starts[i]).2
    &&& token_after(source, starts[n - 1]).0 is BracketClose
    &&& end == token_after(source, starts[n - 1]).2
}

/// The names of the variables of a scope from the entry `from` on.
pub open spec fn defined_names<'code>(scope: Seq<VariableScope<'code>>, from: int) -> Seq<Seq<u8>> {
    Seq::new((scope.len() - from) as nat, |i: int| scope[from + i].name@)
}

impl<'code> FunctionParser<'code> {
    /// Reads `(a, b, ...)` and defines the parameters in `scope`, numbered from 0.
    pub fn parse_parameters(&mut self, scope: &mut FunctionScope<'code>) -> (r: Result<usize, ()>)
        requires
            old(self).wf(),
        ensures
            final(self).wf(),
            final(self).continues(old(self)),
            final(self).same_code(old(self)),
            old(scope)@.len() <= final(scope)@.len(),
            final(scope)@.subrange(0, old(scope)@.len() as int) == old(scope)@,
            forall|i: int|
                old(scope)@.len() <= i < final(scope)@.len() ==> (#[trigger] final(scope)@[i]).id.0 == i
                    - old(scope)@.len() && final(scope)@[i].nesting == 0,
            r matches Ok(arity) ==> arity == final(scope)@.len() - old(scope)@.len(),
            old(self).lexer.current() is BracketOpen ==> final(self).lexer.pos() > old(self).lexer.pos(),
            !(old(self).lexer.current() is BracketOpen) ==> r is Err,
            r is Ok ==> final(self).errors == old(self).errors,
            old(self).lexer.current() is BracketOpen && (scan_at(old(self).lexer.source(), old(self).lexer.end_pos()).0 is BracketClose
                || exists|names: Seq<Seq<u8>>, starts: Seq<int>, end: int|
                #[trigger] parameter_names(old(self).lexer.source(), names, starts, end) && starts[0]
                    == old(self).lexer.end_pos()) ==> r is Ok,
            r matches Ok(a) && a == 0 ==> scan_at(old(self).lexer.source(), old(self).lexer.end_pos()) == (
                final(self).lexer.current(),
                final(self).lexer.pos(),
                final(self).lexer.end_pos(),
            ) && final(self).lexer.current() is BracketClose,
            r matches Ok(a) && a > 0 ==> exists|starts: Seq<int>, end: int|
                #[trigger] parameter_names(
                    old(self).lexer.source(),
                    defined_names(final(scope)@, old(scope)@.len() as int),
                    starts,
                    end,
                ) && starts[0] == old(self).lexer.end_pos() && scan_at(old(self).lexer.source(), end) == (
                    final(self).lexer.current(),
                    final(self).lexer.pos(),
                    final(self).lexer.end_pos(),
                ),
    {
        proof {
            lemma_continues_refl(self);
        }
        self.expect_token(Token::BracketOpen)?;
        self.advance();
        let ghost s1 = *self;
        let ghost source = old(self).lexer.source();
        let ghost q = old(self).lexer.end_pos();
        proof {
            lemma_scan_at(source, q, s1.lexer.current(), s1.lexer.pos(), s1.lexer.end_pos());
        }
        let mut arity: usize = 0;
        if self.lexer.token() == Token::BracketClose {
            assert(scope@.subrange(0, old(scope)@.len() as int) =~= old(scope)@);
            return Ok(arity);
        }
        let ghost mut starts: Seq<int> = Seq::empty();
        let ghost mut cur: int = q;
        let ghost listed = exists|names: Seq<Seq<u8>>, starts: Seq<int>, end: int|
            #[trigger] parameter_names(source, names, starts, end) && starts[0] == q;
        let ghost (wn, ws, we) = choose|names: Seq<Seq<u8>>, starts: Seq<int>, end: int|
            #[trigger] parameter_names(source, names, starts, end) && starts[0] == q;
        loop
            invariant
                source == old(self).lexer.source(),
                q == old(self).lexer.end_pos(),
                self.lexer.source() == source,
                self.errors == old(self).errors,
                scan_at(source, cur) == (self.lexer.current(), self.lexer.pos(), self.lexer.end_pos()),
                starts.len() == arity,
                arity == 0 ==> cur == q,
                arity > 0 ==> starts[0] == q,
                forall|i: int| 0 <= i < arity ==> identifier_at(source, #[trigger] starts[i], scope@[old(scope)@.len() + i].name@),
                listed ==> parameter_names(source, wn, ws, we) && arity < wn.len() && ws[arity as int] == cur,
                !(scan_at(source, q).0 is BracketClose),
                listed == exists|names: Seq<Seq<u8>>, starts: Seq<int>, end: int|
                    #[trigger] parameter_names(source, names, starts, end) && starts[0] == q,
                forall|i: int|
                    0 <= i < arity ==> (#[trigger] token_after(source, starts[i])).0 is Comma && (if i + 1 < arity {
                        starts[i + 1]
                    } else {
                        cur
                    }) == token_after(source, starts[i]).2,
                self.wf(),
                self.continues(old(self)),
                self.same_code(old(self)),
                old(self).lexer.current() is BracketOpen,
                old(self).wf(),
                self.lexer.pos() > old(self).lexer.pos(),
                arity <= self.lexer.pos() - old(self).lexer.pos(),
                scope@.len() == old(scope)@.len() + arity,
                scope@.subrange(0, old(scope)@.len() as int) == old(scope)@,
                forall|i: int|
                    old(scope)@.len() <= i < scope@.len() ==> (#[trigger] scope@[i]).id.0 == i
                        - old(scope)@.len() && scope@[i].nesting == 0,
            decreases self.lexer.source().len() - self.lexer.pos(),
        {
            let ghost s0 = *self;
            let ghost scope0 = scope@;
            let checked = self.expect_token(Token::Identifier);
            if checked.is_err() {
                proof {
                    lemma_continues_trans(old(self), &s0, self);
                    if listed {
                        assert(identifier_at(source, ws[arity as int], wn[arity as int]));
                    }
                }
                return Err(());
            }
            scope.define_variable(0, self.lexer.slice(), VariableId(arity));
            let ghost at = cur;
            let ghost starts0 = starts;
            proof {
                starts = starts.push(cur);
            }
            arity = arity + 1;
            proof {
                assert(scope@.subrange(0, old(scope)@.len() as int) =~= scope0.subrange(
                    0,
                    old(scope)@.len() as int,
                ));
                assert(identifier_at(source, at, scope@[old(scope)@.len() + arity - 1].name@));
            }
            let next = self.advance();
            let ghost s2 = *self;
            proof {
                lemma_continues_trans(old(self), &s0, &s2);
                lemma_scan_at(source, s0.lexer.end_pos(), s2.lexer.current(), s2.lexer.pos(), s2.lexer.end_pos());
                assert(token_after(source, at) == (s2.lexer.current(), s2.lexer.pos(), s2.lexer.end_pos()));
                assert forall|i: int| 0 <= i < arity implies identifier_at(source, #[trigger] starts[i], scope@[old(scope)@.len() + i].name@) by {
                    if i < arity - 1 {
                        assert(starts[i] == starts0[i]);
                        assert(scope@[old(scope)@.len() + i] == scope0[old(scope)@.len() + i]);
                    }
                }
            }
            match next {
                Token::Comma => {
                    self.advance();
                    proof {
                        lemma_continues_trans(old(self), &s2, self);
                        lemma_scan_at(source, s2.lexer.end_pos(), self.lexer.current(), self.lexer.pos(), self.lexer.end_pos());
                        cur = s2.lexer.end_pos();
                        assert forall|i: int|
                            0 <= i < arity implies (#[trigger] token_after(source, starts[i])).0 is Comma && (if i + 1 < arity {
                                starts[i + 1]
                            } else {
                                cur
                            }) == token_after(source, starts[i]).2 by {
                            if i < arity - 1 {
                                assert(starts[i] == starts0[i]);
                            }
                        }
                    }
                },
                Token::BracketClose => {
                    self.advance();
                    proof {
                        lemma_continues_trans(old(self), &s2, self);
                        lemma_scan_at(source, s2.lexer.end_pos(), self.lexer.current(), self.lexer.pos(), self.lexer.end_pos());
                        let names = defined_names(scope@, old(scope)@.len() as int);
                        let end = s2.lexer.end_pos();
                        assert forall|i: int| 0 <= i < names.len() implies identifier_at(source, #[trigger] starts[i], names[i]) by {
                            assert(names[i] == scope@[old(scope)@.len() + i].name@);
                        }
                        assert forall|i: int|
                            0 <= i < names.len() - 1 implies (#[trigger] token_after(source, starts[i])).0 is Comma && starts[i + 1]
                                == token_after(source, starts[i]).2 by {
                            assert(starts[i] == starts0[i]);
                        }
                        assert(parameter_names(source, names, starts, end));
                    }
                    return Ok(arity);
                },
                _ => {
                    self.unexpected_token("')'");
                    let ghost s3 = *self;
                    self.advance();
                    proof {
                        lemma_continues_trans(old(self), &s2, &s3);
                        lemma_continues_trans(old(self), &s3, self);
                        if listed {
                            let n = wn.len() as int;
                            if arity < n {
                                assert(token_after(source, ws[arity - 1]).0 is Comma);
                            }
                        }
                    }
                    return Err(());
                },
            }
        }
    }
}

} // verus!
