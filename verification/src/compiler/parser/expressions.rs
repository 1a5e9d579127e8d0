//! Expressions: operands, calls, assignments and binary operators by priority.
use crate::compiler::error::{CompilationError, CompilationErrorKind};
use crate::compiler::hir::definition::{FnDefinition, FnId, Instruction, operand_wf};
use crate::compiler::hir::value::{Value, Variable, VariableId};
use crate::compiler::lexer::line_span_of;
use crate::compiler::lexer::scan::scan_at;
use crate::compiler::lexer::tokens::{OperatorPriority, Token, operator_priority_of};
use crate::compiler::parser::FunctionParser;
use crate::compiler::parser::grammar::{
    CallShape, arguments_parsed, call_code, emitted, expression_parsed, items_parsed, lemma_emitted_concat, next_token,
    lemma_emitted_none, lemma_emitted_one, operand_parsed, operators_parsed,
};
use crate::compiler::parser::scope::{lemma_scope_lookup, lookup};
use crate::compiler::parser::tokens::{lemma_continues_refl, lemma_continues_trans};
use crate::compiler::text::{all_digits, decimal_value, parse_i64};
use vstd::prelude::*;

verus! {

/// The instructions from index `from` on are calls and assignments only.
pub open spec fn straight_code(insts: Seq<Instruction>, from: int) -> bool {
    forall|i: int| from <= i < insts.len() ==> (#[trigger] insts[i] is Call || insts[i] is Assign)
}

/// Straight code that follows straight code is straight code.
pub proof fn lemma_straight_trans<'code>(
    a: &FunctionParser<'code>,
    b: &FunctionParser<'code>,
    c: &FunctionParser<'code>,
)
    requires
        b.continues(a),
        c.continues(b),
        straight_code(b.function.instructions@, a.function.instructions@.len() as int),
        straight_code(c.function.instructions@, b.function.instructions@.len() as int),
    ensures
        straight_code(c.function.instructions@, a.function.instructions@.len() as int),
{
    assert forall|i: int|
        a.function.instructions@.len() <= i < c.function.instructions@.len() implies (
    #[trigger] c.function.instructions@[i] is Call || c.function.instructions@[i] is Assign) by {
        if i < b.function.instructions@.len() {
            assert(c.function.instructions@[i] == c.function.instructions@.subrange(
                0,
                b.function.instructions@.len() as int,
            )[i]);
        }
    }
}

/// The operand holds the value that the instructions from index `from` on compute: where
/// there are any, it is the result of the last one, a call that keeps its result.
pub open spec fn value_of_code(instructions: Seq<Instruction>, from: int, value: Variable) -> bool {
    instructions.len() > from ==> {
        &&& instructions.last() is Call
        &&& instructions.last()->Call_0.result is Some
        &&& value == Variable::Id(instructions.last()->Call_0.result->0)
    }
}

/// The token is a binary operator that binds at least as tightly as `min_priority`.
pub open spec fn continues_expression(token: Token, min_priority: OperatorPriority) -> bool {
    operator_priority_of(token) matches Some(p) && p >= min_priority
}

/// The instruction calls `fn_id` with two arguments, the first of which is `first`, and
/// stores the result.
pub open spec fn binary_call_at(instruction: Instruction, arguments: Seq<Variable>, fn_id: FnId, first: Variable) -> bool {
    &&& instruction matches Instruction::Call(call)
    &&& instruction->Call_0.fn_id == fn_id
    &&& instruction->Call_0.result is Some
    &&& instruction->Call_0.arguments_end == instruction->Call_0.arguments_start + 2
    &&& instruction->Call_0.arguments_end <= arguments.len()
    &&& arguments[instruction->Call_0.arguments_start as int] == first
}

/// Some instruction from index `from` on is such a call.
pub open spec fn has_binary_call(
    instructions: Seq<Instruction>,
    arguments: Seq<Variable>,
    from: int,
    fn_id: FnId,
    first: Variable,
) -> bool {
    exists|i: int| from <= i < instructions.len() && #[trigger] binary_call_at(instructions[i], arguments, fn_id, first)
}

/// The token can start an operand: a name, a literal, a bracket or a lambda.
pub open spec fn starts_operand(token: Token) -> bool {
    token is Identifier || token is Integer || token is True || token is False || token is BracketOpen
        || token is Fn
}

/// An operand valid for fewer variables stays valid for more.
pub proof fn lemma_operand_grows(v: Variable, n: nat, m: nat)
    requires
        operand_wf(v, n),
        n <= m,
    ensures
        operand_wf(v, m),
{
}

impl<'code> FunctionParser<'code> {
    /// Parses an expression that stands as a statement, and the end of its line.
    pub fn parse_statement_expression(&mut self)
        requires
            old(self).wf(),
        ensures
            final(self).wf(),
            final(self).continues(old(self)),
            final(self).scope == old(self).scope,
            straight_code(final(self).function.instructions@, old(self).function.instructions@.len() as int),
            old(self).lexer.current() is Identifier ==> final(self).lexer.pos() > old(self).lexer.pos(),
            !(final(self).lexer.current() is NewLine),
        decreases old(self).lexer.source().len() - old(self).lexer.pos(), 5int,
    {
        let ghost s0 = *self;
        let lhs = self.parse_atom(true);
        let ghost s1 = *self;
        self.parse_expression_rhs(lhs, 0, true);
        let ghost s2 = *self;
        self.end_statement();
        proof {
            lemma_continues_trans(&s0, &s1, &s2);
            lemma_continues_trans(&s0, &s2, self);
            lemma_straight_trans(&s0, &s1, &s2);
            lemma_continues_refl(self);
            lemma_straight_trans(&s0, &s2, self);
        }
    }

    /// Parses an expression and returns the operand that holds its value.
    pub fn parse_expression(&mut self) -> (r: Variable)
        requires
            old(self).wf(),
        ensures
            final(self).wf(),
            final(self).continues(old(self)),
            final(self).scope == old(self).scope,
            straight_code(final(self).function.instructions@, old(self).function.instructions@.len() as int),
            operand_wf(r, final(self).function.variables_metadata@.len()),
            value_of_code(final(self).function.instructions@, old(self).function.instructions@.len() as int, r),
            ({
                let o = expression_parsed(
                    old(self).lexer.source(),
                    old(self).scope@,
                    old(self).cursor(),
                    old(self).function.variables_metadata@.len(),
                );
                &&& final(self).cursor() == o.end
                &&& r == o.value
                &&& emitted(old(self).function, final(self).function, final(self).module.names(), o.calls)
            }),
        decreases old(self).lexer.source().len() - old(self).lexer.pos(), 3int,
    {
        let ghost s0 = *self;
        let lhs = self.parse_atom(false);
        let ghost s1 = *self;
        let ghost a_calls = operand_parsed(s0.lexer.source(), s0.scope@, s0.cursor(), s0.function.variables_metadata@.len()).calls;
        let ghost r_calls = operators_parsed(s1.lexer.source(), s1.scope@, s1.cursor(), s1.function.variables_metadata@.len(), lhs, 0).calls;
        let r = self.parse_expression_rhs(lhs, 0, false);
        proof {
            lemma_continues_trans(&s0, &s1, self);
            lemma_straight_trans(&s0, &s1, self);
            lemma_emitted_concat(
                s0.function,
                s1.function,
                self.function,
                s1.module.names(),
                self.module.names(),
                a_calls,
                r_calls,
            );
        }
        r
    }

    /// This functions expects: expr, ..., expr)
    fn parse_expression_list(&mut self) -> (r: Vec<Variable>)
        requires
            old(self).wf(),
        ensures
            final(self).wf(),
            final(self).continues(old(self)),
            final(self).scope == old(self).scope,
            straight_code(final(self).function.instructions@, old(self).function.instructions@.len() as int),
            forall|j: int| 0 <= j < r@.len() ==> operand_wf(
                #[trigger] r@[j],
                final(self).function.variables_metadata@.len(),
            ),
            ({
                let o = arguments_parsed(
                    old(self).lexer.source(),
                    old(self).scope@,
                    old(self).cursor(),
                    old(self).function.variables_metadata@.len(),
                );
                &&& final(self).cursor() == o.end
                &&& r@ == o.values
                &&& emitted(old(self).function, final(self).function, final(self).module.names(), o.calls)
            }),
        decreases old(self).lexer.source().len() - old(self).lexer.pos(), 4int,
    {
        let mut list: Vec<Variable> = Vec::new();
        proof {
            lemma_continues_refl(self);
            lemma_emitted_none(self.function, self.function, self.module.names());
        }
        if self.lexer.token() == Token::BracketClose {
            return list;
        }
        let ghost whole = items_parsed(
            old(self).lexer.source(),
            old(self).scope@,
            old(self).cursor(),
            old(self).function.variables_metadata@.len(),
        );
        let ghost mut made: Seq<CallShape> = seq![];
        proof {
            assert(made + whole.calls =~= whole.calls);
            assert(list@ + whole.values =~= whole.values);
        }
        loop
            invariant
                self.wf(),
                self.continues(old(self)),
                self.scope == old(self).scope,
                straight_code(self.function.instructions@, old(self).function.instructions@.len() as int),
                forall|j: int| 0 <= j < list@.len() ==> operand_wf(
                    #[trigger] list@[j],
                    self.function.variables_metadata@.len(),
                ),
                !(old(self).lexer.current() is BracketClose),
                whole == items_parsed(
                    old(self).lexer.source(),
                    old(self).scope@,
                    old(self).cursor(),
                    old(self).function.variables_metadata@.len(),
                ),
                emitted(old(self).function, self.function, self.module.names(), made),
                ({
                    let rest = items_parsed(
                        self.lexer.source(),
                        self.scope@,
                        self.cursor(),
                        self.function.variables_metadata@.len(),
                    );
                    &&& made + rest.calls == whole.calls
                    &&& list@ + rest.values == whole.values
                    &&& rest.end == whole.end
                }),
            decreases self.lexer.source().len() - self.lexer.pos(),
        {
            let ghost s0 = *self;
            let ghost e = expression_parsed(
                s0.lexer.source(),
                s0.scope@,
                s0.cursor(),
                s0.function.variables_metadata@.len(),
            );
            let ghost rest0 = items_parsed(
                s0.lexer.source(),
                s0.scope@,
                s0.cursor(),
                s0.function.variables_metadata@.len(),
            );
            let ghost list0 = list@;
            let value = self.parse_expression();
            let ghost s1 = *self;
            proof {
                lemma_emitted_concat(
                    old(self).function,
                    s0.function,
                    s1.function,
                    s0.module.names(),
                    s1.module.names(),
                    made,
                    e.calls,
                );
                made = made + e.calls;
            }
            list.push(value);
            proof {
                lemma_continues_trans(old(self), &s0, &s1);
                lemma_straight_trans(old(self), &s0, &s1);
                assert forall|j: int| 0 <= j < list@.len() implies operand_wf(
                    #[trigger] list@[j],
                    self.function.variables_metadata@.len(),
                ) by {
                    if j < list@.len() - 1 {
                        lemma_operand_grows(
                            list@[j],
                            s0.function.variables_metadata@.len(),
                            self.function.variables_metadata@.len(),
                        );
                    }
                }
            }
            match self.lexer.token() {
                Token::Comma => {
                    self.advance();
                    proof {
                        lemma_continues_trans(old(self), &s1, self);
                        lemma_continues_refl(self);
                        lemma_straight_trans(old(self), &s1, self);
                        lemma_advanced_one(&s1, self);
                        let rest = items_parsed(
                            self.lexer.source(),
                            self.scope@,
                            self.cursor(),
                            self.function.variables_metadata@.len(),
                        );
                        assert(rest0.calls == e.calls + rest.calls);
                        assert(made + rest.calls =~= whole.calls);
                        assert(list@ + rest.values =~= whole.values);
                    }
                },
                Token::BracketClose => {
                    self.advance();
                    proof {
                        lemma_continues_trans(old(self), &s1, self);
                        lemma_continues_refl(self);
                        lemma_straight_trans(old(self), &s1, self);
                        lemma_advanced_one(&s1, self);
                        assert(made =~= whole.calls);
                        assert(list@ =~= whole.values);
                    }
                    return list;
                },
                _ => {
                    self.unexpected_token(")");
                    proof {
                        lemma_continues_trans(old(self), &s1, self);
                        lemma_continues_refl(self);
                        lemma_straight_trans(old(self), &s1, self);
                        assert(made =~= whole.calls);
                        assert(list@ =~= whole.values);
                    }
                    return list;
                },
            }
        }
    }

    /// Parses an expression composed by operators of priority >= to `min_priority`
    /// The current token should be the operator in between lhs and rhs.
    fn parse_expression_rhs(
        &mut self,
        lhs: Variable,
        min_priority: OperatorPriority,
        is_statement: bool,
    ) -> (r: Variable)
        requires
            old(self).wf(),
            operand_wf(lhs, old(self).function.variables_metadata@.len()),
        ensures
            final(self).wf(),
            final(self).continues(old(self)),
            final(self).scope == old(self).scope,
            straight_code(final(self).function.instructions@, old(self).function.instructions@.len() as int),
            operand_wf(r, final(self).function.variables_metadata@.len()),
            !continues_expression(old(self).lexer.current(), min_priority) ==> r == lhs && *final(self) == *old(self),
            continues_expression(old(self).lexer.current(), min_priority) ==> final(self).function.instructions@.len()
                > old(self).function.instructions@.len() && value_of_code(
                final(self).function.instructions@,
                old(self).function.instructions@.len() as int,
                r,
            ),
            continues_expression(old(self).lexer.current(), min_priority) ==> (r matches Variable::Id(id)
                && old(self).function.variables_metadata@.len() <= id.0 < final(self).function.variables_metadata@.len()),
            continues_expression(old(self).lexer.current(), min_priority) ==> {
                let operator = old(self).lexer.source().subrange(old(self).lexer.pos(), old(self).lexer.end_pos());
                &&& final(self).module.names().dom().contains(operator)
                &&& has_binary_call(
                    final(self).function.instructions@,
                    final(self).function.arguments@,
                    old(self).function.instructions@.len() as int,
                    final(self).module.names()[operator],
                    lhs,
                )
            },
            ({
                let o = operators_parsed(
                    old(self).lexer.source(),
                    old(self).scope@,
                    old(self).cursor(),
                    old(self).function.variables_metadata@.len(),
                    lhs,
                    min_priority,
                );
                &&& final(self).cursor() == o.end
                &&& r == o.value
                &&& emitted(old(self).function, final(self).function, final(self).module.names(), o.calls)
            }),
        decreases old(self).lexer.source().len() - old(self).lexer.pos(), 1int,
    {
        let operator = self.lexer.token();
        let priority = match operator.operator_priority() {
            Some(p) => {
                if p >= min_priority {
                    p
                } else {
                    proof {
                        lemma_continues_refl(self);
                        lemma_emitted_none(self.function, self.function, self.module.names());
                    }
                    // The expression continues but with operators of lower priority
                    return lhs;
                }
            },
            None => {
                proof {
                    lemma_continues_refl(self);
                    lemma_emitted_none(self.function, self.function, self.module.names());
                }
                // The expression has ended
                return lhs;
            },
        };
        let ghost s0 = *self;
        let operator_name = self.lexer.slice();
        self.advance();
        let ghost s1 = *self;
        proof {
            crate::compiler::lexer::scan::lemma_scan_at(
                s0.lexer.source(),
                s0.lexer.end_pos(),
                s1.lexer.current(),
                s1.lexer.pos(),
                s1.lexer.end_pos(),
            );
        }
        let rhs = self.parse_atom(false);
        let ghost s2 = *self;
        let ghost a_calls = operand_parsed(s1.lexer.source(), s1.scope@, s1.cursor(), s1.function.variables_metadata@.len()).calls;
        let ghost rhs_atom = rhs;
        let rhs = self.parse_expression_rhs(rhs, priority + 1, false);
        let ghost s3 = *self;
        let ghost r_calls = operators_parsed(
            s2.lexer.source(),
            s2.scope@,
            s2.cursor(),
            s2.function.variables_metadata@.len(),
            rhs_atom,
            (priority + 1) as usize,
        ).calls;
        proof {
            lemma_continues_trans(&s0, &s1, &s2);
            lemma_continues_trans(&s0, &s2, &s3);
            lemma_straight_trans(&s0, &s1, &s2);
            lemma_straight_trans(&s0, &s2, &s3);
            lemma_operand_grows(
                lhs,
                s0.function.variables_metadata@.len(),
                s3.function.variables_metadata@.len(),
            );
        }
        proof {
            lemma_continues_trans(&s1, &s2, &s3);
        }
        let definition_id = self.module.get_fn_id(operator_name);
        proof {
            if self.module.stages() != s3.module.stages() {
                crate::compiler::parser::lemma_definitions_ok_push_todo(s3.module.stages(), operator_name);
            }
        }
        let result = self.function.new_variable();
        let args = [lhs, rhs];
        let ghost n = self.function.variables_metadata@.len();
        proof {
            lemma_operand_grows(lhs, s3.function.variables_metadata@.len(), n);
            lemma_operand_grows(rhs, s3.function.variables_metadata@.len(), n);
            assert(args@ =~= seq![lhs, rhs]);
        }
        self.function.push_fn_call(definition_id, args.as_slice(), Some(result));
        let ghost s4 = *self;
        proof {
            lemma_scope_grows(&s3, self);
            assert(s4.function.instructions@.subrange(0, s3.function.instructions@.len() as int)
                =~= s3.function.instructions@);
            assert(s4.function.arguments@.subrange(0, s3.function.arguments@.len() as int) =~= s3.function.arguments@);
            lemma_continues_with_call(&s0, &s1, &s3, &s4);
        }
        let ghost t_calls = operators_parsed(
            s4.lexer.source(),
            s4.scope@,
            s4.cursor(),
            s4.function.variables_metadata@.len(),
            Variable::Id(result),
            min_priority,
        ).calls;
        let r = self.parse_expression_rhs(Variable::Id(result), min_priority, is_statement);
        proof {
            let call = CallShape { name: operator_name@, args: seq![lhs, rhs] };
            lemma_emitted_one(s3.function, s4.function, s4.module.names(), call);
            lemma_emitted_concat(
                s1.function,
                s2.function,
                s3.function,
                s2.module.names(),
                s3.module.names(),
                a_calls,
                r_calls,
            );
            lemma_emitted_concat(
                s1.function,
                s3.function,
                s4.function,
                s3.module.names(),
                s4.module.names(),
                a_calls + r_calls,
                seq![call],
            );
            lemma_emitted_concat(
                s1.function,
                s4.function,
                self.function,
                s4.module.names(),
                self.module.names(),
                a_calls + r_calls + seq![call],
                t_calls,
            );
        }
        proof {
            lemma_continues_trans(&s0, &s4, self);
            lemma_straight_trans(&s0, &s4, self);
            let i = s4.function.instructions@.len() - 1;
            let start = s3.function.arguments@.len() as int;
            assert(self.function.instructions@[i] == self.function.instructions@.subrange(
                0,
                s4.function.instructions@.len() as int,
            )[i]);
            assert(self.function.arguments@[start] == self.function.arguments@.subrange(
                0,
                s4.function.arguments@.len() as int,
            )[start]);
            assert(s4.function.arguments@[start] == lhs);
            assert(s4.module.names().dom().contains(operator_name@));
            assert(s4.module.names()[operator_name@] == definition_id);
            assert(s4.module.names().submap_of(self.module.names()));
            assert(self.module.names().dom().contains(operator_name@));
            assert(self.module.names()[operator_name@] == definition_id);
            assert(s3.function.arguments.len() == s3.function.arguments@.len());
            assert(s4.function.arguments.len() == s4.function.arguments@.len());
            assert(binary_call_at(self.function.instructions@[i], self.function.arguments@, definition_id, lhs));
        }
        r
    }

    fn parse_atom(&mut self, is_statement: bool) -> (r: Variable)
        requires
            old(self).wf(),
        ensures
            final(self).wf(),
            final(self).continues(old(self)),
            final(self).scope == old(self).scope,
            straight_code(final(self).function.instructions@, old(self).function.instructions@.len() as int),
            operand_wf(r, final(self).function.variables_metadata@.len()),
            (old(self).lexer.current() is Identifier || old(self).lexer.current() is Integer
                || old(self).lexer.current() is True || old(self).lexer.current() is False
                || old(self).lexer.current() is BracketOpen) ==> final(self).lexer.pos() > old(
                self,
            ).lexer.pos(),
            !is_statement ==> value_of_code(final(self).function.instructions@, old(self).function.instructions@.len() as int, r),
            old(self).lexer.current() is Identifier ==> {
                let name = old(self).lexer.source().subrange(old(self).lexer.pos(), old(self).lexer.end_pos());
                let next = scan_at(old(self).lexer.source(), old(self).lexer.end_pos()).0;
                &&& next is BracketOpen ==> {
                    &&& final(self).module.names().dom().contains(name)
                    &&& final(self).function.instructions@.len() > old(self).function.instructions@.len()
                    &&& (final(self).function.instructions@.last() matches Instruction::Call(call)
                        && call.fn_id == final(self).module.names()[name]
                        && (call.result is None <==> is_statement)
                        && r == crate::compiler::hir::value::variable_of(call.result))
                }
                &&& next is Assign && is_statement ==> {
                    &&& r is Unknown
                    &&& lookup(old(self).scope@, name) is Some ==> final(self).function.instructions@.len()
                        > old(self).function.instructions@.len()
                        && final(self).function.instructions@.last() is Assign
                        && final(self).function.instructions@.last()->variable == lookup(old(self).scope@, name)->0
                    &&& ({
                        let e = expression_parsed(
                            old(self).lexer.source(),
                            old(self).scope@,
                            next_token(old(self).lexer.source(), next_token(old(self).lexer.source(), old(self).cursor())),
                            old(self).function.variables_metadata@.len(),
                        );
                        let code = old(self).function.instructions@ + call_code(
                            e.calls,
                            final(self).module.names(),
                            old(self).function.variables_metadata@.len(),
                            old(self).function.arguments@.len(),
                            old(self).function.calls as nat,
                        );
                        &&& final(self).cursor() == e.end
                        &&& lookup(old(self).scope@, name) matches Some(variable) ==> final(self).function.instructions@
                            == code.push(Instruction::Assign { variable, value: e.value })
                        &&& lookup(old(self).scope@, name) is None ==> final(self).function.instructions@ == code
                    })
                }
                &&& !(next is BracketOpen) && !(next is Assign && is_statement) ==> {
                    &&& r == crate::compiler::hir::value::variable_of(lookup(old(self).scope@, name))
                    &&& final(self).function.instructions == old(self).function.instructions
                    &&& final(self).module == old(self).module
                }
            },
            old(self).lexer.current() is True || old(self).lexer.current() is False ==> {
                &&& r == Variable::Const(Value::Bool(old(self).lexer.current() is True))
                &&& final(self).function == old(self).function
                &&& final(self).module == old(self).module
                &&& final(self).errors == old(self).errors
            },
            old(self).lexer.current() is Integer ==> {
                let digits = old(self).lexer.source().subrange(old(self).lexer.pos(), old(self).lexer.end_pos());
                &&& final(self).function == old(self).function
                &&& final(self).module == old(self).module
                &&& decimal_value(digits) <= i64::MAX ==> r == Variable::Const(Value::Int(decimal_value(digits) as i64))
                    && final(self).errors == old(self).errors
                &&& decimal_value(digits) > i64::MAX ==> r is Unknown && final(self).errors@.len() == old(self).errors@.len() + 1
                    && old(self).unexpected_error(final(self).errors@.last(), "i64 number")
            },
            old(self).lexer.current() is Fn ==> {
                &&& r is Unknown
                &&& final(self).lexer == old(self).lexer
                &&& final(self).function == old(self).function
                &&& final(self).errors@ == old(self).errors@.push(CompilationError {
                    span: line_span_of(old(self).lexer.line(), old(self).lexer.line_start(), old(self).lexer.pos(), old(self).lexer.end_pos()),
                    kind: CompilationErrorKind::LambdaNotImplemented,
                })
            },
            !starts_operand(old(self).lexer.current()) ==> {
                &&& r is Unknown
                &&& final(self).lexer == old(self).lexer
                &&& final(self).function == old(self).function
                &&& final(self).errors@.len() == old(self).errors@.len() + 1
                &&& old(self).unexpected_error(final(self).errors@.last(), "a variable")
            },
            !is_statement ==> ({
                let o = operand_parsed(
                    old(self).lexer.source(),
                    old(self).scope@,
                    old(self).cursor(),
                    old(self).function.variables_metadata@.len(),
                );
                &&& final(self).cursor() == o.end
                &&& r == o.value
                &&& emitted(old(self).function, final(self).function, final(self).module.names(), o.calls)
            }),
        decreases old(self).lexer.source().len() - old(self).lexer.pos(), 2int,
    {
        proof {
            lemma_continues_refl(self);
        }
        match self.lexer.token() {
            Token::Identifier => {
                let name = self.lexer.slice();
                self.advance();
                let ghost s1 = *self;
                proof {
                    crate::compiler::lexer::scan::lemma_scan_at(
                        old(self).lexer.source(),
                        old(self).lexer.end_pos(),
                        s1.lexer.current(),
                        s1.lexer.pos(),
                        s1.lexer.end_pos(),
                    );
                }
                match self.lexer.token() {
                    // Function Call
                    Token::BracketOpen => {
                        self.advance();
                        let ghost s2 = *self;
                        proof {
                            crate::compiler::lexer::scan::lemma_scan_at(
                                s1.lexer.source(),
                                s1.lexer.end_pos(),
                                s2.lexer.current(),
                                s2.lexer.pos(),
                                s2.lexer.end_pos(),
                            );
                        }
                        let ghost l_calls = arguments_parsed(
                            s2.lexer.source(),
                            s2.scope@,
                            s2.cursor(),
                            s2.function.variables_metadata@.len(),
                        ).calls;
                        let arguments = self.parse_expression_list();
                        let ghost s3 = *self;
                        proof {
                            lemma_continues_trans(old(self), &s1, &s2);
                            lemma_continues_trans(old(self), &s2, &s3);
                            lemma_continues_trans(&s1, &s2, &s3);
                            lemma_straight_trans(old(self), &s2, &s3);
                        }
                        let result = if is_statement {
                            None
                        } else {
                            Some(self.function.new_variable())
                        };
                        let ghost before_id = *self;
                        let definition_id = self.module.get_fn_id(name);
                        proof {
                            if self.module.stages() != before_id.module.stages() {
                                crate::compiler::parser::lemma_definitions_ok_push_todo(before_id.module.stages(), name);
                            }
                        }
                        let ghost n = self.function.variables_metadata@.len();
                        proof {
                            assert forall|j: int| 0 <= j < arguments@.len() implies operand_wf(
                                #[trigger] arguments@[j],
                                n,
                            ) by {
                                lemma_operand_grows(arguments@[j], s3.function.variables_metadata@.len(), n);
                            }
                        }
                        self.function.push_fn_call(definition_id, arguments.as_slice(), result);
                        proof {
                            lemma_scope_grows(&s3, self);
                            assert(self.function.instructions@.subrange(0, s3.function.instructions@.len() as int)
                                =~= s3.function.instructions@);
                            assert(self.function.arguments@.subrange(0, s3.function.arguments@.len() as int) =~= s3.function.arguments@);
                            lemma_continues_with_call(old(self), &s1, &s3, self);
                            if !is_statement {
                                let call = CallShape { name: name@, args: arguments@ };
                                lemma_emitted_one(s3.function, self.function, self.module.names(), call);
                                lemma_emitted_concat(
                                    s2.function,
                                    s3.function,
                                    self.function,
                                    s3.module.names(),
                                    self.module.names(),
                                    l_calls,
                                    seq![call],
                                );
                                assert(l_calls + seq![call] =~= l_calls.push(call));
                            }
                        }
                        Variable::from(result)
                    },
                    // Assignment
                    Token::Assign if is_statement => {
                        let variable = self.parse_variable(name);
                        let ghost s2 = *self;
                        self.advance();
                        let ghost s3 = *self;
                        proof {
                            crate::compiler::lexer::scan::lemma_scan_at(
                                s2.lexer.source(),
                                s2.lexer.end_pos(),
                                s3.lexer.current(),
                                s3.lexer.pos(),
                                s3.lexer.end_pos(),
                            );
                        }
                        let value = self.parse_expression();
                        let ghost s4 = *self;
                        proof {
                            lemma_continues_trans(old(self), &s1, &s2);
                            lemma_continues_trans(old(self), &s2, &s3);
                            lemma_continues_trans(old(self), &s3, &s4);
                            lemma_continues_refl(&s2);
                            lemma_straight_trans(old(self), &s2, &s3);
                            lemma_straight_trans(old(self), &s3, &s4);
                        }
                        if let Variable::Id(variable) = variable {
                            self.function.push(Instruction::Assign { variable, value });
                            proof {
                                assert(self.function.instructions@.subrange(0, s4.function.instructions@.len() as int)
                                    =~= s4.function.instructions@);
                                assert(self.function.arguments@.subrange(0, s4.function.arguments@.len() as int) =~= s4.function.arguments@);
                                assert(self.errors@.subrange(0, s4.errors@.len() as int) =~= s4.errors@);
                                assert(self.continues(&s4));
                                lemma_continues_trans(old(self), &s4, self);
                                assert(straight_code(self.function.instructions@, s4.function.instructions@.len() as int));
                                lemma_straight_trans(old(self), &s4, self);
                            }
                        }
                        proof {
                            assert(s3.cursor() == crate::compiler::parser::grammar::next_token(
                                old(self).lexer.source(),
                                s1.cursor(),
                            ));
                            assert(s3.function.instructions == old(self).function.instructions);
                            assert(s3.function.arguments == old(self).function.arguments);
                        }
                        Variable::Unknown
                    },
                    // Variable
                    _ => {
                        let r = self.parse_variable(name);
                        proof {
                            lemma_emitted_none(old(self).function, self.function, self.module.names());
                            lemma_continues_trans(old(self), &s1, self);
                            lemma_continues_refl(&s1);
                            lemma_straight_trans(old(self), &s1, self);
                        }
                        r
                    },
                }
            },
            Token::Integer => {
                proof {
                    lemma_integer_digits(&self.lexer);
                }
                match parse_i64(self.lexer.slice()) {
                    Some(value) => {
                        self.advance();
                        proof {
                            lemma_advanced_one(old(self), self);
                        }
                        Variable::Const(Value::Int(value))
                    },
                    None => {
                        self.unexpected_token("i64 number");
                        let ghost s1 = *self;
                        self.advance();
                        proof {
                            lemma_continues_trans(old(self), &s1, self);
                            lemma_advanced_one(&s1, self);
                            lemma_emitted_none(old(self).function, self.function, self.module.names());
                        }
                        Variable::Unknown
                    },
                }
            },
            Token::True => {
                self.advance();
                proof {
                    lemma_advanced_one(old(self), self);
                }
                Variable::Const(Value::Bool(true))
            },
            Token::False => {
                self.advance();
                proof {
                    lemma_advanced_one(old(self), self);
                }
                Variable::Const(Value::Bool(false))
            },
            Token::BracketOpen => {
                self.advance();
                let ghost s1 = *self;
                proof {
                    crate::compiler::lexer::scan::lemma_scan_at(
                        old(self).lexer.source(),
                        old(self).lexer.end_pos(),
                        s1.lexer.current(),
                        s1.lexer.pos(),
                        s1.lexer.end_pos(),
                    );
                }
                let value = self.parse_expression();
                let ghost s2 = *self;
                if self.expect_token(Token::BracketClose).is_ok() {
                    let ghost s3 = *self;
                    self.advance();
                    proof {
                        crate::compiler::lexer::scan::lemma_scan_at(
                            s3.lexer.source(),
                            s3.lexer.end_pos(),
                            self.lexer.current(),
                            self.lexer.pos(),
                            self.lexer.end_pos(),
                        );
                    }
                }
                proof {
                    lemma_continues_trans(old(self), &s1, &s2);
                    lemma_continues_trans(old(self), &s2, self);
                    lemma_straight_trans(old(self), &s1, &s2);
                    lemma_continues_refl(&s2);
                    lemma_straight_trans(old(self), &s2, self);
                }
                value
            },
            // Lambda function Definition
            Token::Fn => {
                let span = self.lexer.span();
                self.errors.push(CompilationError { span, kind: CompilationErrorKind::LambdaNotImplemented });
                proof {
                    assert(self.errors@.subrange(0, old(self).errors@.len() as int) =~= old(self).errors@);
                    lemma_emitted_none(self.function, self.function, self.module.names());
                }
                Variable::Unknown
            },
            // Errors
            _ => {
                self.unexpected_token("a variable");
                proof {
                    lemma_emitted_none(self.function, self.function, self.module.names());
                }
                Variable::Unknown
            },
        }
    }

    /// Reads a variable by name, reporting it when it is not in scope.
    pub fn parse_variable(&mut self, name: &[u8]) -> (r: Variable)
        requires
            old(self).wf(),
        ensures
            final(self).wf(),
            final(self).continues(old(self)),
            final(self).lexer == old(self).lexer,
            final(self).scope == old(self).scope,
            final(self).module == old(self).module,
            final(self).function.instructions == old(self).function.instructions,
            r == crate::compiler::hir::value::variable_of(lookup(old(self).scope@, name@)),
            lookup(old(self).scope@, name@) is None ==> {
                &&& final(self).errors@.len() == old(self).errors@.len() + 1
                &&& final(self).errors@.last().kind matches CompilationErrorKind::UndefinedVariable { name: n }
                    && n@ == name@
            },
            lookup(old(self).scope@, name@) is Some ==> final(self).errors == old(self).errors,
            operand_wf(r, final(self).function.variables_metadata@.len()),
            final(self).function.arguments == old(self).function.arguments,
            final(self).function.calls == old(self).function.calls,
            final(self).function.variables_metadata@.len() == old(self).function.variables_metadata@.len(),
    {
        let variable = self.get_variable(name);
        if variable.is_none() {
            let span = self.lexer.span();
            let copied = vstd::slice::slice_to_vec(name);
            self.errors.push(
                CompilationError { kind: CompilationErrorKind::UndefinedVariable { name: copied }, span },
            );
        }
        proof {
            assert(self.errors@.subrange(0, old(self).errors@.len() as int) =~= old(self).errors@);
            assert(self.function.instructions@.subrange(0, old(self).function.instructions@.len() as int)
                =~= old(self).function.instructions@);
            assert(self.function.arguments@.subrange(0, old(self).function.arguments@.len() as int) =~= old(self).function.arguments@);
        }
        Variable::from(variable)
    }

    /// Looks up a variable in scope, and marks it as used by the next instruction.
    pub fn get_variable(&mut self, name: &[u8]) -> (r: Option<VariableId>)
        requires
            old(self).wf(),
        ensures
            final(self).wf(),
            final(self).lexer == old(self).lexer,
            final(self).scope == old(self).scope,
            final(self).module == old(self).module,
            final(self).errors == old(self).errors,
            r == lookup(old(self).scope@, name@),
            r matches Some(id) ==> id.0 < old(self).function.variables_metadata@.len(),
            final(self).function.variables_metadata@.len() == old(self).function.variables_metadata@.len(),
            r matches Some(id) ==> final(self).function.variables_metadata@ == old(
                self,
            ).function.variables_metadata@.update(
                id.0 as int,
                crate::compiler::hir::definition::VariableMetadata {
                    defined: old(self).function.variables_metadata@[id.0 as int].defined,
                    last_use: old(self).function.instructions@.len() as usize,
                },
            ),
            r is None ==> final(self).function == old(self).function,
            final(self).function.instructions == old(self).function.instructions,
            final(self).function.arguments == old(self).function.arguments,
            final(self).function.calls == old(self).function.calls,
            final(self).function.name == old(self).function.name,
            final(self).function.parameters == old(self).function.parameters,
    {
        let variable = self.scope.get_variable(name);
        proof {
            lemma_scope_lookup(&self.scope, name@, self.function.variables_metadata@.len());
        }
        if let Some(id) = variable {
            self.function.use_variable(id);
        }
        variable
    }
}

/// A call pushed after reading at least one byte keeps the count of calls within the
/// bytes read.
proof fn lemma_continues_with_call<'code>(
    s0: &FunctionParser<'code>,
    s1: &FunctionParser<'code>,
    s3: &FunctionParser<'code>,
    s4: &FunctionParser<'code>,
)
    requires
        s1.continues(s0),
        s3.continues(s1),
        s3.continues(s0),
        s1.lexer.pos() > s0.lexer.pos(),
        s1.function.calls == s0.function.calls,
        straight_code(s3.function.instructions@, s0.function.instructions@.len() as int),
        s4.lexer == s3.lexer,
        s4.errors == s3.errors,
        s4.function.instructions@.len() == s3.function.instructions@.len() + 1,
        s4.function.instructions@.subrange(0, s3.function.instructions@.len() as int)
            == s3.function.instructions@,
        s4.function.instructions@.last() is Call,
        s4.function.calls == s3.function.calls + 1,
        s4.function.name == s3.function.name,
        s4.function.parameters == s3.function.parameters,
        s3.function.variables_metadata@.len() <= s4.function.variables_metadata@.len(),
        s3.function.arguments@.len() <= s4.function.arguments@.len(),
        s4.function.arguments@.subrange(0, s3.function.arguments@.len() as int) == s3.function.arguments@,
        s3.module.stages().len() <= s4.module.stages().len(),
        s3.module.names().submap_of(s4.module.names()),
    ensures
        s4.continues(s0),
        straight_code(s4.function.instructions@, s0.function.instructions@.len() as int),
{
    vstd::map_lib::lemma_submap_of_trans(s0.module.names(), s1.module.names(), s3.module.names());
    vstd::map_lib::lemma_submap_of_trans(s0.module.names(), s3.module.names(), s4.module.names());
    assert(s4.function.arguments@.subrange(0, s0.function.arguments@.len() as int)
        =~= s4.function.arguments@.subrange(0, s3.function.arguments@.len() as int).subrange(
        0,
        s0.function.arguments@.len() as int,
    ));
    assert(s4.function.instructions@.subrange(0, s0.function.instructions@.len() as int)
        =~= s4.function.instructions@.subrange(0, s3.function.instructions@.len() as int).subrange(
        0,
        s0.function.instructions@.len() as int,
    ));
    assert forall|i: int|
        s0.function.instructions@.len() <= i < s4.function.instructions@.len() implies (
    #[trigger] s4.function.instructions@[i] is Call || s4.function.instructions@[i] is Assign) by {
        if i < s3.function.instructions@.len() {
            assert(s4.function.instructions@[i] == s4.function.instructions@.subrange(
                0,
                s3.function.instructions@.len() as int,
            )[i]);
        }
    }
}

/// After moving one token on, with nothing else changed, the cursor is on the token
/// after the one it was on, and no code was made.
proof fn lemma_advanced_one<'code>(a: &FunctionParser<'code>, b: &FunctionParser<'code>)
    requires
        b.function == a.function,
        crate::compiler::lexer::scan::scanned(
            a.lexer.source(),
            a.lexer.end_pos(),
            b.lexer.current(),
            b.lexer.pos(),
            b.lexer.end_pos(),
        ),
    ensures
        b.cursor() == crate::compiler::parser::grammar::next_token(a.lexer.source(), a.cursor()),
        emitted(a.function, b.function, b.module.names(), seq![]),
{
    crate::compiler::lexer::scan::lemma_scan_at(
        a.lexer.source(),
        a.lexer.end_pos(),
        b.lexer.current(),
        b.lexer.pos(),
        b.lexer.end_pos(),
    );
    lemma_emitted_none(a.function, b.function, b.module.names());
}

/// The scope stays valid when the function gains variables.
proof fn lemma_scope_grows<'code>(a: &FunctionParser<'code>, b: &FunctionParser<'code>)
    requires
        crate::compiler::parser::scope::ids_below(a.scope@, a.function.variables_metadata@.len()),
        a.scope == b.scope,
        a.function.variables_metadata@.len() <= b.function.variables_metadata@.len(),
    ensures
        crate::compiler::parser::scope::ids_below(b.scope@, b.function.variables_metadata@.len()),
{
}

/// The text of an integer token is made of digits.
proof fn lemma_integer_digits<'code>(lexer: &crate::compiler::lexer::Lexer<'code>)
    requires
        lexer.wf(),
        lexer.current() is Integer,
        lexer.pos() <= lexer.end_pos() <= lexer.source().len(),
    ensures
        all_digits(lexer.source().subrange(lexer.pos(), lexer.end_pos())),
{
    lexer.lemma_token_text();
}

} // verus!
