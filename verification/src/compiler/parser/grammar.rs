//! The expression grammar over the tokens of a source, and the code an expression
//! stands for.
//!
//! A position in the token stream is a cursor: the current token with the slice it
//! covers. An expression is an operand followed by binary operators, each with an
//! operand; operators of higher priority bind first, and operators of equal priority
//! group from the left. An operand is a name, a call `name(expression, ...)`, a
//! literal, or an expression in brackets.
//!
//! Reading an expression yields the calls it makes, in the order they run (each
//! operator is a call of the function named by its text, with its two operands), the
//! operand that holds its value and the cursor after it. Each call stores its result in
//! a new variable, numbered in the order of the calls.
//!
//! Each rule reads on only from a cursor further into the source than where it started;
//! where a cursor would not be (which reading a source never gives), the rule reads
//! nothing and yields an unknown value.
use crate::compiler::hir::definition::{Call, FnDefinition, FnId, Instruction};
use crate::compiler::hir::value::{Value, Variable, VariableId, variable_of};
use crate::compiler::lexer::scan::scan_at;
use crate::compiler::lexer::tokens::{OperatorPriority, Token, operator_priority_of};
use crate::compiler::parser::scope::{VariableScope, lookup};
use crate::compiler::text::decimal_value;
use vstd::prelude::*;

verus! {

/// A call an expression makes: the name of the function and the operands handed to it.
pub struct CallShape {
    pub name: Seq<u8>,
    pub args: Seq<Variable>,
}

/// What reading an expression or an operand yields.
pub struct Parsed {
    pub calls: Seq<CallShape>,
    pub value: Variable,
    pub end: (Token, int, int),
}

/// What reading the arguments of a call yields.
pub struct ParsedList {
    pub calls: Seq<CallShape>,
    pub values: Seq<Variable>,
    pub end: (Token, int, int),
}

/// The token after the one under the cursor.
pub open spec fn next_token(src: Seq<u8>, c: (Token, int, int)) -> (Token, int, int) {
    scan_at(src, c.2)
}

/// The text of the token under the cursor.
pub open spec fn text_of(src: Seq<u8>, c: (Token, int, int)) -> Seq<u8> {
    src.subrange(c.1, c.2)
}

/// Nothing read and nothing made: the value is unknown.
pub open spec fn stuck(c: (Token, int, int)) -> Parsed {
    Parsed { calls: seq![], value: Variable::Unknown, end: c }
}

/// The variable that holds the result of the call made when `n` variables exist.
pub open spec fn result_of(n: nat) -> Variable {
    Variable::Id(VariableId(n as usize))
}

/// The value of an integer literal, when it fits in an `i64`.
pub open spec fn integer_operand(digits: Seq<u8>) -> Variable {
    if decimal_value(digits) <= i64::MAX {
        Variable::Const(Value::Int(decimal_value(digits) as i64))
    } else {
        Variable::Unknown
    }
}

/// An operand under the cursor, with `n` variables defined before it.
pub open spec fn operand_parsed<'a>(
    src: Seq<u8>,
    scope: Seq<VariableScope<'a>>,
    c: (Token, int, int),
    n: nat,
) -> Parsed
    decreases src.len() - c.1, 2int,
{
    let c1 = next_token(src, c);
    match c.0 {
        Token::Identifier => {
            if c1.0 is BracketOpen {
                let c2 = next_token(src, c1);
                if c.1 < c2.1 <= src.len() {
                    let l = arguments_parsed(src, scope, c2, n);
                    Parsed {
                        calls: l.calls.push(CallShape { name: text_of(src, c), args: l.values }),
                        value: result_of(n + l.calls.len()),
                        end: l.end,
                    }
                } else {
                    stuck(c)
                }
            } else {
                Parsed { calls: seq![], value: variable_of(lookup(scope, text_of(src, c))), end: c1 }
            }
        },
        Token::Integer => Parsed { calls: seq![], value: integer_operand(text_of(src, c)), end: c1 },
        Token::True => Parsed { calls: seq![], value: Variable::Const(Value::Bool(true)), end: c1 },
        Token::False => Parsed { calls: seq![], value: Variable::Const(Value::Bool(false)), end: c1 },
        Token::BracketOpen => {
            if c.1 < c1.1 <= src.len() {
                let e = expression_parsed(src, scope, c1, n);
                Parsed {
                    calls: e.calls,
                    value: e.value,
                    end: if e.end.0 is BracketClose {
                        next_token(src, e.end)
                    } else {
                        e.end
                    },
                }
            } else {
                stuck(c)
            }
        },
        _ => stuck(c),
    }
}

/// The operators that follow the operand `lhs` and bind at least as tightly as
/// `min_priority`, with their operands; `n` variables are defined before them.
pub open spec fn operators_parsed<'a>(
    src: Seq<u8>,
    scope: Seq<VariableScope<'a>>,
    c: (Token, int, int),
    n: nat,
    lhs: Variable,
    min_priority: OperatorPriority,
) -> Parsed
    decreases src.len() - c.1, 1int,
{
    match operator_priority_of(c.0) {
        Some(p) => {
            if p >= min_priority {
                let c1 = next_token(src, c);
                if c.1 < c1.1 <= src.len() {
                    let a = operand_parsed(src, scope, c1, n);
                    if c1.1 <= a.end.1 <= src.len() {
                        let r = operators_parsed(src, scope, a.end, n + a.calls.len(), a.value, (p + 1) as usize);
                        if a.end.1 <= r.end.1 <= src.len() {
                            let k = n + a.calls.len() + r.calls.len();
                            let call = CallShape { name: text_of(src, c), args: seq![lhs, r.value] };
                            let t = operators_parsed(src, scope, r.end, k + 1, result_of(k), min_priority);
                            Parsed { calls: a.calls + r.calls + seq![call] + t.calls, value: t.value, end: t.end }
                        } else {
                            stuck(c)
                        }
                    } else {
                        stuck(c)
                    }
                } else {
                    stuck(c)
                }
            } else {
                Parsed { calls: seq![], value: lhs, end: c }
            }
        },
        None => Parsed { calls: seq![], value: lhs, end: c },
    }
}

/// An expression under the cursor, with `n` variables defined before it.
pub open spec fn expression_parsed<'a>(
    src: Seq<u8>,
    scope: Seq<VariableScope<'a>>,
    c: (Token, int, int),
    n: nat,
) -> Parsed
    decreases src.len() - c.1, 3int,
{
    let a = operand_parsed(src, scope, c, n);
    if c.1 <= a.end.1 <= src.len() {
        let r = operators_parsed(src, scope, a.end, n + a.calls.len(), a.value, 0);
        Parsed { calls: a.calls + r.calls, value: r.value, end: r.end }
    } else {
        stuck(c)
    }
}

/// Expressions separated by commas, up to and past the closing bracket.
pub open spec fn items_parsed<'a>(
    src: Seq<u8>,
    scope: Seq<VariableScope<'a>>,
    c: (Token, int, int),
    n: nat,
) -> ParsedList
    decreases src.len() - c.1, 4int,
{
    let e = expression_parsed(src, scope, c, n);
    let c3 = next_token(src, e.end);
    if e.end.0 is Comma && c.1 < c3.1 <= src.len() {
        let rest = items_parsed(src, scope, c3, n + e.calls.len());
        ParsedList { calls: e.calls + rest.calls, values: seq![e.value] + rest.values, end: rest.end }
    } else if e.end.0 is BracketClose {
        ParsedList { calls: e.calls, values: seq![e.value], end: c3 }
    } else {
        ParsedList { calls: e.calls, values: seq![e.value], end: e.end }
    }
}

/// The arguments of a call, read after its opening bracket. An empty list leaves the
/// closing bracket under the cursor.
pub open spec fn arguments_parsed<'a>(
    src: Seq<u8>,
    scope: Seq<VariableScope<'a>>,
    c: (Token, int, int),
    n: nat,
) -> ParsedList
    decreases src.len() - c.1, 5int,
{
    if c.0 is BracketClose {
        ParsedList { calls: seq![], values: seq![], end: c }
    } else {
        items_parsed(src, scope, c, n)
    }
}

/// The operands of the calls, one after the other.
pub open spec fn flat_args(calls: Seq<CallShape>) -> Seq<Variable>
    decreases calls.len(),
{
    if calls.len() == 0 {
        seq![]
    } else {
        calls[0].args + flat_args(calls.drop_first())
    }
}

/// The instructions of the calls: the first one stores its result in variable `n`,
/// reads its arguments from index `a` of the argument buffer and is call number `k`.
pub open spec fn call_code(calls: Seq<CallShape>, names: Map<Seq<u8>, FnId>, n: nat, a: nat, k: nat) -> Seq<
    Instruction,
>
    decreases calls.len(),
{
    if calls.len() == 0 {
        seq![]
    } else {
        let first = Instruction::Call(
            Call {
                result: Some(VariableId(n as usize)),
                fn_id: names[calls[0].name],
                arguments_start: a as usize,
                arguments_end: (a + calls[0].args.len()) as usize,
                call_id: k as usize,
            },
        );
        seq![first] + call_code(calls.drop_first(), names, n + 1, a + calls[0].args.len(), k + 1)
    }
}

/// `f1` is `f0` with the calls added: their instructions, their arguments, a new
/// variable for each result, and each name known in `names`.
pub open spec fn emitted<'a>(
    f0: FnDefinition<'a>,
    f1: FnDefinition<'a>,
    names: Map<Seq<u8>, FnId>,
    calls: Seq<CallShape>,
) -> bool {
    &&& f1.instructions@ == f0.instructions@ + call_code(
        calls,
        names,
        f0.variables_metadata@.len(),
        f0.arguments@.len(),
        f0.calls as nat,
    )
    &&& f1.arguments@ == f0.arguments@ + flat_args(calls)
    &&& f1.variables_metadata@.len() == f0.variables_metadata@.len() + calls.len()
    &&& f1.calls == f0.calls + calls.len()
    &&& forall|i: int| 0 <= i < calls.len() ==> names.dom().contains(#[trigger] calls[i].name)
}

/// The operands of calls made one list after another are the two lists of operands.
pub proof fn lemma_flat_args_concat(c1: Seq<CallShape>, c2: Seq<CallShape>)
    ensures
        flat_args(c1 + c2) == flat_args(c1) + flat_args(c2),
    decreases c1.len(),
{
    if c1.len() == 0 {
        assert(c1 + c2 =~= c2);
        assert(flat_args(c1) + flat_args(c2) =~= flat_args(c2));
    } else {
        assert((c1 + c2).drop_first() =~= c1.drop_first() + c2);
        lemma_flat_args_concat(c1.drop_first(), c2);
        assert(flat_args(c1 + c2) =~= flat_args(c1) + flat_args(c2));
    }
}

/// The code of calls made one list after another is the code of the first list, then
/// that of the second, numbered on from where the first ended.
pub proof fn lemma_call_code_concat(
    c1: Seq<CallShape>,
    c2: Seq<CallShape>,
    names: Map<Seq<u8>, FnId>,
    n: nat,
    a: nat,
    k: nat,
)
    ensures
        call_code(c1 + c2, names, n, a, k) == call_code(c1, names, n, a, k) + call_code(
            c2,
            names,
            n + c1.len(),
            a + flat_args(c1).len(),
            k + c1.len(),
        ),
    decreases c1.len(),
{
    if c1.len() == 0 {
        assert(c1 + c2 =~= c2);
        assert(call_code(c1, names, n, a, k) + call_code(c2, names, n, a, k) =~= call_code(c2, names, n, a, k));
    } else {
        assert((c1 + c2).drop_first() =~= c1.drop_first() + c2);
        assert((c1 + c2)[0] == c1[0]);
        lemma_call_code_concat(c1.drop_first(), c2, names, n + 1, a + c1[0].args.len(), k + 1);
        assert(call_code(c1 + c2, names, n, a, k) =~= call_code(c1, names, n, a, k) + call_code(
            c2,
            names,
            n + c1.len(),
            a + flat_args(c1).len(),
            k + c1.len(),
        ));
    }
}

/// One instruction for each call.
pub proof fn lemma_call_code_len(calls: Seq<CallShape>, names: Map<Seq<u8>, FnId>, n: nat, a: nat, k: nat)
    ensures
        call_code(calls, names, n, a, k).len() == calls.len(),
    decreases calls.len(),
{
    if calls.len() > 0 {
        lemma_call_code_len(calls.drop_first(), names, n + 1, a + calls[0].args.len(), k + 1);
    }
}

/// The code of calls depends on the names they use only.
pub proof fn lemma_call_code_names(
    calls: Seq<CallShape>,
    m1: Map<Seq<u8>, FnId>,
    m2: Map<Seq<u8>, FnId>,
    n: nat,
    a: nat,
    k: nat,
)
    requires
        m1.submap_of(m2),
        forall|i: int| 0 <= i < calls.len() ==> m1.dom().contains(#[trigger] calls[i].name),
    ensures
        call_code(calls, m1, n, a, k) == call_code(calls, m2, n, a, k),
    decreases calls.len(),
{
    if calls.len() > 0 {
        assert(m1.dom().contains(calls[0].name));
        assert forall|i: int| 0 <= i < calls.drop_first().len() implies m1.dom().contains(
            #[trigger] calls.drop_first()[i].name,
        ) by {
            assert(calls.drop_first()[i] == calls[i + 1]);
        }
        lemma_call_code_names(calls.drop_first(), m1, m2, n + 1, a + calls[0].args.len(), k + 1);
        assert(m2.dom().contains(calls[0].name));
        assert(m2[calls[0].name] == m1[calls[0].name]);
    }
}

/// Nothing added is nothing emitted.
pub proof fn lemma_emitted_none<'a>(f0: FnDefinition<'a>, f1: FnDefinition<'a>, names: Map<Seq<u8>, FnId>)
    requires
        f1.instructions == f0.instructions,
        f1.arguments == f0.arguments,
        f1.variables_metadata@.len() == f0.variables_metadata@.len(),
        f1.calls == f0.calls,
    ensures
        emitted(f0, f1, names, seq![]),
{
    assert(f1.instructions@ =~= f0.instructions@ + call_code(
        seq![],
        names,
        f0.variables_metadata@.len(),
        f0.arguments@.len(),
        f0.calls as nat,
    ));
    assert(f1.arguments@ =~= f0.arguments@ + flat_args(seq![]));
}

/// One call, its result in a new variable.
pub proof fn lemma_emitted_one<'a>(
    f0: FnDefinition<'a>,
    f1: FnDefinition<'a>,
    names: Map<Seq<u8>, FnId>,
    call: CallShape,
)
    requires
        names.dom().contains(call.name),
        f1.instructions@ == f0.instructions@.push(
            Instruction::Call(
                Call {
                    result: Some(VariableId(f0.variables_metadata@.len() as usize)),
                    fn_id: names[call.name],
                    arguments_start: f0.arguments@.len() as usize,
                    arguments_end: (f0.arguments@.len() + call.args.len()) as usize,
                    call_id: f0.calls,
                },
            ),
        ),
        f1.arguments@ == f0.arguments@ + call.args,
        f1.variables_metadata@.len() == f0.variables_metadata@.len() + 1,
        f1.calls == f0.calls + 1,
    ensures
        emitted(f0, f1, names, seq![call]),
{
    let calls = seq![call];
    assert(calls[0] == call);
    assert(calls.drop_first() =~= Seq::<CallShape>::empty());
    assert(flat_args(calls.drop_first()) =~= Seq::<Variable>::empty());
    assert(flat_args(calls) =~= call.args);
    assert(call_code(
        calls.drop_first(),
        names,
        f0.variables_metadata@.len() + 1,
        f0.arguments@.len() + call.args.len(),
        f0.calls as nat + 1,
    ) =~= Seq::<Instruction>::empty());
    assert(call_code(calls, names, f0.variables_metadata@.len(), f0.arguments@.len(), f0.calls as nat)
        =~= seq![f1.instructions@.last()]);
    assert(f1.instructions@ =~= f0.instructions@ + call_code(
        calls,
        names,
        f0.variables_metadata@.len(),
        f0.arguments@.len(),
        f0.calls as nat,
    ));
}

/// Code emitted after code is the code of both lists of calls.
pub proof fn lemma_emitted_concat<'a>(
    f0: FnDefinition<'a>,
    f1: FnDefinition<'a>,
    f2: FnDefinition<'a>,
    m1: Map<Seq<u8>, FnId>,
    m2: Map<Seq<u8>, FnId>,
    c1: Seq<CallShape>,
    c2: Seq<CallShape>,
)
    requires
        emitted(f0, f1, m1, c1),
        emitted(f1, f2, m2, c2),
        m1.submap_of(m2),
    ensures
        emitted(f0, f2, m2, c1 + c2),
{
    let n = f0.variables_metadata@.len();
    let a = f0.arguments@.len();
    let k = f0.calls as nat;
    lemma_call_code_names(c1, m1, m2, n, a, k);
    lemma_call_code_concat(c1, c2, m2, n, a, k);
    lemma_flat_args_concat(c1, c2);
    assert(f1.arguments@.len() == a + flat_args(c1).len());
    assert(f2.instructions@ =~= f0.instructions@ + call_code(c1 + c2, m2, n, a, k));
    assert(f2.arguments@ =~= f0.arguments@ + flat_args(c1 + c2));
    assert forall|i: int| 0 <= i < (c1 + c2).len() implies m2.dom().contains(#[trigger] (c1 + c2)[i].name) by {
        if i < c1.len() {
            assert((c1 + c2)[i] == c1[i]);
        } else {
            assert((c1 + c2)[i] == c2[i - c1.len()]);
        }
    }
}

/// An expression that is a lone name, followed by a token that neither opens a call nor
/// is an operator, makes no call: its value is the variable the name stands for in the
/// scope, or unknown where it stands for none, and reading stops on the token after it.
pub proof fn lemma_lone_name<'a>(src: Seq<u8>, scope: Seq<VariableScope<'a>>, c: (Token, int, int), n: nat)
    requires
        c.0 is Identifier,
        !(next_token(src, c).0 is BracketOpen),
        operator_priority_of(next_token(src, c).0) is None,
        c.1 <= next_token(src, c).1 <= src.len(),
    ensures
        expression_parsed(src, scope, c, n) == (Parsed {
            calls: seq![],
            value: variable_of(lookup(scope, text_of(src, c))),
            end: next_token(src, c),
        }),
{
    let a = operand_parsed(src, scope, c, n);
    assert(a.calls == Seq::<CallShape>::empty());
    let r = operators_parsed(src, scope, a.end, n, a.value, 0);
    assert(r.calls == Seq::<CallShape>::empty());
    assert(a.calls + r.calls =~= Seq::<CallShape>::empty());
}

/// The token is an operand that makes no call: a literal, or a name that no bracket
/// follows.
pub open spec fn plain_operand(src: Seq<u8>, c: (Token, int, int)) -> bool {
    c.0 is Integer || c.0 is True || c.0 is False || (c.0 is Identifier && !(next_token(src, c).0 is BracketOpen))
}

/// Five tokens read one after the other from `t[0]`, each further into the source, and
/// the token after them.
pub open spec fn tokens_follow(src: Seq<u8>, t: Seq<(Token, int, int)>) -> bool {
    &&& t.len() == 6
    &&& forall|i: int| 0 <= i < 5 ==> t[i + 1] == next_token(src, #[trigger] t[i]) && t[i].1 < t[i + 1].1 <= src.len()
}

/// A product binds more tightly than a sum: in `x + y * z` (or with `-`, `/`, `mod`),
/// the product `y * z` is called first, and its result is the second operand of the
/// sum, whose result is the value of the expression.
pub proof fn lemma_product_before_sum<'a>(
    src: Seq<u8>,
    scope: Seq<VariableScope<'a>>,
    t: Seq<(Token, int, int)>,
    n: nat,
)
    requires
        tokens_follow(src, t),
        plain_operand(src, t[0]),
        t[1].0 is Add || t[1].0 is Sub,
        plain_operand(src, t[2]),
        t[3].0 is Mul || t[3].0 is Div || t[3].0 is Mod,
        plain_operand(src, t[4]),
        operator_priority_of(t[5].0) is None,
    ensures
        ({
            let x = operand_parsed(src, scope, t[0], n).value;
            let y = operand_parsed(src, scope, t[2], n).value;
            let z = operand_parsed(src, scope, t[4], n).value;
            expression_parsed(src, scope, t[0], n) == (Parsed {
                calls: seq![
                    CallShape { name: text_of(src, t[3]), args: seq![y, z] },
                    CallShape { name: text_of(src, t[1]), args: seq![x, result_of(n)] },
                ],
                value: result_of(n + 1),
                end: t[5],
            })
        }),
{
    assert(t[1] == next_token(src, t[0]) && t[0].1 < t[1].1 <= src.len());
    assert(t[2] == next_token(src, t[1]) && t[1].1 < t[2].1 <= src.len());
    assert(t[3] == next_token(src, t[2]) && t[2].1 < t[3].1 <= src.len());
    assert(t[4] == next_token(src, t[3]) && t[3].1 < t[4].1 <= src.len());
    assert(t[5] == next_token(src, t[4]) && t[4].1 < t[5].1 <= src.len());
    let x = operand_parsed(src, scope, t[0], n);
    let y = operand_parsed(src, scope, t[2], n);
    let z = operand_parsed(src, scope, t[4], n);
    assert(x.calls.len() == 0 && x.end == t[1]);
    assert(y.calls.len() == 0 && y.end == t[3]);
    assert(z.calls.len() == 0 && z.end == t[5]);
    let p1 = operator_priority_of(t[1].0)->0;
    let p2 = operator_priority_of(t[3].0)->0;
    let inner_rest = operators_parsed(src, scope, t[5], n, z.value, (p2 + 1) as usize);
    assert(inner_rest == (Parsed { calls: seq![], value: z.value, end: t[5] }));
    let call2 = CallShape { name: text_of(src, t[3]), args: seq![y.value, z.value] };
    let after2 = operators_parsed(src, scope, t[5], n + 1, result_of(n), (p1 + 1) as usize);
    assert(after2 == (Parsed { calls: seq![], value: result_of(n), end: t[5] }));
    let r = operators_parsed(src, scope, t[3], n, y.value, (p1 + 1) as usize);
    assert(r.calls =~= seq![call2]);
    assert(r.value == result_of(n) && r.end == t[5]);
    let call1 = CallShape { name: text_of(src, t[1]), args: seq![x.value, result_of(n)] };
    let last = operators_parsed(src, scope, t[5], n + 2, result_of(n + 1), 0);
    assert(last == (Parsed { calls: seq![], value: result_of(n + 1), end: t[5] }));
    let o = operators_parsed(src, scope, t[1], n, x.value, 0);
    assert(o.calls =~= seq![call2, call1]);
    assert(o.value == result_of(n + 1) && o.end == t[5]);
    assert(x.calls + o.calls =~= seq![call2, call1]);
}

/// Operators of one priority group from the left: in `x - y + z` (two sums, or two
/// products) the first operator is called first, and its result is the first operand
/// of the second.
pub proof fn lemma_same_priority_from_left<'a>(
    src: Seq<u8>,
    scope: Seq<VariableScope<'a>>,
    t: Seq<(Token, int, int)>,
    n: nat,
)
    requires
        tokens_follow(src, t),
        plain_operand(src, t[0]),
        plain_operand(src, t[2]),
        plain_operand(src, t[4]),
        (t[1].0 is Add || t[1].0 is Sub) && (t[3].0 is Add || t[3].0 is Sub) || (t[1].0 is Mul || t[1].0 is Div
            || t[1].0 is Mod) && (t[3].0 is Mul || t[3].0 is Div || t[3].0 is Mod),
        operator_priority_of(t[5].0) is None,
    ensures
        ({
            let x = operand_parsed(src, scope, t[0], n).value;
            let y = operand_parsed(src, scope, t[2], n).value;
            let z = operand_parsed(src, scope, t[4], n).value;
            expression_parsed(src, scope, t[0], n) == (Parsed {
                calls: seq![
                    CallShape { name: text_of(src, t[1]), args: seq![x, y] },
                    CallShape { name: text_of(src, t[3]), args: seq![result_of(n), z] },
                ],
                value: result_of(n + 1),
                end: t[5],
            })
        }),
{
    assert(t[1] == next_token(src, t[0]) && t[0].1 < t[1].1 <= src.len());
    assert(t[2] == next_token(src, t[1]) && t[1].1 < t[2].1 <= src.len());
    assert(t[3] == next_token(src, t[2]) && t[2].1 < t[3].1 <= src.len());
    assert(t[4] == next_token(src, t[3]) && t[3].1 < t[4].1 <= src.len());
    assert(t[5] == next_token(src, t[4]) && t[4].1 < t[5].1 <= src.len());
    let x = operand_parsed(src, scope, t[0], n);
    let y = operand_parsed(src, scope, t[2], n);
    let z = operand_parsed(src, scope, t[4], n);
    assert(x.calls.len() == 0 && x.end == t[1]);
    assert(y.calls.len() == 0 && y.end == t[3]);
    assert(z.calls.len() == 0 && z.end == t[5]);
    let p1 = operator_priority_of(t[1].0)->0;
    let p2 = operator_priority_of(t[3].0)->0;
    assert(p1 == p2);
    let r1 = operators_parsed(src, scope, t[3], n, y.value, (p1 + 1) as usize);
    assert(r1 == (Parsed { calls: seq![], value: y.value, end: t[3] }));
    let call1 = CallShape { name: text_of(src, t[1]), args: seq![x.value, y.value] };
    let r2 = operators_parsed(src, scope, t[5], n + 1, z.value, (p2 + 1) as usize);
    assert(r2 == (Parsed { calls: seq![], value: z.value, end: t[5] }));
    let call2 = CallShape { name: text_of(src, t[3]), args: seq![result_of(n), z.value] };
    let last = operators_parsed(src, scope, t[5], n + 2, result_of(n + 1), 0);
    assert(last == (Parsed { calls: seq![], value: result_of(n + 1), end: t[5] }));
    let z1 = operand_parsed(src, scope, t[4], n + 1);
    assert(z1.calls.len() == 0 && z1.end == t[5] && z1.value == z.value);
    assert(z1.calls =~= z.calls);
    let second = operators_parsed(src, scope, t[3], n + 1, result_of(n), 0);
    assert(second.calls =~= seq![call2]);
    assert(second.value == result_of(n + 1) && second.end == t[5]);
    let o = operators_parsed(src, scope, t[1], n, x.value, 0);
    assert(o.calls =~= seq![call1, call2]);
    assert(x.calls + o.calls =~= seq![call1, call2]);
}

} // verus!
