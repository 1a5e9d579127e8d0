//! How many instances a module can have: each is a function with a list of parameter
//! types, and there are finitely many such lists of a bounded length.
use crate::compiler::hir::definition::FnDefinitionId;
use crate::compiler::hir::value::ValueType;
use vstd::arithmetic::div_mod::lemma_fundamental_div_mod_converse;
use vstd::prelude::*;
use vstd::relations::injective_on;
use vstd::set_lib::{lemma_int_range, lemma_len_subset, lemma_map_size, set_int_range};

verus! {

/// A digit for each type, none of them zero.
pub open spec fn type_digit(t: ValueType) -> int {
    match t {
        ValueType::Unknown => 1,
        ValueType::Null => 2,
        ValueType::Int => 3,
        ValueType::Bool => 4,
    }
}

pub open spec fn pow5(n: nat) -> nat
    decreases n,
{
    if n == 0 {
        1
    } else {
        5 * pow5((n - 1) as nat)
    }
}

/// The list of types read as a number in base five, first type last.
pub open spec fn types_code(types: Seq<ValueType>) -> int
    decreases types.len(),
{
    if types.len() == 0 {
        0
    } else {
        type_digit(types[0]) + 5 * types_code(types.drop_first())
    }
}

/// A number for each instance key: the function, then the types.
pub open spec fn key_code(key: (FnDefinitionId, Seq<ValueType>), width: nat) -> int {
    key.0.0 * pow5(width) + types_code(key.1)
}

proof fn lemma_pow5_monotone(a: nat, b: nat)
    requires
        a <= b,
    ensures
        1 <= pow5(a) <= pow5(b),
    decreases b,
{
    if b > 0 {
        if a < b {
            lemma_pow5_monotone(a, (b - 1) as nat);
        } else {
            lemma_pow5_monotone((b - 1) as nat, (b - 1) as nat);
        }
    }
}

proof fn lemma_types_code_bound(types: Seq<ValueType>)
    ensures
        0 <= types_code(types) < pow5(types.len()),
    decreases types.len(),
{
    if types.len() > 0 {
        lemma_types_code_bound(types.drop_first());
    }
}

proof fn lemma_types_code_injective(a: Seq<ValueType>, b: Seq<ValueType>)
    requires
        types_code(a) == types_code(b),
    ensures
        a == b,
    decreases a.len(),
{
    lemma_types_code_bound(a.drop_first());
    lemma_types_code_bound(b.drop_first());
    if a.len() == 0 || b.len() == 0 {
        assert(a.len() == 0 && b.len() == 0);
        assert(a =~= b);
    } else {
        let x = types_code(a);
        lemma_fundamental_div_mod_converse(x, 5, types_code(a.drop_first()), type_digit(a[0]));
        lemma_fundamental_div_mod_converse(x, 5, types_code(b.drop_first()), type_digit(b[0]));
        lemma_types_code_injective(a.drop_first(), b.drop_first());
        assert(a[0] == b[0]);
        assert(a =~= b.drop_first().insert(0, b[0]));
        assert(b =~= b.drop_first().insert(0, b[0]));
    }
}

/// Keys of functions below `functions` with at most `width` parameters are at most
/// `functions * 5^width`, however they were gathered.
pub proof fn lemma_keys_bound(
    keys: Set<(FnDefinitionId, Seq<ValueType>)>,
    functions: nat,
    width: nat,
)
    requires
        keys.finite(),
        forall|k: (FnDefinitionId, Seq<ValueType>)| #[trigger]
            keys.contains(k) ==> k.0.0 < functions && k.1.len() <= width,
    ensures
        keys.len() <= functions * pow5(width),
{
    let f = |k: (FnDefinitionId, Seq<ValueType>)| key_code(k, width);
    let n: int = (functions * pow5(width)) as int;
    lemma_pow5_monotone(0, width);
    assert forall|k1: (FnDefinitionId, Seq<ValueType>), k2: (FnDefinitionId, Seq<ValueType>)|
        keys.contains(k1) && keys.contains(k2) && #[trigger] f(k1) == #[trigger] f(k2) implies k1
        == k2 by {
        lemma_types_code_bound(k1.1);
        lemma_types_code_bound(k2.1);
        lemma_pow5_monotone(k1.1.len(), width);
        lemma_pow5_monotone(k2.1.len(), width);
        let x = f(k1);
        lemma_fundamental_div_mod_converse(x, pow5(width) as int, k1.0.0 as int, types_code(k1.1));
        lemma_fundamental_div_mod_converse(x, pow5(width) as int, k2.0.0 as int, types_code(k2.1));
        lemma_types_code_injective(k1.1, k2.1);
    }
    assert(injective_on(f, keys));
    let codes = keys.map(f);
    lemma_map_size(keys, codes, f);
    assert forall|c: int| #[trigger] codes.contains(c) implies set_int_range(0, n).contains(c) by {
        let k = choose|k: (FnDefinitionId, Seq<ValueType>)| keys.contains(k) && c == f(k);
        lemma_types_code_bound(k.1);
        lemma_pow5_monotone(k.1.len(), width);
        let b = pow5(width) as int;
        let q = k.0.0 as int;
        let e = types_code(k.1);
        assert(0 <= q * b) by (nonlinear_arith)
            requires
                0 <= q,
                0 <= b,
        ;
        assert(q * b + e < n) by (nonlinear_arith)
            requires
                q + 1 <= functions,
                0 <= e < b,
                n == functions * b,
        ;
    }
    lemma_int_range(0, n);
    lemma_len_subset(codes, set_int_range(0, n));
}

} // verus!
