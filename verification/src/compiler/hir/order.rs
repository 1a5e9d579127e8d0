//! The order of instance declarations: by function, then by the types of the
//! parameters, compared as words over the types in their declaration order.
use crate::compiler::hir::instance::{FnInstanceId, same_types};
use crate::compiler::hir::value::ValueType;
use vstd::prelude::*;
use vstd::relations::{sorted_by, total_ordering};

verus! {

/// The position of a type in the declaration of `ValueType`.
pub open spec fn type_rank(t: ValueType) -> int {
    match t {
        ValueType::Unknown => 0,
        ValueType::Null => 1,
        ValueType::Int => 2,
        ValueType::Bool => 3,
    }
}

/// Lexicographic order of lists of types: a list comes before its extensions.
pub open spec fn types_le(a: Seq<ValueType>, b: Seq<ValueType>) -> bool
    decreases a.len(),
{
    if a.len() == 0 {
        true
    } else if b.len() == 0 {
        false
    } else if type_rank(a[0]) != type_rank(b[0]) {
        type_rank(a[0]) < type_rank(b[0])
    } else {
        types_le(a.drop_first(), b.drop_first())
    }
}

/// A declaration to list: the number of its function, the types of its parameters and
/// its instance.
pub type Listed = (usize, Seq<ValueType>, FnInstanceId);

/// Declarations are ordered by function, then by parameter types; the instance only
/// tells apart entries that are otherwise equal.
pub open spec fn listed_le(x: Listed, y: Listed) -> bool {
    x.0 < y.0 || (x.0 == y.0 && (if x.1 == y.1 {
        x.2.0 <= y.2.0
    } else {
        types_le(x.1, y.1)
    }))
}

proof fn lemma_rank_injective(a: ValueType, b: ValueType)
    ensures
        type_rank(a) == type_rank(b) ==> a == b,
{
}

proof fn lemma_types_le_reflexive(a: Seq<ValueType>)
    ensures
        types_le(a, a),
    decreases a.len(),
{
    if a.len() > 0 {
        lemma_types_le_reflexive(a.drop_first());
    }
}

proof fn lemma_types_le_antisymmetric(a: Seq<ValueType>, b: Seq<ValueType>)
    requires
        types_le(a, b),
        types_le(b, a),
    ensures
        a == b,
    decreases a.len(),
{
    if a.len() == 0 || b.len() == 0 {
        assert(a.len() == 0 && b.len() == 0);
        assert(a =~= b);
    } else {
        lemma_rank_injective(a[0], b[0]);
        lemma_types_le_antisymmetric(a.drop_first(), b.drop_first());
        assert(a =~= b.drop_first().insert(0, b[0]));
        assert(b =~= b.drop_first().insert(0, b[0]));
    }
}

proof fn lemma_types_le_transitive(a: Seq<ValueType>, b: Seq<ValueType>, c: Seq<ValueType>)
    requires
        types_le(a, b),
        types_le(b, c),
    ensures
        types_le(a, c),
    decreases a.len(),
{
    if a.len() > 0 && b.len() > 0 && c.len() > 0 {
        if type_rank(a[0]) == type_rank(b[0]) && type_rank(b[0]) == type_rank(c[0]) {
            lemma_types_le_transitive(a.drop_first(), b.drop_first(), c.drop_first());
        }
    }
}

proof fn lemma_types_le_total(a: Seq<ValueType>, b: Seq<ValueType>)
    ensures
        types_le(a, b) || types_le(b, a),
    decreases a.len(),
{
    if a.len() > 0 && b.len() > 0 && type_rank(a[0]) == type_rank(b[0]) {
        lemma_types_le_total(a.drop_first(), b.drop_first());
    }
}

/// The order of declarations is total.
pub proof fn lemma_listed_order()
    ensures
        total_ordering(|x: Listed, y: Listed| listed_le(x, y)),
{
    let le = |x: Listed, y: Listed| listed_le(x, y);
    assert forall|x: Listed| #[trigger] le(x, x) by {
        lemma_types_le_reflexive(x.1);
    }
    assert forall|x: Listed, y: Listed| #[trigger] le(x, y) && #[trigger] le(y, x) implies x == y by {
        if x.0 == y.0 && x.1 != y.1 {
            lemma_types_le_antisymmetric(x.1, y.1);
        }
    }
    assert forall|x: Listed, y: Listed, z: Listed| #[trigger] le(x, y) && #[trigger] le(y, z) implies le(
        x,
        z,
    ) by {
        if x.0 == y.0 && y.0 == z.0 {
            if x.1 != y.1 && y.1 != z.1 {
                lemma_types_le_transitive(x.1, y.1, z.1);
                if x.1 == z.1 {
                    lemma_types_le_antisymmetric(x.1, y.1);
                }
            }
        }
    }
    assert forall|x: Listed, y: Listed| #[trigger] le(x, y) || #[trigger] le(y, x) by {
        lemma_types_le_total(x.1, y.1);
    }
}

fn rank(t: ValueType) -> (r: u8)
    ensures
        r == type_rank(t),
{
    match t {
        ValueType::Unknown => 0,
        ValueType::Null => 1,
        ValueType::Int => 2,
        ValueType::Bool => 3,
    }
}

/// Compares two lists of types.
pub fn types_le_exec(a: &[ValueType], b: &[ValueType]) -> (r: bool)
    ensures
        r == types_le(a@, b@),
{
    let mut i: usize = 0;
    assert(a@.skip(0) =~= a@ && b@.skip(0) =~= b@);
    while i < a.len()
        invariant
            i <= a@.len(),
            i <= b@.len(),
            types_le(a@, b@) == types_le(a@.skip(i as int), b@.skip(i as int)),
        decreases a@.len() - i,
    {
        if i == b.len() {
            return false;
        }
        let ra = rank(a[i]);
        let rb = rank(b[i]);
        if ra != rb {
            return ra < rb;
        }
        assert(a@.skip(i as int).drop_first() =~= a@.skip(i + 1));
        assert(b@.skip(i as int).drop_first() =~= b@.skip(i + 1));
        i = i + 1;
    }
    true
}

/// A declaration as the listing sorts it.
pub open spec fn listed_of(entry: (usize, &[ValueType], FnInstanceId)) -> Listed {
    (entry.0, entry.1@, entry.2)
}

pub fn listed_le_exec(x: &(usize, &[ValueType], FnInstanceId), y: &(usize, &[ValueType], FnInstanceId)) -> (r: bool)
    ensures
        r == listed_le(listed_of(*x), listed_of(*y)),
{
    if x.0 != y.0 {
        return x.0 < y.0;
    }
    if same_types(x.1, y.1) {
        x.2.0 <= y.2.0
    } else {
        types_le_exec(x.1, y.1)
    }
}

/// The order of declarations, as a function.
pub open spec fn listed_order() -> spec_fn(Listed, Listed) -> bool {
    |x: Listed, y: Listed| listed_le(x, y)
}

/// The declarations as the listing sorts them.
pub open spec fn listed_seq<'a>(entries: Seq<(usize, &'a [ValueType], FnInstanceId)>) -> Seq<Listed> {
    entries.map_values(|e: (usize, &'a [ValueType], FnInstanceId)| listed_of(e))
}

/// The declarations in order.
pub fn sort_listed<'a>(entries: Vec<(usize, &'a [ValueType], FnInstanceId)>) -> (r: Vec<(usize, &'a [ValueType], FnInstanceId)>)
    ensures
        listed_seq(r@) == listed_seq(entries@).sort_by(listed_order()),
{
    proof {
        lemma_listed_order();
        assert(listed_order() == |x: Listed, y: Listed| listed_le(x, y));
    }
    let mut sorted: Vec<(usize, &'a [ValueType], FnInstanceId)> = Vec::new();
    assert(listed_seq(sorted@) =~= Seq::<Listed>::empty());
    assert(listed_seq(entries@).subrange(0, 0) =~= Seq::<Listed>::empty());
    let mut i: usize = 0;
    while i < entries.len()
        invariant
            total_ordering(listed_order()),
            i <= entries@.len(),
            sorted_by(listed_seq(sorted@), listed_order()),
            listed_seq(sorted@).to_multiset() == listed_seq(entries@).subrange(0, i as int).to_multiset(),
        decreases entries@.len() - i,
    {
        let item = entries[i];
        let mut pos: usize = 0;
        while pos < sorted.len() && listed_le_exec(&sorted[pos], &item)
            invariant
                pos <= sorted@.len(),
                forall|k: int| 0 <= k < pos ==> listed_le(listed_of(#[trigger] sorted@[k]), listed_of(item)),
            decreases sorted@.len() - pos,
        {
            pos = pos + 1;
        }
        let ghost old_sorted = sorted@;
        let ghost before = listed_seq(sorted@);
        sorted.insert(pos, item);
        proof {
            let le = listed_order();
            let after = listed_seq(sorted@);
            assert(after =~= before.insert(pos as int, listed_of(item)));
            assert forall|k: int| 0 <= k < before.len() implies #[trigger] before[k] == listed_of(old_sorted[k]) by {}
            if pos < old_sorted.len() {
                assert(!listed_le(listed_of(old_sorted[pos as int]), listed_of(item)));
                assert(!le(before[pos as int], listed_of(item)));
                assert(le(before[pos as int], listed_of(item)) || le(listed_of(item), before[pos as int]));
                assert(le(listed_of(item), before[pos as int]));
            }
            assert forall|a: int, b: int| 0 <= a < b < after.len() implies #[trigger] le(after[a], after[b]) by {
                if b < pos {
                    assert(after[a] == before[a] && after[b] == before[b]);
                    assert(le(before[a], before[b]));
                } else if b == pos {
                    assert(after[a] == before[a]);
                    assert(listed_le(listed_of(old_sorted[a]), listed_of(item)));
                } else if a < pos {
                    assert(after[a] == before[a] && after[b] == before[b - 1]);
                    assert(le(before[a], before[b - 1]));
                } else if a == pos {
                    assert(after[b] == before[b - 1]);
                    if b - 1 > pos {
                        assert(le(before[pos as int], before[b - 1]));
                    }
                } else {
                    assert(after[a] == before[a - 1] && after[b] == before[b - 1]);
                    assert(le(before[a - 1], before[b - 1]));
                }
            }
            vstd::seq_lib::to_multiset_insert(before, pos as int, listed_of(item));
            let whole = listed_seq(entries@);
            assert(whole.subrange(0, i + 1) =~= whole.subrange(0, i as int).push(listed_of(item)));
            vstd::seq_lib::to_multiset_build(whole.subrange(0, i as int), listed_of(item));
        }
        i = i + 1;
    }
    proof {
        let whole = listed_seq(entries@);
        assert(whole.subrange(0, whole.len() as int) =~= whole);
        whole.lemma_sort_by_ensures(listed_order());
        vstd::seq_lib::lemma_sorted_unique(listed_seq(sorted@), whole.sort_by(listed_order()), listed_order());
    }
    sorted
}

} // verus!
