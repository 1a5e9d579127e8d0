//! The variables in scope while a function is parsed.
use crate::compiler::hir::names::same_name;
use crate::compiler::hir::value::VariableId;
use vstd::prelude::*;

verus! {

pub struct VariableScope<'a> {
    pub name: &'a [u8],
    pub id: VariableId,
    pub nesting: usize,
}

/// Variables are searched from the most recently defined one, so a
/// redefinition shadows the earlier variable of the same name.
pub struct FunctionScope<'a> {
    variables: Vec<VariableScope<'a>>,
}

/// The id of the last variable in `vars` with the given name.
pub open spec fn lookup<'a>(vars: Seq<VariableScope<'a>>, name: Seq<u8>) -> Option<VariableId>
    decreases vars.len(),
{
    if vars.len() == 0 {
        None
    } else if vars.last().name@ == name {
        Some(vars.last().id)
    } else {
        lookup(vars.drop_last(), name)
    }
}

/// Drops the latest variables while their nesting is deeper than `nesting`.
pub open spec fn close_scopes<'a>(vars: Seq<VariableScope<'a>>, nesting: usize) -> Seq<VariableScope<'a>>
    decreases vars.len(),
{
    if vars.len() > 0 && vars.last().nesting > nesting {
        close_scopes(vars.drop_last(), nesting)
    } else {
        vars
    }
}

/// Every variable in scope is one of the first `n` variables of the function.
pub open spec fn ids_below<'a>(vars: Seq<VariableScope<'a>>, n: nat) -> bool {
    forall|i: int| 0 <= i < vars.len() ==> (#[trigger] vars[i]).id.0 < n
}

/// Redefining a name is valid: from then on the name stands for the new variable.
pub proof fn lemma_redefinition_shadows<'a>(vars: Seq<VariableScope<'a>>, variable: VariableScope<'a>)
    ensures
        lookup(vars.push(variable), variable.name@) == Some(variable.id),
{
    assert(vars.push(variable).last() == variable);
}

/// The variable defined last under a name is the one the name stands for, whatever
/// variables of other names were defined after it.
pub proof fn lemma_shadowing_found<'a>(vars: Seq<VariableScope<'a>>, variable: VariableScope<'a>, later: Seq<VariableScope<'a>>)
    requires
        forall|i: int| 0 <= i < later.len() ==> (#[trigger] later[i]).name@ != variable.name@,
    ensures
        lookup(vars.push(variable) + later, variable.name@) == Some(variable.id),
    decreases later.len(),
{
    if later.len() == 0 {
        assert(vars.push(variable) + later =~= vars.push(variable));
    } else {
        let all = vars.push(variable) + later;
        assert(all.drop_last() =~= vars.push(variable) + later.drop_last());
        assert(all.last() == later.last());
        lemma_shadowing_found(vars, variable, later.drop_last());
    }
}

/// The nestings of the variables never decrease in the order they were defined, as the
/// parser defines them.
pub open spec fn nestings_sorted<'a>(vars: Seq<VariableScope<'a>>) -> bool {
    forall|i: int, j: int| 0 <= i <= j < vars.len() ==> (#[trigger] vars[i]).nesting <= (#[trigger] vars[j]).nesting
}

/// Closing the scopes deeper than `nesting`, where nestings never decrease, keeps exactly
/// the variables at `nesting` or less, in their order (a prefix), drops the others, and
/// closing them once more changes nothing.
pub proof fn lemma_set_nesting_keeps<'a>(vars: Seq<VariableScope<'a>>, nesting: usize)
    requires
        nestings_sorted(vars),
    ensures
        close_scopes(vars, nesting) == vars.subrange(0, close_scopes(vars, nesting).len() as int),
        forall|i: int| 0 <= i < close_scopes(vars, nesting).len() ==> (#[trigger] vars[i]).nesting <= nesting,
        forall|i: int| close_scopes(vars, nesting).len() <= i < vars.len() ==> (#[trigger] vars[i]).nesting > nesting,
        close_scopes(close_scopes(vars, nesting), nesting) == close_scopes(vars, nesting),
    decreases vars.len(),
{
    lemma_close_scopes_prefix(vars, nesting);
    if vars.len() > 0 && vars.last().nesting > nesting {
        let d = vars.drop_last();
        assert(nestings_sorted(d)) by {
            assert forall|i: int, j: int| 0 <= i <= j < d.len() implies (#[trigger] d[i]).nesting <= (#[trigger] d[j]).nesting by {
                assert(d[i] == vars[i] && d[j] == vars[j]);
            }
        }
        lemma_set_nesting_keeps(d, nesting);
        let c = close_scopes(d, nesting);
        assert forall|i: int| 0 <= i < c.len() implies (#[trigger] vars[i]).nesting <= nesting by {
            assert(vars[i] == d[i]);
        }
        assert forall|i: int| c.len() <= i < vars.len() implies (#[trigger] vars[i]).nesting > nesting by {
            if i < d.len() {
                assert(vars[i] == d[i]);
            }
        }
    } else {
        if vars.len() > 0 {
            assert forall|i: int| 0 <= i < vars.len() implies (#[trigger] vars[i]).nesting <= nesting by {
                assert(vars[i].nesting <= vars[vars.len() - 1].nesting);
            }
        }
    }
}

proof fn lemma_lookup_below<'a>(vars: Seq<VariableScope<'a>>, name: Seq<u8>, n: nat)
    requires
        ids_below(vars, n),
    ensures
        lookup(vars, name) matches Some(id) ==> id.0 < n,
    decreases vars.len(),
{
    if vars.len() > 0 {
        assert(ids_below(vars.drop_last(), n)) by {
            assert forall|i: int| 0 <= i < vars.drop_last().len() implies (
            #[trigger] vars.drop_last()[i]).id.0 < n by {
                assert(vars.drop_last()[i] == vars[i]);
            }
        }
        lemma_lookup_below(vars.drop_last(), name, n);
    }
}

proof fn lemma_close_scopes_prefix<'a>(vars: Seq<VariableScope<'a>>, nesting: usize)
    ensures
        close_scopes(vars, nesting).len() <= vars.len(),
        close_scopes(vars, nesting) == vars.subrange(0, close_scopes(vars, nesting).len() as int),
    decreases vars.len(),
{
    if vars.len() > 0 && vars.last().nesting > nesting {
        lemma_close_scopes_prefix(vars.drop_last(), nesting);
        let c = close_scopes(vars.drop_last(), nesting);
        assert(c == vars.subrange(0, c.len() as int));
    } else {
        assert(vars == vars.subrange(0, vars.len() as int));
    }
}

impl<'a> View for FunctionScope<'a> {
    type V = Seq<VariableScope<'a>>;

    closed spec fn view(&self) -> Seq<VariableScope<'a>> {
        self.variables@
    }
}

impl<'a> FunctionScope<'a> {
    pub fn new() -> (r: Self)
        ensures
            r@ == Seq::<VariableScope<'a>>::empty(),
    {
        FunctionScope { variables: Vec::new() }
    }

    pub fn define_variable(&mut self, nesting: usize, name: &'a [u8], id: VariableId)
        ensures
            final(self)@ == old(self)@.push(VariableScope { name, id, nesting }),
    {
        self.variables.push(VariableScope { name, id, nesting });
    }

    /// The id of the most recently defined variable with this name.
    pub fn get_variable(&self, name: &[u8]) -> (r: Option<VariableId>)
        ensures
            r == lookup(self@, name@),
    {
        let mut i = self.variables.len();
        assert(self.variables@.subrange(0, i as int) =~= self.variables@);
        while i > 0
            invariant
                i <= self.variables@.len(),
                lookup(self.variables@, name@) == lookup(self.variables@.subrange(0, i as int), name@),
            decreases i,
        {
            let ghost prefix = self.variables@.subrange(0, i as int);
            assert(prefix.drop_last() =~= self.variables@.subrange(0, i - 1));
            if same_name(self.variables[i - 1].name, name) {
                return Some(self.variables[i - 1].id);
            }
            i = i - 1;
        }
        None
    }

    /// It will close the scope of all the variables of a nesting higher than
    /// the provided `nesting`
    pub fn set_nesting(&mut self, nesting: usize)
        ensures
            final(self)@ == close_scopes(old(self)@, nesting),
    {
        proof {
            assert(old(self).variables@ =~= old(self).variables@.subrange(0, old(self).variables@.len() as int));
        }
        while self.variables.len() > 0 && self.variables[self.variables.len() - 1].nesting > nesting
            invariant
                close_scopes(self.variables@, nesting) == close_scopes(old(self)@, nesting),
            decreases self.variables@.len(),
        {
            self.variables.pop();
        }
    }
}

/// Looking up in a scope whose ids are below `n` gives an id below `n`.
pub proof fn lemma_scope_lookup<'a>(scope: &FunctionScope<'a>, name: Seq<u8>, n: nat)
    requires
        ids_below(scope@, n),
    ensures
        lookup(scope@, name) matches Some(id) ==> id.0 < n,
{
    lemma_lookup_below(scope@, name, n);
}

/// Closing scopes keeps a prefix of the variables.
pub proof fn lemma_close_scopes<'a>(vars: Seq<VariableScope<'a>>, nesting: usize, n: nat)
    requires
        ids_below(vars, n),
    ensures
        ids_below(close_scopes(vars, nesting), n),
{
    lemma_close_scopes_prefix(vars, nesting);
    let c = close_scopes(vars, nesting);
    assert forall|i: int| 0 <= i < c.len() implies (#[trigger] c[i]).id.0 < n by {
        assert(c[i] == vars[i]);
    }
}

} // verus!
