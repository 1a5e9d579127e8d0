//! The text of the instances of a module: each declaration with its return type and the
//! types of its variables, external functions first, each group in order.
use crate::compiler::hir::definition::{ExternFnId, FnDefinitionId, FnId};
use crate::compiler::hir::display::{
    fn_id_text, joined, push_decimal, push_fn_id, push_text, push_value_type, push_variable_id,
    value_type_text, variable_id_text,
};
use crate::compiler::hir::instance::{FnInstanceId, FnInstanceStage, ModuleInstances};
use crate::compiler::hir::order::{Listed, listed_order, listed_seq, sort_listed};
use crate::compiler::hir::value::{ValueType, VariableId};
use vstd::prelude::*;
use vstd::string::StringSliceAdditionalSpecFns;

verus! {

/// The parameters with their types: `(v0: Int, v1: Bool)`.
pub open spec fn params_text(types: Seq<ValueType>) -> Seq<u8> {
    "(".spec_bytes() + joined(
        Seq::new(
            types.len(),
            |i: int| variable_id_text(VariableId(i as usize)) + ": ".spec_bytes() + value_type_text(types[i]),
        ),
        ", ".spec_bytes(),
    ) + ")".spec_bytes()
}

/// The function of a declaration.
pub open spec fn listed_fn(number: usize, external: bool) -> FnId {
    if external {
        FnId::Extern(ExternFnId(number))
    } else {
        FnId::Local(FnDefinitionId(number))
    }
}

/// One line `    v<i>: <type>` for each variable from `from` up to `to`.
pub open spec fn variable_lines(variables: Seq<ValueType>, from: int, to: int) -> Seq<u8>
    decreases to - from,
{
    if to <= from {
        Seq::empty()
    } else {
        variable_lines(variables, from, to - 1) + "    ".spec_bytes() + variable_id_text(
            VariableId((to - 1) as usize),
        ) + ": ".spec_bytes() + value_type_text(variables[to - 1]) + "\n".spec_bytes()
    }
}

/// The start of the line of a declaration: `fn <function>(<parameters>) -> `.
pub open spec fn listed_head(entry: Listed, external: bool) -> Seq<u8> {
    "fn ".spec_bytes() + fn_id_text(listed_fn(entry.0, external)) + params_text(entry.1)
        + " -> ".spec_bytes()
}

/// What follows the head: the return type, and the types of the variables from the
/// first one that is not a parameter.
pub open spec fn stage_tail(stage: FnInstanceStage, parameters: nat) -> Seq<u8> {
    match stage {
        FnInstanceStage::BeeingCreated => "<in progress...>\n".spec_bytes(),
        FnInstanceStage::WithFatalErrors => "<compilation error>\n".spec_bytes(),
        FnInstanceStage::WithErrors { return_type } => value_type_text(return_type) + "\n".spec_bytes()
            + "    <compilation error>\n".spec_bytes(),
        FnInstanceStage::Created(instance) => value_type_text(instance.return_type) + "\n".spec_bytes()
            + variable_lines(instance.variables@, parameters as int, instance.variables@.len() as int),
    }
}

/// A declaration, its return type, and the types of its variables that are not parameters.
pub open spec fn listed_text(entry: Listed, external: bool, stage: FnInstanceStage) -> Seq<u8> {
    listed_head(entry, external) + stage_tail(stage, entry.1.len())
}

/// The declarations one after the other; the listing stops after the first instance that
/// is not complete.
pub open spec fn listing(entries: Seq<Listed>, external: bool, stages: Seq<FnInstanceStage>) -> Seq<u8>
    decreases entries.len(),
{
    if entries.len() == 0 {
        Seq::empty()
    } else {
        let stage = stages[entries[0].2.0 as int];
        let text = listed_text(entries[0], external, stage);
        if stage is Created {
            text + listing(entries.drop_first(), external, stages)
        } else {
            text
        }
    }
}

/// One of the declarations has an instance that is not complete.
pub open spec fn listing_stops(entries: Seq<Listed>, stages: Seq<FnInstanceStage>) -> bool {
    exists|i: int| 0 <= i < entries.len() && !(stages[(#[trigger] entries[i]).2.0 as int] is Created)
}

pub open spec fn extern_listed(instances: ModuleInstances) -> Seq<Listed> {
    instances.extern_entries().map_values(
        |e: ((ExternFnId, Seq<ValueType>), FnInstanceId)| (e.0.0.0, e.0.1, e.1),
    )
}

pub open spec fn local_listed(instances: ModuleInstances) -> Seq<Listed> {
    instances.local_entries().map_values(
        |e: ((FnDefinitionId, Seq<ValueType>), FnInstanceId)| (e.0.0.0, e.0.1, e.1),
    )
}

/// The text of the instances: the external declarations in order, then, unless one of
/// them stopped the listing, the local ones in order.
pub open spec fn instances_text(instances: ModuleInstances) -> Seq<u8> {
    let externs = extern_listed(instances).sort_by(listed_order());
    let locals = local_listed(instances).sort_by(listed_order());
    listing(externs, true, instances.stages()) + if listing_stops(externs, instances.stages()) {
        Seq::empty()
    } else {
        listing(locals, false, instances.stages())
    }
}

fn push_params(out: &mut Vec<u8>, types: &[ValueType])
    ensures
        final(out)@ == old(out)@ + params_text(types@),
{
    push_text(out, "(");
    let ghost parts = Seq::new(
        types@.len(),
        |i: int| variable_id_text(VariableId(i as usize)) + ": ".spec_bytes() + value_type_text(types@[i]),
    );
    let ghost header = out@;
    let mut i: usize = 0;
    while i < types.len()
        invariant
            i <= types@.len(),
            parts == Seq::new(
                types@.len(),
                |k: int| variable_id_text(VariableId(k as usize)) + ": ".spec_bytes() + value_type_text(types@[k]),
            ),
            out@ == header + joined(parts.subrange(0, i as int), ", ".spec_bytes()),
        decreases types@.len() - i,
    {
        if i > 0 {
            push_text(out, ", ");
        }
        push_variable_id(out, VariableId(i));
        push_text(out, ": ");
        push_value_type(out, types[i]);
        proof {
            let done = parts.subrange(0, i + 1);
            assert(done.drop_last() =~= parts.subrange(0, i as int));
            assert(out@ =~= header + joined(done, ", ".spec_bytes()));
        }
        i = i + 1;
    }
    push_text(out, ")");
    assert(parts.subrange(0, types@.len() as int) =~= parts);
    assert(out@ =~= old(out)@ + params_text(types@));
}

fn push_variable_lines(out: &mut Vec<u8>, variables: &[ValueType], from: usize)
    ensures
        final(out)@ == old(out)@ + variable_lines(variables@, from as int, variables@.len() as int),
{
    let mut i: usize = from;
    if from >= variables.len() {
        assert(out@ =~= old(out)@ + variable_lines(variables@, from as int, variables@.len() as int));
        return;
    }
    assert(variable_lines(variables@, from as int, from as int) =~= Seq::<u8>::empty());
    while i < variables.len()
        invariant
            from <= i <= variables@.len(),
            out@ == old(out)@ + variable_lines(variables@, from as int, i as int),
        decreases variables@.len() - i,
    {
        push_text(out, "    ");
        push_variable_id(out, VariableId(i));
        push_text(out, ": ");
        push_value_type(out, variables[i]);
        push_text(out, "\n");
        i = i + 1;
        assert(out@ =~= old(out)@ + variable_lines(variables@, from as int, i as int));
    }
}

fn push_listed_head(out: &mut Vec<u8>, entry: &(usize, &[ValueType], FnInstanceId), external: bool)
    ensures
        final(out)@ == old(out)@ + listed_head(crate::compiler::hir::order::listed_of(*entry), external),
{
    push_text(out, "fn ");
    if external {
        push_fn_id(out, FnId::Extern(ExternFnId(entry.0)));
    } else {
        push_fn_id(out, FnId::Local(FnDefinitionId(entry.0)));
    }
    push_params(out, entry.1);
    push_text(out, " -> ");
    assert(out@ =~= old(out)@ + listed_head(crate::compiler::hir::order::listed_of(*entry), external));
}

fn push_stage_tail(out: &mut Vec<u8>, stage: &FnInstanceStage, parameters: usize)
    ensures
        final(out)@ == old(out)@ + stage_tail(*stage, parameters as nat),
{
    match stage {
        FnInstanceStage::BeeingCreated => push_text(out, "<in progress...>\n"),
        FnInstanceStage::WithFatalErrors => push_text(out, "<compilation error>\n"),
        FnInstanceStage::WithErrors { return_type } => {
            push_value_type(out, *return_type);
            push_text(out, "\n");
            push_text(out, "    <compilation error>\n");
        },
        FnInstanceStage::Created(instance) => {
            push_value_type(out, instance.return_type);
            push_text(out, "\n");
            push_variable_lines(out, instance.variables.as_slice(), parameters);
        },
    }
    assert(out@ =~= old(out)@ + stage_tail(*stage, parameters as nat));
}

impl ModuleInstances {
    /// Appends the text of one declaration; tells whether its instance is complete.
    fn write_listed(&self, out: &mut Vec<u8>, entry: &(usize, &[ValueType], FnInstanceId), external: bool) -> (created: bool)
        requires
            entry.2.0 < self.stages().len(),
        ensures
            final(out)@ == old(out)@ + listed_text(
                crate::compiler::hir::order::listed_of(*entry),
                external,
                self.stages()[entry.2.0 as int],
            ),
            created == self.stages()[entry.2.0 as int] is Created,
    {
        push_listed_head(out, entry, external);
        let stage = self.index(entry.2);
        push_stage_tail(out, stage, entry.1.len());
        assert(out@ =~= old(out)@ + listed_text(
            crate::compiler::hir::order::listed_of(*entry),
            external,
            self.stages()[entry.2.0 as int],
        ));
        match stage {
            FnInstanceStage::Created(_) => true,
            _ => false,
        }
    }

    /// Appends the declarations, stopping after the first incomplete instance; tells
    /// whether it stopped.
    fn write_listing(&self, out: &mut Vec<u8>, entries: &Vec<(usize, &[ValueType], FnInstanceId)>, external: bool) -> (stopped: bool)
        requires
            forall|i: int| 0 <= i < entries@.len() ==> (#[trigger] entries@[i]).2.0 < self.stages().len(),
        ensures
            final(out)@ == old(out)@ + listing(listed_seq(entries@), external, self.stages()),
            stopped == listing_stops(listed_seq(entries@), self.stages()),
    {
        let ghost all = listed_seq(entries@);
        let mut i: usize = 0;
        assert(all.skip(0) =~= all);
        while i < entries.len()
            invariant
                i <= entries@.len(),
                all == listed_seq(entries@),
                forall|k: int| 0 <= k < entries@.len() ==> (#[trigger] entries@[k]).2.0 < self.stages().len(),
                old(out)@ + listing(all, external, self.stages()) == out@ + listing(all.skip(i as int), external, self.stages()),
                forall|k: int| 0 <= k < i ==> self.stages()[(#[trigger] all[k]).2.0 as int] is Created,
            decreases entries@.len() - i,
        {
            proof {
                let rest = all.skip(i as int);
                assert(rest[0] == all[i as int]);
                assert(all[i as int] == crate::compiler::hir::order::listed_of(entries@[i as int]));
                assert(rest.drop_first() =~= all.skip(i + 1));
            }
            let created = self.write_listed(out, &entries[i], external);
            if !created {
                proof {
                    assert(out@ =~= old(out)@ + listing(all, external, self.stages()));
                    assert(!(self.stages()[all[i as int].2.0 as int] is Created));
                }
                return true;
            }
            i = i + 1;
        }
        proof {
            assert(all.skip(entries@.len() as int) =~= Seq::<Listed>::empty());
            assert(out@ =~= old(out)@ + listing(all, external, self.stages()));
            assert(!listing_stops(all, self.stages()));
        }
        false
    }

    /// The text of the instances: each declaration with its return type and the types of
    /// its other variables, the external ones first, each group sorted by function and
    /// parameter types. It stops after the first instance that is not complete.
    pub fn render(&self) -> (r: Vec<u8>)
        requires
            self.wf(),
        ensures
            r@ == instances_text(*self),
    {
        proof {
            crate::compiler::hir::order::lemma_listed_order();
        }
        let declarations = self.extern_declarations();
        let mut externs: Vec<(usize, &[ValueType], FnInstanceId)> = Vec::new();
        let mut i: usize = 0;
        while i < declarations.len()
            invariant
                self.wf(),
                i <= declarations@.len(),
                declarations@.len() == self.extern_entries().len(),
                forall|j: int|
                    #![trigger declarations@[j]]
                    0 <= j < declarations@.len() ==> declarations@[j].0 == self.extern_entries()[j].1 && declarations@[j].1.fn_id == self.extern_entries()[j].0.0 && declarations@[j].1.parameters@ == self.extern_entries()[j].0.1,
                listed_seq(externs@) == extern_listed(*self).subrange(0, i as int),
            decreases declarations@.len() - i,
        {
            let (id, declaration) = declarations[i];
            let ghost before = listed_seq(externs@);
            let types = declaration.parameters.as_slice();
            externs.push((declaration.fn_id.0, types, id));
            proof {
                let e = self.extern_entries()[i as int];
                assert(declarations@[i as int].0 == e.1);
                assert(extern_listed(*self)[i as int] == (e.0.0.0, e.0.1, e.1));
                assert(listed_seq(externs@) =~= before.push((declaration.fn_id.0, types@, id)));
                assert(extern_listed(*self).subrange(0, i + 1) =~= extern_listed(*self).subrange(0, i as int).push(
                    extern_listed(*self)[i as int],
                ));
            }
            i = i + 1;
        }
        let local_declarations = self.iter_local_declarations();
        let mut locals: Vec<(usize, &[ValueType], FnInstanceId)> = Vec::new();
        let mut i: usize = 0;
        while i < local_declarations.len()
            invariant
                self.wf(),
                i <= local_declarations@.len(),
                local_declarations@.len() == self.local_entries().len(),
                forall|j: int|
                    #![trigger local_declarations@[j]]
                    0 <= j < local_declarations@.len() ==> local_declarations@[j].0 == self.local_entries()[j].1 && local_declarations@[j].1.fn_id == self.local_entries()[j].0.0 && local_declarations@[j].1.parameters@ == self.local_entries()[j].0.1,
                listed_seq(locals@) == local_listed(*self).subrange(0, i as int),
            decreases local_declarations@.len() - i,
        {
            let (id, declaration) = local_declarations[i];
            let ghost before = listed_seq(locals@);
            let types = declaration.parameters.as_slice();
            locals.push((declaration.fn_id.0, types, id));
            proof {
                let e = self.local_entries()[i as int];
                assert(local_declarations@[i as int].0 == e.1);
                assert(local_listed(*self)[i as int] == (e.0.0.0, e.0.1, e.1));
                assert(listed_seq(locals@) =~= before.push((declaration.fn_id.0, types@, id)));
                assert(local_listed(*self).subrange(0, i + 1) =~= local_listed(*self).subrange(0, i as int).push(
                    local_listed(*self)[i as int],
                ));
            }
            i = i + 1;
        }
        assert(extern_listed(*self).subrange(0, extern_listed(*self).len() as int) =~= extern_listed(*self));
        assert(local_listed(*self).subrange(0, local_listed(*self).len() as int) =~= local_listed(*self));
        let externs = sort_listed(externs);
        let locals = sort_listed(locals);
        proof {
            self.lemma_entry_ids();
            let e = extern_listed(*self);
            let l = local_listed(*self);
            e.lemma_sort_by_ensures(listed_order());
            l.lemma_sort_by_ensures(listed_order());
            assert forall|i: int| 0 <= i < externs@.len() implies (#[trigger] externs@[i]).2.0 < self.stages().len() by {
                let x = listed_seq(externs@)[i];
                assert(x == crate::compiler::hir::order::listed_of(externs@[i]));
                assert(e.sort_by(listed_order()).contains(x));
                assert(e.contains(x));
                let k = choose|k: int| 0 <= k < e.len() && e[k] == x;
                assert(e[k].2 == self.extern_entries()[k].1);
            }
            assert forall|i: int| 0 <= i < locals@.len() implies (#[trigger] locals@[i]).2.0 < self.stages().len() by {
                let x = listed_seq(locals@)[i];
                assert(x == crate::compiler::hir::order::listed_of(locals@[i]));
                assert(l.sort_by(listed_order()).contains(x));
                assert(l.contains(x));
                let k = choose|k: int| 0 <= k < l.len() && l[k] == x;
                assert(l[k].2 == self.local_entries()[k].1);
            }
        }
        let mut out: Vec<u8> = Vec::new();
        let stopped = self.write_listing(&mut out, &externs, true);
        if !stopped {
            self.write_listing(&mut out, &locals, false);
        }
        assert(out@ =~= instances_text(*self));
        out
    }
}

} // verus!
