//! Function definitions: the instructions that the parser produces.
use crate::compiler::hir::names::{NameMap, same_name};
use crate::compiler::hir::value::{Variable, VariableId};
use vstd::prelude::*;

verus! {

#[derive(Clone, Copy, Debug, PartialEq, Eq, Structural)]
pub enum Instruction {
    Call(Call),
    Assign { variable: VariableId, value: Variable },
    Return(Variable),
    /// Each `IfStart` must be closed with an `IfEnd`.
    /// However, multiple `IfStart`s can be closed with a single `IfEnd(<amount of if starts>)`
    IfStart(Variable, RunIf),
    /// An if-else statement must be represended as follow:
    /// [IfStart(_), ..<then>.., Else, ..<else>.., IfEnd]
    Else,
    /// Closes the scope of n ifs
    IfEnd(usize),
    /// Every `LoopStart` instruction must be followed with a `LoopEnd`.
    LoopStart,
    /// Every `LoopBreak` must be inside a `LoopStart` / `LoopEnd` block.
    Break,
    LoopEnd,
}

#[derive(Clone, Copy, Debug, PartialEq, Eq, Structural)]
pub enum RunIf {
    False,
    True,
}

#[derive(Clone, Copy, Debug, PartialEq, Eq, Structural)]
pub struct Call {
    /// If is_some, the function result is stored in the variable
    pub result: Option<VariableId>,
    pub fn_id: FnId,
    /// The arguments are `arguments[arguments_start..arguments_end]` of the definition.
    pub arguments_start: usize,
    pub arguments_end: usize,
    /// Id inside the FnDefinition.
    pub call_id: usize,
}

#[derive(Clone, Copy, Debug, PartialEq, Eq, Hash, Structural)]
pub enum FnId {
    Extern(ExternFnId),
    Local(FnDefinitionId),
}

#[derive(Clone, Copy, Debug, PartialEq, Eq, Hash, Structural)]
pub struct ExternFnId(pub usize);

#[derive(Clone, Copy, Debug, PartialEq, Eq, Hash, Structural)]
pub struct FnDefinitionId(pub usize);

#[derive(Clone, Copy, Debug, PartialEq, Eq, Structural)]
pub struct VariableMetadata {
    /// Index of the instruction at which the variable is defined
    pub defined: usize,
    /// Index of the instruction where the variable is last used
    pub last_use: usize,
}

pub struct FnDefinition<'a> {
    pub name: &'a [u8],
    pub parameters: usize,
    pub instructions: Vec<Instruction>,
    pub variables_metadata: Vec<VariableMetadata>,
    /// Shared buffer to store the arguments of the function calls defined inside
    /// this definition.
    pub arguments: Vec<Variable>,
    /// Total number of function calls inside the FnDefinition.
    pub calls: usize,
}

pub enum FnDefinitionStage<'code> {
    /// A function with name is yet to be defined
    ToDefine { name: &'code [u8] },
    Defined(FnDefinition<'code>),
}

/// A collection of defined functions
pub struct ModuleDefinitions<'code> {
    definitions: Vec<FnDefinitionStage<'code>>,
    /// key: Name of a defined function
    definitions_map: NameMap<'code>,
}

/// The variable of an operand, if any, is one of the first `n` variables.
pub open spec fn operand_wf(v: Variable, n: nat) -> bool {
    v matches Variable::Id(id) ==> id.0 < n
}

/// The variables of an instruction are among the first `n`, and the arguments of a call
/// lie in a buffer of `nargs` operands.
pub open spec fn instruction_wf(inst: Instruction, n: nat, nargs: nat) -> bool {
    match inst {
        Instruction::Call(c) => {
            &&& c.arguments_start <= c.arguments_end <= nargs
            &&& c.result matches Some(r) ==> r.0 < n
        },
        Instruction::Assign { variable, value } => variable.0 < n && operand_wf(value, n),
        Instruction::Return(v) => operand_wf(v, n),
        Instruction::IfStart(v, _) => operand_wf(v, n),
        _ => true,
    }
}

impl<'a> FnDefinition<'a> {
    /// Every operand refers to a declared variable, and every call to a range of the
    /// argument buffer.
    pub open spec fn wf(&self) -> bool {
        let n = self.variables_metadata@.len();
        &&& self.parameters <= n
        &&& forall|i: int|
            0 <= i < self.instructions@.len() ==> instruction_wf(
                #[trigger] self.instructions@[i],
                n,
                self.arguments@.len(),
            )
        &&& forall|j: int| 0 <= j < self.arguments@.len() ==> operand_wf(#[trigger] self.arguments@[j], n)
    }

    /// The arguments of a call.
    pub open spec fn call_arguments(&self, call: Call) -> Seq<Variable> {
        self.arguments@.subrange(call.arguments_start as int, call.arguments_end as int)
    }

    /// `self` is `before` with one call added: to `fn_id`, with `args` for arguments
    /// appended to the argument buffer, storing its result in `result`.
    pub open spec fn pushes_call(&self, before: &Self, fn_id: FnId, args: Seq<Variable>, result: Option<VariableId>) -> bool {
        &&& self.arguments@ == before.arguments@ + args
        &&& self.instructions@ == before.instructions@.push(
            Instruction::Call(
                Call {
                    result,
                    fn_id,
                    arguments_start: before.arguments@.len() as usize,
                    arguments_end: (before.arguments@.len() + args.len()) as usize,
                    call_id: before.calls,
                },
            ),
        )
        &&& self.grown_from(before, 0)
    }

    /// The definition is `earlier` with `new_variables` more variables, and with
    /// instructions and call arguments appended to those it had.
    pub open spec fn grown_from(&self, earlier: &Self, new_variables: nat) -> bool {
        &&& self.name == earlier.name
        &&& self.parameters == earlier.parameters
        &&& self.variables_metadata@.len() == earlier.variables_metadata@.len() + new_variables
        &&& earlier.instructions@.is_prefix_of(self.instructions@)
        &&& earlier.arguments@.is_prefix_of(self.arguments@)
    }

    /// Returns the total number of variables.
    pub fn variables(&self) -> (r: usize)
        ensures
            r == self.variables_metadata@.len(),
    {
        self.variables_metadata.len()
    }

    pub fn get_arguments(&self, call: &Call) -> (r: &[Variable])
        requires
            call.arguments_start <= call.arguments_end <= self.arguments@.len(),
        ensures
            r@ == self.call_arguments(*call),
    {
        vstd::slice::slice_subrange(self.arguments.as_slice(), call.arguments_start, call.arguments_end)
    }

    pub fn new(name: &'a [u8], parameters: usize) -> (r: Self)
        ensures
            r.name == name,
            r.parameters == parameters,
            r.instructions@ == Seq::<Instruction>::empty(),
            r.variables_metadata@ == Seq::new(
                parameters as nat,
                |i: int| VariableMetadata { defined: 0, last_use: 0 },
            ),
            r.arguments@ == Seq::<Variable>::empty(),
            r.calls == 0,
            r.wf(),
    {
        let mut variables_metadata: Vec<VariableMetadata> = Vec::new();
        let mut i: usize = 0;
        while i < parameters
            invariant
                i <= parameters,
                variables_metadata@ == Seq::new(
                    i as nat,
                    |k: int| VariableMetadata { defined: 0, last_use: 0 },
                ),
            decreases parameters - i,
        {
            variables_metadata.push(VariableMetadata { defined: 0, last_use: 0 });
            i = i + 1;
            assert(variables_metadata@ =~= Seq::new(
                i as nat,
                |k: int| VariableMetadata { defined: 0, last_use: 0 },
            ));
        }
        let r = FnDefinition {
            name,
            parameters,
            instructions: Vec::new(),
            variables_metadata,
            arguments: Vec::new(),
            calls: 0,
        };
        r
    }

    /// Creates a new variable with the `defined` and `last_use`
    /// pointing to next instruction to be pushed.
    pub fn new_variable(&mut self) -> (id: VariableId)
        requires
            old(self).wf(),
        ensures
            final(self).wf(),
            id.0 == old(self).variables_metadata@.len(),
            final(self).variables_metadata@ == old(self).variables_metadata@.push(
                VariableMetadata {
                    defined: old(self).instructions@.len() as usize,
                    last_use: old(self).instructions@.len() as usize,
                },
            ),
            final(self).name == old(self).name,
            final(self).parameters == old(self).parameters,
            final(self).instructions == old(self).instructions,
            final(self).arguments == old(self).arguments,
            final(self).calls == old(self).calls,
            final(self).grown_from(old(self), 1),
    {
        let var_id = VariableId(self.variables_metadata.len());
        let len = self.instructions.len();
        self.variables_metadata.push(VariableMetadata { defined: len, last_use: len });
        proof {
            let n = self.variables_metadata@.len();
            assert forall|i: int| 0 <= i < self.instructions@.len() implies instruction_wf(
                #[trigger] self.instructions@[i],
                n,
                self.arguments@.len(),
            ) by {
                assert(instruction_wf(self.instructions@[i], (n - 1) as nat, self.arguments@.len()));
            }
            assert forall|j: int| 0 <= j < self.arguments@.len() implies operand_wf(
                #[trigger] self.arguments@[j],
                n,
            ) by {
                assert(operand_wf(self.arguments@[j], (n - 1) as nat));
            }
        }
        var_id
    }

    /// Pushes an instruction as it is; a call pushed here keeps the call number it
    /// carries, and the count of numbered calls stays as it was.
    pub fn push(&mut self, instruction: Instruction)
        ensures
            old(self).wf() && instruction_wf(
                instruction,
                old(self).variables_metadata@.len(),
                old(self).arguments@.len(),
            ) ==> final(self).wf(),
            final(self).instructions@ == old(self).instructions@.push(instruction),
            final(self).name == old(self).name,
            final(self).parameters == old(self).parameters,
            final(self).variables_metadata == old(self).variables_metadata,
            final(self).arguments == old(self).arguments,
            final(self).calls == old(self).calls,
            final(self).grown_from(old(self), 0),
    {
        self.instructions.push(instruction);
        proof {
            assert(self.instructions@.drop_last() =~= old(self).instructions@);
        }
    }

    pub fn push_fn_call(&mut self, definition_id: FnId, args: &[Variable], result: Option<VariableId>)
        requires
            old(self).calls < usize::MAX,
        ensures
            old(self).wf() && (forall|j: int| 0 <= j < args@.len() ==> operand_wf(
                #[trigger] args@[j],
                old(self).variables_metadata@.len(),
            )) && (result matches Some(r) ==> r.0 < old(self).variables_metadata@.len()) ==> final(self).wf(),
            final(self).arguments@ == old(self).arguments@ + args@,
            final(self).instructions@ == old(self).instructions@.push(
                Instruction::Call(
                    Call {
                        result,
                        fn_id: definition_id,
                        arguments_start: old(self).arguments@.len() as usize,
                        arguments_end: (old(self).arguments@.len() + args@.len()) as usize,
                        call_id: old(self).calls,
                    },
                ),
            ),
            final(self).calls == old(self).calls + 1,
            final(self).name == old(self).name,
            final(self).parameters == old(self).parameters,
            final(self).variables_metadata == old(self).variables_metadata,
            final(self).call_arguments(final(self).instructions@.last()->Call_0) == args@,
            final(self).grown_from(old(self), 0),
            final(self).pushes_call(old(self), definition_id, args@, result),
    {
        let start = self.arguments.len();
        let mut i: usize = 0;
        while i < args.len()
            invariant
                i <= args@.len(),
                self.arguments@ == old(self).arguments@ + args@.subrange(0, i as int),
                self.instructions == old(self).instructions,
                self.variables_metadata == old(self).variables_metadata,
                self.name == old(self).name,
                self.parameters == old(self).parameters,
                self.calls == old(self).calls,
            decreases args@.len() - i,
        {
            self.arguments.push(args[i]);
            i = i + 1;
            assert(self.arguments@ =~= old(self).arguments@ + args@.subrange(0, i as int));
        }
        assert(args@.subrange(0, args@.len() as int) =~= args@);
        let end = self.arguments.len();
        let call_id = self.calls;
        self.calls = self.calls + 1;
        self.instructions.push(
            Instruction::Call(Call { arguments_start: start, arguments_end: end, fn_id: definition_id, result, call_id }),
        );
        proof {
            assert(self.instructions@.drop_last() =~= old(self).instructions@);
        }
        proof {
            let n = self.variables_metadata@.len();
            if old(self).wf() && (forall|j: int| 0 <= j < args@.len() ==> operand_wf(#[trigger] args@[j], n))
                && (result matches Some(r) ==> r.0 < n) {
            assert forall|i: int| 0 <= i < self.instructions@.len() implies instruction_wf(
                #[trigger] self.instructions@[i],
                n,
                self.arguments@.len(),
            ) by {
                if i < old(self).instructions@.len() {
                    assert(instruction_wf(old(self).instructions@[i], n, old(self).arguments@.len()));
                }
            }
            assert forall|j: int| 0 <= j < self.arguments@.len() implies operand_wf(
                #[trigger] self.arguments@[j],
                n,
            ) by {
                if j >= old(self).arguments@.len() {
                    assert(self.arguments@[j] == args@[j - old(self).arguments@.len()]);
                } else {
                    assert(self.arguments@[j] == old(self).arguments@[j]);
                }
            }
            }
        }
    }

    /// Updates the variable `last_use` metadata to be the next instruction to be pushed.
    pub fn use_variable(&mut self, id: VariableId)
        requires
            old(self).wf(),
            id.0 < old(self).variables_metadata@.len(),
        ensures
            final(self).wf(),
            final(self).variables_metadata@ == old(self).variables_metadata@.update(
                id.0 as int,
                VariableMetadata {
                    defined: old(self).variables_metadata@[id.0 as int].defined,
                    last_use: old(self).instructions@.len() as usize,
                },
            ),
            final(self).name == old(self).name,
            final(self).parameters == old(self).parameters,
            final(self).instructions == old(self).instructions,
            final(self).arguments == old(self).arguments,
            final(self).calls == old(self).calls,
            final(self).grown_from(old(self), 0),
    {
        let len = self.instructions.len();
        let defined = self.variables_metadata[id.0].defined;
        self.variables_metadata.set(id.0, VariableMetadata { defined, last_use: len });
    }
}

/// Growth adds up: a definition grown by `j` new variables from `a`, then by `k` from
/// that, is grown by `j + k` from `a`. With `new_variable` growing a definition by one
/// and `push`, `push_fn_call` and `use_variable` by none, a definition made by
/// `new(name, p)` has `p + k` variables after `k` calls of `new_variable`, whatever was
/// pushed in between.
pub proof fn lemma_growth_adds_up<'a>(
    a: FnDefinition<'a>,
    b: FnDefinition<'a>,
    c: FnDefinition<'a>,
    j: nat,
    k: nat,
)
    requires
        b.grown_from(&a, j),
        c.grown_from(&b, k),
    ensures
        c.grown_from(&a, j + k),
{
    assert(a.instructions@ =~= c.instructions@.subrange(0, a.instructions@.len() as int));
    assert(a.arguments@ =~= c.arguments@.subrange(0, a.arguments@.len() as int));
}

/// A definition grown by `k` new variables from one with only its parameters has
/// `parameters + k` variables.
pub proof fn lemma_variables_count<'a>(start: FnDefinition<'a>, d: FnDefinition<'a>, k: nat)
    requires
        start.variables_metadata@.len() == start.parameters,
        d.grown_from(&start, k),
    ensures
        d.variables_metadata@.len() == d.parameters + k,
{
}

/// The arguments of a call stay what they were while the definition grows: what
/// `get_arguments` gives for a call that `push_fn_call` pushed is the arguments it was
/// given, however many instructions and calls follow.
pub proof fn lemma_call_arguments_stay<'a>(
    earlier: FnDefinition<'a>,
    later: FnDefinition<'a>,
    k: nat,
    call: Call,
)
    requires
        later.grown_from(&earlier, k),
        call.arguments_start <= call.arguments_end <= earlier.arguments@.len(),
    ensures
        later.call_arguments(call) == earlier.call_arguments(call),
{
    assert(later.call_arguments(call) =~= earlier.call_arguments(call)) by {
        assert forall|i: int| 0 <= i < later.call_arguments(call).len() implies later.call_arguments(call)[i]
            == earlier.call_arguments(call)[i] by {
            assert(later.arguments@[call.arguments_start + i] == later.arguments@.subrange(
                0,
                earlier.arguments@.len() as int,
            )[call.arguments_start + i]);
        }
    }
}

/// A call's arguments read back as they were given: after `push_fn_call` pushed a call
/// with `args`, `get_arguments` of that call gives `args`, in order, however the
/// definition grows after it (by `push`, `push_fn_call` or new variables).
pub proof fn lemma_call_arguments_read_back<'a>(
    before: FnDefinition<'a>,
    pushed: FnDefinition<'a>,
    later: FnDefinition<'a>,
    fn_id: FnId,
    args: Seq<Variable>,
    result: Option<VariableId>,
    k: nat,
)
    requires
        pushed.pushes_call(&before, fn_id, args, result),
        later.grown_from(&pushed, k),
        before.arguments@.len() + args.len() <= usize::MAX,
    ensures
        pushed.instructions@.last() matches Instruction::Call(call) && later.call_arguments(call) == args
            && later.call_arguments(call).len() == args.len(),
{
    let call = pushed.instructions@.last()->Call_0;
    assert(pushed.call_arguments(call) =~= args);
    lemma_call_arguments_stay(pushed, later, k, call);
}

/// What `get_fn_id` gives and leaves: the id a known name has, or a new local id for a
/// new name, registered to be defined later.
pub open spec fn lookup_outcome<'code>(
    stages: Seq<FnDefinitionStage<'code>>,
    names: Map<Seq<u8>, FnId>,
    name: &'code [u8],
) -> (FnId, Seq<FnDefinitionStage<'code>>, Map<Seq<u8>, FnId>) {
    if names.dom().contains(name@) {
        (names[name@], stages, names)
    } else {
        let id = FnId::Local(FnDefinitionId(stages.len() as usize));
        (id, stages.push(FnDefinitionStage::ToDefine { name }), names.insert(name@, id))
    }
}

/// What `define` gives and leaves: an unnamed function is added; a new name is
/// registered with the function; a name registered to be defined later gets the
/// function under its id; a defined or external name is refused.
pub open spec fn define_outcome<'code>(
    stages: Seq<FnDefinitionStage<'code>>,
    names: Map<Seq<u8>, FnId>,
    def: FnDefinition<'code>,
) -> (Result<FnDefinitionId, ()>, Seq<FnDefinitionStage<'code>>, Map<Seq<u8>, FnId>) {
    let next = FnDefinitionId(stages.len() as usize);
    if def.name@.len() == 0 {
        (Ok(next), stages.push(FnDefinitionStage::Defined(def)), names)
    } else if !names.dom().contains(def.name@) {
        (Ok(next), stages.push(FnDefinitionStage::Defined(def)), names.insert(def.name@, FnId::Local(next)))
    } else {
        match names[def.name@] {
            FnId::Extern(_) => (Err(()), stages, names),
            FnId::Local(id) => if stages[id.0 as int] is ToDefine {
                (Ok(id), stages.update(id.0 as int, FnDefinitionStage::Defined(def)), names)
            } else {
                (Err(()), stages, names)
            },
        }
    }
}

/// A function may be used before it is defined: for a new name, looking it up and then
/// defining a function of that name gives the same id, the same stages and the same
/// names as defining it first and looking it up after.
pub proof fn lemma_define_lookup_commute<'code>(
    stages: Seq<FnDefinitionStage<'code>>,
    names: Map<Seq<u8>, FnId>,
    def: FnDefinition<'code>,
    name: &'code [u8],
)
    requires
        def.name@ == name@,
        name@.len() != 0,
        !names.dom().contains(name@),
        stages.len() < usize::MAX,
    ensures
        ({
            let (looked, st1, nm1) = lookup_outcome(stages, names, name);
            let (defined, st2, nm2) = define_outcome(st1, nm1, def);
            let (defined_first, st3, nm3) = define_outcome(stages, names, def);
            let (looked_after, st4, nm4) = lookup_outcome(st3, nm3, name);
            &&& looked == FnId::Local(FnDefinitionId(stages.len() as usize))
            &&& looked_after == looked
            &&& defined == Ok::<FnDefinitionId, ()>(FnDefinitionId(stages.len() as usize))
            &&& defined_first == defined
            &&& st2 == st4
            &&& nm2 == nm4
        }),
{
    let (looked, st1, nm1) = lookup_outcome(stages, names, name);
    assert(st1[stages.len() as int] is ToDefine);
    assert(st1.update(stages.len() as int, FnDefinitionStage::Defined(def)) =~= stages.push(
        FnDefinitionStage::Defined(def),
    ));
}

/// The name under which a stage is known.
pub open spec fn stage_name<'code>(stage: FnDefinitionStage<'code>) -> Seq<u8> {
    match stage {
        FnDefinitionStage::ToDefine { name } => name@,
        FnDefinitionStage::Defined(def) => def.name@,
    }
}

impl<'code> ModuleDefinitions<'code> {
    /// The stages, indexed by `FnDefinitionId`.
    pub closed spec fn stages(&self) -> Seq<FnDefinitionStage<'code>> {
        self.definitions@
    }

    /// The registered names.
    pub closed spec fn names(&self) -> Map<Seq<u8>, FnId> {
        self.definitions_map@
    }

    /// Every local id that a name maps to points at a stage of that name, and every
    /// function that is yet to be defined is registered under its name.
    pub closed spec fn wf(&self) -> bool {
        &&& self.definitions_map.wf()
        &&& forall|k: Seq<u8>|
            #![trigger self.definitions_map@[k]]
            self.definitions_map@.dom().contains(k) ==> (self.definitions_map@[k] matches FnId::Local(
                id,
            ) ==> id.0 < self.definitions@.len() && stage_name(self.definitions@[id.0 as int]) == k)
        &&& forall|i: int|
            0 <= i < self.definitions@.len() ==> (#[trigger] self.definitions@[i] matches FnDefinitionStage::ToDefine {
                name,
            } ==> self.definitions_map@.dom().contains(name@) && self.definitions_map@[name@]
                == FnId::Local(FnDefinitionId(i as usize)))
    }

    /// A module that knows the given external functions.
    pub fn new(definitions: NameMap<'code>) -> (r: Self)
        requires
            definitions.wf(),
            forall|k: Seq<u8>| #[trigger]
                definitions@.dom().contains(k) ==> definitions@[k] is Extern,
        ensures
            r.wf(),
            r.names() == definitions@,
            r.stages() == Seq::<FnDefinitionStage<'code>>::empty(),
    {
        ModuleDefinitions { definitions: Vec::new(), definitions_map: definitions }
    }

    /// Number of defined or to-be-defined functions.
    pub fn len(&self) -> (r: usize)
        ensures
            r == self.stages().len(),
    {
        self.definitions.len()
    }

    /// The stage of a function.
    pub fn index(&self, id: FnDefinitionId) -> (r: &FnDefinitionStage<'code>)
        requires
            id.0 < self.stages().len(),
        ensures
            *r == self.stages()[id.0 as int],
    {
        &self.definitions[id.0]
    }

    /// What defining a function of the given name gives: a new id for a function without
    /// a name or with a new one, the registered id for a function that was only called so
    /// far, and an error for a name that is defined or external.
    pub open spec fn define_result(&self, name: Seq<u8>) -> Result<FnDefinitionId, ()> {
        if name.len() == 0 || !self.names().dom().contains(name) {
            Ok(FnDefinitionId(self.stages().len() as usize))
        } else {
            match self.names()[name] {
                FnId::Extern(_) => Err(()),
                FnId::Local(id) => if self.stages()[id.0 as int] is ToDefine {
                    Ok(id)
                } else {
                    Err(())
                },
            }
        }
    }

    /// Returns error if a function with the same identifier is already defined.
    pub fn define(&mut self, def: FnDefinition<'code>) -> (r: Result<FnDefinitionId, ()>)
        requires
            old(self).wf(),
        ensures
            final(self).wf(),
            r == old(self).define_result(def.name@),
            (r, final(self).stages(), final(self).names()) == define_outcome(old(self).stages(), old(self).names(), def),
            def.name@.len() == 0 ==> {
                &&& r == Ok::<FnDefinitionId, ()>(FnDefinitionId(old(self).stages().len() as usize))
                &&& final(self).stages() == old(self).stages().push(FnDefinitionStage::Defined(def))
                &&& final(self).names() == old(self).names()
            },
            def.name@.len() != 0 && !old(self).names().dom().contains(def.name@) ==> {
                &&& r == Ok::<FnDefinitionId, ()>(FnDefinitionId(old(self).stages().len() as usize))
                &&& final(self).stages() == old(self).stages().push(FnDefinitionStage::Defined(def))
                &&& final(self).names() == old(self).names().insert(
                    def.name@,
                    FnId::Local(FnDefinitionId(old(self).stages().len() as usize)),
                )
            },
            def.name@.len() != 0 && old(self).names().dom().contains(def.name@) ==> {
                match old(self).names()[def.name@] {
                    FnId::Extern(_) => {
                        &&& r is Err
                        &&& final(self).stages() == old(self).stages()
                        &&& final(self).names() == old(self).names()
                    },
                    FnId::Local(id) => id.0 < old(self).stages().len() && if old(self).stages()[id.0 as int] is ToDefine {
                        &&& r == Ok::<FnDefinitionId, ()>(id)
                        &&& final(self).stages() == old(self).stages().update(
                            id.0 as int,
                            FnDefinitionStage::Defined(def),
                        )
                        &&& final(self).names() == old(self).names()
                    } else {
                        &&& r is Err
                        &&& final(self).stages() == old(self).stages()
                        &&& final(self).names() == old(self).names()
                    },
                }
            },
    {
        // We do not register unamed functions
        if def.name.len() == 0 {
            let id = FnDefinitionId(self.definitions.len());
            self.definitions.push(FnDefinitionStage::Defined(def));
            proof {
                self.lemma_push_keeps_wf(old(self));
            }
            return Ok(id);
        }
        match self.definitions_map.get(def.name) {
            None => {
                let id = FnDefinitionId(self.definitions.len());
                let name = def.name;
                self.definitions.push(FnDefinitionStage::Defined(def));
                self.definitions_map.insert_new(name, FnId::Local(id));
                proof {
                    let old_len = old(self).definitions@.len();
                    assert forall|k: Seq<u8>|
                        #![trigger self.definitions_map@[k]]
                        self.definitions_map@.dom().contains(k) implies (
                        self.definitions_map@[k] matches FnId::Local(id2) ==> id2.0
                            < self.definitions@.len() && stage_name(self.definitions@[id2.0 as int])
                            == k) by {
                        if k != name@ {
                            assert(old(self).definitions_map@[k] == self.definitions_map@[k]);
                        }
                    }
                    assert forall|i: int| 0 <= i < self.definitions@.len() implies (
                    #[trigger] self.definitions@[i] matches FnDefinitionStage::ToDefine { name: n2 }
                        ==> self.definitions_map@.dom().contains(n2@) && self.definitions_map@[n2@]
                        == FnId::Local(FnDefinitionId(i as usize))) by {
                        if i < old_len {
                            assert(self.definitions@[i] == old(self).definitions@[i]);
                            if let FnDefinitionStage::ToDefine { name: n2 } = self.definitions@[i] {
                                assert(old(self).definitions_map@.dom().contains(n2@));
                                assert(n2@ != name@);
                            }
                        }
                    }
                }
                Ok(id)
            },
            Some(FnId::Extern(_)) => Err(()),
            Some(FnId::Local(fn_definition_id)) => {
                let is_to_define = match &self.definitions[fn_definition_id.0] {
                    FnDefinitionStage::ToDefine { .. } => true,
                    FnDefinitionStage::Defined(_) => false,
                };
                if is_to_define {
                    let ghost key = def.name@;
                    self.definitions.set(fn_definition_id.0, FnDefinitionStage::Defined(def));
                    proof {
                        assert forall|k: Seq<u8>|
                            #![trigger self.definitions_map@[k]]
                            self.definitions_map@.dom().contains(k) implies (
                            self.definitions_map@[k] matches FnId::Local(id2) ==> id2.0
                                < self.definitions@.len() && stage_name(
                                self.definitions@[id2.0 as int],
                            ) == k) by {
                            assert(old(self).definitions_map@[k] == self.definitions_map@[k]);
                        }
                        assert forall|i: int| 0 <= i < self.definitions@.len() implies (
                        #[trigger] self.definitions@[i] matches FnDefinitionStage::ToDefine {
                            name: n2,
                        } ==> self.definitions_map@.dom().contains(n2@)
                            && self.definitions_map@[n2@] == FnId::Local(
                            FnDefinitionId(i as usize),
                        )) by {
                            if i != fn_definition_id.0 {
                                assert(self.definitions@[i] == old(self).definitions@[i]);
                            }
                        }
                    }
                    Ok(fn_definition_id)
                } else {
                    Err(())
                }
            },
        }
    }

    proof fn lemma_push_keeps_wf(&self, old_self: &Self)
        requires
            old_self.wf(),
            self.definitions_map == old_self.definitions_map,
            self.definitions@.len() == old_self.definitions@.len() + 1,
            forall|i: int|
                0 <= i < old_self.definitions@.len() ==> self.definitions@[i]
                    == old_self.definitions@[i],
            self.definitions@.last() is Defined,
        ensures
            self.wf(),
    {
        assert forall|k: Seq<u8>|
            #![trigger self.definitions_map@[k]]
            self.definitions_map@.dom().contains(k) implies (self.definitions_map@[k] matches FnId::Local(
                id,
            ) ==> id.0 < self.definitions@.len() && stage_name(self.definitions@[id.0 as int]) == k) by {
            assert(old_self.definitions_map@[k] == self.definitions_map@[k]);
        }
    }

    /// If the provided `name` is not registered, a new FnId is assigned and returned.
    pub fn get_fn_id(&mut self, name: &'code [u8]) -> (r: FnId)
        requires
            old(self).wf(),
        ensures
            final(self).wf(),
            r matches FnId::Local(id) ==> id.0 < final(self).stages().len(),
            old(self).names().dom().contains(name@) ==> {
                &&& r == old(self).names()[name@]
                &&& final(self).stages() == old(self).stages()
                &&& final(self).names() == old(self).names()
            },
            (r, final(self).stages(), final(self).names()) == lookup_outcome(old(self).stages(), old(self).names(), name),
            !old(self).names().dom().contains(name@) ==> {
                &&& r == FnId::Local(FnDefinitionId(old(self).stages().len() as usize))
                &&& final(self).stages() == old(self).stages().push(
                    FnDefinitionStage::ToDefine { name },
                )
                &&& final(self).names() == old(self).names().insert(name@, r)
            },
    {
        match self.definitions_map.get(name) {
            Some(id) => {
                proof {
                    assert(self.definitions_map@[name@] == id);
                }
                id
            },
            None => {
                let id = FnId::Local(FnDefinitionId(self.definitions.len()));
                self.definitions_map.insert_new(name, id);
                self.definitions.push(FnDefinitionStage::ToDefine { name });
                proof {
                    let old_len = old(self).definitions@.len();
                    assert forall|k: Seq<u8>|
                        #![trigger self.definitions_map@[k]]
                        self.definitions_map@.dom().contains(k) implies (
                        self.definitions_map@[k] matches FnId::Local(id2) ==> id2.0
                            < self.definitions@.len() && stage_name(self.definitions@[id2.0 as int])
                            == k) by {
                        if k != name@ {
                            assert(old(self).definitions_map@[k] == self.definitions_map@[k]);
                        }
                    }
                    assert forall|i: int| 0 <= i < self.definitions@.len() implies (
                    #[trigger] self.definitions@[i] matches FnDefinitionStage::ToDefine { name: n2 }
                        ==> self.definitions_map@.dom().contains(n2@) && self.definitions_map@[n2@]
                        == FnId::Local(FnDefinitionId(i as usize))) by {
                        if i < old_len {
                            assert(self.definitions@[i] == old(self).definitions@[i]);
                            if let FnDefinitionStage::ToDefine { name: n2 } = self.definitions@[i] {
                                assert(old(self).definitions_map@.dom().contains(n2@));
                                assert(n2@ != name@);
                            }
                        }
                    }
                }
                id
            },
        }
    }
}

/// A function can be called before it is defined: the id that the call registers for the
/// name is the id that the definition of the name then gets.
pub proof fn lemma_call_before_definition<'code>(
    before: ModuleDefinitions<'code>,
    after: ModuleDefinitions<'code>,
    name: &'code [u8],
)
    requires
        before.wf(),
        before.stages().len() < usize::MAX,
        name@.len() != 0,
        !before.names().dom().contains(name@),
        after.names() == before.names().insert(
            name@,
            FnId::Local(FnDefinitionId(before.stages().len() as usize)),
        ),
        after.stages() == before.stages().push(FnDefinitionStage::ToDefine { name }),
    ensures
        after.define_result(name@) == Ok::<FnDefinitionId, ()>(
            FnDefinitionId(before.stages().len() as usize),
        ),
{
    assert(after.stages()[before.stages().len() as int] is ToDefine);
}

} // verus!

verus! {

/// A control flow scope that is open at some point of a function.
#[derive(Clone, Copy, PartialEq, Eq, Structural)]
pub enum ScopeKind {
    If,
    Loop,
}

/// The open scopes after one instruction, or `None` where the instruction cannot stand.
pub open spec fn step_scopes(stack: Seq<ScopeKind>, inst: Instruction) -> Option<Seq<ScopeKind>> {
    match inst {
        Instruction::IfStart(..) => Some(stack.push(ScopeKind::If)),
        Instruction::Else => if stack.len() > 0 && stack.last() == ScopeKind::If {
            Some(stack)
        } else {
            None
        },
        Instruction::IfEnd(n) => if n <= stack.len() && forall|i: int|
            stack.len() - n <= i < stack.len() ==> #[trigger] stack[i] == ScopeKind::If {
            Some(stack.subrange(0, stack.len() - n))
        } else {
            None
        },
        Instruction::LoopStart => Some(stack.push(ScopeKind::Loop)),
        Instruction::LoopEnd => if stack.len() > 0 && stack.last() == ScopeKind::Loop {
            Some(stack.drop_last())
        } else {
            None
        },
        Instruction::Break => if stack.contains(ScopeKind::Loop) {
            Some(stack)
        } else {
            None
        },
        _ => Some(stack),
    }
}

/// The open scopes after running the instructions from the given open scopes.
pub open spec fn run_scopes(stack: Seq<ScopeKind>, insts: Seq<Instruction>) -> Option<Seq<ScopeKind>>
    decreases insts.len(),
{
    if insts.len() == 0 {
        Some(stack)
    } else {
        match run_scopes(stack, insts.drop_last()) {
            Some(st) => step_scopes(st, insts.last()),
            None => None,
        }
    }
}

/// The instructions close every scope they open, and use `Else`, `IfEnd` and `Break`
/// only inside scopes they opened themselves.
pub open spec fn balanced(insts: Seq<Instruction>) -> bool {
    forall|st: Seq<ScopeKind>| #[trigger] run_scopes(st, insts) == Some(st)
}

/// Control flow of a whole function: each `IfStart` is closed by an `IfEnd`, each `Else`
/// stands in an if, each `LoopStart` is closed by a `LoopEnd`, and each `Break` stands
/// in a loop.
pub open spec fn well_nested(insts: Seq<Instruction>) -> bool {
    run_scopes(Seq::empty(), insts) == Some(Seq::<ScopeKind>::empty())
}

/// Running two sequences of instructions runs the first, then the second.
pub proof fn lemma_run_append(st: Seq<ScopeKind>, a: Seq<Instruction>, b: Seq<Instruction>)
    ensures
        run_scopes(st, a + b) == (match run_scopes(st, a) {
            Some(s2) => run_scopes(s2, b),
            None => None,
        }),
    decreases b.len(),
{
    if b.len() == 0 {
        assert(a + b =~= a);
    } else {
        lemma_run_append(st, a, b.drop_last());
        assert((a + b).drop_last() =~= a + b.drop_last());
    }
}

/// Balanced code that follows balanced code is balanced.
pub proof fn lemma_balanced_append(a: Seq<Instruction>, b: Seq<Instruction>)
    requires
        balanced(a),
        balanced(b),
    ensures
        balanced(a + b),
{
    assert forall|st: Seq<ScopeKind>| #[trigger] run_scopes(st, a + b) == Some(st) by {
        lemma_run_append(st, a, b);
        assert(run_scopes(st, a) == Some(st));
        assert(run_scopes(st, b) == Some(st));
    }
}

/// Balanced code is well nested.
pub proof fn lemma_balanced_well_nested(a: Seq<Instruction>)
    requires
        balanced(a),
    ensures
        well_nested(a),
{
    assert(run_scopes(Seq::empty(), a) == Some(Seq::<ScopeKind>::empty()));
}

/// Every call to a local function names one of the first `n` functions.
pub open spec fn calls_in_range(insts: Seq<Instruction>, n: nat) -> bool {
    forall|i: int|
        0 <= i < insts.len() ==> (#[trigger] insts[i] matches Instruction::Call(c) ==> (c.fn_id matches FnId::Local(
            id,
        ) ==> id.0 < n))
}

/// Calls, assignments and returns leave the open scopes as they are.
pub open spec fn neutral(inst: Instruction) -> bool {
    inst is Call || inst is Assign || inst is Return
}

/// Code made of neutral instructions is balanced.
pub proof fn lemma_neutral_balanced(a: Seq<Instruction>)
    requires
        forall|i: int| 0 <= i < a.len() ==> neutral(#[trigger] a[i]),
    ensures
        balanced(a),
    decreases a.len(),
{
    if a.len() > 0 {
        assert forall|i: int| 0 <= i < a.drop_last().len() implies neutral(#[trigger] a.drop_last()[i]) by {
            assert(a.drop_last()[i] == a[i]);
        }
        lemma_neutral_balanced(a.drop_last());
        assert forall|st: Seq<ScopeKind>| #[trigger] run_scopes(st, a) == Some(st) by {
            assert(run_scopes(st, a.drop_last()) == Some(st));
            assert(neutral(a[a.len() - 1]));
        }
    } else {
        assert forall|st: Seq<ScopeKind>| #[trigger] run_scopes(st, a) == Some(st) by {}
    }
}

} // verus!

verus! {

/// Running the instructions from any open scopes adds the scopes `d` on top of them.
pub open spec fn runs_delta(seg: Seq<Instruction>, d: Seq<ScopeKind>) -> bool {
    forall|st: Seq<ScopeKind>| #[trigger] run_scopes(st, seg) == Some(st + d)
}

/// An instruction that can stand after the scopes `d` can stand after any scopes that
/// end with `d`, and acts on them the same way.
pub proof fn lemma_step_shift(st: Seq<ScopeKind>, d: Seq<ScopeKind>, inst: Instruction)
    requires
        step_scopes(d, inst) is Some,
    ensures
        step_scopes(st + d, inst) == Some(st + step_scopes(d, inst)->0),
{
    let sd = st + d;
    match inst {
        Instruction::IfStart(..) => {
            assert(sd.push(ScopeKind::If) =~= st + d.push(ScopeKind::If));
        },
        Instruction::LoopStart => {
            assert(sd.push(ScopeKind::Loop) =~= st + d.push(ScopeKind::Loop));
        },
        Instruction::Else => {
            assert(sd.last() == d.last());
        },
        Instruction::LoopEnd => {
            assert(sd.last() == d.last());
            assert(sd.drop_last() =~= st + d.drop_last());
        },
        Instruction::Break => {
            let i = choose|i: int| 0 <= i < d.len() && d[i] == ScopeKind::Loop;
            assert(sd[st.len() + i] == ScopeKind::Loop);
        },
        Instruction::IfEnd(n) => {
            assert forall|i: int| sd.len() - n <= i < sd.len() implies #[trigger] sd[i] == ScopeKind::If by {
                assert(sd[i] == d[i - st.len()]);
                assert(d[i - st.len()] == ScopeKind::If);
            }
            assert(sd.subrange(0, sd.len() - n) =~= st + d.subrange(0, d.len() - n));
        },
        _ => {},
    }
}

/// Pushing an instruction applies it on top of the scopes the code leaves open.
pub proof fn lemma_delta_push(seg: Seq<Instruction>, d: Seq<ScopeKind>, inst: Instruction)
    requires
        runs_delta(seg, d),
        step_scopes(d, inst) is Some,
    ensures
        runs_delta(seg.push(inst), step_scopes(d, inst)->0),
{
    assert forall|st: Seq<ScopeKind>| #[trigger] run_scopes(st, seg.push(inst)) == Some(
        st + step_scopes(d, inst)->0,
    ) by {
        assert(seg.push(inst).drop_last() =~= seg);
        assert(run_scopes(st, seg) == Some(st + d));
        lemma_step_shift(st, d, inst);
    }
}

/// Code that opens `d1` followed by code that opens `d2` opens `d1 + d2`.
pub proof fn lemma_delta_append(a: Seq<Instruction>, d1: Seq<ScopeKind>, b: Seq<Instruction>, d2: Seq<ScopeKind>)
    requires
        runs_delta(a, d1),
        runs_delta(b, d2),
    ensures
        runs_delta(a + b, d1 + d2),
{
    assert forall|st: Seq<ScopeKind>| #[trigger] run_scopes(st, a + b) == Some(st + (d1 + d2)) by {
        lemma_run_append(st, a, b);
        assert(run_scopes(st, a) == Some(st + d1));
        assert(run_scopes(st + d1, b) == Some(st + d1 + d2));
        assert(st + d1 + d2 =~= st + (d1 + d2));
    }
}

/// Balanced code opens nothing.
pub proof fn lemma_balanced_delta(a: Seq<Instruction>)
    ensures
        balanced(a) <==> runs_delta(a, Seq::empty()),
{
    assert forall|st: Seq<ScopeKind>| st + Seq::<ScopeKind>::empty() == st by {
        assert(st + Seq::<ScopeKind>::empty() =~= st);
    }
}

} // verus!
