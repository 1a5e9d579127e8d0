//! Function instances: a function together with the types of its parameters.
use crate::compiler::hir::definition::{
    ExternFnId, FnDefinition, FnDefinitionId, FnDefinitionStage, FnId, ModuleDefinitions,
};
use crate::compiler::hir::external::ExternalDefinitions;
use crate::compiler::hir::keyed::{distinct_keys, keyed_map, lemma_keyed_map, lemma_keyed_push};
use crate::compiler::hir::params::ParamsTypes;
use crate::compiler::hir::value::{ValueType, Variable, value_type_of};
use vstd::prelude::*;

verus! {

/// Index of an instance inside the module.
#[derive(Clone, Copy, Debug, PartialEq, Eq, Structural)]
pub struct FnInstanceId(pub usize);

/// A function of the source, instantiated for the given parameter types.
pub struct LocalFnInstanceDeclaration {
    pub fn_id: FnDefinitionId,
    pub parameters: ParamsTypes,
}

/// A function of the host, instantiated for the given parameter types.
pub struct ExternFnInstanceDeclaration {
    pub fn_id: ExternFnId,
    pub parameters: ParamsTypes,
}

/// A function with the types of all its variables.
pub struct FnInstance {
    pub id: FnInstanceId,
    /// The first `parameters` variables are the parameters.
    pub parameters: usize,
    pub variables: Vec<ValueType>,
    /// The instances that this one calls.
    pub imported_instances: Vec<FnInstanceId>,
    pub return_type: ValueType,
    /// Address of the host function, for the instances of external functions.
    pub external_ptr: Option<usize>,
}

/// The type of an operand, given the types of the variables.
pub open spec fn operand_type(variables: Seq<ValueType>, value: Variable) -> ValueType {
    match value {
        Variable::Id(index) => variables[index.0 as int],
        Variable::Const(value) => value_type_of(value),
        Variable::Unknown => ValueType::Unknown,
    }
}

impl FnInstance {
    pub fn type_of(&self, variable: &Variable) -> (r: ValueType)
        requires
            variable matches Variable::Id(index) ==> index.0 < self.variables@.len(),
        ensures
            r == operand_type(self.variables@, *variable),
    {
        match variable {
            Variable::Id(index) => self.variables[index.0],
            Variable::Const(value) => value.get_type(),
            Variable::Unknown => ValueType::Unknown,
        }
    }

    /// The types of the parameters.
    pub fn parameters(&self) -> (r: &[ValueType])
        requires
            self.parameters <= self.variables@.len(),
        ensures
            r@ == self.variables@.subrange(0, self.parameters as int),
    {
        vstd::slice::slice_subrange(self.variables.as_slice(), 0, self.parameters)
    }
}

/// What asking for an instance gives.
pub enum NewFnInstanceResult<'def, 'code> {
    /// A function instance with the given declaration did not exist: it is being created.
    New { id: FnInstanceId, instance: FnInstance, definition: &'def FnDefinition<'code> },
    /// The instance already exists.
    Exists { id: FnInstanceId },
    WrongArgumentCount { definition: &'def FnDefinition<'code> },
    UndefinedFunction { name: &'code [u8] },
    UndefinedExternalInstance { fn_id: ExternFnId },
}

pub enum FnInstanceStage {
    /// The instance is being created, wait till it finishes to get it.
    BeeingCreated,
    /// Found errors while creating the instance, but managed to infer the return type.
    WithErrors { return_type: ValueType },
    /// Found errors while creating the instance.
    WithFatalErrors,
    /// The instance has been created successfully: all its types are known.
    Created(FnInstance),
}

/// The stage that an instance reaches once its types have been inferred.
pub open spec fn finished_stage(instance: FnInstance) -> FnInstanceStage {
    if instance.return_type == ValueType::Unknown {
        FnInstanceStage::WithFatalErrors
    } else if exists|i: int|
        0 <= i < instance.variables@.len() && instance.variables@[i] == ValueType::Unknown {
        FnInstanceStage::WithErrors { return_type: instance.return_type }
    } else {
        FnInstanceStage::Created(instance)
    }
}

/// The instance that is created for a function with `variables` variables, before any
/// type is inferred: the parameters have their types, the other variables none yet.
pub open spec fn fresh_instance(
    instance: FnInstance,
    id: FnInstanceId,
    parameters: Seq<ValueType>,
    variables: nat,
) -> bool {
    &&& instance.id == id
    &&& instance.parameters == parameters.len()
    &&& instance.variables@ == parameters + Seq::new(
        (variables - parameters.len()) as nat,
        |i: int| ValueType::Unknown,
    )
    &&& instance.imported_instances@ == Seq::<FnInstanceId>::empty()
    &&& instance.return_type == ValueType::Unknown
    &&& instance.external_ptr == None::<usize>
}

/// Compares two lists of types.
pub fn same_types(a: &[ValueType], b: &[ValueType]) -> (r: bool)
    ensures
        r == (a@ == b@),
{
    if a.len() != b.len() {
        return false;
    }
    let mut i: usize = 0;
    while i < a.len()
        invariant
            a@.len() == b@.len(),
            i <= a@.len(),
            forall|j: int| 0 <= j < i ==> a@[j] == b@[j],
        decreases a@.len() - i,
    {
        if a[i] != b[i] {
            return false;
        }
        i = i + 1;
    }
    assert(a@ =~= b@);
    true
}

/// The instances of the host functions, declared before compiling.
pub struct ExternalInstances {
    instances: Vec<FnInstanceStage>,
    map: Vec<(ExternFnInstanceDeclaration, FnInstanceId)>,
}

/// The external functions: their names and their instances.
pub struct ExternalCode {
    pub definitions: ExternalDefinitions,
    pub instances: ExternalInstances,
}

/// The key of an external declaration.
pub open spec fn extern_entry(e: (ExternFnInstanceDeclaration, FnInstanceId)) -> (
    (ExternFnId, Seq<ValueType>),
    FnInstanceId,
) {
    ((e.0.fn_id, e.0.parameters@), e.1)
}

/// The key of a local declaration.
pub open spec fn local_entry(e: (LocalFnInstanceDeclaration, FnInstanceId)) -> (
    (FnDefinitionId, Seq<ValueType>),
    FnInstanceId,
) {
    ((e.0.fn_id, e.0.parameters@), e.1)
}

impl ExternalInstances {
    pub closed spec fn stages(&self) -> Seq<FnInstanceStage> {
        self.instances@
    }

    /// The declarations, by function and parameter types, with their instances.
    pub closed spec fn entries(&self) -> Seq<((ExternFnId, Seq<ValueType>), FnInstanceId)> {
        self.map@.map_values(|e: (ExternFnInstanceDeclaration, FnInstanceId)| extern_entry(e))
    }

    pub open spec fn map(&self) -> Map<(ExternFnId, Seq<ValueType>), FnInstanceId> {
        keyed_map(self.entries())
    }

    /// Each declaration is made once, points at its instance, and every instance is
    /// complete.
    pub closed spec fn wf(&self) -> bool {
        &&& distinct_keys(self.entries())
        &&& forall|i: int|
            0 <= i < self.map@.len() ==> (#[trigger] self.map@[i]).1.0 < self.instances@.len()
        &&& forall|i: int| 0 <= i < self.instances@.len() ==> #[trigger] self.instances@[i] is Created
        &&& forall|i: int|
            0 <= i < self.instances@.len() ==> (#[trigger] self.instances@[i] matches FnInstanceStage::Created(
                instance,
            ) ==> instance.imported_instances@.len() == 0)
    }

    /// Every external instance is complete.
    pub proof fn lemma_complete(&self)
        requires
            self.wf(),
        ensures
            forall|i: int| 0 <= i < self.stages().len() ==> #[trigger] self.stages()[i] is Created,
            forall|i: int|
                0 <= i < self.stages().len() ==> (#[trigger] self.stages()[i] matches FnInstanceStage::Created(
                    instance,
                ) ==> instance.imported_instances@.len() == 0),
    {
    }

    pub fn new() -> (r: Self)
        ensures
            r.wf(),
            r.stages() == Seq::<FnInstanceStage>::empty(),
            r.map() == Map::<(ExternFnId, Seq<ValueType>), FnInstanceId>::empty(),
    {
        let r = ExternalInstances { instances: Vec::new(), map: Vec::new() };
        assert(r.entries() =~= Seq::empty());
        r
    }

    /// Number of external instances.
    pub fn len(&self) -> (r: usize)
        ensures
            r == self.stages().len(),
    {
        self.instances.len()
    }
}

impl ExternalCode {
    /// The ids of the names are below their number, and every instance belongs to a
    /// declared name.
    pub open spec fn wf(&self) -> bool {
        &&& self.definitions.wf()
        &&& self.instances.wf()
        &&& forall|k: Seq<u8>| #[trigger]
            self.definitions.0@.dom().contains(k) ==> self.definitions.0@[k]->Extern_0.0
                < self.definitions.0@.dom().len()
        &&& forall|k: (ExternFnId, Seq<ValueType>)| #[trigger]
            self.instances.map().dom().contains(k) ==> k.0.0 < self.definitions.0@.dom().len()
    }

    pub fn new() -> (r: Self)
        ensures
            r.wf(),
            r.definitions.0@ == Map::<Seq<u8>, FnId>::empty(),
            r.instances.stages() == Seq::<FnInstanceStage>::empty(),
            r.instances.map() == Map::<(ExternFnId, Seq<ValueType>), FnInstanceId>::empty(),
    {
        ExternalCode { definitions: ExternalDefinitions::new(), instances: ExternalInstances::new() }
    }

    /// Declares a host function, at `fn_ptr`, for the given parameter types.
    /// The name gets an id the first time it is declared; declaring the same
    /// parameter types twice for a name is a fault of the host, which `requires` rules out.
    pub fn declare_function(
        &mut self,
        name: &'static [u8],
        parameters: ParamsTypes,
        return_type: ValueType,
        fn_ptr: usize,
    )
        requires
            old(self).wf(),
            old(self).definitions.0@.dom().contains(name@) ==> !old(self).instances.map().dom().contains(
                (old(self).definitions.0@[name@]->Extern_0, parameters@),
            ),
        ensures
            final(self).wf(),
            ({
                let id = if old(self).definitions.0@.dom().contains(name@) {
                    old(self).definitions.0@[name@]->Extern_0
                } else {
                    ExternFnId(old(self).definitions.0@.dom().len() as usize)
                };
                let instance_id = FnInstanceId(old(self).instances.stages().len() as usize);
                &&& final(self).definitions.0@ == old(self).definitions.0@.insert(name@, FnId::Extern(id))
                &&& final(self).instances.map() == old(self).instances.map().insert(
                    (id, parameters@),
                    instance_id,
                )
                &&& final(self).instances.stages().len() == old(self).instances.stages().len() + 1
                &&& final(self).instances.stages().subrange(0, instance_id.0 as int)
                    == old(self).instances.stages()
                &&& final(self).instances.stages()[instance_id.0 as int] matches FnInstanceStage::Created(
                    instance,
                ) && instance.id == instance_id && instance.parameters == parameters@.len()
                    && instance.variables@ == parameters@ && instance.return_type == return_type
                    && instance.external_ptr == Some(fn_ptr)
                    && instance.imported_instances@ == Seq::<FnInstanceId>::empty()
            }),
    {
        let count = self.definitions.0.len();
        let new_fn_id = ExternFnId(count);
        let fn_id = match self.definitions.0.get(name) {
            Some(FnId::Extern(fn_id)) => fn_id,
            Some(FnId::Local(_)) => {
                proof {
                    assert(false);
                }
                new_fn_id
            },
            None => {
                self.definitions.0.insert_new(name, FnId::Extern(new_fn_id));
                assert(self.definitions.0@.dom() == old(self).definitions.0@.dom().insert(name@));
                new_fn_id
            },
        };
        let ghost key = (fn_id, parameters@);
        assert(!old(self).instances.map().dom().contains(key));
        proof {
            assert(self.definitions.0@ == old(self).definitions.0@.insert(name@, FnId::Extern(fn_id)));
            assert forall|k: Seq<u8>| #[trigger] self.definitions.0@.dom().contains(k) implies self.definitions.0@[k] is Extern by {
                if k != name@ {
                    assert(old(self).definitions.0@.dom().contains(k));
                }
            }
        }
        let id = FnInstanceId(self.instances.instances.len());
        let types = parameters.as_slice();
        let mut variables: Vec<ValueType> = Vec::new();
        let mut i: usize = 0;
        while i < types.len()
            invariant
                i <= types@.len(),
                variables@ == types@.subrange(0, i as int),
            decreases types@.len() - i,
        {
            variables.push(types[i]);
            i = i + 1;
            assert(variables@ =~= types@.subrange(0, i as int));
        }
        assert(variables@ =~= types@);
        let instance = FnInstance {
            id,
            parameters: types.len(),
            variables,
            imported_instances: Vec::new(),
            return_type,
            external_ptr: Some(fn_ptr),
        };
        proof {
            lemma_keyed_map(self.instances.entries());
        }
        let ghost old_entries = self.instances.entries();
        self.instances.instances.push(FnInstanceStage::Created(instance));
        self.instances.map.push((ExternFnInstanceDeclaration { fn_id, parameters }, id));
        proof {
            let key = (fn_id, parameters@);
            assert(self.instances.entries() =~= old_entries.push((key, id)));
            lemma_keyed_push(old_entries, key, id);
            assert(self.instances.stages().subrange(0, id.0 as int) =~= old(self).instances.stages());
            assert forall|i: int| 0 <= i < self.instances.map@.len() implies (
            #[trigger] self.instances.map@[i]).1.0 < self.instances.instances@.len() by {
                if i < old(self).instances.map@.len() {
                    assert(self.instances.map@[i] == old(self).instances.map@[i]);
                }
            }
            assert forall|k: Seq<u8>| #[trigger]
                self.definitions.0@.dom().contains(k) implies self.definitions.0@[k]->Extern_0.0
                    < self.definitions.0@.dom().len() by {
                if k != name@ {
                    assert(old(self).definitions.0@.dom().contains(k));
                }
            }
            assert forall|k: (ExternFnId, Seq<ValueType>)| #[trigger]
                self.instances.map().dom().contains(k) implies k.0.0 < self.definitions.0@.dom().len() by {
                if k != key {
                    assert(old(self).instances.map().dom().contains(k));
                }
            }
            assert forall|i: int| 0 <= i < self.instances.instances@.len() implies #[trigger] self.instances.instances@[i] is Created by {
                if i < old(self).instances.instances@.len() {
                    assert(self.instances.instances@[i] == old(self).instances.instances@[i]);
                }
            }
            assert forall|i: int| 0 <= i < self.instances.instances@.len() implies (#[trigger] self.instances.instances@[i] matches FnInstanceStage::Created(
                instance,
            ) ==> instance.imported_instances@.len() == 0) by {
                if i < old(self).instances.instances@.len() {
                    assert(self.instances.instances@[i] == old(self).instances.instances@[i]);
                }
            }
        }
    }
}

/// A collection of instantiated functions.
pub struct ModuleInstances {
    instances: Vec<FnInstanceStage>,
    local_instances_map: Vec<(LocalFnInstanceDeclaration, FnInstanceId)>,
    extern_instances_map: Vec<(ExternFnInstanceDeclaration, FnInstanceId)>,
}

impl ModuleInstances {
    /// The stages, indexed by `FnInstanceId`.
    pub closed spec fn stages(&self) -> Seq<FnInstanceStage> {
        self.instances@
    }

    /// The local declarations with their instances, in the order they were made.
    pub closed spec fn local_entries(&self) -> Seq<((FnDefinitionId, Seq<ValueType>), FnInstanceId)> {
        self.local_instances_map@.map_values(
            |e: (LocalFnInstanceDeclaration, FnInstanceId)| local_entry(e),
        )
    }

    /// The external declarations with their instances.
    pub closed spec fn extern_entries(&self) -> Seq<((ExternFnId, Seq<ValueType>), FnInstanceId)> {
        self.extern_instances_map@.map_values(
            |e: (ExternFnInstanceDeclaration, FnInstanceId)| extern_entry(e),
        )
    }

    pub open spec fn local_map(&self) -> Map<(FnDefinitionId, Seq<ValueType>), FnInstanceId> {
        keyed_map(self.local_entries())
    }

    pub open spec fn extern_map(&self) -> Map<(ExternFnId, Seq<ValueType>), FnInstanceId> {
        keyed_map(self.extern_entries())
    }

    /// Each declaration is made once and points at its instance.
    pub closed spec fn wf(&self) -> bool {
        &&& distinct_keys(self.local_entries())
        &&& distinct_keys(self.extern_entries())
        &&& forall|i: int|
            0 <= i < self.local_instances_map@.len() ==> (
            #[trigger] self.local_instances_map@[i]).1.0 < self.instances@.len()
        &&& forall|i: int|
            0 <= i < self.extern_instances_map@.len() ==> (
            #[trigger] self.extern_instances_map@[i]).1.0 < self.instances@.len()
    }

    /// Every declaration points at an instance, and there are as many local
    /// declarations as keys.
    pub proof fn lemma_wf(&self)
        requires
            self.wf(),
        ensures
            forall|k: (FnDefinitionId, Seq<ValueType>)| #[trigger]
                self.local_map().dom().contains(k) ==> self.local_map()[k].0 < self.stages().len(),
            forall|k: (ExternFnId, Seq<ValueType>)| #[trigger]
                self.extern_map().dom().contains(k) ==> self.extern_map()[k].0 < self.stages().len(),
            self.local_map().dom().finite(),
            self.local_map().dom().len() == self.local_entries().len(),
    {
        lemma_keyed_map(self.local_entries());
        lemma_keyed_map(self.extern_entries());
        assert forall|k: (FnDefinitionId, Seq<ValueType>)| #[trigger]
            self.local_map().dom().contains(k) implies self.local_map()[k].0 < self.stages().len() by {
            let i = choose|i: int| 0 <= i < self.local_entries().len() && self.local_entries()[i].0 == k;
            assert(self.local_instances_map@[i].1.0 < self.instances@.len());
        }
        assert forall|k: (ExternFnId, Seq<ValueType>)| #[trigger]
            self.extern_map().dom().contains(k) implies self.extern_map()[k].0 < self.stages().len() by {
            let i = choose|i: int| 0 <= i < self.extern_entries().len() && self.extern_entries()[i].0 == k;
            assert(self.extern_instances_map@[i].1.0 < self.instances@.len());
        }
    }

    /// Every declaration points at an instance.
    pub proof fn lemma_entry_ids(&self)
        requires
            self.wf(),
        ensures
            forall|i: int|
                0 <= i < self.local_entries().len() ==> (#[trigger] self.local_entries()[i]).1.0
                    < self.stages().len(),
            forall|i: int|
                0 <= i < self.extern_entries().len() ==> (#[trigger] self.extern_entries()[i]).1.0
                    < self.stages().len(),
    {
        assert forall|i: int| 0 <= i < self.local_entries().len() implies (#[trigger] self.local_entries()[i]).1.0
            < self.stages().len() by {
            assert(self.local_entries()[i] == local_entry(self.local_instances_map@[i]));
        }
        assert forall|i: int| 0 <= i < self.extern_entries().len() implies (#[trigger] self.extern_entries()[i]).1.0
            < self.stages().len() by {
            assert(self.extern_entries()[i] == extern_entry(self.extern_instances_map@[i]));
        }
    }

    /// The instances of a module that knows the given external instances.
    pub fn new(instances: ExternalInstances) -> (r: Self)
        requires
            instances.wf(),
        ensures
            r.wf(),
            r.stages() == instances.stages(),
            r.extern_map() == instances.map(),
            r.local_map() == Map::<(FnDefinitionId, Seq<ValueType>), FnInstanceId>::empty(),
    {
        let r = ModuleInstances {
            instances: instances.instances,
            extern_instances_map: instances.map,
            local_instances_map: Vec::new(),
        };
        assert(r.local_entries() =~= Seq::empty());
        assert(r.extern_entries() =~= instances.entries());
        r
    }

    fn find_local(&self, fn_id: FnDefinitionId, parameters: &[ValueType]) -> (r: Option<FnInstanceId>)
        requires
            self.wf(),
        ensures
            r == (if self.local_map().dom().contains((fn_id, parameters@)) {
                Some(self.local_map()[(fn_id, parameters@)])
            } else {
                None::<FnInstanceId>
            }),
    {
        proof {
            lemma_keyed_map(self.local_entries());
        }
        let mut i: usize = 0;
        while i < self.local_instances_map.len()
            invariant
                i <= self.local_instances_map@.len(),
                self.local_entries().len() == self.local_instances_map@.len(),
                self.wf(),
                forall|j: int| 0 <= j < i ==> self.local_entries()[j].0 != (fn_id, parameters@),
            decreases self.local_instances_map@.len() - i,
        {
            let entry = &self.local_instances_map[i];
            if entry.0.fn_id == fn_id && same_types(entry.0.parameters.as_slice(), parameters) {
                assert(self.local_entries()[i as int] == local_entry(*entry));
                proof {
                    lemma_keyed_map(self.local_entries());
                }
                assert(self.local_map()[self.local_entries()[i as int].0] == self.local_entries()[i as int].1);
                assert(self.local_map().dom().contains(self.local_entries()[i as int].0));
                return Some(entry.1);
            }
            assert(self.local_entries()[i as int] == local_entry(*entry));
            i = i + 1;
        }
        None
    }

    fn find_extern(&self, fn_id: ExternFnId, parameters: &[ValueType]) -> (r: Option<FnInstanceId>)
        requires
            self.wf(),
        ensures
            r == (if self.extern_map().dom().contains((fn_id, parameters@)) {
                Some(self.extern_map()[(fn_id, parameters@)])
            } else {
                None::<FnInstanceId>
            }),
    {
        proof {
            lemma_keyed_map(self.extern_entries());
        }
        let mut i: usize = 0;
        while i < self.extern_instances_map.len()
            invariant
                i <= self.extern_instances_map@.len(),
                self.extern_entries().len() == self.extern_instances_map@.len(),
                self.wf(),
                forall|j: int| 0 <= j < i ==> self.extern_entries()[j].0 != (fn_id, parameters@),
            decreases self.extern_instances_map@.len() - i,
        {
            let entry = &self.extern_instances_map[i];
            if entry.0.fn_id == fn_id && same_types(entry.0.parameters.as_slice(), parameters) {
                assert(self.extern_entries()[i as int] == extern_entry(*entry));
                proof {
                    lemma_keyed_map(self.extern_entries());
                }
                assert(self.extern_map()[self.extern_entries()[i as int].0] == self.extern_entries()[i as int].1);
                assert(self.extern_map().dom().contains(self.extern_entries()[i as int].0));
                return Some(entry.1);
            }
            assert(self.extern_entries()[i as int] == extern_entry(*entry));
            i = i + 1;
        }
        None
    }

    /// The id of the instance of a function for the given parameter types, where one
    /// was declared or created.
    pub open spec fn instance_of(&self, fn_id: FnId, parameters: Seq<ValueType>) -> Option<FnInstanceId> {
        match fn_id {
            FnId::Extern(id) => if self.extern_map().dom().contains((id, parameters)) {
                Some(self.extern_map()[(id, parameters)])
            } else {
                None::<FnInstanceId>
            },
            FnId::Local(id) => if self.local_map().dom().contains((id, parameters)) {
                Some(self.local_map()[(id, parameters)])
            } else {
                None::<FnInstanceId>
            },
        }
    }

    /// `self` is what `new_instance` leaves, from `old`, for the function `fn_id` and the
    /// parameter types `parameters`, having answered `r`: the instances registered before
    /// stay, and the instance it made or found is registered under that key.
    pub open spec fn instance_made<'def, 'code>(
        &self,
        old: &Self,
        fn_id: FnId,
        parameters: Seq<ValueType>,
        r: NewFnInstanceResult<'def, 'code>,
    ) -> bool {
        &&& old.local_map().submap_of(self.local_map())
        &&& self.extern_map() == old.extern_map()
        &&& (r matches NewFnInstanceResult::New { id, .. } ==> self.instance_of(fn_id, parameters) == Some(id))
        &&& (r matches NewFnInstanceResult::Exists { id } ==> self.instance_of(fn_id, parameters) == Some(id))
    }

    /// After `new_instance` made or found an instance, looking up its key gives its id,
    /// then and in every later state that keeps the instances registered before; a key
    /// registered in neither map is not found.
    pub proof fn lemma_made_instance_found<'def, 'code>(
        &self,
        old: &Self,
        later: &Self,
        fn_id: FnId,
        parameters: Seq<ValueType>,
        r: NewFnInstanceResult<'def, 'code>,
        id: FnInstanceId,
    )
        requires
            self.instance_made(old, fn_id, parameters, r),
            (r matches NewFnInstanceResult::New { id: made, .. } && made == id) || (r
                == (NewFnInstanceResult::Exists { id })),
            self.local_map().submap_of(later.local_map()),
            later.extern_map() == self.extern_map(),
        ensures
            self.instance_of(fn_id, parameters) == Some(id),
            later.instance_of(fn_id, parameters) == Some(id),
            forall|f: FnId, p: Seq<ValueType>|
                !(f matches FnId::Extern(e) && later.extern_map().dom().contains((e, p))) && !(f matches FnId::Local(
                    l,
                ) && later.local_map().dom().contains((l, p))) ==> (#[trigger] later.instance_of(f, p) is None),
    {
        self.lemma_instance_stays(later, fn_id, parameters, id);
    }

    /// An instance once registered stays registered: where a later state keeps the
    /// instances of functions registered before (as `new_instance` and
    /// `finalize_instance` do), `get_id` finds the same instance.
    pub proof fn lemma_instance_stays(&self, later: &Self, fn_id: FnId, parameters: Seq<ValueType>, id: FnInstanceId)
        requires
            self.instance_of(fn_id, parameters) == Some(id),
            self.local_map().submap_of(later.local_map()),
            later.extern_map() == self.extern_map(),
        ensures
            later.instance_of(fn_id, parameters) == Some(id),
    {
    }

    /// The id of the instance of a function for the given parameter types, if it was
    /// declared.
    pub fn get_id(&self, fn_id: FnId, parameters: ParamsTypes) -> (r: Option<FnInstanceId>)
        requires
            self.wf(),
        ensures
            r == self.instance_of(fn_id, parameters@),
    {
        match fn_id {
            FnId::Extern(id) => self.find_extern(id, parameters.as_slice()),
            FnId::Local(id) => self.find_local(id, parameters.as_slice()),
        }
    }

    pub fn is_empty(&self) -> (r: bool)
        ensures
            r == (self.stages().len() == 0),
    {
        self.instances.len() == 0
    }

    pub fn len(&self) -> (r: usize)
        ensures
            r == self.stages().len(),
    {
        self.instances.len()
    }

    /// The stage of an instance.
    pub fn index(&self, id: FnInstanceId) -> (r: &FnInstanceStage)
        requires
            id.0 < self.stages().len(),
        ensures
            *r == self.stages()[id.0 as int],
    {
        &self.instances[id.0]
    }

    /// The declarations of the functions of the module, with their instances: these
    /// are the ones that the back end compiles.
    pub fn iter_local_declarations(&self) -> (r: Vec<(FnInstanceId, &LocalFnInstanceDeclaration)>)
        ensures
            r@.len() == self.local_entries().len(),
            forall|i: int|
                #![trigger r@[i]]
                0 <= i < r@.len() ==> r@[i].0 == self.local_entries()[i].1 && r@[i].1.fn_id == self.local_entries()[i].0.0 && r@[i].1.parameters@ == self.local_entries()[i].0.1,
    {
        let mut r: Vec<(FnInstanceId, &LocalFnInstanceDeclaration)> = Vec::new();
        let mut i: usize = 0;
        while i < self.local_instances_map.len()
            invariant
                i <= self.local_instances_map@.len(),
                self.local_entries().len() == self.local_instances_map@.len(),
                r@.len() == i,
                forall|j: int|
                    #![trigger r@[j]]
                    0 <= j < i ==> r@[j].0 == self.local_entries()[j].1 && r@[j].1.fn_id == self.local_entries()[j].0.0 && r@[j].1.parameters@ == self.local_entries()[j].0.1,
            decreases self.local_instances_map@.len() - i,
        {
            let entry = &self.local_instances_map[i];
            assert(self.local_entries()[i as int] == local_entry(*entry));
            r.push((entry.1, &entry.0));
            i = i + 1;
        }
        r
    }

    /// The declarations of the external functions, with their instances.
    pub fn extern_declarations(&self) -> (r: Vec<(FnInstanceId, &ExternFnInstanceDeclaration)>)
        ensures
            r@.len() == self.extern_entries().len(),
            forall|i: int|
                #![trigger r@[i]]
                0 <= i < r@.len() ==> r@[i].0 == self.extern_entries()[i].1 && r@[i].1.fn_id == self.extern_entries()[i].0.0 && r@[i].1.parameters@ == self.extern_entries()[i].0.1,
    {
        let mut r: Vec<(FnInstanceId, &ExternFnInstanceDeclaration)> = Vec::new();
        let mut i: usize = 0;
        while i < self.extern_instances_map.len()
            invariant
                i <= self.extern_instances_map@.len(),
                self.extern_entries().len() == self.extern_instances_map@.len(),
                r@.len() == i,
                forall|j: int|
                    #![trigger r@[j]]
                    0 <= j < i ==> r@[j].0 == self.extern_entries()[j].1 && r@[j].1.fn_id == self.extern_entries()[j].0.0 && r@[j].1.parameters@ == self.extern_entries()[j].0.1,
            decreases self.extern_instances_map@.len() - i,
        {
            let entry = &self.extern_instances_map[i];
            assert(self.extern_entries()[i as int] == extern_entry(*entry));
            r.push((entry.1, &entry.0));
            i = i + 1;
        }
        r
    }

    /// Records the types inferred for an instance: complete, with errors but a known
    /// return type, or without even that.
    pub fn finalize_instance(&mut self, id: FnInstanceId, instance: FnInstance)
        requires
            old(self).wf(),
            id.0 < old(self).stages().len(),
        ensures
            final(self).wf(),
            final(self).stages() == old(self).stages().update(id.0 as int, finished_stage(instance)),
            final(self).local_map() == old(self).local_map(),
            final(self).extern_map() == old(self).extern_map(),
            final(self).local_entries() == old(self).local_entries(),
    {
        let ghost inst = instance;
        if instance.return_type == ValueType::Unknown {
            self.instances.set(id.0, FnInstanceStage::WithFatalErrors);
            return;
        }
        let mut i: usize = 0;
        while i < instance.variables.len()
            invariant
                i <= instance.variables@.len(),
                old(self).wf(),
                id.0 < old(self).stages().len(),
                *self == *old(self),
                inst == instance,
                instance.return_type != ValueType::Unknown,
                forall|j: int| 0 <= j < i ==> instance.variables@[j] != ValueType::Unknown,
            decreases instance.variables@.len() - i,
        {
            if instance.variables[i] == ValueType::Unknown {
                let return_type = instance.return_type;
                self.instances.set(id.0, FnInstanceStage::WithErrors { return_type });
                return;
            }
            i = i + 1;
        }
        self.instances.set(id.0, FnInstanceStage::Created(instance));
    }

    /// Gets the instance of a function for the given parameter types. A local function
    /// that has no instance for them yet gets a new one, which is `BeeingCreated` until
    /// it is finalized.
    pub fn new_instance<'def, 'code>(
        &mut self,
        definitions: &'def ModuleDefinitions<'code>,
        fn_id: FnId,
        parameters: ParamsTypes,
    ) -> (r: NewFnInstanceResult<'def, 'code>)
        requires
            old(self).wf(),
            fn_id matches FnId::Local(id) ==> id.0 < definitions.stages().len(),
            forall|i: int|
                0 <= i < definitions.stages().len() ==> (#[trigger] definitions.stages()[i] matches FnDefinitionStage::Defined(
                    def,
                ) ==> def.wf()),
        ensures
            final(self).wf(),
            final(self).extern_map() == old(self).extern_map(),
            !(r is New) ==> *final(self) == *old(self),
            old(self).local_map().submap_of(final(self).local_map()),
            final(self).instance_made(old(self), fn_id, parameters@, r),
            r matches NewFnInstanceResult::New { id, .. } ==> final(self).instance_of(fn_id, parameters@)
                == Some(id),
            r matches NewFnInstanceResult::Exists { id } ==> final(self).instance_of(fn_id, parameters@)
                == Some(id),
            match fn_id {
                FnId::Extern(id) => {
                    &&& final(self).stages() == old(self).stages()
                    &&& final(self).local_map() == old(self).local_map()
                    &&& final(self).local_entries() == old(self).local_entries()
                    &&& if old(self).extern_map().dom().contains((id, parameters@)) {
                        r == NewFnInstanceResult::Exists {
                            id: old(self).extern_map()[(id, parameters@)],
                        }
                    } else {
                        r == NewFnInstanceResult::UndefinedExternalInstance { fn_id: id }
                    }
                },
                FnId::Local(id) => if old(self).local_map().dom().contains((id, parameters@)) {
                    &&& final(self).stages() == old(self).stages()
                    &&& final(self).local_map() == old(self).local_map()
                    &&& final(self).local_entries() == old(self).local_entries()
                    &&& r == NewFnInstanceResult::Exists {
                        id: old(self).local_map()[(id, parameters@)],
                    }
                } else {
                    match definitions.stages()[id.0 as int] {
                        FnDefinitionStage::ToDefine { name } => {
                            &&& final(self).stages() == old(self).stages()
                            &&& final(self).local_map() == old(self).local_map()
                            &&& final(self).local_entries() == old(self).local_entries()
                            &&& r == NewFnInstanceResult::UndefinedFunction { name }
                        },
                        FnDefinitionStage::Defined(def) => if def.parameters != parameters@.len() {
                            &&& final(self).stages() == old(self).stages()
                            &&& final(self).local_map() == old(self).local_map()
                            &&& final(self).local_entries() == old(self).local_entries()
                            &&& r matches NewFnInstanceResult::WrongArgumentCount { definition }
                                && *definition == def
                        } else {
                            let new_id = FnInstanceId(old(self).stages().len() as usize);
                            &&& final(self).stages() == old(self).stages().push(
                                FnInstanceStage::BeeingCreated,
                            )
                            &&& final(self).local_map() == old(self).local_map().insert(
                                (id, parameters@),
                                new_id,
                            )
                            &&& final(self).local_entries() == old(self).local_entries().push(
                                ((id, parameters@), new_id),
                            )
                            &&& r matches NewFnInstanceResult::New { id: rid, instance, definition }
                                && rid == new_id && *definition == def && fresh_instance(
                                instance,
                                new_id,
                                parameters@,
                                def.variables_metadata@.len(),
                            )
                        },
                    }
                },
            },
    {
        match fn_id {
            FnId::Extern(id) => match self.find_extern(id, parameters.as_slice()) {
                Some(instance_id) => NewFnInstanceResult::Exists { id: instance_id },
                None => NewFnInstanceResult::UndefinedExternalInstance { fn_id: id },
            },
            FnId::Local(id) => {
                if let Some(instance_id) = self.find_local(id, parameters.as_slice()) {
                    return NewFnInstanceResult::Exists { id: instance_id };
                }
                let definition = match definitions.index(id) {
                    FnDefinitionStage::Defined(definition) => definition,
                    FnDefinitionStage::ToDefine { name } => {
                        return NewFnInstanceResult::UndefinedFunction { name };
                    },
                };
                let arity = parameters.len();
                if definition.parameters != arity {
                    return NewFnInstanceResult::WrongArgumentCount { definition };
                }
                proof {
                    assert(definitions.stages()[id.0 as int] matches FnDefinitionStage::Defined(def)
                        && def.wf());
                }
                let total = definition.variables();
                let types = parameters.as_slice();
                let mut variables: Vec<ValueType> = Vec::new();
                let mut i: usize = 0;
                while i < total
                    invariant
                        arity == types@.len(),
                        arity <= total,
                        i <= total,
                        variables@.len() == i,
                        forall|j: int| 0 <= j < i && j < arity ==> variables@[j] == types@[j],
                        forall|j: int| arity <= j < i ==> variables@[j] == ValueType::Unknown,
                    decreases total - i,
                {
                    if i < arity {
                        variables.push(types[i]);
                    } else {
                        variables.push(ValueType::Unknown);
                    }
                    i = i + 1;
                }
                let ghost seq_vars = types@ + Seq::new(
                    (total - arity) as nat,
                    |k: int| ValueType::Unknown,
                );
                assert(variables@ =~= seq_vars);
                let instance_id = FnInstanceId(self.instances.len());
                proof {
                    lemma_keyed_map(self.local_entries());
                }
                let ghost old_entries = self.local_entries();
                self.instances.push(FnInstanceStage::BeeingCreated);
                self.local_instances_map.push(
                    (LocalFnInstanceDeclaration { fn_id: id, parameters }, instance_id),
                );
                proof {
                    let key = (id, types@);
                    assert(self.local_entries() =~= old_entries.push((key, instance_id)));
                    lemma_keyed_push(old_entries, key, instance_id);
                    assert forall|i: int| 0 <= i < self.local_instances_map@.len() implies (
                    #[trigger] self.local_instances_map@[i]).1.0 < self.instances@.len() by {
                        if i < old(self).local_instances_map@.len() {
                            assert(self.local_instances_map@[i] == old(self).local_instances_map@[i]);
                        }
                    }
                    assert(self.extern_entries() =~= old(self).extern_entries());
                }
                let instance = FnInstance {
                    id: instance_id,
                    parameters: arity,
                    variables,
                    imported_instances: Vec::new(),
                    return_type: ValueType::Unknown,
                    external_ptr: None,
                };
                NewFnInstanceResult::New { id: instance_id, instance, definition }
            },
        }
    }
}

} // verus!
