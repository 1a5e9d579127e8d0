//! Infers the types of the variables of each function instance.
pub mod bound;

use crate::compiler::error::{
    CompilationError, CompilationErrorKind, CompilationErrorSet, LineSpan, default_span,
};
use crate::compiler::hir::definition::{
    Call, FnDefinition, FnDefinitionId, FnDefinitionStage, FnId, Instruction, ModuleDefinitions,
    calls_in_range, instruction_wf, operand_wf,
};
use crate::compiler::hir::instance::{
    ExternalInstances, FnInstance, FnInstanceId, FnInstanceStage, ModuleInstances,
    NewFnInstanceResult, finished_stage, fresh_instance, operand_type,
};
use crate::compiler::hir::params::ParamsTypes;
use crate::compiler::hir::value::{ValueType, Variable, VariableId};
use crate::compiler::parser::{ParserStage, definitions_ok};
use crate::compiler::type_inference::bound::{lemma_keys_bound, pow5};
use vstd::prelude::*;

verus! {

/// The functions of a module and their instances.
pub struct CodeModule<'code> {
    pub definitions: ModuleDefinitions<'code>,
    pub instances: ModuleInstances,
}

/// The code after type inference.
pub struct TypeInferenceStage<'code, 'compiler> {
    pub errors: &'compiler mut CompilationErrorSet,
    pub code: CodeModule<'code>,
    pub entry_point: FnDefinitionId,
}

/// The number of parameters of a stage: none for a function yet to define.
pub open spec fn stage_arity<'code>(stage: FnDefinitionStage<'code>) -> nat {
    match stage {
        FnDefinitionStage::Defined(def) => def.parameters as nat,
        FnDefinitionStage::ToDefine { .. } => 0,
    }
}

/// The largest number of parameters of a function.
pub open spec fn max_arity<'code>(stages: Seq<FnDefinitionStage<'code>>) -> nat
    decreases stages.len(),
{
    if stages.len() == 0 {
        0
    } else {
        let rest = max_arity(stages.drop_last());
        let last = stage_arity(stages.last());
        if rest < last {
            last
        } else {
            rest
        }
    }
}

proof fn lemma_max_arity<'code>(stages: Seq<FnDefinitionStage<'code>>, i: int)
    requires
        0 <= i < stages.len(),
    ensures
        stage_arity(stages[i]) <= max_arity(stages),
    decreases stages.len(),
{
    if i < stages.len() - 1 {
        lemma_max_arity(stages.drop_last(), i);
        assert(stages.drop_last()[i] == stages[i]);
    }
}

/// How many instances the functions of a module can have.
pub open spec fn instance_bound<'code>(definitions: ModuleDefinitions<'code>) -> nat {
    definitions.stages().len() * pow5(max_arity(definitions.stages()))
}

/// Every defined function is well formed and calls only functions of the module.
pub open spec fn definitions_ready<'code>(definitions: ModuleDefinitions<'code>) -> bool {
    &&& definitions.wf()
    &&& forall|i: int|
        0 <= i < definitions.stages().len() ==> (#[trigger] definitions.stages()[i] matches FnDefinitionStage::Defined(
            def,
        ) ==> def.wf() && calls_in_range(def.instructions@, definitions.stages().len()))
}

/// The instances are well formed and each local one is of a function of the module,
/// with no more parameters than a function has.
pub open spec fn instances_ready<'code>(
    definitions: ModuleDefinitions<'code>,
    instances: ModuleInstances,
) -> bool {
    &&& instances.wf()
    &&& forall|k: (FnDefinitionId, Seq<ValueType>)| #[trigger]
        instances.local_map().dom().contains(k) ==> k.0.0 < definitions.stages().len() && k.1.len()
            <= max_arity(definitions.stages())
    &&& imports_exist(instances.stages())
}

/// Every instance that a complete instance calls exists.
pub open spec fn imports_exist(stages: Seq<FnInstanceStage>) -> bool {
    forall|i: int|
        0 <= i < stages.len() ==> (#[trigger] stages[i] matches FnInstanceStage::Created(instance)
            ==> imports_below(instance, stages.len()))
}

/// The instances that an instance calls are among the first `n`.
pub open spec fn imports_below(instance: FnInstance, n: nat) -> bool {
    forall|k: int|
        0 <= k < instance.imported_instances@.len() ==> (#[trigger] instance.imported_instances@[k]).0 < n
}

/// No instance from `start` on is still being created.
pub open spec fn finalized_from(stages: Seq<FnInstanceStage>, start: nat) -> bool {
    forall|i: int| start <= i < stages.len() ==> !(#[trigger] stages[i] is BeeingCreated)
}

/// What calling an instance gives: its return type, once known.
pub open spec fn stage_return_type(stage: FnInstanceStage) -> ValueType {
    match stage {
        FnInstanceStage::Created(instance) => instance.return_type,
        FnInstanceStage::WithErrors { return_type } => return_type,
        _ => ValueType::Unknown,
    }
}

/// The types after a value of type `value_type` is assigned to `variable`: an unknown
/// type makes the variable unknown, a known one is taken by a variable of unknown type,
/// and a variable keeps its type otherwise.
pub open spec fn assigned(
    variables: Seq<ValueType>,
    variable: VariableId,
    value_type: ValueType,
) -> Seq<ValueType> {
    if value_type == ValueType::Unknown || variables[variable.0 as int] == ValueType::Unknown {
        variables.update(variable.0 as int, value_type)
    } else {
        variables
    }
}

/// The assignment gives a variable of known type a value of another known type.
pub open spec fn assign_conflict(
    variables: Seq<ValueType>,
    variable: VariableId,
    value_type: ValueType,
) -> bool {
    value_type != ValueType::Unknown && variables[variable.0 as int] != ValueType::Unknown
        && variables[variable.0 as int] != value_type
}

/// An error of type inference: it has no position.
pub open spec fn type_error(kind: CompilationErrorKind) -> CompilationError {
    CompilationError { kind, span: default_span() }
}

/// Two states of an instance differ at most in the types of the variables and the
/// return type.
pub open spec fn same_frame(a: FnInstance, b: FnInstance) -> bool {
    &&& a.id == b.id
    &&& a.parameters == b.parameters
    &&& a.variables@.len() == b.variables@.len()
    &&& a.imported_instances@ == b.imported_instances@
    &&& a.external_ptr == b.external_ptr
}

/// The later state of the instances keeps what the earlier one held: the stages that
/// existed are untouched, but `changed`, the declarations are kept and new stages are
/// finished.
pub open spec fn instances_grow(old: ModuleInstances, new: ModuleInstances) -> bool {
    &&& old.stages().len() <= new.stages().len()
    &&& forall|i: int| 0 <= i < old.stages().len() ==> #[trigger] new.stages()[i] == old.stages()[i]
    &&& finalized_from(new.stages(), old.stages().len())
    &&& old.local_map().submap_of(new.local_map())
    &&& old.local_map().dom().len() <= new.local_map().dom().len()
    &&& new.extern_map() == old.extern_map()
}

/// The errors of the later set begin with those of the earlier one.
pub open spec fn errors_grow(old: Seq<CompilationError>, new: Seq<CompilationError>) -> bool {
    &&& old.len() <= new.len()
    &&& forall|i: int| 0 <= i < old.len() ==> #[trigger] new[i] == old[i]
}

/// The types of the arguments of a call.
pub open spec fn argument_types_of(variables: Seq<ValueType>, arguments: Seq<Variable>) -> Seq<ValueType> {
    Seq::new(arguments.len(), |j: int| operand_type(variables, arguments[j]))
}

/// The instance that a call reaches: the one declared for these types, or a new one
/// for a defined function with as many parameters.
pub open spec fn call_target<'code>(
    instances: ModuleInstances,
    definitions: ModuleDefinitions<'code>,
    fn_id: FnId,
    types: Seq<ValueType>,
) -> Option<FnInstanceId> {
    match fn_id {
        FnId::Extern(e) => if instances.extern_map().dom().contains((e, types)) {
            Some(instances.extern_map()[(e, types)])
        } else {
            None
        },
        FnId::Local(d) => if instances.local_map().dom().contains((d, types)) {
            Some(instances.local_map()[(d, types)])
        } else {
            match definitions.stages()[d.0 as int] {
                FnDefinitionStage::Defined(def) => if def.parameters == types.len() {
                    Some(FnInstanceId(instances.stages().len() as usize))
                } else {
                    None
                },
                _ => None,
            }
        },
    }
}

/// The error of a call that reaches no instance.
pub open spec fn call_error<'code>(
    kind: CompilationErrorKind,
    definitions: ModuleDefinitions<'code>,
    fn_id: FnId,
    types: Seq<ValueType>,
) -> bool {
    match fn_id {
        FnId::Extern(e) => kind matches CompilationErrorKind::UnsupportedArgumentTypes {
            fn_id: f,
            arguments,
        } && f == e && arguments@ == types,
        FnId::Local(d) => match definitions.stages()[d.0 as int] {
            FnDefinitionStage::ToDefine { name } => kind matches CompilationErrorKind::UndefinedFunction {
                name: n,
            } && n@ == name@,
            FnDefinitionStage::Defined(def) => kind matches CompilationErrorKind::WrongArgumentCount {
                name,
                parameters,
            } && name@ == def.name@ && parameters == def.parameters,
        },
    }
}

/// What inferring a call does to the instance and the errors: nothing when an argument
/// has no known type; an error when the call reaches no instance, or an instance that is
/// still being inferred; otherwise the instance is imported and its return type is
/// assigned to the result.
pub open spec fn call_inferred<'code>(
    definitions: ModuleDefinitions<'code>,
    call: Call,
    arguments: Seq<Variable>,
    old_instances: ModuleInstances,
    new_instances: ModuleInstances,
    old_instance: FnInstance,
    new_instance: FnInstance,
    old_errors: Seq<CompilationError>,
    new_errors: Seq<CompilationError>,
) -> bool {
    let types = argument_types_of(old_instance.variables@, arguments);
    if exists|j: int| 0 <= j < arguments.len() && operand_type(old_instance.variables@, #[trigger] arguments[j]) == ValueType::Unknown {
        &&& new_instance == old_instance
        &&& new_instances == old_instances
        &&& new_errors == old_errors
    } else {
        match call_target(old_instances, definitions, call.fn_id, types) {
            None => {
                &&& new_instance == old_instance
                &&& new_instances == old_instances
                &&& new_errors.len() == old_errors.len() + 1
                &&& new_errors.drop_last() == old_errors
                &&& new_errors.last().span == default_span()
                &&& call_error(new_errors.last().kind, definitions, call.fn_id, types)
            },
            Some(id) => if new_instances.stages()[id.0 as int] is BeeingCreated {
                &&& new_instance == old_instance
                &&& new_instances == old_instances
                &&& new_errors == old_errors.push(type_error(CompilationErrorKind::RecursiveInstance))
            } else {
                let return_type = stage_return_type(new_instances.stages()[id.0 as int]);
                &&& new_instance.imported_instances@ == old_instance.imported_instances@.push(id)
                &&& new_instance.variables@ == match call.result {
                    Some(variable) => assigned(old_instance.variables@, variable, return_type),
                    None => old_instance.variables@,
                }
                &&& exists|callee_errors: Seq<CompilationError>|
                    #[trigger] callee_errors_kept(old_instances, call.fn_id, types, old_errors, callee_errors)
                        && new_errors == errors_after_call(callee_errors, call.result, old_instance.variables@, return_type)
                &&& match call.result {
                    Some(variable) => assign_conflict(old_instance.variables@, variable, return_type)
                        ==> new_errors.last() == type_error(
                        CompilationErrorKind::VariableTypeMismatch {
                            value_type: return_type,
                            actual: old_instance.variables@[variable.0 as int],
                        },
                    ),
                    None => true,
                }
            },
        }
    }
}

/// The instance for `fn_id` and `types` was registered before the call.
pub open spec fn instance_registered(instances: ModuleInstances, fn_id: FnId, types: Seq<ValueType>) -> bool {
    match fn_id {
        FnId::Extern(e) => instances.extern_map().dom().contains((e, types)),
        FnId::Local(d) => instances.local_map().dom().contains((d, types)),
    }
}

/// The errors once the instance that a call reaches is finished: those before the call,
/// and, where the instance was made for the call, those its inference added.
pub open spec fn callee_errors_kept(
    instances: ModuleInstances,
    fn_id: FnId,
    types: Seq<ValueType>,
    errors: Seq<CompilationError>,
    callee_errors: Seq<CompilationError>,
) -> bool {
    &&& errors_grow(errors, callee_errors)
    &&& instance_registered(instances, fn_id, types) ==> callee_errors == errors
}

/// The errors after a call whose callee is finished, from those once it was finished:
/// one more where the call keeps its result in a variable that already holds another
/// known type, none otherwise.
pub open spec fn errors_after_call(
    callee_errors: Seq<CompilationError>,
    result: Option<VariableId>,
    variables: Seq<ValueType>,
    return_type: ValueType,
) -> Seq<CompilationError> {
    match result {
        Some(variable) => if assign_conflict(variables, variable, return_type) {
            callee_errors.push(
                type_error(CompilationErrorKind::VariableTypeMismatch { value_type: return_type, actual: variables[variable.0 as int] }),
            )
        } else {
            callee_errors
        },
        None => callee_errors,
    }
}

/// The errors once the instance that a call reaches is finished, where it was made for
/// the call: those that inferring its definition, instruction by instruction, leaves.
pub open spec fn callee_analysed<'code>(
    definitions: ModuleDefinitions<'code>,
    fn_id: FnId,
    types: Seq<ValueType>,
    instances: ModuleInstances,
    errors: Seq<CompilationError>,
    callee_errors: Seq<CompilationError>,
) -> bool {
    if instance_registered(instances, fn_id, types) {
        callee_errors == errors
    } else {
        fn_id matches FnId::Local(d) && exists|
            callee: FnInstance,
            middle: ModuleInstances,
            states: Seq<FnInstance>,
            modules: Seq<ModuleInstances>,
            errs: Seq<Seq<CompilationError>>,
        |
            #[trigger] inference_fold(
                definitions,
                definitions.stages()[d.0 as int]->Defined_0,
                callee,
                middle,
                errors,
                states,
                modules,
                errs,
            ) && fresh_instance(
                callee,
                FnInstanceId(instances.stages().len() as usize),
                types,
                definitions.stages()[d.0 as int]->Defined_0.variables_metadata@.len(),
            ) && middle.stages() == instances.stages().push(FnInstanceStage::BeeingCreated) && middle.local_map()
                == instances.local_map().insert((d, types), FnInstanceId(instances.stages().len() as usize))
                && middle.extern_map() == instances.extern_map() && callee_errors == errs.last()
    }
}

/// What inferring an instruction other than a call does to the types of the variables,
/// the return type and the errors.
pub open spec fn step_inferred(
    instruction: Instruction,
    variables: Seq<ValueType>,
    return_type: ValueType,
    new_variables: Seq<ValueType>,
    new_return_type: ValueType,
    errors: Seq<CompilationError>,
    new_errors: Seq<CompilationError>,
) -> bool {
    match instruction {
        Instruction::Assign { variable, value } => {
            let t = operand_type(variables, value);
            &&& new_variables == assigned(variables, variable, t)
            &&& new_return_type == return_type
            &&& new_errors == if assign_conflict(variables, variable, t) {
                errors.push(
                    type_error(
                        CompilationErrorKind::VariableTypeMismatch {
                            value_type: t,
                            actual: variables[variable.0 as int],
                        },
                    ),
                )
            } else {
                errors
            }
        },
        Instruction::Return(value) => {
            let t = operand_type(variables, value);
            &&& new_variables == variables
            &&& new_return_type == if t != ValueType::Unknown && return_type == ValueType::Unknown {
                t
            } else {
                return_type
            }
            &&& new_errors == if t != ValueType::Unknown && return_type != ValueType::Unknown
                && return_type != t {
                errors.push(
                    type_error(
                        CompilationErrorKind::ReturnTypeMismatch { return_type, value_type: t },
                    ),
                )
            } else {
                errors
            }
        },
        Instruction::IfStart(condition, _) => {
            &&& new_return_type == return_type
            &&& match condition {
                Variable::Id(var) => {
                    &&& new_variables == assigned(variables, var, ValueType::Bool)
                    &&& new_errors == if assign_conflict(variables, var, ValueType::Bool) {
                        errors.push(
                            type_error(
                                CompilationErrorKind::VariableTypeMismatch {
                                    value_type: ValueType::Bool,
                                    actual: variables[var.0 as int],
                                },
                            ),
                        )
                    } else {
                        errors
                    }
                },
                Variable::Unknown => new_variables == variables && new_errors == errors,
                Variable::Const(c) => {
                    &&& new_variables == variables
                    &&& new_errors == if operand_type(variables, condition) == ValueType::Bool {
                        errors.push(
                            type_error(
                                CompilationErrorKind::ConstantTypeMismatch {
                                    expect: ValueType::Bool,
                                    actual: ValueType::Bool,
                                },
                            ),
                        )
                    } else {
                        errors
                    }
                },
            }
        },
        _ => new_variables == variables && new_return_type == return_type && new_errors == errors,
    }
}

/// What inferring the instruction at `index` of the definition does: a call is inferred
/// as `call_inferred` says and keeps the return type; any other instruction leaves the
/// instances and the frame of the instance as they were and is inferred as
/// `step_inferred` says.
pub open spec fn inferred_step<'code>(
    definitions: ModuleDefinitions<'code>,
    definition: FnDefinition<'code>,
    index: int,
    old_instances: ModuleInstances,
    new_instances: ModuleInstances,
    old_instance: FnInstance,
    new_instance: FnInstance,
    old_errors: Seq<CompilationError>,
    new_errors: Seq<CompilationError>,
) -> bool {
    match definition.instructions@[index] {
        Instruction::Call(call) => {
            &&& new_instance.return_type == old_instance.return_type
            &&& call_inferred(
                definitions,
                call,
                definition.call_arguments(call),
                old_instances,
                new_instances,
                old_instance,
                new_instance,
                old_errors,
                new_errors,
            )
        },
        other => {
            &&& new_instances == old_instances
            &&& same_frame(new_instance, old_instance)
            &&& step_inferred(
                other,
                old_instance.variables@,
                old_instance.return_type,
                new_instance.variables@,
                new_instance.return_type,
                old_errors,
                new_errors,
            )
        },
    }
}

/// The inference of a whole definition, folded over its instructions: `instances`,
/// `modules` and `errors` hold the instance being inferred, the instances of the module
/// and the errors before each instruction and after the last one, starting from
/// `instance`, `start` and `start_errors`, and each instruction takes the state before it
/// to the state after it as `inferred_step` says.
pub open spec fn inference_fold<'code>(
    definitions: ModuleDefinitions<'code>,
    definition: FnDefinition<'code>,
    instance: FnInstance,
    start: ModuleInstances,
    start_errors: Seq<CompilationError>,
    instances: Seq<FnInstance>,
    modules: Seq<ModuleInstances>,
    errors: Seq<Seq<CompilationError>>,
) -> bool {
    let n = definition.instructions@.len();
    &&& instances.len() == n + 1
    &&& modules.len() == n + 1
    &&& errors.len() == n + 1
    &&& instances[0] == instance
    &&& modules[0] == start
    &&& errors[0] == start_errors
    &&& forall|i: int|
        0 <= i < n ==> #[trigger] inferred_step(
            definitions,
            definition,
            i,
            modules[i],
            modules[i + 1],
            instances[i],
            instances[i + 1],
            errors[i],
            errors[i + 1],
        )
}

/// The instance of a function without parameters was created and inferred: before, the
/// module had the instances `before_stages` and the local instances `before_local`; the
/// new instance took the next id, started as the fresh instance of the definition, was
/// inferred instruction by instruction as `inference_fold` says, and was recorded as
/// `finished_stage` says of the instance that came out, with the errors that the fold
/// gave.
pub open spec fn created_and_inferred<'code>(
    definitions: ModuleDefinitions<'code>,
    definition_id: FnDefinitionId,
    before_stages: Seq<FnInstanceStage>,
    before_local: Map<(FnDefinitionId, Seq<ValueType>), FnInstanceId>,
    before_errors: Seq<CompilationError>,
    after: ModuleInstances,
    after_errors: Seq<CompilationError>,
) -> bool {
    let id = FnInstanceId(before_stages.len() as usize);
    let definition = definitions.stages()[definition_id.0 as int]->Defined_0;
    exists|first: FnInstance, states: Seq<FnInstance>, modules: Seq<ModuleInstances>, errs: Seq<Seq<CompilationError>>|
        #[trigger] inference_fold(definitions, definition, first, modules[0], before_errors, states, modules, errs)
            && fresh_instance(first, id, Seq::empty(), definition.variables_metadata@.len())
            && modules[0].stages() == before_stages.push(FnInstanceStage::BeeingCreated)
            && modules[0].local_map() == before_local.insert((definition_id, Seq::empty()), id)
            && after.stages() == modules.last().stages().update(id.0 as int, finished_stage(states.last()))
            && after_errors == errs.last()
}

/// A function has one instance per list of argument types: a call with types for which
/// an instance is registered reaches that instance, and no new one is made.
pub proof fn lemma_instance_reused<'code>(
    instances: ModuleInstances,
    definitions: ModuleDefinitions<'code>,
    function: FnDefinitionId,
    types: Seq<ValueType>,
)
    requires
        instances.local_map().dom().contains((function, types)),
    ensures
        call_target(instances, definitions, FnId::Local(function), types) == Some(
            instances.local_map()[(function, types)],
        ),
{
}

/// An instance is complete exactly when its return type and the types of all its
/// variables are known.
pub proof fn lemma_complete_instance(instance: FnInstance)
    ensures
        finished_stage(instance) is Created <==> (instance.return_type != ValueType::Unknown
            && forall|i: int|
            0 <= i < instance.variables@.len() ==> instance.variables@[i] != ValueType::Unknown),
{
}

/// Variables keep their type: assigning a value of another known type to a variable of a
/// known type is an error, and the variable keeps its type.
pub proof fn lemma_strict_mutability(
    variable: VariableId,
    value: Variable,
    variables: Seq<ValueType>,
    return_type: ValueType,
    new_variables: Seq<ValueType>,
    new_return_type: ValueType,
    errors: Seq<CompilationError>,
    new_errors: Seq<CompilationError>,
)
    requires
        variable.0 < variables.len(),
        variables[variable.0 as int] != ValueType::Unknown,
        operand_type(variables, value) != ValueType::Unknown,
        operand_type(variables, value) != variables[variable.0 as int],
        step_inferred(
            Instruction::Assign { variable, value },
            variables,
            return_type,
            new_variables,
            new_return_type,
            errors,
            new_errors,
        ),
    ensures
        new_variables == variables,
        new_errors == errors.push(
            type_error(
                CompilationErrorKind::VariableTypeMismatch {
                    value_type: operand_type(variables, value),
                    actual: variables[variable.0 as int],
                },
            ),
        ),
{
}

/// A function returns values of one type: once its return type is known, a return of
/// a value of another known type is an error and the return type stays.
pub proof fn lemma_single_return_type(
    value: Variable,
    variables: Seq<ValueType>,
    return_type: ValueType,
    new_variables: Seq<ValueType>,
    new_return_type: ValueType,
    errors: Seq<CompilationError>,
    new_errors: Seq<CompilationError>,
)
    requires
        return_type != ValueType::Unknown,
        operand_type(variables, value) != ValueType::Unknown,
        operand_type(variables, value) != return_type,
        step_inferred(
            Instruction::Return(value),
            variables,
            return_type,
            new_variables,
            new_return_type,
            errors,
            new_errors,
        ),
    ensures
        new_return_type == return_type,
        new_errors == errors.push(
            type_error(
                CompilationErrorKind::ReturnTypeMismatch {
                    return_type,
                    value_type: operand_type(variables, value),
                },
            ),
        ),
{
}

/// Assigns a type to a variable of the instance; gives an error if the variable already
/// holds another type.
fn assign(errors: &mut CompilationErrorSet, instance: &mut FnInstance, variable: VariableId, value_type: ValueType)
    requires
        variable.0 < old(instance).variables@.len(),
    ensures
        same_frame(*final(instance), *old(instance)),
        final(instance).return_type == old(instance).return_type,
        final(instance).variables@ == assigned(old(instance).variables@, variable, value_type),
        final(errors)@ == if assign_conflict(old(instance).variables@, variable, value_type) {
            old(errors)@.push(
                type_error(
                    CompilationErrorKind::VariableTypeMismatch {
                        value_type,
                        actual: old(instance).variables@[variable.0 as int],
                    },
                ),
            )
        } else {
            old(errors)@
        },
{
    if value_type == ValueType::Unknown {
        instance.variables.set(variable.0, value_type);
        return;
    }
    let actual = instance.variables[variable.0];
    if actual == ValueType::Unknown {
        instance.variables.set(variable.0, value_type);
    } else if actual != value_type {
        errors.push(
            CompilationError {
                kind: CompilationErrorKind::VariableTypeMismatch { value_type, actual },
                span: LineSpan::default(),
            },
        );
    }
}

/// Expects an operand to be of the given type: a variable is assigned it, and a
/// constant gives an error when its type equals the expected one.
fn expect(errors: &mut CompilationErrorSet, instance: &mut FnInstance, value: &Variable, expected: ValueType)
    requires
        value matches Variable::Id(var) ==> var.0 < old(instance).variables@.len(),
    ensures
        same_frame(*final(instance), *old(instance)),
        final(instance).return_type == old(instance).return_type,
        match *value {
            Variable::Id(var) => {
                &&& final(instance).variables@ == assigned(old(instance).variables@, var, expected)
                &&& final(errors)@ == if assign_conflict(old(instance).variables@, var, expected) {
                    old(errors)@.push(
                        type_error(
                            CompilationErrorKind::VariableTypeMismatch {
                                value_type: expected,
                                actual: old(instance).variables@[var.0 as int],
                            },
                        ),
                    )
                } else {
                    old(errors)@
                }
            },
            Variable::Unknown => {
                &&& final(instance).variables@ == old(instance).variables@
                &&& final(errors)@ == old(errors)@
            },
            Variable::Const(c) => {
                &&& final(instance).variables@ == old(instance).variables@
                &&& final(errors)@ == if operand_type(old(instance).variables@, *value) == expected {
                    old(errors)@.push(
                        type_error(
                            CompilationErrorKind::ConstantTypeMismatch {
                                expect: expected,
                                actual: expected,
                            },
                        ),
                    )
                } else {
                    old(errors)@
                }
            },
        },
{
    match value {
        Variable::Id(var) => assign(errors, instance, *var, expected),
        Variable::Unknown => {},
        Variable::Const(value) => {
            let actual = value.get_type();
            if actual == expected {
                errors.push(
                    CompilationError {
                        kind: CompilationErrorKind::ConstantTypeMismatch { expect: expected, actual },
                        span: LineSpan::default(),
                    },
                );
            }
        },
    }
}

/// Takes the type of a returned value as the return type of the instance; gives an error
/// if it already returns another type.
fn infer_return(errors: &mut CompilationErrorSet, instance: &mut FnInstance, value: &Variable)
    requires
        value matches Variable::Id(var) ==> var.0 < old(instance).variables@.len(),
    ensures
        same_frame(*final(instance), *old(instance)),
        final(instance).variables@ == old(instance).variables@,
        ({
            let t = operand_type(old(instance).variables@, *value);
            let r = old(instance).return_type;
            &&& final(instance).return_type == if t != ValueType::Unknown && r == ValueType::Unknown {
                t
            } else {
                r
            }
            &&& final(errors)@ == if t != ValueType::Unknown && r != ValueType::Unknown && r != t {
                old(errors)@.push(
                    type_error(
                        CompilationErrorKind::ReturnTypeMismatch { return_type: r, value_type: t },
                    ),
                )
            } else {
                old(errors)@
            }
        }),
{
    let value_type = instance.type_of(value);
    if value_type != ValueType::Unknown {
        if instance.return_type == ValueType::Unknown {
            instance.return_type = value_type;
        } else if instance.return_type != value_type {
            errors.push(
                CompilationError {
                    kind: CompilationErrorKind::ReturnTypeMismatch {
                        return_type: instance.return_type,
                        value_type,
                    },
                    span: LineSpan::default(),
                },
            );
        }
    }
}

/// The state in which an instance is being inferred.
pub open spec fn inference_ready<'code>(
    definitions: ModuleDefinitions<'code>,
    instances: ModuleInstances,
    definition: FnDefinition<'code>,
    instance: FnInstance,
) -> bool {
    &&& definitions_ready(definitions)
    &&& instances_ready(definitions, instances)
    &&& definition.wf()
    &&& calls_in_range(definition.instructions@, definitions.stages().len())
    &&& instance.variables@.len() == definition.variables_metadata@.len()
    &&& imports_below(instance, instances.stages().len())
}

proof fn lemma_count_bounded<'code>(definitions: ModuleDefinitions<'code>, instances: ModuleInstances)
    requires
        instances_ready(definitions, instances),
    ensures
        instances.local_map().dom().finite(),
        instances.local_map().dom().len() <= instance_bound(definitions),
{
    instances.lemma_wf();
    lemma_keys_bound(
        instances.local_map().dom(),
        definitions.stages().len(),
        max_arity(definitions.stages()),
    );
}

/// Infers the types of one instruction of the instance; a call infers the instance that
/// it calls first, if that one is new.
fn infer_types<'code>(
    errors: &mut CompilationErrorSet,
    definitions: &ModuleDefinitions<'code>,
    instances: &mut ModuleInstances,
    instance: &mut FnInstance,
    definition: &FnDefinition<'code>,
    index: usize,
)
    requires
        inference_ready(*definitions, *old(instances), *definition, *old(instance)),
        index < definition.instructions@.len(),
    ensures
        inference_ready(*definitions, *final(instances), *definition, *final(instance)),
        instances_grow(*old(instances), *final(instances)),
        errors_grow(old(errors)@, final(errors)@),
        final(instance).id == old(instance).id,
        final(instance).parameters == old(instance).parameters,
        final(instance).external_ptr == old(instance).external_ptr,
        old(instance).imported_instances@.len() <= final(instance).imported_instances@.len(),
        final(instance).imported_instances@.subrange(0, old(instance).imported_instances@.len() as int)
            == old(instance).imported_instances@,
        inferred_step(
            *definitions,
            *definition,
            index as int,
            *old(instances),
            *final(instances),
            *old(instance),
            *final(instance),
            old(errors)@,
            final(errors)@,
        ),
    decreases instance_bound(*definitions) - instances.local_map().dom().len(), 1nat,
{
    let instruction = definition.instructions[index];
    proof {
        assert(instruction_wf(instruction, definition.variables_metadata@.len(), definition.arguments@.len()));
    }
    match instruction {
        Instruction::Call(call) => {
            infer_call(errors, definitions, instances, instance, definition, index);
        },
        Instruction::Assign { variable, value } => {
            let value_type = instance.type_of(&value);
            assign(errors, instance, variable, value_type);
        },
        Instruction::Return(value) => {
            infer_return(errors, instance, &value);
        },
        Instruction::IfStart(condition, _) => {
            expect(errors, instance, &condition, ValueType::Bool);
        },
        _ => {},
    }
}

/// The types of the arguments of a call, unless one of them is unknown.
fn argument_types<'code>(instance: &FnInstance, definition: &FnDefinition<'code>, arguments: &[Variable]) -> (r: Option<ParamsTypes>)
    requires
        definition.wf(),
        instance.variables@.len() == definition.variables_metadata@.len(),
        forall|j: int| 0 <= j < arguments@.len() ==> operand_wf(#[trigger] arguments@[j], instance.variables@.len()),
    ensures
        match r {
            Some(types) => {
                &&& types@.len() == arguments@.len()
                &&& forall|j: int| 0 <= j < arguments@.len() ==> #[trigger] types@[j] == operand_type(instance.variables@, arguments@[j])
                &&& forall|j: int| 0 <= j < arguments@.len() ==> #[trigger] types@[j] != ValueType::Unknown
            },
            None => exists|j: int| 0 <= j < arguments@.len() && operand_type(instance.variables@, #[trigger] arguments@[j]) == ValueType::Unknown,
        },
{
    let mut types = ParamsTypes::default();
    let mut i: usize = 0;
    while i < arguments.len()
        invariant
            i <= arguments@.len(),
            types@.len() == i,
            forall|j: int| 0 <= j < arguments@.len() ==> operand_wf(#[trigger] arguments@[j], instance.variables@.len()),
            forall|j: int| 0 <= j < i ==> #[trigger] types@[j] == operand_type(instance.variables@, arguments@[j]),
            forall|j: int| 0 <= j < i ==> #[trigger] types@[j] != ValueType::Unknown,
        decreases arguments@.len() - i,
    {
        let arg_type = instance.type_of(&arguments[i]);
        if arg_type == ValueType::Unknown {
            return None;
        }
        types.push(arg_type);
        i = i + 1;
    }
    Some(types)
}

/// Infers the types of a call: the instance it calls is looked up or created for the
/// types of the arguments, and its return type is assigned to the result.
fn infer_call<'code>(
    errors: &mut CompilationErrorSet,
    definitions: &ModuleDefinitions<'code>,
    instances: &mut ModuleInstances,
    instance: &mut FnInstance,
    definition: &FnDefinition<'code>,
    index: usize,
)
    requires
        inference_ready(*definitions, *old(instances), *definition, *old(instance)),
        index < definition.instructions@.len(),
        definition.instructions@[index as int] is Call,
    ensures
        inference_ready(*definitions, *final(instances), *definition, *final(instance)),
        instances_grow(*old(instances), *final(instances)),
        errors_grow(old(errors)@, final(errors)@),
        final(instance).id == old(instance).id,
        final(instance).parameters == old(instance).parameters,
        final(instance).external_ptr == old(instance).external_ptr,
        final(instance).return_type == old(instance).return_type,
        old(instance).imported_instances@.len() <= final(instance).imported_instances@.len(),
        final(instance).imported_instances@.subrange(0, old(instance).imported_instances@.len() as int)
            == old(instance).imported_instances@,
        call_inferred(
            *definitions,
            definition.instructions@[index as int]->Call_0,
            definition.call_arguments(definition.instructions@[index as int]->Call_0),
            *old(instances),
            *final(instances),
            *old(instance),
            *final(instance),
            old(errors)@,
            final(errors)@,
        ),
        ({
            let call = definition.instructions@[index as int]->Call_0;
            let arguments = definition.call_arguments(call);
            let types = argument_types_of(old(instance).variables@, arguments);
            call_target(*old(instances), *definitions, call.fn_id, types) matches Some(id) ==> ((forall|j: int|
                0 <= j < arguments.len() ==> operand_type(old(instance).variables@, #[trigger] arguments[j])
                    != ValueType::Unknown) && !(final(instances).stages()[id.0 as int] is BeeingCreated) ==> exists|
                callee_errors: Seq<CompilationError>,
            |
                #[trigger] callee_analysed(*definitions, call.fn_id, types, *old(instances), old(errors)@, callee_errors)
                    && final(errors)@ == errors_after_call(
                    callee_errors,
                    call.result,
                    old(instance).variables@,
                    stage_return_type(final(instances).stages()[id.0 as int]),
                ))
        }),
    decreases instance_bound(*definitions) - instances.local_map().dom().len(), 0nat,
{
    let call = match definition.instructions[index] {
        Instruction::Call(call) => call,
        _ => {
            proof {
                assert(false);
            }
            return;
        },
    };
    proof {
        assert(instruction_wf(definition.instructions@[index as int], definition.variables_metadata@.len(), definition.arguments@.len()));
    }
    let arguments = definition.get_arguments(&call);
    proof {
        assert forall|j: int| 0 <= j < arguments@.len() implies operand_wf(#[trigger] arguments@[j], instance.variables@.len()) by {
            assert(arguments@[j] == definition.arguments@[call.arguments_start + j]);
        }
        assert(definition.instructions@[index as int] matches Instruction::Call(c) ==> (c.fn_id matches FnId::Local(id) ==> id.0 < definitions.stages().len()));
    }
    let parameters = match argument_types(instance, definition, arguments) {
        Some(parameters) => parameters,
        // The call can not be instantiated due to the previous errors.
        None => return,
    };
    let ghost key = parameters@;
    proof {
        assert(key =~= argument_types_of(instance.variables@, arguments@));
        assert forall|j: int| 0 <= j < arguments@.len() implies operand_type(instance.variables@, #[trigger] arguments@[j]) != ValueType::Unknown by {
            assert(parameters@[j] != ValueType::Unknown);
        }
        lemma_count_bounded(*definitions, *instances);
        instances.lemma_wf();
    }
    let ghost before = *instances;
    let ghost errors_before = errors@;
    let ghost mut callee_errs = errors@;
    let count = instances.len();
    let result = instances.new_instance(definitions, call.fn_id, parameters);
    let (instance_id, return_type) = match result {
        NewFnInstanceResult::New { id, instance: callee, definition: callee_definition } => {
            proof {
                match call.fn_id {
                    FnId::Local(fid) => {
                        before.lemma_wf();
                        assert(definitions.stages()[fid.0 as int] matches FnDefinitionStage::Defined(def) && def.wf());
                        lemma_max_arity(definitions.stages(), fid.0 as int);
                        assert forall|k: (FnDefinitionId, Seq<ValueType>)| #[trigger]
                            instances.local_map().dom().contains(k) implies k.0.0 < definitions.stages().len() && k.1.len()
                                <= max_arity(definitions.stages()) by {
                            if k != (fid, key) {
                                assert(before.local_map().dom().contains(k));
                            }
                        }
                        lemma_count_bounded(*definitions, *instances);
                        assert(id.0 == count);
                        assert(instances.stages() == before.stages().push(FnInstanceStage::BeeingCreated));
                    },
                    FnId::Extern(_) => {
                        assert(false);
                    },
                }
            }
            let ghost middle = *instances;
            let return_type = analyse(errors, definitions, instances, id, callee, callee_definition);
            proof {
                callee_errs = errors@;
                let (states, modules, errs) = choose|
                    states: Seq<FnInstance>,
                    modules: Seq<ModuleInstances>,
                    errs: Seq<Seq<CompilationError>>,
                |
                    #[trigger] inference_fold(*definitions, *callee_definition, callee, middle, errors_before, states, modules, errs)
                        && instances.stages() == modules.last().stages().update(
                        id.0 as int,
                        finished_stage(states.last()),
                    ) && errors@ == errs.last() && return_type == states.last().return_type;
                match call.fn_id {
                    FnId::Local(fid) => {
                        assert(!instance_registered(before, call.fn_id, key));
                        assert(*callee_definition == definitions.stages()[fid.0 as int]->Defined_0);
                        assert(inference_fold(*definitions, *callee_definition, callee, middle, errors_before, states, modules, errs));
                        assert(callee_analysed(*definitions, call.fn_id, key, before, errors_before, callee_errs));
                    },
                    FnId::Extern(_) => {},
                }
            }
            proof {
                assert forall|i: int| 0 <= i < before.stages().len() implies #[trigger] instances.stages()[i] == before.stages()[i] by {
                    assert(instances.stages()[i] == middle.stages()[i]);
                }
                assert forall|i: int| before.stages().len() <= i < instances.stages().len() implies !(#[trigger] instances.stages()[i] is BeeingCreated) by {
                }
                assert forall|k: (FnDefinitionId, Seq<ValueType>)| #[trigger]
                    before.local_map().dom().contains(k) implies instances.local_map().dom().contains(k)
                        && instances.local_map()[k] == before.local_map()[k] by {
                    assert(middle.local_map().dom().contains(k));
                    assert(middle.local_map()[k] == before.local_map()[k]);
                    assert(instances.local_map().dom().contains(k));
                    assert(instances.local_map()[k] == middle.local_map()[k]);
                }
                assert(before.local_map().submap_of(instances.local_map()));
            }
            (id, return_type)
        },
        NewFnInstanceResult::Exists { id } => {
            proof {
                before.lemma_wf();
            }
            match instances.index(id) {
                FnInstanceStage::Created(callee) => (id, callee.return_type),
                FnInstanceStage::WithErrors { return_type } => (id, *return_type),
                FnInstanceStage::WithFatalErrors => (id, ValueType::Unknown),
                FnInstanceStage::BeeingCreated => {
                    errors.push(
                        CompilationError {
                            kind: CompilationErrorKind::RecursiveInstance,
                            span: LineSpan::default(),
                        },
                    );
                    return;
                },
            }
        },
        NewFnInstanceResult::UndefinedFunction { name } => {
            errors.push(
                CompilationError {
                    kind: CompilationErrorKind::UndefinedFunction { name: vstd::slice::slice_to_vec(name) },
                    span: LineSpan::default(),
                },
            );
            assert(errors@.drop_last() =~= old(errors)@);
            return;
        },
        NewFnInstanceResult::UndefinedExternalInstance { fn_id } => {
            let mut types: Vec<ValueType> = Vec::new();
            let mut i: usize = 0;
            while i < arguments.len()
                invariant
                    i <= arguments@.len(),
                    forall|j: int| 0 <= j < arguments@.len() ==> operand_wf(#[trigger] arguments@[j], instance.variables@.len()),
                    types@.len() == i,
                    forall|j: int| 0 <= j < i ==> #[trigger] types@[j] == operand_type(instance.variables@, arguments@[j]),
                decreases arguments@.len() - i,
            {
                types.push(instance.type_of(&arguments[i]));
                i = i + 1;
            }
            assert(types@ =~= key);
            errors.push(
                CompilationError {
                    kind: CompilationErrorKind::UnsupportedArgumentTypes { fn_id, arguments: types },
                    span: LineSpan::default(),
                },
            );
            assert(errors@.drop_last() =~= old(errors)@);
            return;
        },
        NewFnInstanceResult::WrongArgumentCount { definition: callee_definition } => {
            errors.push(
                CompilationError {
                    kind: CompilationErrorKind::WrongArgumentCount {
                        name: vstd::slice::slice_to_vec(callee_definition.name),
                        parameters: callee_definition.parameters,
                    },
                    span: LineSpan::default(),
                },
            );
            assert(errors@.drop_last() =~= old(errors)@);
            return;
        },
    };
    let ghost before_assign = errors@;
    if let Some(variable) = call.result {
        assign(errors, instance, variable, return_type);
    }
    instance.imported_instances.push(instance_id);
    proof {
        assert(callee_errors_kept(before, call.fn_id, key, errors_before, callee_errs));
        assert(errors@ == errors_after_call(callee_errs, call.result, old(instance).variables@, return_type));
        if instance_registered(before, call.fn_id, key) {
            assert(callee_analysed(*definitions, call.fn_id, key, before, errors_before, callee_errs));
        }
        assert(callee_analysed(*definitions, call.fn_id, key, before, errors_before, callee_errs));
        assert(key == argument_types_of(old(instance).variables@, definition.call_arguments(call)));
        assert(stage_return_type(instances.stages()[instance_id.0 as int]) == return_type);
    }
}

/// Infers the types of a new instance, instruction by instruction, and records the
/// result. Returns the return type of the instance.
fn analyse<'code>(
    errors: &mut CompilationErrorSet,
    definitions: &ModuleDefinitions<'code>,
    instances: &mut ModuleInstances,
    instance_id: FnInstanceId,
    instance: FnInstance,
    definition: &FnDefinition<'code>,
) -> (r: ValueType)
    requires
        inference_ready(*definitions, *old(instances), *definition, instance),
        instance.id == instance_id,
        instance_id.0 < old(instances).stages().len(),
    ensures
        definitions_ready(*definitions),
        instances_ready(*definitions, *final(instances)),
        errors_grow(old(errors)@, final(errors)@),
        old(instances).stages().len() <= final(instances).stages().len(),
        forall|i: int|
            0 <= i < old(instances).stages().len() && i != instance_id.0 ==> #[trigger] final(instances).stages()[i]
                == old(instances).stages()[i],
        finalized_from(final(instances).stages(), old(instances).stages().len()),
        !(final(instances).stages()[instance_id.0 as int] is BeeingCreated),
        stage_return_type(final(instances).stages()[instance_id.0 as int]) == r,
        old(instances).local_map().submap_of(final(instances).local_map()),
        old(instances).local_map().dom().len() <= final(instances).local_map().dom().len(),
        final(instances).extern_map() == old(instances).extern_map(),
        exists|states: Seq<FnInstance>, modules: Seq<ModuleInstances>, errs: Seq<Seq<CompilationError>>|
            #[trigger] inference_fold(*definitions, *definition, instance, *old(instances), old(errors)@, states, modules, errs)
                && final(instances).stages() == modules.last().stages().update(
                instance_id.0 as int,
                finished_stage(states.last()),
            ) && final(errors)@ == errs.last() && r == states.last().return_type,
    decreases instance_bound(*definitions) - instances.local_map().dom().len(), 2nat,
{
    let ghost first = instance;
    let mut instance = instance;
    let ghost start = *instances;
    let ghost mut states: Seq<FnInstance> = seq![instance];
    let ghost mut modules: Seq<ModuleInstances> = seq![*instances];
    let ghost mut errs: Seq<Seq<CompilationError>> = seq![errors@];
    let mut index: usize = 0;
    while index < definition.instructions.len()
        invariant
            states.len() == index + 1,
            modules.len() == index + 1,
            errs.len() == index + 1,
            states[0] == first,
            modules[0] == start,
            errs[0] == old(errors)@,
            states.last() == instance,
            modules.last() == *instances,
            errs.last() == errors@,
            forall|i: int|
                0 <= i < index ==> #[trigger] inferred_step(
                    *definitions,
                    *definition,
                    i,
                    modules[i],
                    modules[i + 1],
                    states[i],
                    states[i + 1],
                    errs[i],
                    errs[i + 1],
                ),
            inference_ready(*definitions, *instances, *definition, instance),
            instances_grow(start, *instances),
            start == *old(instances),
            errors_grow(old(errors)@, errors@),
            instance.id == instance_id,
            instance_id.0 < start.stages().len(),
            index <= definition.instructions@.len(),
        decreases definition.instructions@.len() - index,
    {
        let ghost before = *instances;
        let ghost errors_before = errors@;
        proof {
            lemma_count_bounded(*definitions, *instances);
            assert(start.local_map().dom().len() <= instances.local_map().dom().len());
        }
        infer_types(errors, definitions, instances, &mut instance, definition, index);
        proof {
            assert forall|i: int| 0 <= i < start.stages().len() implies #[trigger] instances.stages()[i] == start.stages()[i] by {
                assert(instances.stages()[i] == before.stages()[i]);
            }
            assert forall|i: int| start.stages().len() <= i < instances.stages().len() implies !(#[trigger] instances.stages()[i] is BeeingCreated) by {
                if i < before.stages().len() {
                    assert(instances.stages()[i] == before.stages()[i]);
                }
            }
            assert forall|k: (FnDefinitionId, Seq<ValueType>)| #[trigger]
                start.local_map().dom().contains(k) implies instances.local_map().dom().contains(k)
                    && instances.local_map()[k] == start.local_map()[k] by {
                assert(before.local_map().dom().contains(k));
            }
            assert(start.local_map().submap_of(instances.local_map()));
            assert forall|i: int| 0 <= i < old(errors)@.len() implies #[trigger] errors@[i] == old(errors)@[i] by {
                assert(errors@[i] == errors_before[i]);
            }
            let ghost states0 = states;
            let ghost modules0 = modules;
            let ghost errs0 = errs;
            states = states.push(instance);
            modules = modules.push(*instances);
            errs = errs.push(errors@);
            assert forall|i: int|
                0 <= i < index + 1 implies #[trigger] inferred_step(
                    *definitions,
                    *definition,
                    i,
                    modules[i],
                    modules[i + 1],
                    states[i],
                    states[i + 1],
                    errs[i],
                    errs[i + 1],
                ) by {
                if i < index {
                    assert(inferred_step(*definitions, *definition, i, modules0[i], modules0[i + 1], states0[i],
                        states0[i + 1], errs0[i], errs0[i + 1]));
                }
            }
        }
        index = index + 1;
    }
    proof {
        assert(inference_fold(*definitions, *definition, first, start, old(errors)@, states, modules, errs));
    }
    let return_type = instance.return_type;
    let ghost finished = instance;
    let ghost before = *instances;
    instances.finalize_instance(instance_id, instance);
    proof {
        assert(instances.stages()[instance_id.0 as int] == finished_stage(finished));
        assert forall|i: int| start.stages().len() <= i < instances.stages().len() implies !(#[trigger] instances.stages()[i] is BeeingCreated) by {
            assert(instances.stages()[i] == before.stages()[i]);
        }
        assert forall|i: int|
            0 <= i < start.stages().len() && i != instance_id.0 implies #[trigger] instances.stages()[i]
                == start.stages()[i] by {
            assert(instances.stages()[i] == before.stages()[i]);
        }
    }
    return_type
}

} // verus!

verus! {

/// Creates and infers the instance of a function that takes no parameters.
fn instantiate<'code>(
    errors: &mut CompilationErrorSet,
    definitions: &ModuleDefinitions<'code>,
    instances: &mut ModuleInstances,
    definition_id: FnDefinitionId,
) -> (r: Option<ValueType>)
    requires
        definitions_ready(*definitions),
        instances_ready(*definitions, *old(instances)),
        definition_id.0 < definitions.stages().len(),
    ensures
        definitions_ready(*definitions),
        instances_ready(*definitions, *final(instances)),
        errors_grow(old(errors)@, final(errors)@),
        old(instances).stages().len() <= final(instances).stages().len(),
        forall|i: int|
            0 <= i < old(instances).stages().len() ==> #[trigger] final(instances).stages()[i]
                == old(instances).stages()[i],
        finalized_from(final(instances).stages(), old(instances).stages().len()),
        r is Some || old(instances).local_map().dom().contains((definition_id, Seq::<ValueType>::empty()))
            ==> final(instances).local_map().dom().contains((definition_id, Seq::<ValueType>::empty())),
        old(instances).local_map().submap_of(final(instances).local_map()),
        final(instances).extern_map() == old(instances).extern_map(),
        r is Some <==> (!old(instances).local_map().dom().contains((definition_id, Seq::<ValueType>::empty()))
            && definitions.stages()[definition_id.0 as int] is Defined
            && stage_arity(definitions.stages()[definition_id.0 as int]) == 0),
        r matches Some(t) ==> stage_return_type(
            final(instances).stages()[final(instances).local_map()[(definition_id, Seq::<ValueType>::empty())].0 as int],
        ) == t,
        r is Some ==> created_and_inferred(
            *definitions,
            definition_id,
            old(instances).stages(),
            old(instances).local_map(),
            old(errors)@,
            *final(instances),
            final(errors)@,
        ),
{
    let ghost before = *instances;
    proof {
        before.lemma_wf();
    }
    let count = instances.len();
    let result = instances.new_instance(definitions, FnId::Local(definition_id), ParamsTypes::default());
    let NewFnInstanceResult::New { id, instance, definition } = result else {
        proof {
            assert(instances.stages() == before.stages());
        }
        return None;
    };
    let ghost key = (definition_id, Seq::<ValueType>::empty());
    proof {
        assert(definitions.stages()[definition_id.0 as int] matches FnDefinitionStage::Defined(def) && def.wf());
        assert forall|k: (FnDefinitionId, Seq<ValueType>)| #[trigger]
            instances.local_map().dom().contains(k) implies k.0.0 < definitions.stages().len() && k.1.len()
                <= max_arity(definitions.stages()) by {
            if k != key {
                assert(before.local_map().dom().contains(k));
            }
        }
        assert(id.0 == count);
    }
    let ghost middle = *instances;
    let ghost first = instance;
    let ghost errors_before = errors@;
    let return_type = analyse(errors, definitions, instances, id, instance, definition);
    proof {
        let (states, modules, errs) = choose|states: Seq<FnInstance>, modules: Seq<ModuleInstances>, errs: Seq<Seq<CompilationError>>|
            #[trigger] inference_fold(*definitions, *definition, first, middle, errors_before, states, modules, errs)
                && instances.stages() == modules.last().stages().update(id.0 as int, finished_stage(states.last()))
                && errors@ == errs.last() && return_type == states.last().return_type;
        assert(inference_fold(*definitions, *definition, first, modules[0], errors_before, states, modules, errs));
        assert(created_and_inferred(*definitions, definition_id, before.stages(), before.local_map(), errors_before, *instances, errors@));
        assert forall|i: int| 0 <= i < before.stages().len() implies #[trigger] instances.stages()[i] == before.stages()[i] by {
            assert(instances.stages()[i] == middle.stages()[i]);
        }
        assert forall|i: int| before.stages().len() <= i < instances.stages().len() implies !(#[trigger] instances.stages()[i] is BeeingCreated) by {
        }
        assert(middle.local_map().dom().contains(key));
        assert(middle.local_map().submap_of(instances.local_map()));
        assert(instances.local_map().dom().contains(key));
        assert(instances.local_map()[key] == id);
        assert forall|k: (FnDefinitionId, Seq<ValueType>)| #[trigger]
            before.local_map().dom().contains(k) implies instances.local_map().dom().contains(k)
                && instances.local_map()[k] == before.local_map()[k] by {
            assert(middle.local_map().dom().contains(k));
            assert(middle.local_map()[k] == before.local_map()[k]);
            assert(instances.local_map().dom().contains(k));
            assert(instances.local_map()[k] == middle.local_map()[k]);
        }
    }
    Some(return_type)
}

impl<'code, 'compiler> ParserStage<'code, 'compiler> {
    /// Infers the types of the instances that the entry point needs, starting from the
    /// instances of the external functions.
    pub fn type_inference_stage(self, extern_instances: ExternalInstances) -> (r: TypeInferenceStage<'code, 'compiler>)
        requires
            self.definitions.wf(),
            definitions_ok(self.definitions.stages()),
            self.entry_point.0 < self.definitions.stages().len(),
            self.definitions.stages()[self.entry_point.0 as int] matches FnDefinitionStage::Defined(def)
                && def.parameters == 0,
            extern_instances.wf(),
        ensures
            r.entry_point == self.entry_point,
            r.code.definitions == self.definitions,
            definitions_ready(r.code.definitions),
            instances_ready(r.code.definitions, r.code.instances),
            finalized_from(r.code.instances.stages(), 0),
            r.code.instances.local_map().dom().contains((r.entry_point, Seq::<ValueType>::empty())),
            r.code.instances.extern_map() == extern_instances.map(),
            extern_instances.stages().len() <= r.code.instances.stages().len(),
            r.code.instances.stages().subrange(0, extern_instances.stages().len() as int)
                == extern_instances.stages(),
            errors_grow(old(self.errors)@, r.errors@),
            *final(self.errors) == *final(r.errors),
            created_and_inferred(
                r.code.definitions,
                r.entry_point,
                extern_instances.stages(),
                Map::empty(),
                old(self.errors)@,
                r.code.instances,
                r.errors@,
            ),
    {
        let ParserStage { errors, definitions, entry_point } = self;
        let mut instances = ModuleInstances::new(extern_instances);
        proof {
            assert forall|i: int|
                0 <= i < definitions.stages().len() implies (#[trigger] definitions.stages()[i] matches FnDefinitionStage::Defined(
                    def,
                ) ==> def.wf() && calls_in_range(def.instructions@, definitions.stages().len())) by {
            }
            assert(finalized_from(instances.stages(), 0)) by {
                extern_instances.lemma_complete();
            }
            assert(imports_exist(instances.stages())) by {
                extern_instances.lemma_complete();
            }
        }
        let ghost start = instances;
        let ghost errors_start = errors@;
        let created = instantiate(errors, &definitions, &mut instances, entry_point);
        proof {
            assert(created is Some);
            assert(errors_start == old(self.errors)@);
        }
        proof {
            assert forall|i: int| 0 <= i < instances.stages().len() implies !(#[trigger] instances.stages()[i] is BeeingCreated) by {
                if i < start.stages().len() {
                    assert(instances.stages()[i] == start.stages()[i]);
                }
            }
            assert(instances.stages().subrange(0, extern_instances.stages().len() as int) =~= extern_instances.stages());
        }
        TypeInferenceStage { errors, code: CodeModule { definitions, instances }, entry_point }
    }
}

/// A call to an instance registered before and finished adds an error only where it
/// keeps its result in a variable that already holds another known type: a call that
/// keeps no result adds none, and one that keeps it adds exactly one error exactly when
/// the variable holds another known type.
pub proof fn lemma_call_errors<'code>(
    definitions: ModuleDefinitions<'code>,
    call: Call,
    arguments: Seq<Variable>,
    old_instances: ModuleInstances,
    new_instances: ModuleInstances,
    old_instance: FnInstance,
    new_instance: FnInstance,
    old_errors: Seq<CompilationError>,
    new_errors: Seq<CompilationError>,
    id: FnInstanceId,
)
    requires
        call_inferred(
            definitions,
            call,
            arguments,
            old_instances,
            new_instances,
            old_instance,
            new_instance,
            old_errors,
            new_errors,
        ),
        forall|j: int| 0 <= j < arguments.len() ==> operand_type(old_instance.variables@, #[trigger] arguments[j]) != ValueType::Unknown,
        call_target(old_instances, definitions, call.fn_id, argument_types_of(old_instance.variables@, arguments))
            == Some(id),
        instance_registered(old_instances, call.fn_id, argument_types_of(old_instance.variables@, arguments)),
        !(new_instances.stages()[id.0 as int] is BeeingCreated),
    ensures
        call.result is None ==> new_errors == old_errors,
        call.result matches Some(variable) ==> (new_errors == old_errors <==> !assign_conflict(
            old_instance.variables@,
            variable,
            stage_return_type(new_instances.stages()[id.0 as int]),
        )),
        new_errors.len() <= old_errors.len() + 1,
{
    let types = argument_types_of(old_instance.variables@, arguments);
    assert(!(exists|j: int| 0 <= j < arguments.len() && operand_type(old_instance.variables@, #[trigger] arguments[j]) == ValueType::Unknown));
    let e = choose|e: Seq<CompilationError>|
        #[trigger] callee_errors_kept(old_instances, call.fn_id, types, old_errors, e) && new_errors
            == errors_after_call(e, call.result, old_instance.variables@, stage_return_type(new_instances.stages()[id.0 as int]));
    assert(e == old_errors);
    if let Some(variable) = call.result {
        if assign_conflict(old_instance.variables@, variable, stage_return_type(new_instances.stages()[id.0 as int])) {
            assert(new_errors.len() == old_errors.len() + 1);
        }
    }
}

} // verus!
