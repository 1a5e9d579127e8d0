//! Lowers the instructions of one instance to Cranelift IR.
use crate::compiler::backend::backend_value::{BackendValue, BackendVariable};
use crate::compiler::backend::backend_value::PrimitiveType;
use crate::compiler::backend::ir_builder::{Step, Builder, cranelift_type, cranelift_type_of, declared_functions, index_list, index_slice};
use crate::compiler::hir::definition::{FnDefinition, Instruction, RunIf, instruction_wf, operand_wf};
use crate::compiler::hir::instance::{FnInstance, FnInstanceId, operand_type};
use crate::compiler::hir::value::{Value, ValueType, Variable, VariableId};
use vstd::prelude::*;

verus! {

/// Why an instance could not be lowered. Each stands for a condition on which the
/// lowering cannot go on: the code is not what type inference leaves for correct
/// programs, or Cranelift refused a step.
#[derive(Clone, Copy, Debug, PartialEq, Eq, Structural)]
pub enum BackendError {
    /// A value or a variable whose type is unknown.
    UnknownType,
    /// A value of another type than the variable or the operation takes.
    TypeMismatch,
    /// Cranelift does not know a variable, or refused a definition of one.
    UndeclaredVariable,
    /// A call of an instance that was not declared.
    MissingInstance,
    /// A control flow instruction outside the scope it closes.
    InvalidScope,
    /// A value or a loop in code that no path reaches.
    UnreachableCode,
    /// A call gives another number of values than its result takes.
    ResultMismatch,
    /// The function ends without a return but returns a value.
    WrongReturnType,
    /// The entry block has fewer parameters than the variables of the parameters take.
    ParameterMismatch,
    /// An instance whose types are not all known.
    IncompleteInstance,
    /// Cranelift refused to declare or define a function.
    ModuleFailure,
    /// A step of the building that Cranelift would refuse: inserting in an ended block,
    /// sealing a block twice, or leaving a block that is not ended.
    RefusedStep,
}

/// Where the next instruction goes.
#[derive(Clone, Copy)]
pub enum InstructionFlow {
    /// There's no active open block to place the code in.
    Terminated,
    /// The current active block is terminated, but the current flow
    /// will start with the provided successor block.
    ///
    /// The block will not be used in the next instructions.
    /// This means that the block will be sealed immediately when any instruction is added.
    CleanStart(u32),
    /// The instruction is not the first one of the active block.
    Dirty,
}

#[derive(Clone, Copy)]
pub struct LoopScope {
    /// Jump to `start_label` to repeat the loop (the continue instruction).
    pub start_label: u32,
    /// Jump to `end_label` to break the loop.
    pub end_label: Option<u32>,
}

#[derive(Clone, Copy)]
pub struct IfScope(pub u32);

/// The state in which one instance is lowered.
pub struct FnBackendCompiler<'r, 'code> {
    pub builder: Builder<'r>,
    pub variables: Vec<BackendVariable>,
    /// Index of the next instruction to lower.
    pub next: usize,
    pub instance: &'r FnInstance,
    pub definition: &'r FnDefinition<'code>,
    pub func_ids: &'r [cranelift_module::FuncId],
    pub func_refs: Vec<cranelift::codegen::ir::FuncRef>,
    /// Used to temporally create a slice of values. For example, to store the
    /// arguments of a function call while the instruction is being built.
    pub values_buffer: Vec<u32>,
    pub instruction_flow: InstructionFlow,
    pub if_scope_stack: Vec<IfScope>,
    pub loop_scope_stack: Vec<LoopScope>,
}

/// The Cranelift variables that stand for the variables of the instance, in order.
pub open spec fn variables_match(variables: Seq<BackendVariable>, types: Seq<ValueType>) -> bool {
    &&& variables.len() == types.len()
    &&& forall|i: int|
        0 <= i < types.len() ==> match #[trigger] types[i] {
            ValueType::Null => variables[i] is Null,
            ValueType::Int => variables[i] is Int,
            ValueType::Bool => variables[i] is Bool,
            ValueType::Unknown => false,
        }
}

/// Some variable of the instance has no known type.
pub open spec fn has_unknown_variable(instance: FnInstance) -> bool {
    exists|i: int| 0 <= i < instance.variables@.len() && #[trigger] instance.variables@[i] == ValueType::Unknown
}

/// Every instance that the instance calls is among the declared ones.
pub open spec fn imports_declared(instance: FnInstance, declared: nat) -> bool {
    forall|i: int| 0 <= i < instance.imported_instances@.len() ==> (#[trigger] instance.imported_instances@[i]).0 < declared
}

/// The value stands for a value of the given type.
pub open spec fn value_has_type(value: BackendValue, value_type: ValueType) -> bool {
    match value_type {
        ValueType::Null => value is Null,
        ValueType::Int => value is Int,
        ValueType::Bool => value is Bool,
        ValueType::Unknown => false,
    }
}

/// Where the scope that is open at instruction `i` ends, with `nested` scopes opened
/// since: at the instruction that ends or switches it (an `Else` or a `LoopEnd` at depth
/// 0, or an `IfEnd` at depth 0, which closes it with the scopes around it), past the end
/// of the function, or nowhere because an `IfEnd` closes some scopes opened since and the
/// current one at once, or the function ends with scopes open since.
pub enum ScopeEnd {
    Closes(int),
    Unclosed,
    Invalid,
}

pub open spec fn scope_end(instructions: Seq<Instruction>, i: int, nested: int) -> ScopeEnd
    decreases instructions.len() - i,
{
    if i < 0 || i >= instructions.len() {
        if nested == 0 {
            ScopeEnd::Unclosed
        } else {
            ScopeEnd::Invalid
        }
    } else {
        match instructions[i] {
            Instruction::IfStart(_, _) => scope_end(instructions, i + 1, nested + 1),
            Instruction::LoopStart => scope_end(instructions, i + 1, nested + 1),
            Instruction::IfEnd(size) => if nested == 0 && size > 0 {
                ScopeEnd::Closes(i)
            } else if nested < size {
                ScopeEnd::Invalid
            } else {
                scope_end(instructions, i + 1, nested - size)
            },
            Instruction::LoopEnd => if nested == 0 {
                ScopeEnd::Closes(i)
            } else {
                scope_end(instructions, i + 1, nested - 1)
            },
            Instruction::Else => if nested == 0 {
                ScopeEnd::Closes(i)
            } else {
                scope_end(instructions, i + 1, nested)
            },
            _ => scope_end(instructions, i + 1, nested),
        }
    }
}

/// What skipping the rest of the scope open at `from` gives: an error where it is not
/// closed properly, success at the end of the function where it is never closed, and
/// otherwise the lowering of the instruction that closes it.
pub open spec fn skip_outcome(instructions: Seq<Instruction>, from: int, r: Result<(), BackendError>, next: int) -> bool {
    match scope_end(instructions, from, 0) {
        ScopeEnd::Invalid => r == Err::<(), BackendError>(BackendError::InvalidScope),
        ScopeEnd::Unclosed => r is Ok && next == instructions.len(),
        ScopeEnd::Closes(k) => from <= k < instructions.len() && k < next,
    }
}

impl<'r, 'code> FnBackendCompiler<'r, 'code> {
    /// The instance belongs to the function, every instruction refers to declared
    /// variables, and the lowering has not gone past the end.
    pub open spec fn ready(&self) -> bool {
        &&& self.definition.wf()
        &&& self.instance.variables@.len() == self.definition.variables_metadata@.len()
        &&& self.instance.parameters <= self.instance.variables@.len()
        &&& self.next <= self.definition.instructions@.len()
    }

    /// Ready, with the variables declared and the builder in a block.
    pub open spec fn wf(&self) -> bool {
        &&& self.ready()
        &&& variables_match(self.variables@, self.instance.variables@)
        &&& self.builder.wf()
    }

    /// `self` is a later state of `old` that keeps what the lowering reads: the function,
    /// the instance and its variables.
    pub open spec fn continues(&self, old: &Self) -> bool {
        &&& self.instance == old.instance
        &&& self.definition == old.definition
        &&& self.func_ids == old.func_ids
        &&& self.variables == old.variables
        &&& old.next <= self.next
    }

    /// Seals a clean block before the first instruction goes to it.
    fn prepare(&mut self)
        requires
            old(self).wf(),
        ensures
            final(self).wf(),
            final(self).continues(old(self)),
            final(self).next == old(self).next,
            final(self).if_scope_stack == old(self).if_scope_stack,
            final(self).loop_scope_stack == old(self).loop_scope_stack,
            final(self).func_refs == old(self).func_refs,
            final(self).values_buffer == old(self).values_buffer,
            final(self).instruction_flow matches InstructionFlow::CleanStart(_) ==> false,
            final(self).builder.steps() == old(self).builder.steps(),
            old(self).builder.refused() ==> final(self).builder.refused(),
            old(self).instruction_flow is Terminated ==> final(self).instruction_flow is Terminated,
            !(old(self).instruction_flow is Terminated) ==> final(self).instruction_flow is Dirty,
    {
        if let InstructionFlow::CleanStart(block) = self.instruction_flow {
            self.builder.seal_block(block);
            self.instruction_flow = InstructionFlow::Dirty;
        }
    }

    /// The flow goes on at `label`, which becomes the clean start of the flow.
    fn set_flow_label(&mut self, label: u32)
        requires
            old(self).ready(),
            variables_match(old(self).variables@, old(self).instance.variables@),
            old(self).builder.wf(),
        ensures
            final(self).wf(),
            final(self).continues(old(self)),
            final(self).next == old(self).next,
            final(self).if_scope_stack == old(self).if_scope_stack,
            final(self).loop_scope_stack == old(self).loop_scope_stack,
            final(self).instruction_flow matches InstructionFlow::CleanStart(b) && b == label,
            old(self).instruction_flow is Terminated ==> final(self).builder.steps() == old(self).builder.steps(),
            old(self).builder.refused() ==> final(self).builder.refused(),
            !final(self).builder.refused() ==> final(self).builder.steps() == old(self).builder.steps()
                + flow_jump(old(self).instruction_flow, label),
    {
        match self.instruction_flow {
            InstructionFlow::Terminated => {},
            InstructionFlow::CleanStart(clean) => {
                // The clean block gets its one instruction, the jump to `label`.
                self.builder.seal_block(clean);
                self.builder.jump(label);
            },
            InstructionFlow::Dirty => {
                self.builder.jump(label);
            },
        }
        self.builder.switch_to_block(label);
        self.instruction_flow = InstructionFlow::CleanStart(label);
    }

    /// A label pointing to the current flow, which the caller seals later; none where the
    /// flow is terminated.
    fn get_flow_label(&mut self) -> (r: Option<u32>)
        requires
            old(self).wf(),
        ensures
            final(self).wf(),
            final(self).continues(old(self)),
            final(self).next == old(self).next,
            final(self).if_scope_stack == old(self).if_scope_stack,
            final(self).loop_scope_stack == old(self).loop_scope_stack,
            r is None <==> old(self).instruction_flow is Terminated,
            r is Some ==> final(self).instruction_flow is Dirty || final(self).instruction_flow is CleanStart,
            r is None ==> final(self).instruction_flow is Terminated,
            old(self).builder.refused() ==> final(self).builder.refused(),
            r matches Some(label) ==> (!final(self).builder.refused() ==> final(self).builder.steps()
                == old(self).builder.steps() + (if old(self).instruction_flow is Dirty {
                seq![Step::Jump(label)]
            } else {
                Seq::empty()
            })),
            r is None ==> final(self).builder.steps() == old(self).builder.steps(),
    {
        match self.instruction_flow {
            InstructionFlow::Terminated => None,
            InstructionFlow::CleanStart(label) => {
                self.instruction_flow = InstructionFlow::Dirty;
                Some(label)
            },
            InstructionFlow::Dirty => {
                let label = self.builder.create_block();
                self.set_flow_label(label);
                // The caller seals the label.
                self.instruction_flow = InstructionFlow::Dirty;
                Some(label)
            },
        }
    }

    /// The value of a variable of the instance.
    fn use_var_id(&mut self, id: VariableId) -> (r: Result<BackendValue, BackendError>)
        requires
            old(self).wf(),
            id.0 < old(self).instance.variables@.len(),
        ensures
            final(self).wf(),
            final(self).continues(old(self)),
            final(self).next == old(self).next,
            final(self).if_scope_stack == old(self).if_scope_stack,
            final(self).loop_scope_stack == old(self).loop_scope_stack,
            final(self).instruction_flow == old(self).instruction_flow,
            r matches Ok(v) ==> match old(self).instance.variables@[id.0 as int] {
                ValueType::Null => v is Null,
                ValueType::Int => v is Int,
                ValueType::Bool => v is Bool,
                ValueType::Unknown => false,
            },
            final(self).func_refs == old(self).func_refs,
            final(self).values_buffer == old(self).values_buffer,
            r matches Err(e) ==> e == BackendError::UndeclaredVariable,
            r matches Ok(v) ==> final(self).builder.steps() == old(self).builder.steps() + read_steps(
                old(self).variables@[id.0 as int],
                v,
            ),
            r is Err ==> final(self).builder.steps() == old(self).builder.steps(),
            final(self).builder.refused() == old(self).builder.refused(),
    {
        match self.variables[id.0] {
            BackendVariable::Null => Ok(BackendValue::Null),
            BackendVariable::Int(var) => match self.builder.use_var(var) {
                Some(value) => Ok(BackendValue::Int(value)),
                None => Err(BackendError::UndeclaredVariable),
            },
            BackendVariable::Bool(var) => match self.builder.use_var(var) {
                Some(value) => Ok(BackendValue::Bool(value)),
                None => Err(BackendError::UndeclaredVariable),
            },
        }
    }

    /// A constant; there is no place for it where the flow is terminated.
    fn load(&mut self, value: &Value) -> (r: Result<BackendValue, BackendError>)
        requires
            old(self).wf(),
        ensures
            final(self).wf(),
            final(self).continues(old(self)),
            final(self).next == old(self).next,
            final(self).if_scope_stack == old(self).if_scope_stack,
            final(self).loop_scope_stack == old(self).loop_scope_stack,
            final(self).func_refs == old(self).func_refs,
            final(self).values_buffer == old(self).values_buffer,
            old(self).instruction_flow is Terminated <==> r == Err::<BackendValue, BackendError>(BackendError::UnreachableCode),
            !(old(self).instruction_flow is Terminated) ==> r is Ok,
            old(self).instruction_flow is Terminated ==> final(self).instruction_flow is Terminated,
            !(old(self).instruction_flow is Terminated) ==> final(self).instruction_flow is Dirty,
            r matches Ok(v) ==> match *value {
                Value::Null => v is Null,
                Value::Int(_) => v is Int,
                Value::Bool(_) => v is Bool,
            },
            r matches Ok(v) ==> (!final(self).builder.refused() ==> final(self).builder.steps()
                == old(self).builder.steps() + const_steps(*value, v)),
            r is Err ==> final(self).builder.steps() == old(self).builder.steps(),
            old(self).builder.refused() ==> final(self).builder.refused(),
    {
        if let InstructionFlow::Terminated = self.instruction_flow {
            return Err(BackendError::UnreachableCode);
        }
        match value {
            Value::Null => {
                self.prepare();
                Ok(BackendValue::Null)
            },
            Value::Int(v) => {
                self.prepare();
                Ok(BackendValue::Int(self.builder.iconst(cranelift_type(PrimitiveType::I64), *v)))
            },
            Value::Bool(v) => {
                self.prepare();
                let bit: i64 = if *v {
                    1
                } else {
                    0
                };
                Ok(BackendValue::Bool(self.builder.iconst(cranelift_type(PrimitiveType::I8), bit)))
            },
        }
    }

    /// The value of an operand.
    fn use_var(&mut self, variable: &Variable) -> (r: Result<BackendValue, BackendError>)
        requires
            old(self).wf(),
            operand_wf(*variable, old(self).instance.variables@.len()),
        ensures
            final(self).wf(),
            final(self).continues(old(self)),
            final(self).next == old(self).next,
            final(self).if_scope_stack == old(self).if_scope_stack,
            final(self).loop_scope_stack == old(self).loop_scope_stack,
            old(self).instruction_flow is Terminated ==> final(self).instruction_flow is Terminated,
            !(old(self).instruction_flow is Terminated) ==> !(final(self).instruction_flow is Terminated),
            final(self).func_refs == old(self).func_refs,
            final(self).values_buffer == old(self).values_buffer,
            *variable is Unknown ==> r == Err::<BackendValue, BackendError>(BackendError::UnknownType),
            *variable is Const ==> (old(self).instruction_flow is Terminated <==> r == Err::<BackendValue, BackendError>(BackendError::UnreachableCode)),
            *variable is Const && !(old(self).instruction_flow is Terminated) ==> r is Ok,
            *variable is Id ==> r is Ok || r == Err::<BackendValue, BackendError>(BackendError::UndeclaredVariable),
            r matches Ok(v) ==> value_has_type(v, operand_type(old(self).instance.variables@, *variable)),

            r matches Ok(v) ==> match *variable {
                Variable::Id(id) => match old(self).instance.variables@[id.0 as int] {
                    ValueType::Null => v is Null,
                    ValueType::Int => v is Int,
                    ValueType::Bool => v is Bool,
                    ValueType::Unknown => false,
                },
                Variable::Const(c) => match c {
                    Value::Null => v is Null,
                    Value::Int(_) => v is Int,
                    Value::Bool(_) => v is Bool,
                },
                Variable::Unknown => false,
            },
            r matches Ok(v) ==> (!final(self).builder.refused() ==> final(self).builder.steps()
                == old(self).builder.steps() + operand_steps(old(self).variables@, *variable, v)),
            r is Err ==> final(self).builder.steps() == old(self).builder.steps(),
            old(self).builder.refused() ==> final(self).builder.refused(),
    {
        match variable {
            Variable::Unknown => Err(BackendError::UnknownType),
            Variable::Const(value) => self.load(value),
            Variable::Id(id) => self.use_var_id(*id),
        }
    }
}


/// The value indices that a value takes: none for null, one otherwise.
pub open spec fn value_indices(v: BackendValue) -> Seq<u32> {
    match v {
        BackendValue::Null => Seq::empty(),
        BackendValue::Int(x) => seq![x],
        BackendValue::Bool(x) => seq![x],
    }
}

/// The steps that put a constant in the value `v`: none for null; an `i64` constant for
/// an integer; an `i8` constant, 1 or 0, for a boolean.
pub open spec fn const_steps(c: Value, v: BackendValue) -> Seq<Step> {
    match (c, v) {
        (Value::Int(n), BackendValue::Int(x)) => seq![Step::Const(cranelift_type_of(PrimitiveType::I64), n, x)],
        (Value::Bool(b), BackendValue::Bool(x)) => seq![
            Step::Const(cranelift_type_of(PrimitiveType::I8), if b { 1 } else { 0 }, x),
        ],
        _ => Seq::empty(),
    }
}

/// The steps that read a variable into the value `v`: none for null, one read otherwise.
pub open spec fn read_steps(variable: BackendVariable, v: BackendValue) -> Seq<Step> {
    match (variable, v) {
        (BackendVariable::Int(var), BackendValue::Int(x)) => seq![Step::Read(var, x)],
        (BackendVariable::Bool(var), BackendValue::Bool(x)) => seq![Step::Read(var, x)],
        _ => Seq::empty(),
    }
}

/// The steps that give an operand the value `v`.
pub open spec fn operand_steps(variables: Seq<BackendVariable>, operand: Variable, v: BackendValue) -> Seq<Step> {
    match operand {
        Variable::Const(c) => const_steps(c, v),
        Variable::Id(id) => read_steps(variables[id.0 as int], v),
        Variable::Unknown => Seq::empty(),
    }
}

/// The steps that define a variable by the value `v`: none for null, one definition
/// otherwise.
pub open spec fn define_steps(variable: BackendVariable, v: BackendValue) -> Seq<Step> {
    match (variable, v) {
        (BackendVariable::Int(var), BackendValue::Int(x)) => seq![Step::Define(var, x)],
        (BackendVariable::Bool(var), BackendValue::Bool(x)) => seq![Step::Define(var, x)],
        _ => Seq::empty(),
    }
}

/// The steps that give the operands the values `vals`, one operand after the other.
pub open spec fn operands_steps(variables: Seq<BackendVariable>, operands: Seq<Variable>, vals: Seq<BackendValue>) -> Seq<Step>
    decreases operands.len(),
{
    if operands.len() == 0 || vals.len() != operands.len() {
        Seq::empty()
    } else {
        operands_steps(variables, operands.drop_last(), vals.drop_last()) + operand_steps(
            variables,
            operands.last(),
            vals.last(),
        )
    }
}

/// The value indices of values, one value after the other.
pub open spec fn values_indices(vals: Seq<BackendValue>) -> Seq<u32>
    decreases vals.len(),
{
    if vals.len() == 0 {
        Seq::empty()
    } else {
        values_indices(vals.drop_last()) + value_indices(vals.last())
    }
}

/// The definitions of the variables `targets` by the values `results`, in order.
pub open spec fn defines(targets: Seq<u32>, results: Seq<u32>) -> Seq<Step>
    decreases targets.len(),
{
    if targets.len() == 0 || results.len() != targets.len() {
        Seq::empty()
    } else {
        defines(targets.drop_last(), results.drop_last()).push(Step::Define(targets.last(), results.last()))
    }
}

/// The Cranelift variables of a variable of the instance: none for null, one otherwise.
pub open spec fn variable_indices(variable: BackendVariable) -> Seq<u32> {
    match variable {
        BackendVariable::Null => Seq::empty(),
        BackendVariable::Int(var) => seq![var],
        BackendVariable::Bool(var) => seq![var],
    }
}

/// The steps of a call: the arguments get the values `vals`, the function is invoked
/// with their value indices, and the variables of the result, if any, are defined by
/// the values `results` that the call gave.
pub open spec fn call_lowering(
    variables: Seq<BackendVariable>,
    arguments: Seq<Variable>,
    function: cranelift::codegen::ir::FuncRef,
    result: Option<VariableId>,
    vals: Seq<BackendValue>,
    results: Seq<u32>,
) -> Seq<Step> {
    operands_steps(variables, arguments, vals) + seq![Step::Invoke(function, values_indices(vals))] + match result {
        Some(v) => defines(variable_indices(variables[v.0 as int]), results),
        None => Seq::empty(),
    }
}

/// The jump that leads the flow to `label`: none where the flow is terminated.
pub open spec fn flow_jump(flow: InstructionFlow, label: u32) -> Seq<Step> {
    match flow {
        InstructionFlow::Terminated => Seq::empty(),
        _ => seq![Step::Jump(label)],
    }
}

/// The jumps that close `n` ifs of the stack, from its top: the first one where the flow
/// is not terminated, each other one always, as the flow goes on at each end.
pub open spec fn closing_jumps(stack: Seq<IfScope>, n: nat, flow: InstructionFlow) -> Seq<Step>
    decreases n,
{
    if n == 0 || stack.len() < n {
        Seq::empty()
    } else {
        closing_jumps(stack, (n - 1) as nat, flow) + flow_jump(
            if n == 1 {
                flow
            } else {
                InstructionFlow::CleanStart(stack[stack.len() - n + 1].0)
            },
            stack[stack.len() - n].0,
        )
    }
}

/// The module declared every function of `ids`.
pub open spec fn ids_declared(ids: Seq<cranelift_module::FuncId>, module: cranelift_jit::JITModule) -> bool {
    forall|k: int| 0 <= k < ids.len() ==> declared_functions(module).contains(#[trigger] ids[k])
}

/// What every step of the lowering keeps: the state stays well formed and moves forward.
pub open spec fn stepped<'r, 'code>(new: &FnBackendCompiler<'r, 'code>, old: &FnBackendCompiler<'r, 'code>) -> bool {
    new.wf() && new.continues(old)
}

impl<'r, 'code> FnBackendCompiler<'r, 'code> {
    /// Assigns an operand to a variable.
    fn assign(&mut self, variable: VariableId, value: &Variable) -> (r: Result<(), BackendError>)
        requires
            old(self).wf(),
            variable.0 < old(self).instance.variables@.len(),
            operand_wf(*value, old(self).instance.variables@.len()),
        ensures
            stepped(final(self), old(self)),
            final(self).next == old(self).next,
            final(self).if_scope_stack == old(self).if_scope_stack,
            final(self).loop_scope_stack == old(self).loop_scope_stack,
            final(self).func_refs == old(self).func_refs,
            final(self).values_buffer == old(self).values_buffer,
            ({
                let target = old(self).instance.variables@[variable.0 as int];
                let source = operand_type(old(self).instance.variables@, *value);
                let terminated = old(self).instruction_flow is Terminated;
                &&& *value is Unknown ==> r == Err::<(), BackendError>(BackendError::UnknownType)
                &&& *value is Const && terminated ==> r == Err::<(), BackendError>(BackendError::UnreachableCode)
                &&& *value is Const && !terminated && source != target ==> r == Err::<(), BackendError>(BackendError::TypeMismatch)
                &&& *value is Const && !terminated && source == target && target == ValueType::Null ==> r is Ok
                &&& r is Ok ==> source == target
                &&& r matches Err(e) ==> e == BackendError::UnknownType || e == BackendError::UnreachableCode
                    || e == BackendError::TypeMismatch || e == BackendError::UndeclaredVariable
            }),
            r is Ok ==> (!final(self).builder.refused() ==> exists|v: BackendValue|
                final(self).builder.steps() == old(self).builder.steps() + #[trigger] operand_steps(
                    old(self).variables@,
                    *value,
                    v,
                ) + define_steps(old(self).variables@[variable.0 as int], v)),
    {
        let loaded = self.use_var(value)?;
        let r = match self.variables[variable.0] {
            BackendVariable::Null => match loaded {
                BackendValue::Null => Ok(loaded.expect_null()),
                _ => Err(BackendError::TypeMismatch),
            },
            BackendVariable::Int(var) => match loaded {
                BackendValue::Int(_) => if self.builder.def_var(var, loaded.expect_int()) {
                    Ok(())
                } else {
                    Err(BackendError::UndeclaredVariable)
                },
                _ => Err(BackendError::TypeMismatch),
            },
            BackendVariable::Bool(var) => match loaded {
                BackendValue::Bool(_) => if self.builder.def_var(var, loaded.expect_bool()) {
                    Ok(())
                } else {
                    Err(BackendError::UndeclaredVariable)
                },
                _ => Err(BackendError::TypeMismatch),
            },
        };
        proof {
            if r is Ok && !self.builder.refused() {
                assert(self.builder.steps() == old(self).builder.steps() + operand_steps(old(self).variables@, *value, loaded)
                    + define_steps(old(self).variables@[variable.0 as int], loaded));
            }
        }
        r
    }

    /// Calls an instance with the given arguments; returns the call instruction.
    fn call(&mut self, fn_id: FnInstanceId, arguments: &[Variable]) -> (r: Result<cranelift::codegen::ir::Inst, BackendError>)
        requires
            old(self).wf(),
            forall|j: int| 0 <= j < arguments@.len() ==> operand_wf(#[trigger] arguments@[j], old(self).instance.variables@.len()),
        ensures
            stepped(final(self), old(self)),
            final(self).next == old(self).next,
            final(self).if_scope_stack == old(self).if_scope_stack,
            final(self).loop_scope_stack == old(self).loop_scope_stack,
            final(self).func_refs == old(self).func_refs,
            ({
                let terminated = old(self).instruction_flow is Terminated;
                &&& r is Ok ==> fn_id.0 < old(self).func_refs@.len()
                &&& r is Ok ==> forall|j: int| 0 <= j < arguments@.len() ==> !(#[trigger] arguments@[j] is Unknown)
                    && !(terminated && arguments@[j] is Const)
                &&& fn_id.0 < old(self).func_refs@.len() && !terminated && (forall|j: int|
                    0 <= j < arguments@.len() ==> #[trigger] arguments@[j] is Const) ==> r is Ok
                    || r == Err::<cranelift::codegen::ir::Inst, BackendError>(BackendError::RefusedStep)
                &&& r matches Err(e) ==> e == BackendError::UnknownType || e == BackendError::UnreachableCode
                    || e == BackendError::UndeclaredVariable || e == BackendError::MissingInstance
                    || e == BackendError::RefusedStep
            }),
            r is Ok ==> (!final(self).builder.refused() ==> exists|vals: Seq<BackendValue>|
                vals.len() == arguments@.len() && final(self).builder.steps() == old(self).builder.steps()
                    + #[trigger] operands_steps(old(self).variables@, arguments@, vals) + seq![
                    Step::Invoke(old(self).func_refs@[fn_id.0 as int], values_indices(vals)),
                ]),
    {
        let mut buffer: Vec<u32> = Vec::new();
        std::mem::swap(&mut buffer, &mut self.values_buffer);
        buffer.clear();
        let mut i: usize = 0;
        let ghost mut vals: Seq<BackendValue> = Seq::empty();
        proof {
            assert(arguments@.subrange(0, 0) =~= Seq::<Variable>::empty());
        }
        while i < arguments.len()
            invariant
                vals.len() == i,
                buffer@ == values_indices(vals),
                old(self).builder.refused() ==> self.builder.refused(),
                !self.builder.refused() ==> self.builder.steps() == old(self).builder.steps() + operands_steps(
                    old(self).variables@,
                    arguments@.subrange(0, i as int),
                    vals,
                ),
                self.variables == old(self).variables,
                stepped(self, old(self)),
                self.next == old(self).next,
                self.if_scope_stack == old(self).if_scope_stack,
                self.loop_scope_stack == old(self).loop_scope_stack,
                i <= arguments@.len(),
                forall|j: int| 0 <= j < arguments@.len() ==> operand_wf(#[trigger] arguments@[j], old(self).instance.variables@.len()),
                self.func_refs == old(self).func_refs,
                self.instruction_flow is Terminated <==> old(self).instruction_flow is Terminated,
                forall|j: int| 0 <= j < i ==> !(#[trigger] arguments@[j] is Unknown)
                    && !(old(self).instruction_flow is Terminated && arguments@[j] is Const),
            decreases arguments@.len() - i,
        {
            let ghost before = *self;
            let value = self.use_var(&arguments[i])?;
            let values = value.values();
            let slice = index_slice(&values);
            let ghost start = buffer@;
            let mut k: usize = 0;
            while k < slice.len()
                invariant
                    k <= slice@.len(),
                    buffer@ == start + slice@.subrange(0, k as int),
                decreases slice@.len() - k,
            {
                buffer.push(slice[k]);
                k = k + 1;
                assert(buffer@ =~= start + slice@.subrange(0, k as int));
            }
            proof {
                let next = vals.push(value);
                assert(next.drop_last() =~= vals);
                assert(slice@.subrange(0, slice@.len() as int) =~= slice@);
                assert(buffer@ =~= values_indices(next));
                let prefix = arguments@.subrange(0, i + 1);
                assert(prefix.drop_last() =~= arguments@.subrange(0, i as int));
                assert(prefix.last() == arguments@[i as int]);
                if !self.builder.refused() {
                    assert(!before.builder.refused());
                    assert(self.builder.steps() =~= old(self).builder.steps() + operands_steps(old(self).variables@, prefix, next));
                }
                vals = next;
            }
            i = i + 1;
        }
        proof {
            assert(arguments@.subrange(0, arguments@.len() as int) =~= arguments@);
        }
        if fn_id.0 >= self.func_refs.len() {
            self.values_buffer = buffer;
            return Err(BackendError::MissingInstance);
        }
        let fn_ref = self.func_refs[fn_id.0];
        self.prepare();
        let returned = match self.builder.call(fn_ref, buffer.as_slice()) {
            Some(inst) => inst,
            None => {
                self.values_buffer = buffer;
                return Err(BackendError::RefusedStep);
            },
        };
        self.values_buffer = buffer;
        Ok(returned)
    }

    /// Returns an operand.
    fn fn_return(&mut self, value: &Variable) -> (r: Result<(), BackendError>)
        requires
            old(self).wf(),
            operand_wf(*value, old(self).instance.variables@.len()),
        ensures
            stepped(final(self), old(self)),
            final(self).next == old(self).next,
            final(self).if_scope_stack == old(self).if_scope_stack,
            final(self).loop_scope_stack == old(self).loop_scope_stack,
            final(self).func_refs == old(self).func_refs,
            final(self).values_buffer == old(self).values_buffer,
            r is Ok ==> final(self).instruction_flow is Terminated,
            *value is Unknown ==> r == Err::<(), BackendError>(BackendError::UnknownType),
            *value is Const ==> (r is Ok <==> !(old(self).instruction_flow is Terminated)),
            *value is Const && old(self).instruction_flow is Terminated ==> r == Err::<(), BackendError>(BackendError::UnreachableCode),
            r matches Err(e) ==> e == BackendError::UnknownType || e == BackendError::UnreachableCode
                || e == BackendError::UndeclaredVariable,
            r is Ok ==> (!final(self).builder.refused() ==> exists|v: BackendValue|
                final(self).builder.steps() == old(self).builder.steps() + #[trigger] operand_steps(
                    old(self).variables@,
                    *value,
                    v,
                ) + seq![Step::Return(value_indices(v))]),
    {
        let loaded = self.use_var(value)?;
        let values = loaded.values();
        self.prepare();
        self.builder.return_(index_slice(&values));
        self.instruction_flow = InstructionFlow::Terminated;
        proof {
            if !self.builder.refused() {
                assert(self.builder.steps() == old(self).builder.steps() + operand_steps(old(self).variables@, *value, loaded)
                    + seq![Step::Return(value_indices(loaded))]);
            }
        }
        Ok(())
    }

    /// Branches on `cond`: `run_if` says on which value the then block runs; the flow
    /// goes on in the then block.
    fn branch(&mut self, run_if: RunIf, cond: u32, else_block: u32)
        requires
            old(self).wf(),
        ensures
            stepped(final(self), old(self)),
            final(self).next == old(self).next,
            final(self).if_scope_stack == old(self).if_scope_stack,
            final(self).loop_scope_stack == old(self).loop_scope_stack,
            final(self).instruction_flow is CleanStart,
            old(self).builder.refused() ==> final(self).builder.refused(),
            final(self).builder.refused() || (final(self).instruction_flow matches InstructionFlow::CleanStart(then)
                && final(self).builder.steps() == old(self).builder.steps().push(match run_if {
                    RunIf::True => Step::Brif(cond, then, else_block),
                    RunIf::False => Step::Brif(cond, else_block, then),
                })),
    {
        let then = self.builder.create_block();
        let (if_true, if_false) = match run_if {
            RunIf::True => (then, else_block),
            RunIf::False => (else_block, then),
        };
        self.prepare();
        self.builder.brif(cond, if_true, if_false);
        self.instruction_flow = InstructionFlow::Terminated;
        self.set_flow_label(then);
    }

    /// Opens an if: the flow goes on in the then block, and the else block waits on the
    /// stack of ifs.
    fn if_start(&mut self, condition: &Variable, run_if: RunIf) -> (r: Result<(), BackendError>)
        requires
            old(self).wf(),
            operand_wf(*condition, old(self).instance.variables@.len()),
        ensures
            stepped(final(self), old(self)),
            final(self).next == old(self).next,
            final(self).loop_scope_stack == old(self).loop_scope_stack,
            r is Ok ==> final(self).if_scope_stack@.len() == old(self).if_scope_stack@.len() + 1,
            r is Ok ==> final(self).if_scope_stack@.subrange(0, old(self).if_scope_stack@.len() as int)
                == old(self).if_scope_stack@,
            r is Err ==> final(self).if_scope_stack == old(self).if_scope_stack,
            r is Ok ==> final(self).instruction_flow is CleanStart,
            ({
                let condition_type = operand_type(old(self).instance.variables@, *condition);
                let terminated = old(self).instruction_flow is Terminated;
                &&& *condition is Unknown ==> r == Err::<(), BackendError>(BackendError::UnknownType)
                &&& *condition is Const && terminated ==> r == Err::<(), BackendError>(BackendError::UnreachableCode)
                &&& *condition is Const && !terminated ==> (r is Ok <==> condition_type == ValueType::Bool)
                &&& *condition is Const && !terminated && condition_type != ValueType::Bool
                    ==> r == Err::<(), BackendError>(BackendError::TypeMismatch)
                &&& r is Ok ==> condition_type == ValueType::Bool
                &&& r matches Err(e) ==> e == BackendError::UnknownType || e == BackendError::UnreachableCode
                    || e == BackendError::TypeMismatch || e == BackendError::UndeclaredVariable
            }),
            r is Ok ==> (!final(self).builder.refused() ==> exists|v: BackendValue|
                v is Bool && final(self).builder.steps() == old(self).builder.steps() + #[trigger] operand_steps(
                    old(self).variables@,
                    *condition,
                    v,
                ) + seq![
                    match run_if {
                        RunIf::True => Step::Brif(
                            v->Bool_0,
                            final(self).instruction_flow->CleanStart_0,
                            final(self).if_scope_stack@.last().0,
                        ),
                        RunIf::False => Step::Brif(
                            v->Bool_0,
                            final(self).if_scope_stack@.last().0,
                            final(self).instruction_flow->CleanStart_0,
                        ),
                    },
                ]),
    {
        let value = self.use_var(condition)?;
        let ghost loaded = self.builder.steps();
        let cond = match value {
            BackendValue::Bool(_) => value.expect_bool(),
            _ => return Err(BackendError::TypeMismatch),
        };
        let else_block = self.builder.create_block();
        self.branch(run_if, cond, else_block);
        self.if_scope_stack.push(IfScope(else_block));
        assert(self.if_scope_stack@.subrange(0, old(self).if_scope_stack@.len() as int) =~= old(self).if_scope_stack@);
        proof {
            if !self.builder.refused() {
                assert(self.builder.steps() =~= old(self).builder.steps() + operand_steps(old(self).variables@, *condition, value)
                    + seq![
                    match run_if {
                        RunIf::True => Step::Brif(
                            value->Bool_0,
                            self.instruction_flow->CleanStart_0,
                            self.if_scope_stack@.last().0,
                        ),
                        RunIf::False => Step::Brif(
                            value->Bool_0,
                            self.if_scope_stack@.last().0,
                            self.instruction_flow->CleanStart_0,
                        ),
                    },
                ]);
            }
        }
        Ok(())
    }

    /// Closes `chain_size` ifs: the flow goes on where each of them ends.
    fn if_end(&mut self, chain_size: usize) -> (r: Result<(), BackendError>)
        requires
            old(self).wf(),
        ensures
            stepped(final(self), old(self)),
            final(self).next == old(self).next,
            final(self).loop_scope_stack == old(self).loop_scope_stack,
            chain_size <= old(self).if_scope_stack@.len() <==> r is Ok,
            r is Ok ==> final(self).if_scope_stack@ == old(self).if_scope_stack@.subrange(
                0,
                old(self).if_scope_stack@.len() - chain_size,
            ),
            r is Ok && !final(self).builder.refused() ==> final(self).builder.steps() == old(self).builder.steps()
                + closing_jumps(old(self).if_scope_stack@, chain_size as nat, old(self).instruction_flow),
    {
        if chain_size > self.if_scope_stack.len() {
            return Err(BackendError::InvalidScope);
        }
        let mut i: usize = 0;
        while i < chain_size
            invariant
                stepped(self, old(self)),
                self.next == old(self).next,
                self.loop_scope_stack == old(self).loop_scope_stack,
                chain_size <= old(self).if_scope_stack@.len(),
                i <= chain_size,
                self.if_scope_stack@ == old(self).if_scope_stack@.subrange(0, old(self).if_scope_stack@.len() - i),
                old(self).builder.refused() ==> self.builder.refused(),
                i == 0 ==> self.instruction_flow == old(self).instruction_flow,
                i > 0 ==> self.instruction_flow == InstructionFlow::CleanStart(
                    old(self).if_scope_stack@[old(self).if_scope_stack@.len() - i].0,
                ),
                !self.builder.refused() ==> self.builder.steps() == old(self).builder.steps() + closing_jumps(
                    old(self).if_scope_stack@,
                    i as nat,
                    old(self).instruction_flow,
                ),
            decreases chain_size - i,
        {
            let ghost before = *self;
            let scope = self.if_scope_stack.pop().unwrap();
            proof {
                assert(scope == old(self).if_scope_stack@[old(self).if_scope_stack@.len() - i - 1]);
            }
            self.set_flow_label(scope.0);
            i = i + 1;
            assert(self.if_scope_stack@ =~= old(self).if_scope_stack@.subrange(0, old(self).if_scope_stack@.len() - i));
            proof {
                if !self.builder.refused() {
                    assert(!before.builder.refused());
                    assert(self.builder.steps() =~= old(self).builder.steps() + closing_jumps(
                        old(self).if_scope_stack@,
                        i as nat,
                        old(self).instruction_flow,
                    ));
                }
            }
        }
        Ok(())
    }

    /// Opens a loop at the current flow; there is none where the flow is terminated.
    fn loop_start(&mut self) -> (r: Result<(), BackendError>)
        requires
            old(self).wf(),
        ensures
            stepped(final(self), old(self)),
            final(self).next == old(self).next,
            final(self).if_scope_stack == old(self).if_scope_stack,
            old(self).instruction_flow is Terminated <==> r is Err,
            r is Ok ==> final(self).loop_scope_stack@.len() == old(self).loop_scope_stack@.len() + 1,
            r is Ok ==> final(self).loop_scope_stack@.subrange(0, old(self).loop_scope_stack@.len() as int)
                == old(self).loop_scope_stack@,
            r is Err ==> final(self).loop_scope_stack == old(self).loop_scope_stack,
            r is Ok && !final(self).builder.refused() ==> final(self).builder.steps() == old(self).builder.steps()
                + (if old(self).instruction_flow is Dirty {
                seq![Step::Jump(final(self).loop_scope_stack@.last().start_label)]
            } else {
                Seq::empty()
            }),
    {
        let start_label = match self.get_flow_label() {
            Some(label) => label,
            None => return Err(BackendError::UnreachableCode),
        };
        self.loop_scope_stack.push(LoopScope { start_label, end_label: None });
        assert(self.loop_scope_stack@.subrange(0, old(self).loop_scope_stack@.len() as int) =~= old(self).loop_scope_stack@);
        Ok(())
    }
}

impl<'r, 'code> FnBackendCompiler<'r, 'code> {
    /// Lowers the instruction at `index`, which was taken from the instructions.
    fn compile_instruction(&mut self, index: usize) -> (r: Result<(), BackendError>)
        requires
            old(self).wf(),
            index < old(self).next,
        ensures
            stepped(final(self), old(self)),
            match old(self).definition.instructions@[index as int] {
                Instruction::Call(call) => call.call_id >= old(self).instance.imported_instances@.len()
                    ==> r == Err::<(), BackendError>(BackendError::MissingInstance),
                Instruction::Assign { variable, value } => value is Unknown
                    ==> r == Err::<(), BackendError>(BackendError::UnknownType),
                Instruction::Return(value) => {
                    &&& value is Unknown ==> r == Err::<(), BackendError>(BackendError::UnknownType)
                    &&& value is Const ==> (r is Ok <==> !(old(self).instruction_flow is Terminated))
                },
                Instruction::IfStart(condition, _) => condition is Unknown
                    ==> r == Err::<(), BackendError>(BackendError::UnknownType),
                Instruction::IfEnd(chain_size) => chain_size <= old(self).if_scope_stack@.len() <==> r is Ok,
                Instruction::LoopStart => old(self).instruction_flow is Terminated <==> r is Err,
                Instruction::LoopEnd => old(self).loop_scope_stack@.len() == 0
                    <==> r == Err::<(), BackendError>(BackendError::InvalidScope),
                Instruction::Break => old(self).loop_scope_stack@.len() == 0
                    ==> r == Err::<(), BackendError>(BackendError::InvalidScope),
                Instruction::Else => old(self).if_scope_stack@.len() == 0
                    <==> r == Err::<(), BackendError>(BackendError::InvalidScope),
            },
            r is Ok && !final(self).builder.refused() ==> match old(self).definition.instructions@[index as int] {
                Instruction::Call(call) => exists|vals: Seq<BackendValue>, results: Seq<u32>|
                    final(self).builder.steps() == old(self).builder.steps() + #[trigger] call_lowering(
                        old(self).variables@,
                        old(self).definition.call_arguments(call),
                        old(self).func_refs@[old(self).instance.imported_instances@[call.call_id as int].0 as int],
                        call.result,
                        vals,
                        results,
                    ),
                Instruction::Assign { variable, value } => exists|v: BackendValue|
                    final(self).builder.steps() == old(self).builder.steps() + #[trigger] operand_steps(
                        old(self).variables@,
                        value,
                        v,
                    ) + define_steps(old(self).variables@[variable.0 as int], v),
                Instruction::Return(value) => exists|v: BackendValue|
                    final(self).builder.steps() == old(self).builder.steps() + #[trigger] operand_steps(
                        old(self).variables@,
                        value,
                        v,
                    ) + seq![Step::Return(value_indices(v))],
                Instruction::Else => final(self).builder.steps() == old(self).builder.steps() + flow_jump(
                    old(self).instruction_flow,
                    final(self).if_scope_stack@.last().0,
                ),
                Instruction::LoopEnd => final(self).builder.steps() == old(self).builder.steps() + flow_jump(
                    old(self).instruction_flow,
                    old(self).loop_scope_stack@.last().start_label,
                ),
                Instruction::IfEnd(chain_size) => final(self).builder.steps() == old(self).builder.steps()
                    + closing_jumps(old(self).if_scope_stack@, chain_size as nat, old(self).instruction_flow),
                Instruction::LoopStart => final(self).builder.steps() == old(self).builder.steps()
                    + (if old(self).instruction_flow is Dirty {
                    seq![Step::Jump(final(self).loop_scope_stack@.last().start_label)]
                } else {
                    Seq::empty()
                }),
                Instruction::IfStart(condition, run_if) => exists|v: BackendValue|
                    v is Bool && final(self).builder.steps() == old(self).builder.steps() + #[trigger] operand_steps(
                        old(self).variables@,
                        condition,
                        v,
                    ) + seq![
                        match run_if {
                            RunIf::True => Step::Brif(
                                v->Bool_0,
                                final(self).instruction_flow->CleanStart_0,
                                final(self).if_scope_stack@.last().0,
                            ),
                            RunIf::False => Step::Brif(
                                v->Bool_0,
                                final(self).if_scope_stack@.last().0,
                                final(self).instruction_flow->CleanStart_0,
                            ),
                        },
                    ],
                _ => true,
            },
        decreases old(self).definition.instructions@.len() - old(self).next, 5nat,
    {
        let instruction = self.definition.instructions[index];
        proof {
            assert(instruction_wf(instruction, self.definition.variables_metadata@.len(), self.definition.arguments@.len()));
        }
        match instruction {
            Instruction::Call(call) => {
                if call.call_id >= self.instance.imported_instances.len() {
                    return Err(BackendError::MissingInstance);
                }
                let instance_id = self.instance.imported_instances[call.call_id];
                let arguments = self.definition.get_arguments(&call);
                proof {
                    assert forall|j: int| 0 <= j < arguments@.len() implies operand_wf(#[trigger] arguments@[j], self.instance.variables@.len()) by {
                        assert(arguments@[j] == self.definition.arguments@[call.arguments_start + j]);
                    }
                }
                let ghost before_call = *self;
                let returned = self.call(instance_id, arguments)?;
                let ghost after_call = *self;
                if let Some(variable) = call.result {
                    let variables = self.variables[variable.0].variables();
                    let targets = index_slice(&variables);
                    let results = self.builder.inst_results(returned);
                    if results.len() != targets.len() {
                        return Err(BackendError::ResultMismatch);
                    }
                    let mut i: usize = 0;
                    while i < targets.len()
                        invariant
                            stepped(self, old(self)),
                            i <= targets@.len(),
                            results@.len() == targets@.len(),
                            call.call_id < old(self).instance.imported_instances@.len(),
                            old(self).definition.instructions@[index as int] == Instruction::Call(call),
                            self.builder.refused() == after_call.builder.refused(),
                            self.builder.steps() == after_call.builder.steps() + defines(
                                targets@.subrange(0, i as int),
                                results@.subrange(0, i as int),
                            ),
                        decreases targets@.len() - i,
                    {
                        if !self.builder.def_var(targets[i], results[i]) {
                            return Err(BackendError::UndeclaredVariable);
                        }
                        proof {
                            let t = targets@.subrange(0, i + 1);
                            let u = results@.subrange(0, i + 1);
                            assert(t.drop_last() =~= targets@.subrange(0, i as int));
                            assert(u.drop_last() =~= results@.subrange(0, i as int));
                        }
                        i = i + 1;
                    }
                    proof {
                        assert(targets@.subrange(0, targets@.len() as int) =~= targets@);
                        assert(results@.subrange(0, results@.len() as int) =~= results@);
                        if !self.builder.refused() {
                            let vals = choose|vals: Seq<BackendValue>|
                                vals.len() == arguments@.len() && after_call.builder.steps() == before_call.builder.steps()
                                    + #[trigger] operands_steps(before_call.variables@, arguments@, vals) + seq![
                                    Step::Invoke(before_call.func_refs@[instance_id.0 as int], values_indices(vals)),
                                ];
                            assert(self.builder.steps() =~= old(self).builder.steps() + call_lowering(
                                old(self).variables@,
                                old(self).definition.call_arguments(call),
                                old(self).func_refs@[old(self).instance.imported_instances@[call.call_id as int].0 as int],
                                call.result,
                                vals,
                                results@,
                            ));
                        }
                    }
                } else {
                    proof {
                        if !self.builder.refused() {
                            let vals = choose|vals: Seq<BackendValue>|
                                vals.len() == arguments@.len() && after_call.builder.steps() == before_call.builder.steps()
                                    + #[trigger] operands_steps(before_call.variables@, arguments@, vals) + seq![
                                    Step::Invoke(before_call.func_refs@[instance_id.0 as int], values_indices(vals)),
                                ];
                            assert(self.builder.steps() =~= old(self).builder.steps() + call_lowering(
                                old(self).variables@,
                                old(self).definition.call_arguments(call),
                                old(self).func_refs@[old(self).instance.imported_instances@[call.call_id as int].0 as int],
                                call.result,
                                vals,
                                Seq::empty(),
                            ));
                        }
                    }
                }
                Ok(())
            },
            Instruction::Assign { variable, value } => self.assign(variable, &value),
            Instruction::Return(value) => self.fn_return(&value),
            Instruction::IfStart(condition, run_if) => self.if_start(&condition, run_if),
            Instruction::IfEnd(chain_size) => self.if_end(chain_size),
            Instruction::Else => self.else_start(),
            Instruction::LoopStart => self.loop_start(),
            Instruction::Break => self.loop_break(),
            Instruction::LoopEnd => self.loop_end(),
        }
    }

    /// Ends the then block of an if: where the flow reaches its end, it jumps past the
    /// else block, which the flow goes on in.
    fn else_start(&mut self) -> (r: Result<(), BackendError>)
        requires
            old(self).wf(),
        ensures
            stepped(final(self), old(self)),
            final(self).next == old(self).next,
            final(self).loop_scope_stack == old(self).loop_scope_stack,
            old(self).if_scope_stack@.len() == 0 <==> r == Err::<(), BackendError>(BackendError::InvalidScope),
            r is Ok ==> {
                let n = old(self).if_scope_stack@.len();
                &&& final(self).if_scope_stack@.len() == n
                &&& final(self).if_scope_stack@.subrange(0, n - 1) == old(self).if_scope_stack@.subrange(0, n - 1)
                &&& final(self).instruction_flow == InstructionFlow::CleanStart(old(self).if_scope_stack@[n - 1].0)
                &&& !final(self).builder.refused() ==> final(self).builder.steps() == old(self).builder.steps()
                    + flow_jump(old(self).instruction_flow, final(self).if_scope_stack@[n - 1].0)
            },
    {
        if self.if_scope_stack.len() == 0 {
            return Err(BackendError::InvalidScope);
        }
        let ghost before = *self;
        let end_block = self.builder.create_block();
        if !matches!(self.instruction_flow, InstructionFlow::Terminated) {
            self.prepare();
            self.builder.jump(end_block);
        }
        self.instruction_flow = InstructionFlow::Terminated;
        let scope = self.if_scope_stack.pop().unwrap();
        let ghost middle = *self;
        self.set_flow_label(scope.0);
        self.if_scope_stack.push(IfScope(end_block));
        proof {
            let n = old(self).if_scope_stack@.len();
            assert(self.if_scope_stack@.subrange(0, n - 1) =~= old(self).if_scope_stack@.subrange(0, n - 1));
            if !self.builder.refused() {
                assert(!middle.builder.refused());
                assert(self.builder.steps() =~= old(self).builder.steps() + flow_jump(old(self).instruction_flow, end_block));
            }
        }
        Ok(())
    }

    /// Closes a loop: it repeats where the flow reaches its end, and the flow goes on
    /// where a break left it.
    fn loop_end(&mut self) -> (r: Result<(), BackendError>)
        requires
            old(self).wf(),
        ensures
            stepped(final(self), old(self)),
            final(self).next == old(self).next,
            final(self).if_scope_stack == old(self).if_scope_stack,
            old(self).loop_scope_stack@.len() == 0 <==> r == Err::<(), BackendError>(BackendError::InvalidScope),
            r is Ok ==> {
                let loops = old(self).loop_scope_stack@;
                &&& final(self).loop_scope_stack@ == loops.drop_last()
                &&& !final(self).builder.refused() ==> final(self).builder.steps() == old(self).builder.steps()
                    + flow_jump(old(self).instruction_flow, loops.last().start_label)
                &&& loops.last().end_label matches Some(e) ==> final(self).instruction_flow == InstructionFlow::CleanStart(e)
                &&& loops.last().end_label is None ==> final(self).instruction_flow is Terminated
            },
    {
        if self.loop_scope_stack.len() == 0 {
            return Err(BackendError::InvalidScope);
        }
        let scope = self.loop_scope_stack.pop().unwrap();
        if !matches!(self.instruction_flow, InstructionFlow::Terminated) {
            self.prepare();
            self.builder.jump(scope.start_label);
        }
        self.instruction_flow = InstructionFlow::Terminated;
        let ghost middle = *self;
        self.builder.seal_block(scope.start_label);
        if let Some(end_label) = scope.end_label {
            self.set_flow_label(end_label);
        }
        proof {
            if !self.builder.refused() {
                assert(!middle.builder.refused());
                assert(self.builder.steps() =~= old(self).builder.steps() + flow_jump(old(self).instruction_flow, scope.start_label));
            }
        }
        Ok(())
    }

    /// Leaves the innermost loop.
    fn loop_break(&mut self) -> (r: Result<(), BackendError>)
        requires
            old(self).wf(),
        ensures
            stepped(final(self), old(self)),
            old(self).loop_scope_stack@.len() == 0 ==> r == Err::<(), BackendError>(BackendError::InvalidScope),
            old(self).loop_scope_stack@.len() > 0 ==> skip_outcome(
                old(self).definition.instructions@,
                old(self).next as int,
                r,
                final(self).next as int,
            ),
            old(self).loop_scope_stack@.len() > 0 && scope_end(
                old(self).definition.instructions@,
                old(self).next as int,
                0,
            ) is Unclosed ==> {
                &&& final(self).loop_scope_stack@.len() == old(self).loop_scope_stack@.len()
                &&& final(self).loop_scope_stack@.last().start_label == old(self).loop_scope_stack@.last().start_label
                &&& final(self).loop_scope_stack@.last().end_label is Some
                &&& final(self).if_scope_stack == old(self).if_scope_stack
                &&& final(self).instruction_flow is Terminated
            },
        decreases old(self).definition.instructions@.len() - old(self).next, 3nat,
    {
        let len = self.loop_scope_stack.len();
        if len == 0 {
            return Err(BackendError::InvalidScope);
        }
        let mut scope = self.loop_scope_stack[len - 1];
        let end_block = match scope.end_label {
            Some(block) => block,
            None => self.builder.create_block(),
        };
        scope.end_label = Some(end_block);
        self.loop_scope_stack.set(len - 1, scope);
        self.jump(end_block)
    }

    /// Jumps to `block`; the code up to the end of the current scope is unreachable and
    /// skipped.
    fn jump(&mut self, block: u32) -> (r: Result<(), BackendError>)
        requires
            old(self).wf(),
        ensures
            stepped(final(self), old(self)),
            skip_outcome(old(self).definition.instructions@, old(self).next as int, r, final(self).next as int),
            scope_end(old(self).definition.instructions@, old(self).next as int, 0) is Unclosed ==> {
                &&& final(self).loop_scope_stack == old(self).loop_scope_stack
                &&& final(self).if_scope_stack == old(self).if_scope_stack
                &&& final(self).instruction_flow is Terminated
            },
        decreases old(self).definition.instructions@.len() - old(self).next, 2nat,
    {
        self.prepare();
        self.builder.jump(block);
        self.instruction_flow = InstructionFlow::Terminated;
        self.skip_scope()
    }

    /// Skips the unreachable instructions up to the end of the current scope, and lowers
    /// the one that ends or switches it.
    fn skip_scope(&mut self) -> (r: Result<(), BackendError>)
        requires
            old(self).wf(),
        ensures
            stepped(final(self), old(self)),
            skip_outcome(old(self).definition.instructions@, old(self).next as int, r, final(self).next as int),
            scope_end(old(self).definition.instructions@, old(self).next as int, 0) is Unclosed ==> {
                &&& final(self).loop_scope_stack == old(self).loop_scope_stack
                &&& final(self).if_scope_stack == old(self).if_scope_stack
                &&& final(self).instruction_flow == old(self).instruction_flow
            },
        decreases old(self).definition.instructions@.len() - old(self).next, 1nat,
    {
        let mut nested_scopes: usize = 0;
        while self.next < self.definition.instructions.len()
            invariant
                stepped(self, old(self)),
                nested_scopes <= self.next,
                old(self).next <= self.next,
                scope_end(self.definition.instructions@, old(self).next as int, 0)
                    == scope_end(self.definition.instructions@, self.next as int, nested_scopes as int),
                self.loop_scope_stack == old(self).loop_scope_stack,
                self.if_scope_stack == old(self).if_scope_stack,
                self.instruction_flow == old(self).instruction_flow,
            decreases self.definition.instructions@.len() - self.next,
        {
            let index = self.next;
            self.next = self.next + 1;
            match self.definition.instructions[index] {
                Instruction::IfStart(_, _) | Instruction::LoopStart => {
                    nested_scopes = nested_scopes + 1;
                },
                Instruction::IfEnd(size) => {
                    if nested_scopes == 0 && size > 0 {
                        return self.compile_instruction(index);
                    }
                    if nested_scopes < size {
                        return Err(BackendError::InvalidScope);
                    }
                    nested_scopes = nested_scopes - size;
                },
                Instruction::LoopEnd => {
                    if nested_scopes == 0 {
                        return self.compile_instruction(index);
                    } else {
                        nested_scopes = nested_scopes - 1;
                    }
                },
                Instruction::Else => {
                    if nested_scopes == 0 {
                        return self.compile_instruction(index);
                    }
                },
                _ => {},
            }
        }
        if nested_scopes != 0 {
            return Err(BackendError::InvalidScope);
        }
        Ok(())
    }
}


/// The buffers that the lowering of each instance reuses.
pub struct Scratch {
    pub variables: Vec<BackendVariable>,
    pub func_refs: Vec<cranelift::codegen::ir::FuncRef>,
    pub values_buffer: Vec<u32>,
    pub if_scope_stack: Vec<IfScope>,
    pub loop_scope_stack: Vec<LoopScope>,
}

impl<'r, 'code> FnBackendCompiler<'r, 'code> {
    /// Starts the function: its entry block, its variables and the functions it calls.
    fn function_declaration(&mut self, module: &mut cranelift_jit::JITModule) -> (r: Result<(), BackendError>)
        requires
            old(self).ready(),
            old(self).builder.wf(),
            ids_declared(old(self).func_ids@, *old(module)),
        ensures
            declared_functions(*final(module)) == declared_functions(*old(module)),
            final(self).ready(),
            final(self).func_ids == old(self).func_ids,
            final(self).instance == old(self).instance,
            final(self).definition == old(self).definition,
            final(self).next == old(self).next,
            r is Ok ==> final(self).wf(),
            r is Ok ==> final(self).func_refs@.len() == final(self).instance.imported_instances@.len(),
            r is Ok ==> final(self).instruction_flow is CleanStart,
            has_unknown_variable(*old(self).instance) ==> r == Err::<(), BackendError>(BackendError::UnknownType),
            r is Ok ==> imports_declared(*old(self).instance, old(self).func_ids@.len()),
            !has_unknown_variable(*old(self).instance) && old(self).instance.parameters == 0
                && imports_declared(*old(self).instance, old(self).func_ids@.len()) ==> r is Ok,
            r matches Err(e) ==> e == BackendError::UnknownType || e == BackendError::ParameterMismatch
                || e == BackendError::UndeclaredVariable || e == BackendError::MissingInstance,
    {
        let entry_block = self.builder.create_block();
        self.builder.append_block_params_for_function_params(entry_block);
        self.builder.switch_to_block(entry_block);
        self.instruction_flow = InstructionFlow::CleanStart(entry_block);
        self.declare_variables(entry_block)?;
        self.declare_functions(module)
    }

    /// A Cranelift variable for each variable of the instance, the parameters bound to
    /// the parameters of the entry block.
    fn declare_variables(&mut self, entry_block: u32) -> (r: Result<(), BackendError>)
        requires
            old(self).ready(),
            old(self).builder.wf(),
        ensures
            final(self).ready(),
            final(self).builder.wf(),
            final(self).instance == old(self).instance,
            final(self).definition == old(self).definition,
            final(self).func_ids == old(self).func_ids,
            final(self).next == old(self).next,
            r is Ok ==> variables_match(final(self).variables@, final(self).instance.variables@),
            has_unknown_variable(*old(self).instance) ==> r == Err::<(), BackendError>(BackendError::UnknownType),
            !has_unknown_variable(*old(self).instance) && old(self).instance.parameters == 0 ==> r is Ok,
            r matches Err(e) ==> e == BackendError::UnknownType || e == BackendError::ParameterMismatch
                || e == BackendError::UndeclaredVariable,
            final(self).instruction_flow == old(self).instruction_flow,
            final(self).if_scope_stack == old(self).if_scope_stack,
            final(self).loop_scope_stack == old(self).loop_scope_stack,
    {
        self.variables.clear();
        let mut i: usize = 0;
        while i < self.instance.variables.len()
            invariant
                self.ready(),
                self.builder.wf(),
                self.instance == old(self).instance,
                self.definition == old(self).definition,
                self.func_ids == old(self).func_ids,
                self.next == old(self).next,
                i <= self.instance.variables@.len(),
                variables_match(self.variables@, self.instance.variables@.subrange(0, i as int)),
                self.instruction_flow == old(self).instruction_flow,
                self.if_scope_stack == old(self).if_scope_stack,
                self.loop_scope_stack == old(self).loop_scope_stack,
            decreases self.instance.variables@.len() - i,
        {
            let backend_var = match self.instance.variables[i] {
                ValueType::Unknown => return Err(BackendError::UnknownType),
                ValueType::Null => BackendVariable::Null,
                ValueType::Int => BackendVariable::Int(self.builder.declare_var(PrimitiveType::I64)),
                ValueType::Bool => BackendVariable::Bool(self.builder.declare_var(PrimitiveType::I8)),
            };
            self.variables.push(backend_var);
            i = i + 1;
            assert forall|k: int| 0 <= k < i implies match #[trigger] self.instance.variables@.subrange(0, i as int)[k] {
                ValueType::Null => self.variables@[k] is Null,
                ValueType::Int => self.variables@[k] is Int,
                ValueType::Bool => self.variables@[k] is Bool,
                ValueType::Unknown => false,
            } by {
                if k < i - 1 {
                    assert(self.instance.variables@.subrange(0, i - 1)[k] == self.instance.variables@.subrange(0, i as int)[k]);
                }
            }
        }
        assert(self.instance.variables@.subrange(0, self.instance.variables@.len() as int) =~= self.instance.variables@);
        let params = self.builder.block_params(entry_block);
        let mut index: usize = 0;
        let mut id: usize = 0;
        while id < self.instance.parameters
            invariant
                self.wf(),
                self.instance == old(self).instance,
                self.definition == old(self).definition,
                self.func_ids == old(self).func_ids,
                self.next == old(self).next,
                id <= self.instance.parameters,
                index <= params@.len(),
                self.instruction_flow == old(self).instruction_flow,
                self.if_scope_stack == old(self).if_scope_stack,
                self.loop_scope_stack == old(self).loop_scope_stack,
            decreases self.instance.parameters - id,
        {
            let variables = self.variables[id].variables();
            let targets = index_slice(&variables);
            let mut k: usize = 0;
            while k < targets.len()
                invariant
                    self.wf(),
                    self.instance == old(self).instance,
                    self.definition == old(self).definition,
                    self.func_ids == old(self).func_ids,
                    self.next == old(self).next,
                    k <= targets@.len(),
                    index <= params@.len(),
                    id < self.instance.parameters,
                    self.instruction_flow == old(self).instruction_flow,
                    self.if_scope_stack == old(self).if_scope_stack,
                    self.loop_scope_stack == old(self).loop_scope_stack,
                decreases targets@.len() - k,
            {
                if index >= params.len() {
                    return Err(BackendError::ParameterMismatch);
                }
                let value = params[index];
                index = index + 1;
                if !self.builder.def_var(targets[k], value) {
                    return Err(BackendError::UndeclaredVariable);
                }
                k = k + 1;
            }
            id = id + 1;
        }
        Ok(())
    }

    /// A reference, from the function, to each instance that it calls.
    fn declare_functions(&mut self, module: &mut cranelift_jit::JITModule) -> (r: Result<(), BackendError>)
        requires
            old(self).wf(),
            ids_declared(old(self).func_ids@, *old(module)),
        ensures
            declared_functions(*final(module)) == declared_functions(*old(module)),
            stepped(final(self), old(self)),
            final(self).next == old(self).next,
            r is Ok ==> final(self).func_refs@.len() == final(self).instance.imported_instances@.len(),
            r is Ok <==> imports_declared(*old(self).instance, old(self).func_ids@.len()),
            r is Err ==> r == Err::<(), BackendError>(BackendError::MissingInstance),
            final(self).instruction_flow == old(self).instruction_flow,
            final(self).if_scope_stack == old(self).if_scope_stack,
            final(self).loop_scope_stack == old(self).loop_scope_stack,
    {
        self.func_refs.clear();
        let mut i: usize = 0;
        while i < self.instance.imported_instances.len()
            invariant
                stepped(self, old(self)),
                self.next == old(self).next,
                i <= self.instance.imported_instances@.len(),
                self.func_refs@.len() == i,
                forall|k: int| 0 <= k < i ==> (#[trigger] self.instance.imported_instances@[k]).0 < self.func_ids@.len(),
                declared_functions(*module) == declared_functions(*old(module)),
                ids_declared(old(self).func_ids@, *old(module)),
                self.instruction_flow == old(self).instruction_flow,
                self.if_scope_stack == old(self).if_scope_stack,
                self.loop_scope_stack == old(self).loop_scope_stack,
            decreases self.instance.imported_instances@.len() - i,
        {
            let instance = self.instance.imported_instances[i];
            if instance.0 >= self.func_ids.len() {
                return Err(BackendError::MissingInstance);
            }
            let func_ref = self.builder.import_function(module, self.func_ids[instance.0]);
            self.func_refs.push(func_ref);
            i = i + 1;
        }
        Ok(())
    }

    /// Lowers the whole instance; returns the buffers for the next one.
    pub fn compile(self, module: &mut cranelift_jit::JITModule) -> (r: (Result<(), BackendError>, Scratch))
        requires
            self.ready(),
            self.builder.wf(),
            self.next == 0,
            ids_declared(self.func_ids@, *old(module)),
        ensures
            declared_functions(*final(module)) == declared_functions(*old(module)),
            r.0 is Ok ==> r.1.if_scope_stack@.len() == 0,
            (exists|i: int| 0 <= i < self.instance.variables@.len() && self.instance.variables@[i] == ValueType::Unknown)
                ==> r.0 is Err,
    {
        let mut compiler = self;
        match compiler.function_declaration(module) {
            Ok(()) => {},
            Err(e) => return (Err(e), compiler.into_scratch()),
        }
        while compiler.next < compiler.definition.instructions.len()
            invariant
                compiler.wf(),
                declared_functions(*module) == declared_functions(*old(module)),
            decreases compiler.definition.instructions@.len() - compiler.next,
        {
            let index = compiler.next;
            compiler.next = compiler.next + 1;
            match compiler.compile_instruction(index) {
                Ok(()) => {},
                Err(e) => return (Err(e), compiler.into_scratch()),
            }
        }
        compiler.finalize()
    }

    /// Ends the function: without a return at the end, it returns null.
    fn finalize(self) -> (r: (Result<(), BackendError>, Scratch))
        requires
            self.wf(),
        ensures
            r.0 is Ok ==> r.1.if_scope_stack@.len() == 0,
            ({
                let wrong_return = !(self.instruction_flow is Terminated) && self.instance.return_type != ValueType::Null;
                &&& wrong_return ==> r.0 == Err::<(), BackendError>(BackendError::WrongReturnType)
                &&& !wrong_return && self.if_scope_stack@.len() != 0 ==> r.0 == Err::<(), BackendError>(BackendError::InvalidScope)
                &&& !wrong_return && self.if_scope_stack@.len() == 0 ==> r.0 is Ok
                    || r.0 == Err::<(), BackendError>(BackendError::RefusedStep)
            }),
            r.1.variables == self.variables,
            r.1.func_refs == self.func_refs,
            r.1.values_buffer == self.values_buffer,
            r.1.if_scope_stack == self.if_scope_stack,
            r.1.loop_scope_stack == self.loop_scope_stack,
    {
        let mut compiler = self;
        if !matches!(compiler.instruction_flow, InstructionFlow::Terminated) {
            if compiler.instance.return_type != ValueType::Null {
                return (Err(BackendError::WrongReturnType), compiler.into_scratch());
            }
            match compiler.fn_return(&Variable::Const(Value::Null)) {
                Ok(()) => {},
                Err(e) => return (Err(e), compiler.into_scratch()),
            }
        }
        if compiler.if_scope_stack.len() != 0 {
            return (Err(BackendError::InvalidScope), compiler.into_scratch());
        }
        let FnBackendCompiler {
            builder,
            variables,
            func_refs,
            values_buffer,
            if_scope_stack,
            loop_scope_stack,
            ..
        } = compiler;
        let result = if builder.finalize() {
            Ok(())
        } else {
            Err(BackendError::RefusedStep)
        };
        (result, Scratch { variables, func_refs, values_buffer, if_scope_stack, loop_scope_stack })
    }

    /// The buffers, taken back from an interrupted lowering.
    fn into_scratch(self) -> (r: Scratch)
        ensures
            r.variables == self.variables,
            r.func_refs == self.func_refs,
            r.values_buffer == self.values_buffer,
            r.if_scope_stack == self.if_scope_stack,
            r.loop_scope_stack == self.loop_scope_stack,
    {
        let FnBackendCompiler {
            variables,
            func_refs,
            values_buffer,
            if_scope_stack,
            loop_scope_stack,
            ..
        } = self;
        Scratch { variables, func_refs, values_buffer, if_scope_stack, loop_scope_stack }
    }
}

} // verus!
