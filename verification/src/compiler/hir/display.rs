//! The text of the intermediate representation, as the tools and tests print it.
use crate::compiler::hir::definition::{
    FnDefinition, FnDefinitionStage, FnId, Instruction, ModuleDefinitions, RunIf, instruction_wf,
};
use crate::compiler::hir::instance::FnInstance;
use crate::compiler::hir::value::{Value, ValueType, Variable, VariableId};
use crate::compiler::text::{all_digits, decimal_value};
use vstd::prelude::*;
use vstd::string::StringSliceAdditionalSpecFns;

verus! {

/// The decimal digits of a number.
pub open spec fn decimal(n: nat) -> Seq<u8>
    decreases n,
{
    if n < 10 {
        seq![(48 + n) as u8]
    } else {
        decimal(n / 10).push((48 + n % 10) as u8)
    }
}

/// Printing a number in decimal and reading the digits back gives the number.
pub proof fn lemma_decimal_round_trip(n: nat)
    ensures
        all_digits(decimal(n)),
        decimal_value(decimal(n)) == n,
    decreases n,
{
    let d = decimal(n);
    if n < 10 {
        assert(d.drop_last() =~= Seq::<u8>::empty());
        assert(d.last() == (48 + n) as u8);
        assert(d.last() - 48 == n);
        assert(decimal_value(d) == decimal_value(d.drop_last()) * 10 + (d.last() - 48) as nat);
    } else {
        lemma_decimal_round_trip(n / 10);
        assert(d.drop_last() =~= decimal(n / 10));
        assert(d.last() == (48 + n % 10) as u8);
        assert((n / 10) * 10 + n % 10 == n) by (nonlinear_arith);
        assert(d.last() - 48 == n % 10);
        assert(decimal_value(d) == decimal_value(d.drop_last()) * 10 + (d.last() - 48) as nat);
        assert forall|i: int| 0 <= i < d.len() implies 48u8 <= #[trigger] d[i] <= 57u8 by {
            if i < d.len() - 1 {
                assert(d[i] == decimal(n / 10)[i]);
            }
        }
    }
}

/// An integer in decimal, with a minus sign when negative.
pub open spec fn int_text(n: int) -> Seq<u8> {
    if n < 0 {
        "-".spec_bytes() + decimal((-n) as nat)
    } else {
        decimal(n as nat)
    }
}

/// The parts, with the separator between each two.
pub open spec fn joined(parts: Seq<Seq<u8>>, separator: Seq<u8>) -> Seq<u8>
    decreases parts.len(),
{
    if parts.len() == 0 {
        Seq::empty()
    } else if parts.len() == 1 {
        parts[0]
    } else {
        joined(parts.drop_last(), separator) + separator + parts.last()
    }
}

pub open spec fn value_text(value: Value) -> Seq<u8> {
    match value {
        Value::Null => "null".spec_bytes(),
        Value::Int(n) => int_text(n as int),
        Value::Bool(b) => if b {
            "true".spec_bytes()
        } else {
            "false".spec_bytes()
        },
    }
}

pub open spec fn variable_id_text(id: VariableId) -> Seq<u8> {
    "v".spec_bytes() + decimal(id.0 as nat)
}

pub open spec fn variable_text(variable: Variable) -> Seq<u8> {
    match variable {
        Variable::Unknown => "unknown".spec_bytes(),
        Variable::Id(id) => variable_id_text(id),
        Variable::Const(value) => value_text(value),
    }
}

pub open spec fn fn_id_text(fn_id: FnId) -> Seq<u8> {
    match fn_id {
        FnId::Extern(id) => "extern_f".spec_bytes() + decimal(id.0 as nat),
        FnId::Local(id) => "local_f".spec_bytes() + decimal(id.0 as nat),
    }
}

pub open spec fn run_if_text(run_if: RunIf) -> Seq<u8> {
    match run_if {
        RunIf::False => "false".spec_bytes(),
        RunIf::True => "true".spec_bytes(),
    }
}

/// The operands, separated by commas.
pub open spec fn operands_text(operands: Seq<Variable>) -> Seq<u8> {
    joined(Seq::new(operands.len(), |i: int| variable_text(operands[i])), ", ".spec_bytes())
}

/// The text of an instruction of a function whose calls take their arguments from
/// `arguments`.
pub open spec fn instruction_text(instruction: Instruction, arguments: Seq<Variable>) -> Seq<u8> {
    match instruction {
        Instruction::Call(call) => {
            let result = match call.result {
                Some(var) => variable_id_text(var) + " = ".spec_bytes(),
                None => Seq::empty(),
            };
            result + fn_id_text(call.fn_id) + "(".spec_bytes() + operands_text(
                arguments.subrange(call.arguments_start as int, call.arguments_end as int),
            ) + ")".spec_bytes()
        },
        Instruction::Assign { variable, value } => variable_id_text(variable) + " = ".spec_bytes()
            + variable_text(value),
        Instruction::Return(value) => "return ".spec_bytes() + variable_text(value),
        Instruction::IfStart(value, run_if) => "if ".spec_bytes() + variable_text(value)
            + " is ".spec_bytes() + run_if_text(run_if),
        Instruction::Else => "else".spec_bytes(),
        Instruction::IfEnd(n) => "endif x".spec_bytes() + decimal(n as nat),
        Instruction::LoopStart => "loop".spec_bytes(),
        Instruction::Break => "break".spec_bytes(),
        Instruction::LoopEnd => "endloop".spec_bytes(),
    }
}

/// The instructions, each on a line of its own, indented.
pub open spec fn instructions_text(instructions: Seq<Instruction>, arguments: Seq<Variable>) -> Seq<u8>
    decreases instructions.len(),
{
    if instructions.len() == 0 {
        Seq::empty()
    } else {
        instructions_text(instructions.drop_last(), arguments) + "\n    ".spec_bytes()
            + instruction_text(instructions.last(), arguments)
    }
}

/// The parameters `v0, v1, ...` of a function.
pub open spec fn parameters_text(parameters: nat) -> Seq<u8> {
    joined(Seq::new(parameters, |i: int| variable_id_text(VariableId(i as usize))), ", ".spec_bytes())
}

pub open spec fn definition_text<'a>(definition: FnDefinition<'a>) -> Seq<u8> {
    "fn ".spec_bytes() + definition.name@ + "(".spec_bytes() + parameters_text(
        definition.parameters as nat,
    ) + ")".spec_bytes() + instructions_text(definition.instructions@, definition.arguments@)
        + "\n".spec_bytes()
}

pub open spec fn stage_text<'code>(stage: FnDefinitionStage<'code>) -> Seq<u8> {
    match stage {
        FnDefinitionStage::ToDefine { name } => "fn ".spec_bytes() + name@ + "(...) <not defined>".spec_bytes(),
        FnDefinitionStage::Defined(definition) => definition_text(definition),
    }
}

/// Each function as `f<id> = <function>`, one after the other.
pub open spec fn module_text<'code>(stages: Seq<FnDefinitionStage<'code>>) -> Seq<u8> {
    joined(
        Seq::new(
            stages.len(),
            |i: int| "f".spec_bytes() + decimal(i as nat) + " = ".spec_bytes() + stage_text(stages[i]),
        ),
        "\n".spec_bytes(),
    )
}

pub open spec fn value_type_text(value_type: ValueType) -> Seq<u8> {
    match value_type {
        ValueType::Unknown => "Unknown".spec_bytes(),
        ValueType::Null => "Null".spec_bytes(),
        ValueType::Int => "Int".spec_bytes(),
        ValueType::Bool => "Bool".spec_bytes(),
    }
}

/// The name of an instance in the compiled module: `f<id><T1, T2, ...>`.
pub open spec fn instance_name(id: nat, parameters: Seq<ValueType>) -> Seq<u8> {
    "f".spec_bytes() + decimal(id) + "<".spec_bytes() + joined(
        Seq::new(parameters.len(), |i: int| value_type_text(parameters[i])),
        ", ".spec_bytes(),
    ) + ">".spec_bytes()
}

pub fn push_value_type(out: &mut Vec<u8>, value_type: ValueType)
    ensures
        final(out)@ == old(out)@ + value_type_text(value_type),
{
    match value_type {
        ValueType::Unknown => push_text(out, "Unknown"),
        ValueType::Null => push_text(out, "Null"),
        ValueType::Int => push_text(out, "Int"),
        ValueType::Bool => push_text(out, "Bool"),
    }
}

impl FnInstance {
    /// Writes the name of the instance into `buffer`, in place of what it held.
    pub fn name(&self, buffer: &mut Vec<u8>)
        requires
            self.parameters <= self.variables@.len(),
        ensures
            final(buffer)@ == instance_name(
                self.id.0 as nat,
                self.variables@.subrange(0, self.parameters as int),
            ),
    {
        buffer.clear();
        push_text(buffer, "f");
        push_decimal(buffer, self.id.0);
        push_text(buffer, "<");
        let types = self.parameters();
        let ghost parts = Seq::new(types@.len(), |i: int| value_type_text(types@[i]));
        let ghost header = buffer@;
        let mut i: usize = 0;
        while i < types.len()
            invariant
                i <= types@.len(),
                parts == Seq::new(types@.len(), |k: int| value_type_text(types@[k])),
                buffer@ == header + joined(parts.subrange(0, i as int), ", ".spec_bytes()),
            decreases types@.len() - i,
        {
            if i > 0 {
                push_text(buffer, ", ");
            }
            push_value_type(buffer, types[i]);
            proof {
                let done = parts.subrange(0, i + 1);
                assert(done.drop_last() =~= parts.subrange(0, i as int));
                assert(buffer@ =~= header + joined(done, ", ".spec_bytes()));
            }
            i = i + 1;
        }
        push_text(buffer, ">");
        assert(parts.subrange(0, types@.len() as int) =~= parts);
        assert(buffer@ =~= instance_name(self.id.0 as nat, self.variables@.subrange(0, self.parameters as int)));
    }
}

/// Appends bytes.
pub fn push_bytes(out: &mut Vec<u8>, bytes: &[u8])
    ensures
        final(out)@ == old(out)@ + bytes@,
{
    let mut i: usize = 0;
    while i < bytes.len()
        invariant
            i <= bytes@.len(),
            out@ == old(out)@ + bytes@.subrange(0, i as int),
        decreases bytes@.len() - i,
    {
        out.push(bytes[i]);
        i = i + 1;
        assert(out@ =~= old(out)@ + bytes@.subrange(0, i as int));
    }
    assert(bytes@.subrange(0, bytes@.len() as int) =~= bytes@);
}

/// Appends the bytes of a text.
pub fn push_text(out: &mut Vec<u8>, text: &str)
    ensures
        final(out)@ == old(out)@ + text.spec_bytes(),
{
    push_bytes(out, text.as_bytes());
}

/// Appends a number in decimal.
pub fn push_decimal(out: &mut Vec<u8>, n: usize)
    ensures
        final(out)@ == old(out)@ + decimal(n as nat),
    decreases n,
{
    if n >= 10 {
        push_decimal(out, n / 10);
    }
    let digit: usize = n % 10;
    out.push((48 + digit) as u8);
    assert(out@ =~= old(out)@ + decimal(n as nat));
}

fn push_unsigned(out: &mut Vec<u8>, n: u64)
    ensures
        final(out)@ == old(out)@ + decimal(n as nat),
    decreases n,
{
    if n >= 10 {
        push_unsigned(out, n / 10);
    }
    let digit: u64 = n % 10;
    out.push((48 + digit) as u8);
    assert(out@ =~= old(out)@ + decimal(n as nat));
}

/// Appends an integer in decimal.
pub fn push_int(out: &mut Vec<u8>, n: i64)
    ensures
        final(out)@ == old(out)@ + int_text(n as int),
{
    if n < 0 {
        push_text(out, "-");
        let magnitude: i128 = -(n as i128);
        push_unsigned(out, magnitude as u64);
    } else {
        push_unsigned(out, n as u64);
    }
    assert(out@ =~= old(out)@ + int_text(n as int));
}

pub fn push_value(out: &mut Vec<u8>, value: &Value)
    ensures
        final(out)@ == old(out)@ + value_text(*value),
{
    match value {
        Value::Null => push_text(out, "null"),
        Value::Int(n) => push_int(out, *n),
        Value::Bool(b) => if *b {
            push_text(out, "true")
        } else {
            push_text(out, "false")
        },
    }
}

pub fn push_variable_id(out: &mut Vec<u8>, id: VariableId)
    ensures
        final(out)@ == old(out)@ + variable_id_text(id),
{
    push_text(out, "v");
    push_decimal(out, id.0);
    assert(out@ =~= old(out)@ + variable_id_text(id));
}

pub fn push_variable(out: &mut Vec<u8>, variable: &Variable)
    ensures
        final(out)@ == old(out)@ + variable_text(*variable),
{
    match variable {
        Variable::Unknown => push_text(out, "unknown"),
        Variable::Id(id) => push_variable_id(out, *id),
        Variable::Const(value) => push_value(out, value),
    }
}

pub fn push_fn_id(out: &mut Vec<u8>, fn_id: FnId)
    ensures
        final(out)@ == old(out)@ + fn_id_text(fn_id),
{
    match fn_id {
        FnId::Extern(id) => {
            push_text(out, "extern_f");
            push_decimal(out, id.0);
        },
        FnId::Local(id) => {
            push_text(out, "local_f");
            push_decimal(out, id.0);
        },
    }
    assert(out@ =~= old(out)@ + fn_id_text(fn_id));
}

/// Appends the operands, separated by commas.
pub fn push_operands(out: &mut Vec<u8>, operands: &[Variable])
    ensures
        final(out)@ == old(out)@ + operands_text(operands@),
{
    let ghost parts = Seq::new(operands@.len(), |i: int| variable_text(operands@[i]));
    let mut i: usize = 0;
    while i < operands.len()
        invariant
            i <= operands@.len(),
            parts == Seq::new(operands@.len(), |k: int| variable_text(operands@[k])),
            out@ == old(out)@ + joined(parts.subrange(0, i as int), ", ".spec_bytes()),
        decreases operands@.len() - i,
    {
        let ghost before = out@;
        if i > 0 {
            push_text(out, ", ");
        }
        push_variable(out, &operands[i]);
        proof {
            let done = parts.subrange(0, i + 1);
            assert(done.drop_last() =~= parts.subrange(0, i as int));
            if i == 0 {
                assert(joined(parts.subrange(0, 0), ", ".spec_bytes()) =~= Seq::<u8>::empty());
                assert(out@ =~= old(out)@ + joined(done, ", ".spec_bytes()));
            } else {
                assert(out@ =~= old(out)@ + joined(done, ", ".spec_bytes()));
            }
        }
        i = i + 1;
    }
    assert(parts.subrange(0, operands@.len() as int) =~= parts);
}

/// Appends the parameters `v0, v1, ...`.
pub fn push_parameters(out: &mut Vec<u8>, parameters: usize)
    ensures
        final(out)@ == old(out)@ + parameters_text(parameters as nat),
{
    let ghost parts = Seq::new(parameters as nat, |i: int| variable_id_text(VariableId(i as usize)));
    let mut i: usize = 0;
    while i < parameters
        invariant
            i <= parameters,
            parts == Seq::new(parameters as nat, |k: int| variable_id_text(VariableId(k as usize))),
            out@ == old(out)@ + joined(parts.subrange(0, i as int), ", ".spec_bytes()),
        decreases parameters - i,
    {
        if i > 0 {
            push_text(out, ", ");
        }
        push_variable_id(out, VariableId(i));
        proof {
            let done = parts.subrange(0, i + 1);
            assert(done.drop_last() =~= parts.subrange(0, i as int));
            if i == 0 {
                assert(out@ =~= old(out)@ + joined(done, ", ".spec_bytes()));
            } else {
                assert(out@ =~= old(out)@ + joined(done, ", ".spec_bytes()));
            }
        }
        i = i + 1;
    }
    assert(parts.subrange(0, parameters as int) =~= parts);
}

/// An instruction, ready to be printed with the operands of its function.
pub struct InstructionDisplay<'code, 'r> {
    pub instruction: &'r Instruction,
    pub definition: &'r FnDefinition<'code>,
}

impl Instruction {
    pub fn display<'code, 'r>(&'r self, definition: &'r FnDefinition<'code>) -> (r: InstructionDisplay<'code, 'r>)
        ensures
            *r.instruction == *self,
            *r.definition == *definition,
    {
        InstructionDisplay { instruction: self, definition }
    }
}

impl<'code, 'r> InstructionDisplay<'code, 'r> {
    /// Appends the text of the instruction.
    pub fn write(&self, out: &mut Vec<u8>)
        requires
            instruction_wf(
                *self.instruction,
                self.definition.variables_metadata@.len(),
                self.definition.arguments@.len(),
            ),
        ensures
            final(out)@ == old(out)@ + instruction_text(*self.instruction, self.definition.arguments@),
    {
        match self.instruction {
            Instruction::Call(call) => {
                if let Some(var) = call.result {
                    push_variable_id(out, var);
                    push_text(out, " = ");
                }
                push_fn_id(out, call.fn_id);
                push_text(out, "(");
                push_operands(out, self.definition.get_arguments(call));
                push_text(out, ")");
            },
            Instruction::Assign { variable, value } => {
                push_variable_id(out, *variable);
                push_text(out, " = ");
                push_variable(out, value);
            },
            Instruction::Return(value) => {
                push_text(out, "return ");
                push_variable(out, value);
            },
            Instruction::IfStart(value, run_if) => {
                push_text(out, "if ");
                push_variable(out, value);
                push_text(out, " is ");
                match run_if {
                    RunIf::False => push_text(out, "false"),
                    RunIf::True => push_text(out, "true"),
                }
            },
            Instruction::Else => push_text(out, "else"),
            Instruction::IfEnd(n) => {
                push_text(out, "endif x");
                push_decimal(out, *n);
            },
            Instruction::LoopStart => push_text(out, "loop"),
            Instruction::Break => push_text(out, "break"),
            Instruction::LoopEnd => push_text(out, "endloop"),
        }
        assert(out@ =~= old(out)@ + instruction_text(*self.instruction, self.definition.arguments@));
    }

    /// The text of the instruction.
    pub fn to_text(&self) -> (r: Vec<u8>)
        requires
            instruction_wf(
                *self.instruction,
                self.definition.variables_metadata@.len(),
                self.definition.arguments@.len(),
            ),
        ensures
            r@ == instruction_text(*self.instruction, self.definition.arguments@),
    {
        let mut out: Vec<u8> = Vec::new();
        self.write(&mut out);
        assert(out@ =~= instruction_text(*self.instruction, self.definition.arguments@));
        out
    }
}

impl<'a> FnDefinition<'a> {
    /// Appends the text of the function: its header, then its instructions.
    pub fn write(&self, out: &mut Vec<u8>)
        requires
            self.wf(),
        ensures
            final(out)@ == old(out)@ + definition_text(*self),
    {
        push_text(out, "fn ");
        push_bytes(out, self.name);
        push_text(out, "(");
        push_parameters(out, self.parameters);
        push_text(out, ")");
        let ghost header = out@;
        let mut i: usize = 0;
        while i < self.instructions.len()
            invariant
                self.wf(),
                i <= self.instructions@.len(),
                out@ == header + instructions_text(self.instructions@.subrange(0, i as int), self.arguments@),
            decreases self.instructions@.len() - i,
        {
            push_text(out, "\n    ");
            proof {
                assert(instruction_wf(self.instructions@[i as int], self.variables_metadata@.len(), self.arguments@.len()));
            }
            self.instructions[i].display(self).write(out);
            proof {
                assert(self.instructions@.subrange(0, i + 1).drop_last() =~= self.instructions@.subrange(0, i as int));
            }
            i = i + 1;
        }
        push_text(out, "\n");
        assert(self.instructions@.subrange(0, self.instructions@.len() as int) =~= self.instructions@);
        assert(out@ =~= old(out)@ + definition_text(*self));
    }
}

impl<'code> ModuleDefinitions<'code> {
    /// The text of the module: each function as `f<id> = <function>`.
    #[verifier::rlimit(30)]
    pub fn render(&self) -> (r: Vec<u8>)
        requires
            forall|i: int|
                0 <= i < self.stages().len() ==> (#[trigger] self.stages()[i] matches FnDefinitionStage::Defined(
                    def,
                ) ==> def.wf()),
        ensures
            r@ == module_text(self.stages()),
    {
        let mut out: Vec<u8> = Vec::new();
        let ghost parts = Seq::new(
            self.stages().len(),
            |k: int| "f".spec_bytes() + decimal(k as nat) + " = ".spec_bytes() + stage_text(self.stages()[k]),
        );
        let mut i: usize = 0;
        while i < self.len()
            invariant
                i <= self.stages().len(),
                forall|k: int|
                    0 <= k < self.stages().len() ==> (#[trigger] self.stages()[k] matches FnDefinitionStage::Defined(
                        def,
                    ) ==> def.wf()),
                parts == Seq::new(
                    self.stages().len(),
                    |k: int| "f".spec_bytes() + decimal(k as nat) + " = ".spec_bytes() + stage_text(self.stages()[k]),
                ),
                out@ == joined(parts.subrange(0, i as int), "\n".spec_bytes()),
            decreases self.stages().len() - i,
        {
            let ghost before = out@;
            if i > 0 {
                push_text(&mut out, "\n");
            }
            push_text(&mut out, "f");
            push_decimal(&mut out, i);
            push_text(&mut out, " = ");
            match self.index(crate::compiler::hir::definition::FnDefinitionId(i)) {
                FnDefinitionStage::ToDefine { name } => {
                    push_text(&mut out, "fn ");
                    push_bytes(&mut out, name);
                    push_text(&mut out, "(...) <not defined>");
                },
                FnDefinitionStage::Defined(definition) => {
                    definition.write(&mut out);
                },
            }
            proof {
                let done = parts.subrange(0, i + 1);
                assert(done.drop_last() =~= parts.subrange(0, i as int));
                if i == 0 {
                    assert(out@ =~= joined(done, "\n".spec_bytes()));
                } else {
                    assert(out@ =~= joined(done, "\n".spec_bytes()));
                }
            }
            i = i + 1;
        }
        assert(parts.subrange(0, self.stages().len() as int) =~= parts);
        out
    }
}

} // verus!
