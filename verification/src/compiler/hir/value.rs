//! Values, their types, and the variables that hold them.
use vstd::prelude::*;

verus! {

/// An operand of an instruction.
#[derive(Clone, Copy, Debug, PartialEq, Eq, Structural)]
pub enum Variable {
    /// Used when a compilation error has prevented the compiler to know the value
    Unknown,
    Id(VariableId),
    Const(Value),
}

/// A constant value.
#[derive(Clone, Copy, Debug, PartialEq, Eq, Structural)]
pub enum Value {
    Null,
    Int(i64),
    Bool(bool),
}

/// The type of a value.
#[derive(Clone, Copy, Debug, PartialEq, Eq, Hash, Structural)]
pub enum ValueType {
    /// Used when a compilation error has prevented the compiler to know the type
    Unknown,
    Null,
    Int,
    Bool,
}

/// Index of a variable inside a function definition.
#[derive(Clone, Copy, Debug, PartialEq, Eq, Hash, Structural)]
pub struct VariableId(pub usize);

/// The type of a constant value.
pub open spec fn value_type_of(value: Value) -> ValueType {
    match value {
        Value::Null => ValueType::Null,
        Value::Int(_) => ValueType::Int,
        Value::Bool(_) => ValueType::Bool,
    }
}

impl Value {
    pub fn get_type(&self) -> (ty: ValueType)
        ensures
            ty == value_type_of(*self),
    {
        match self {
            Value::Int(_) => ValueType::Int,
            Value::Bool(_) => ValueType::Bool,
            Value::Null => ValueType::Null,
        }
    }
}

impl From<usize> for VariableId {
    fn from(index: usize) -> (id: Self) {
        VariableId(index)
    }
}

impl vstd::std_specs::convert::FromSpecImpl<usize> for VariableId {
    open spec fn obeys_from_spec() -> bool {
        true
    }

    open spec fn from_spec(index: usize) -> Self {
        VariableId(index)
    }
}

/// The operand that reads an optional variable: `Unknown` when there is none.
pub open spec fn variable_of(value: Option<VariableId>) -> Variable {
    match value {
        Some(var) => Variable::Id(var),
        None => Variable::Unknown,
    }
}

impl From<Option<VariableId>> for Variable {
    fn from(value: Option<VariableId>) -> (var: Self) {
        match value {
            Some(var) => Variable::Id(var),
            None => Variable::Unknown,
        }
    }
}

impl vstd::std_specs::convert::FromSpecImpl<Option<VariableId>> for Variable {
    open spec fn obeys_from_spec() -> bool {
        true
    }

    open spec fn from_spec(value: Option<VariableId>) -> Self {
        variable_of(value)
    }
}

} // verus!
