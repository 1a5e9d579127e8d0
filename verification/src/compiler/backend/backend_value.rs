//! How the values of the language are held in Cranelift: a null takes no value, an
//! integer or a boolean one value.
use crate::compiler::backend::ir_builder::{
    cranelift_type, cranelift_type_of, index_list, no_indices, no_types, one_index, one_type, type_list,
};
use crate::compiler::hir::value::ValueType;
use vstd::prelude::*;

verus! {

/// The Cranelift types that the back end uses: 64-bit integers for integers, bytes for
/// booleans.
#[derive(Clone, Copy, Debug, PartialEq, Eq, Structural)]
pub enum PrimitiveType {
    I64,
    I8,
}

/// The Cranelift types of a value of the language.
#[derive(Clone, Copy, Debug, PartialEq, Eq, Structural)]
pub enum BackendValueType {
    Null,
    Primitive(PrimitiveType),
}

/// A variable of the language: no Cranelift variable for a null, one (by index) otherwise.
#[derive(Clone, Copy, Debug, PartialEq, Eq, Structural)]
pub enum BackendVariable {
    Null,
    Int(u32),
    Bool(u32),
}

/// A value of the language: no Cranelift value for a null, one (by index) otherwise.
#[derive(Clone, Copy, Debug, PartialEq, Eq, Structural)]
pub enum BackendValue {
    Null,
    Int(u32),
    Bool(u32),
}

impl BackendValueType {
    /// The Cranelift types of a known type of the language.
    pub fn from_value_type(value: ValueType) -> (r: BackendValueType)
        requires
            value != ValueType::Unknown,
        ensures
            r == match value {
                ValueType::Int => BackendValueType::Primitive(PrimitiveType::I64),
                ValueType::Bool => BackendValueType::Primitive(PrimitiveType::I8),
                _ => BackendValueType::Null,
            },
    {
        match value {
            ValueType::Unknown => BackendValueType::Null,
            ValueType::Null => BackendValueType::Null,
            ValueType::Int => BackendValueType::Primitive(PrimitiveType::I64),
            ValueType::Bool => BackendValueType::Primitive(PrimitiveType::I8),
        }
    }

    pub fn types(&self) -> (r: arrayvec::ArrayVec<cranelift::codegen::ir::Type, 1>)
        ensures
            type_list(r) == match *self {
                BackendValueType::Null => Seq::empty(),
                BackendValueType::Primitive(primitive) => seq![cranelift_type_of(primitive)],
            },
    {
        match *self {
            BackendValueType::Null => no_types(),
            BackendValueType::Primitive(primitive) => one_type(cranelift_type(primitive)),
        }
    }
}

impl BackendVariable {
    /// The Cranelift variables, by index.
    pub fn variables(&self) -> (r: arrayvec::ArrayVec<u32, 1>)
        ensures
            index_list(r) == match *self {
                BackendVariable::Null => Seq::empty(),
                BackendVariable::Int(var) => seq![var],
                BackendVariable::Bool(var) => seq![var],
            },
    {
        match *self {
            BackendVariable::Null => no_indices(),
            BackendVariable::Int(var) => one_index(var),
            BackendVariable::Bool(var) => one_index(var),
        }
    }
}

impl BackendValue {
    /// The Cranelift values, by index.
    pub fn values(&self) -> (r: arrayvec::ArrayVec<u32, 1>)
        ensures
            index_list(r) == match *self {
                BackendValue::Null => Seq::empty(),
                BackendValue::Int(val) => seq![val],
                BackendValue::Bool(val) => seq![val],
            },
    {
        match *self {
            BackendValue::Null => no_indices(),
            BackendValue::Int(val) => one_index(val),
            BackendValue::Bool(val) => one_index(val),
        }
    }

    /// The value is a null.
    pub fn expect_null(&self)
        requires
            *self is Null,
    {
    }

    /// The value of an integer.
    pub fn expect_int(&self) -> (r: u32)
        requires
            *self is Int,
        ensures
            *self == BackendValue::Int(r),
    {
        match self {
            BackendValue::Int(value) => *value,
            _ => 0,
        }
    }

    /// The value of a boolean.
    pub fn expect_bool(&self) -> (r: u32)
        requires
            *self is Bool,
        ensures
            *self == BackendValue::Bool(r),
    {
        match self {
            BackendValue::Bool(value) => *value,
            _ => 0,
        }
    }
}

} // verus!
