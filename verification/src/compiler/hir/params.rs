//! The types of the parameters of a function instance.
use crate::compiler::hir::value::ValueType;
use smallvec::SmallVec;
use vstd::prelude::*;

verus! {

/// A function usually only has two or three parameters, so their types are held in
/// place; only an unusually long list of parameters is moved to the heap.
#[verifier::external_body]
pub struct ParamsTypes {
    types: SmallVec<[ValueType; 16]>,
}

/// The types held by a `ParamsTypes`, in order.
pub uninterp spec fn params_types_view(params: ParamsTypes) -> Seq<ValueType>;

impl View for ParamsTypes {
    type V = Seq<ValueType>;

    open spec fn view(&self) -> Seq<ValueType> {
        params_types_view(*self)
    }
}

impl ParamsTypes {
    /// `SmallVec::new`: a vector that holds nothing.
    #[verifier::external_body]
    fn empty() -> (r: Self)
        ensures
            params_types_view(r) == Seq::<ValueType>::empty(),
    {
        ParamsTypes { types: SmallVec::new() }
    }

    /// `SmallVec::from_slice`: a vector that holds a copy of the slice, in order.
    #[verifier::external_body]
    fn copied(types: &[ValueType]) -> (r: Self)
        ensures
            params_types_view(r) == types@,
    {
        ParamsTypes { types: SmallVec::from_slice(types) }
    }

    /// `SmallVec::push`: appends one type at the end. It panics only where the length
    /// would overflow, which `requires` leaves out.
    #[verifier::external_body]
    fn push_type(&mut self, value_type: ValueType)
        requires
            params_types_view(*old(self)).len() < usize::MAX,
        ensures
            params_types_view(*final(self)) == params_types_view(*old(self)).push(value_type),
    {
        self.types.push(value_type)
    }

    /// `SmallVec::as_slice`: the held types as a slice, in order.
    #[verifier::external_body]
    pub(crate) fn types(&self) -> (r: &[ValueType])
        ensures
            r@ == params_types_view(*self),
    {
        self.types.as_slice()
    }

    /// The given types, in order.
    pub fn from_types(types: &[ValueType]) -> (r: Self)
        ensures
            r@ == types@,
    {
        Self::copied(types)
    }

    /// Appends the type of one more parameter.
    pub fn push(&mut self, value_type: ValueType)
        requires
            old(self)@.len() < usize::MAX,
        ensures
            final(self)@ == old(self)@.push(value_type),
    {
        self.push_type(value_type)
    }

    /// The types, in order.
    pub fn as_slice(&self) -> (r: &[ValueType])
        ensures
            r@ == self@,
    {
        self.types()
    }

    /// Number of parameters.
    pub fn len(&self) -> (r: usize)
        ensures
            r == self@.len(),
    {
        self.types().len()
    }
}

impl Default for ParamsTypes {
    fn default() -> (r: Self)
        ensures
            r@ == Seq::<ValueType>::empty(),
    {
        Self::empty()
    }
}

} // verus!
