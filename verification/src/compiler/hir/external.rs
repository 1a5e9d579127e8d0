//! Functions provided by the host rather than defined in the source.
use crate::compiler::hir::definition::FnId;
use crate::compiler::hir::names::NameMap;
use vstd::prelude::*;

verus! {

/// The names of the external functions.
pub struct ExternalDefinitions(pub NameMap<'static>);

impl ExternalDefinitions {
    /// Every name is registered once and stands for an external function.
    pub open spec fn wf(&self) -> bool {
        &&& self.0.wf()
        &&& forall|k: Seq<u8>| #[trigger] self.0@.dom().contains(k) ==> self.0@[k] is Extern
    }

    pub fn new() -> (r: Self)
        ensures
            r.wf(),
            r.0@ == Map::<Seq<u8>, FnId>::empty(),
    {
        ExternalDefinitions(NameMap::new())
    }
}

} // verus!
