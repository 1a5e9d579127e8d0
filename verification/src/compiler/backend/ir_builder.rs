//! The parts of Cranelift that the back end calls, and what this crate relies on of them.
//!
//! Cranelift's values and variables are entity references: small indices into the
//! function being built. The back end handles them as those indices (`u32`), converted
//! one for one at each call.
use crate::compiler::backend::backend_value::PrimitiveType;
use vstd::prelude::*;

verus! {

#[verifier::external_type_specification]
#[verifier::external_body]
pub struct ExJITModule(cranelift_jit::JITModule);

#[verifier::external_type_specification]
#[verifier::external_body]
pub struct ExContext(cranelift::codegen::Context);

#[verifier::external_type_specification]
#[verifier::external_body]
pub struct ExFunctionBuilderContext(cranelift::frontend::FunctionBuilderContext);

#[verifier::external_type_specification]
#[verifier::external_body]
pub struct ExFunctionBuilder<'a>(cranelift::frontend::FunctionBuilder<'a>);

#[verifier::external_type_specification]
#[verifier::external_body]
pub struct ExInst(cranelift::codegen::ir::Inst);

#[verifier::external_type_specification]
#[verifier::external_body]
pub struct ExFuncRef(cranelift::codegen::ir::FuncRef);

#[verifier::external_type_specification]
#[verifier::external_body]
pub struct ExFuncId(cranelift_module::FuncId);

#[verifier::external_type_specification]
#[verifier::external_body]
pub struct ExType(cranelift::codegen::ir::Type);

#[verifier::external_type_specification]
#[verifier::external_body]
pub struct ExLinkage(cranelift_module::Linkage);

#[verifier::external_type_specification]
#[verifier::external_body]
#[verifier::reject_recursive_types(T)]
pub struct ExArrayVec<T, const CAP: usize>(arrayvec::ArrayVec<T, CAP>);

/// The types that an `ArrayVec` of at most one Cranelift type holds.
pub uninterp spec fn type_list(list: arrayvec::ArrayVec<cranelift::codegen::ir::Type, 1>) -> Seq<
    cranelift::codegen::ir::Type,
>;

/// The indices that an `ArrayVec` of at most one index holds.
pub uninterp spec fn index_list(list: arrayvec::ArrayVec<u32, 1>) -> Seq<u32>;

/// `ArrayVec::new`: no type.
#[verifier::external_body]
pub(crate) fn no_types() -> (r: arrayvec::ArrayVec<cranelift::codegen::ir::Type, 1>)
    ensures
        type_list(r) == Seq::<cranelift::codegen::ir::Type>::empty(),
{
    arrayvec::ArrayVec::new()
}

/// `ArrayVec::from([ty])`: one type.
#[verifier::external_body]
pub(crate) fn one_type(ty: cranelift::codegen::ir::Type) -> (r: arrayvec::ArrayVec<cranelift::codegen::ir::Type, 1>)
    ensures
        type_list(r) == seq![ty],
{
    arrayvec::ArrayVec::from([ty])
}

/// `ArrayVec::as_slice`: the types held, in order.
#[verifier::external_body]
pub(crate) fn type_slice(list: &arrayvec::ArrayVec<cranelift::codegen::ir::Type, 1>) -> (r: &[cranelift::codegen::ir::Type])
    ensures
        r@ == type_list(*list),
{
    list.as_slice()
}

/// `ArrayVec::new`: no index.
#[verifier::external_body]
pub(crate) fn no_indices() -> (r: arrayvec::ArrayVec<u32, 1>)
    ensures
        index_list(r) == Seq::<u32>::empty(),
{
    arrayvec::ArrayVec::new()
}

/// `ArrayVec::from([index])`: one index.
#[verifier::external_body]
pub(crate) fn one_index(index: u32) -> (r: arrayvec::ArrayVec<u32, 1>)
    ensures
        index_list(r) == seq![index],
{
    arrayvec::ArrayVec::from([index])
}

/// `ArrayVec::as_slice`: the indices held, in order.
#[verifier::external_body]
pub(crate) fn index_slice(list: &arrayvec::ArrayVec<u32, 1>) -> (r: &[u32])
    ensures
        r@ == index_list(*list),
{
    list.as_slice()
}

/// The Cranelift type that stands for a primitive type.
pub uninterp spec fn cranelift_type_of(primitive: PrimitiveType) -> cranelift::codegen::ir::Type;

/// `types::I64` for `I64`, `types::I8` for `I8`.
#[verifier::external_body]
pub(crate) fn cranelift_type(primitive: PrimitiveType) -> (r: cranelift::codegen::ir::Type)
    ensures
        r == cranelift_type_of(primitive),
{
    match primitive {
        PrimitiveType::I64 => cranelift::codegen::ir::types::I64,
        PrimitiveType::I8 => cranelift::codegen::ir::types::I8,
    }
}

/// `Linkage::Import`: a function defined outside the module.
#[verifier::external_body]
pub(crate) fn import_linkage() -> (r: cranelift_module::Linkage) {
    cranelift_module::Linkage::Import
}

/// `Linkage::Export`: a function defined inside the module and visible outside it.
#[verifier::external_body]
pub(crate) fn export_linkage() -> (r: cranelift_module::Linkage) {
    cranelift_module::Linkage::Export
}

/// `FunctionBuilderContext::new`: a context that holds no function's state yet.
#[verifier::external_body]
pub(crate) fn new_builder_context() -> (r: BuilderContext)
    ensures
        r.is_fresh(),
{
    BuilderContext { context: cranelift::frontend::FunctionBuilderContext::new(), fresh: Ghost(true) }
}

/// `Module::make_context`: a context for a function of the module.
#[verifier::external_body]
pub(crate) fn make_context(module: &cranelift_jit::JITModule) -> (r: cranelift::codegen::Context) {
    cranelift_module::Module::make_context(module)
}

/// `Module::clear_context`: resets the context for a new function.
#[verifier::external_body]
pub(crate) fn clear_context(module: &cranelift_jit::JITModule, context: &mut cranelift::codegen::Context) {
    cranelift_module::Module::clear_context(module, context)
}

/// Appends a parameter of the given type to the signature of the context's function.
#[verifier::external_body]
pub(crate) fn push_param(context: &mut cranelift::codegen::Context, ty: cranelift::codegen::ir::Type) {
    context.func.signature.params.push(cranelift::codegen::ir::AbiParam::new(ty))
}

/// Appends a returned value of the given type to the signature of the context's function.
#[verifier::external_body]
pub(crate) fn push_return(context: &mut cranelift::codegen::Context, ty: cranelift::codegen::ir::Type) {
    context.func.signature.returns.push(cranelift::codegen::ir::AbiParam::new(ty))
}

/// The functions that a module declared.
pub uninterp spec fn declared_functions(module: cranelift_jit::JITModule) -> Set<cranelift_module::FuncId>;

/// `Module::declare_function` with the signature of the context's function. The name is
/// read as UTF-8, invalid sequences replaced. Cranelift's error is reported as `None`.
#[verifier::external_body]
pub(crate) fn declare_function(
    module: &mut cranelift_jit::JITModule,
    name: &[u8],
    linkage: cranelift_module::Linkage,
    context: &cranelift::codegen::Context,
) -> (r: Option<cranelift_module::FuncId>)
    ensures
        r matches Some(id) ==> declared_functions(*final(module)) == declared_functions(*old(module)).insert(id),
        r is None ==> declared_functions(*final(module)) == declared_functions(*old(module)),
{
    cranelift_module::Module::declare_function(
        module,
        &String::from_utf8_lossy(name),
        linkage,
        &context.func.signature,
    ).ok()
}

/// `Module::define_function`: compiles the context's function as `id`, which the module
/// must have declared (it looks the declaration up by `id`). Cranelift's error is
/// reported as `false`.
#[verifier::external_body]
pub(crate) fn define_function(
    module: &mut cranelift_jit::JITModule,
    id: cranelift_module::FuncId,
    context: &mut cranelift::codegen::Context,
) -> (r: bool)
    requires
        declared_functions(*old(module)).contains(id),
    ensures
        declared_functions(*final(module)) == declared_functions(*old(module)),
{
    cranelift_module::Module::define_function(module, id, context).is_ok()
}

/// What Cranelift records of a block that a builder created.
#[derive(Clone, Copy)]
pub struct BlockFacts {
    /// An instruction that ends the block was inserted in it.
    pub filled: bool,
    /// All its predecessors are declared.
    pub sealed: bool,
    /// A branch to it was inserted.
    pub has_predecessors: bool,
    /// No instruction was inserted in it yet.
    pub pristine: bool,
}

/// No block yet.
pub open spec fn no_blocks() -> Map<u32, BlockFacts> {
    Map::empty()
}

/// No variable yet.
pub open spec fn no_variables() -> Map<u32, cranelift::codegen::ir::Type> {
    Map::empty()
}

/// The facts of a block just created.
pub open spec fn fresh_block() -> BlockFacts {
    BlockFacts { filled: false, sealed: false, has_predecessors: false, pristine: true }
}

/// Only the pristine mark changes, from pristine to not: Cranelift may insert a placeholder
/// constant in any block when it completes the SSA form.
pub open spec fn facts_kept(old: Map<u32, BlockFacts>, new: Map<u32, BlockFacts>) -> bool {
    &&& new.dom() == old.dom()
    &&& forall|b: u32|
        #[trigger] old.dom().contains(b) ==> new[b].filled == old[b].filled && new[b].sealed == old[b].sealed
            && new[b].has_predecessors == old[b].has_predecessors && (new[b].pristine ==> old[b].pristine)
}

/// An instruction was inserted in block `current`: it ends the block where `ends`, and
/// branches to each block of `targets`.
pub open spec fn inserted(
    old: Map<u32, BlockFacts>,
    new: Map<u32, BlockFacts>,
    current: u32,
    ends: bool,
    targets: Set<u32>,
) -> bool {
    &&& new.dom() == old.dom()
    &&& forall|b: u32|
        #[trigger] old.dom().contains(b) ==> new[b] == (BlockFacts {
            filled: old[b].filled || (ends && b == current),
            sealed: old[b].sealed,
            has_predecessors: old[b].has_predecessors || targets.contains(b),
            pristine: old[b].pristine && b != current,
        })
}

/// A `FunctionBuilderContext` that no builder used yet.
pub struct BuilderContext {
    context: cranelift::frontend::FunctionBuilderContext,
    fresh: Ghost<bool>,
}

impl BuilderContext {
    pub closed spec fn is_fresh(&self) -> bool {
        self.fresh@
    }

    pub fn new() -> (r: Self)
        ensures
            r.is_fresh(),
    {
        new_builder_context()
    }
}

/// Cranelift's `FunctionBuilder`, with a model of what it records: the blocks created
/// through it, the block that instructions go to, and the values of the function.
/// Each method requires what Cranelift checks (with `assert!` or `debug_assert!`) or
/// indexes on, and states how the model changes.
pub struct RawBuilder<'a> {
    builder: cranelift::frontend::FunctionBuilder<'a>,
    blocks: Ghost<Map<u32, BlockFacts>>,
    current: Ghost<Option<u32>>,
    values: Ghost<Set<u32>>,
    functions: Ghost<Set<cranelift::codegen::ir::FuncRef>>,
    variable_types: Ghost<Map<u32, cranelift::codegen::ir::Type>>,
}

impl<'a> RawBuilder<'a> {
    /// The types of the variables declared.
    pub closed spec fn variable_types(&self) -> Map<u32, cranelift::codegen::ir::Type> {
        self.variable_types@
    }

    /// Every variable declared has a primitive type, for which Cranelift can make a zero
    /// when it reads the variable where nothing defined it.
    pub open spec fn variables_zeroable(&self) -> bool {
        forall|v: u32| #[trigger] self.variable_types().contains_key(v) ==> exists|p: PrimitiveType|
            self.variable_types()[v] == cranelift_type_of(p)
    }

    /// The functions that the function built can call.
    pub closed spec fn functions(&self) -> Set<cranelift::codegen::ir::FuncRef> {
        self.functions@
    }

    pub closed spec fn blocks(&self) -> Map<u32, BlockFacts> {
        self.blocks@
    }

    pub closed spec fn current(&self) -> Option<u32> {
        self.current@
    }

    /// The values that the function holds.
    pub closed spec fn values(&self) -> Set<u32> {
        self.values@
    }

    /// Instructions can be inserted: there is a current block, and nothing ended it.
    pub open spec fn open_block(&self) -> bool {
        &&& self.current() is Some
        &&& self.blocks().contains_key(self.current()->0)
        &&& !self.blocks()[self.current()->0].filled
    }

    /// `FunctionBuilder::new`, which asserts that the context is empty.
    #[verifier::external_body]
    fn new(context: &'a mut cranelift::codegen::Context, builder_context: &'a mut BuilderContext) -> (r: RawBuilder<'a>)
        requires
            old(builder_context).is_fresh(),
        ensures
            r.blocks() == no_blocks(),
            r.current() is None,
            r.variable_types() == no_variables(),
    {
        RawBuilder {
            builder: cranelift::frontend::FunctionBuilder::new(&mut context.func, &mut builder_context.context),
            blocks: Ghost(Map::empty()),
            current: Ghost(None),
            values: Ghost(Set::empty()),
            functions: Ghost(Set::empty()),
            variable_types: Ghost(Map::empty()),
        }
    }

    /// `FunctionBuilder::create_block`: a block that did not exist.
    #[verifier::external_body]
    fn create_block(&mut self) -> (r: u32)
        ensures
            final(self).variable_types() == old(self).variable_types(),
            !old(self).blocks().contains_key(r),
            final(self).blocks() == old(self).blocks().insert(r, fresh_block()),
            final(self).current() == old(self).current(),
            final(self).values() == old(self).values(),
    {
        self.builder.create_block().as_u32()
    }

    /// `FunctionBuilder::switch_to_block`, which asserts that the block left is filled
    /// (or pristine) and that the target is not filled.
    #[verifier::external_body]
    fn switch_to_block(&mut self, block: u32)
        requires
            old(self).blocks().contains_key(block),
            !old(self).blocks()[block].filled,
            old(self).current() matches Some(c) ==> old(self).blocks().contains_key(c) && old(self).blocks()[c].filled,
        ensures
            final(self).variable_types() == old(self).variable_types(),
            final(self).current() == Some(block),
            final(self).blocks() == old(self).blocks(),
            final(self).values() == old(self).values(),
    {
        self.builder.switch_to_block(cranelift::codegen::ir::Block::from_u32(block))
    }

    /// `FunctionBuilder::seal_block`, which asserts that the block is not sealed yet.
    #[verifier::external_body]
    fn seal_block(&mut self, block: u32)
        requires
            old(self).variables_zeroable(),
            old(self).blocks().contains_key(block),
            !old(self).blocks()[block].sealed,
        ensures
            final(self).variable_types() == old(self).variable_types(),
            facts_kept(old(self).blocks().insert(block, BlockFacts { sealed: true, ..old(self).blocks()[block] }), final(self).blocks()),
            final(self).current() == old(self).current(),
            old(self).values().subset_of(final(self).values()),
    {
        self.builder.seal_block(cranelift::codegen::ir::Block::from_u32(block))
    }

    /// `FunctionBuilder::declare_var`: the index of a new variable.
    #[verifier::external_body]
    fn declare_var(&mut self, ty: cranelift::codegen::ir::Type) -> (r: u32)
        requires
            exists|p: PrimitiveType| ty == cranelift_type_of(p),
        ensures
            final(self).variable_types() == old(self).variable_types().insert(r, ty),
            final(self).blocks() == old(self).blocks(),
            final(self).current() == old(self).current(),
            final(self).values() == old(self).values(),
    {
        self.builder.declare_var(ty).as_u32()
    }

    /// `FunctionBuilder::try_def_var`: `false` where the variable is not declared or has
    /// another type; it needs a current block and a value of the function.
    #[verifier::external_body]
    fn def_var(&mut self, variable: u32, value: u32) -> (r: bool)
        requires
            old(self).current() is Some,
            old(self).values().contains(value),
        ensures
            final(self).variable_types() == old(self).variable_types(),
            final(self).blocks() == old(self).blocks(),
            final(self).current() == old(self).current(),
            final(self).values() == old(self).values(),
    {
        self.builder.try_def_var(
            cranelift::frontend::Variable::from_u32(variable),
            cranelift::codegen::ir::Value::from_u32(value),
        ).is_ok()
    }

    /// `FunctionBuilder::try_use_var`: the value of the variable, where it is declared. It
    /// inserts in the current block, and may insert placeholder constants elsewhere.
    #[verifier::external_body]
    fn use_var(&mut self, variable: u32) -> (r: Option<u32>)
        requires
            old(self).variables_zeroable(),
            old(self).open_block(),
        ensures
            final(self).variable_types() == old(self).variable_types(),
            facts_kept(old(self).blocks(), final(self).blocks()),
            final(self).current() == old(self).current(),
            old(self).values().subset_of(final(self).values()),
            r matches Some(v) ==> final(self).values().contains(v),
    {
        match self.builder.try_use_var(cranelift::frontend::Variable::from_u32(variable)) {
            Ok(value) => Some(value.as_u32()),
            Err(_) => None,
        }
    }

    /// `FunctionBuilder::append_block_params_for_function_params`, which asserts that the
    /// block has no predecessor and no instruction.
    #[verifier::external_body]
    fn append_block_params_for_function_params(&mut self, block: u32)
        requires
            old(self).blocks().contains_key(block),
            old(self).blocks()[block].pristine,
            !old(self).blocks()[block].has_predecessors,
        ensures
            final(self).variable_types() == old(self).variable_types(),
            final(self).blocks() == old(self).blocks(),
            final(self).current() == old(self).current(),
            old(self).values().subset_of(final(self).values()),
    {
        self.builder.append_block_params_for_function_params(cranelift::codegen::ir::Block::from_u32(block))
    }

    /// `FunctionBuilder::block_params`: values of the function.
    #[verifier::external_body]
    fn block_params(&self, block: u32) -> (r: Vec<u32>)
        requires
            self.blocks().contains_key(block),
        ensures
            forall|i: int| 0 <= i < r@.len() ==> self.values().contains(#[trigger] r@[i]),
    {
        self.builder.block_params(cranelift::codegen::ir::Block::from_u32(block)).iter().map(|value| value.as_u32()).collect()
    }

    /// `FunctionBuilder::inst_results`: values of the function.
    #[verifier::external_body]
    fn inst_results(&self, inst: cranelift::codegen::ir::Inst) -> (r: Vec<u32>)
        ensures
            forall|i: int| 0 <= i < r@.len() ==> self.values().contains(#[trigger] r@[i]),
    {
        self.builder.inst_results(inst).iter().map(|value| value.as_u32()).collect()
    }

    /// `DataFlowGraph::value_is_valid`: whether the function holds the value.
    #[verifier::external_body]
    fn value_exists(&self, value: u32) -> (r: bool)
        ensures
            r == self.values().contains(value),
    {
        self.builder.func.dfg.value_is_valid(cranelift::codegen::ir::Value::from_u32(value))
    }

    /// `Module::declare_func_in_func`: a reference to the function, from the one built.
    #[verifier::external_body]
    fn import_function(
        &mut self,
        module: &mut cranelift_jit::JITModule,
        id: cranelift_module::FuncId,
    ) -> (r: cranelift::codegen::ir::FuncRef)
        requires
            declared_functions(*old(module)).contains(id),
        ensures
            declared_functions(*final(module)) == declared_functions(*old(module)),
            final(self).variable_types() == old(self).variable_types(),
            final(self).blocks() == old(self).blocks(),
            final(self).current() == old(self).current(),
            final(self).values() == old(self).values(),
            final(self).functions().contains(r),
    {
        cranelift_module::Module::declare_func_in_func(module, id, &mut *self.builder.func)
    }

    /// `PrimaryMap::is_valid` on the functions that the function built imports: whether it
    /// can call `function`.
    #[verifier::external_body]
    fn function_exists(&self, function: cranelift::codegen::ir::FuncRef) -> (r: bool)
        ensures
            r == self.functions().contains(function),
    {
        self.builder.func.dfg.ext_funcs.is_valid(function)
    }

    /// `InstBuilder::jump` on the current block, which must not be filled; the target
    /// gains a predecessor, so it must not be sealed.
    #[verifier::external_body]
    fn jump(&mut self, block: u32)
        requires
            old(self).open_block(),
            old(self).blocks().contains_key(block),
            !old(self).blocks()[block].sealed,
        ensures
            final(self).variable_types() == old(self).variable_types(),
            inserted(old(self).blocks(), final(self).blocks(), old(self).current()->0, true, set![block]),
            final(self).current() == old(self).current(),
            final(self).values() == old(self).values(),
    {
        cranelift::prelude::InstBuilder::jump(self.builder.ins(), cranelift::codegen::ir::Block::from_u32(block), &[]);
    }

    /// `InstBuilder::brif` on the current block, with a condition of the function and
    /// two targets that are not sealed.
    #[verifier::external_body]
    fn brif(&mut self, condition: u32, then: u32, otherwise: u32)
        requires
            old(self).open_block(),
            old(self).values().contains(condition),
            old(self).blocks().contains_key(then),
            old(self).blocks().contains_key(otherwise),
            !old(self).blocks()[then].sealed,
            !old(self).blocks()[otherwise].sealed,
        ensures
            final(self).variable_types() == old(self).variable_types(),
            inserted(old(self).blocks(), final(self).blocks(), old(self).current()->0, true, set![then, otherwise]),
            final(self).current() == old(self).current(),
            final(self).values() == old(self).values(),
    {
        cranelift::prelude::InstBuilder::brif(
            self.builder.ins(),
            cranelift::codegen::ir::Value::from_u32(condition),
            cranelift::codegen::ir::Block::from_u32(then),
            &[],
            cranelift::codegen::ir::Block::from_u32(otherwise),
            &[],
        );
    }

    /// `InstBuilder::return_` on the current block, with values of the function.
    #[verifier::external_body]
    fn return_(&mut self, values: &[u32])
        requires
            old(self).open_block(),
            forall|i: int| 0 <= i < values@.len() ==> old(self).values().contains(#[trigger] values@[i]),
        ensures
            final(self).variable_types() == old(self).variable_types(),
            inserted(old(self).blocks(), final(self).blocks(), old(self).current()->0, true, Set::empty()),
            final(self).current() == old(self).current(),
            final(self).values() == old(self).values(),
    {
        let values: Vec<cranelift::codegen::ir::Value> = values.iter().map(
            |value| cranelift::codegen::ir::Value::from_u32(*value),
        ).collect();
        cranelift::prelude::InstBuilder::return_(self.builder.ins(), &values);
    }

    /// `InstBuilder::iconst` on the current block: a new value.
    #[verifier::external_body]
    fn iconst(&mut self, ty: cranelift::codegen::ir::Type, value: i64) -> (r: u32)
        requires
            old(self).open_block(),
        ensures
            final(self).variable_types() == old(self).variable_types(),
            inserted(old(self).blocks(), final(self).blocks(), old(self).current()->0, false, Set::empty()),
            final(self).current() == old(self).current(),
            old(self).values().subset_of(final(self).values()),
            final(self).values().contains(r),
    {
        cranelift::prelude::InstBuilder::iconst(self.builder.ins(), ty, value).as_u32()
    }

    /// `InstBuilder::call` on the current block, with arguments of the function.
    #[verifier::external_body]
    fn call(&mut self, function: cranelift::codegen::ir::FuncRef, arguments: &[u32]) -> (r: cranelift::codegen::ir::Inst)
        requires
            old(self).open_block(),
            old(self).functions().contains(function),
            forall|i: int| 0 <= i < arguments@.len() ==> old(self).values().contains(#[trigger] arguments@[i]),
        ensures
            final(self).variable_types() == old(self).variable_types(),
            inserted(old(self).blocks(), final(self).blocks(), old(self).current()->0, false, Set::empty()),
            final(self).current() == old(self).current(),
            old(self).values().subset_of(final(self).values()),
    {
        let arguments: Vec<cranelift::codegen::ir::Value> = arguments.iter().map(
            |value| cranelift::codegen::ir::Value::from_u32(*value),
        ).collect();
        cranelift::prelude::InstBuilder::call(self.builder.ins(), function, &arguments)
    }

    /// `FunctionBuilder::finalize`, which asserts that every block that received an
    /// instruction is sealed and filled.
    #[verifier::external_body]
    fn finalize(self)
        requires
            forall|b: u32|
                #[trigger] self.blocks().contains_key(b) && !self.blocks()[b].pristine ==> self.blocks()[b].sealed
                    && self.blocks()[b].filled,
    {
        self.builder.finalize()
    }
}

/// An instruction as the builder inserted it: a jump to a block; a branch on a value to
/// a block where it is not zero and to another where it is; a return of values; a
/// constant of a type, with the value that holds it; the definition of a variable by a
/// value; the read of a variable into a value; or a call of a function with values.
pub enum Step {
    Jump(u32),
    Brif(u32, u32, u32),
    Return(Seq<u32>),
    Const(cranelift::codegen::ir::Type, i64, u32),
    Define(u32, u32),
    Read(u32, u32),
    Invoke(cranelift::codegen::ir::FuncRef, Seq<u32>),
}

/// The builder's record of a block.
#[derive(Clone, Copy)]
pub struct BlockEntry {
    pub id: u32,
    pub filled: bool,
    pub sealed: bool,
    pub has_predecessors: bool,
}

/// A Cranelift function builder that checks, before each step, what Cranelift would
/// assert. A step that Cranelift would refuse is not taken; the builder is then marked
/// refused, and its function is not finalized.
pub struct Builder<'a> {
    raw: RawBuilder<'a>,
    entries: Vec<BlockEntry>,
    position: Option<u32>,
    refused: bool,
    steps: Ghost<Seq<Step>>,
}

impl<'a> Builder<'a> {
    /// The records match the model of the raw builder.
    pub closed spec fn wf(&self) -> bool {
        &&& self.position == self.raw.current()
        &&& self.raw.variables_zeroable()
        &&& forall|k: int|
            0 <= k < self.entries@.len() ==> {
                let e = #[trigger] self.entries@[k];
                &&& self.raw.blocks().contains_key(e.id)
                &&& self.raw.blocks()[e.id].filled == e.filled
                &&& self.raw.blocks()[e.id].sealed == e.sealed
                &&& self.raw.blocks()[e.id].has_predecessors == e.has_predecessors
            }
        &&& forall|i: int, j: int| 0 <= i < j < self.entries@.len() ==> #[trigger] self.entries@[i].id != #[trigger] self.entries@[j].id
        &&& forall|b: u32| #[trigger] self.raw.blocks().contains_key(b) ==> exists|k: int| 0 <= k < self.entries@.len() && #[trigger] self.entries@[k].id == b
    }

    /// The instructions inserted, in the order they were inserted.
    pub closed spec fn steps(&self) -> Seq<Step> {
        self.steps@
    }

    /// A step was refused.
    pub closed spec fn refused(&self) -> bool {
        self.refused
    }

    /// The block was created through this builder.
    pub closed spec fn known(&self, block: u32) -> bool {
        self.raw.blocks().contains_key(block)
    }

    /// What the builder records of a block.
    pub closed spec fn facts(&self, block: u32) -> BlockFacts {
        self.raw.blocks()[block]
    }

    pub fn new(context: &'a mut cranelift::codegen::Context, builder_context: &'a mut BuilderContext) -> (r: Self)
        requires
            old(builder_context).is_fresh(),
        ensures
            r.wf(),
            !r.refused(),
    {
        Builder {
            raw: RawBuilder::new(context, builder_context),
            entries: Vec::new(),
            position: None,
            refused: false,
            steps: Ghost(Seq::empty()),
        }
    }

    /// The index of the record of a block.
    fn find(&self, block: u32) -> (r: Option<usize>)
        requires
            self.wf(),
        ensures
            r matches Some(k) ==> k < self.entries@.len() && self.entries@[k as int].id == block,
            r is None ==> !self.known(block),
    {
        let mut k: usize = 0;
        while k < self.entries.len()
            invariant
                self.wf(),
                k <= self.entries@.len(),
                forall|i: int| 0 <= i < k ==> #[trigger] self.entries@[i].id != block,
            decreases self.entries@.len() - k,
        {
            if self.entries[k].id == block {
                return Some(k);
            }
            k = k + 1;
        }
        None
    }

    /// The current block can take an instruction, as far as the records tell.
    fn open_current(&self) -> (r: Option<usize>)
        requires
            self.wf(),
        ensures
            r matches Some(k) ==> k < self.entries@.len() && self.raw.open_block()
                && self.entries@[k as int].id == self.raw.current()->0,
    {
        match self.position {
            Some(current) => match self.find(current) {
                Some(k) => if self.entries[k].filled {
                    None
                } else {
                    Some(k)
                },
                None => None,
            },
            None => None,
        }
    }

    pub fn create_block(&mut self) -> (r: u32)
        requires
            old(self).wf(),
        ensures
            final(self).wf(),
            final(self).refused() == old(self).refused(),
            final(self).known(r),
            final(self).facts(r) == fresh_block(),
            final(self).steps() == old(self).steps(),
            forall|b: u32| #[trigger] old(self).known(b) ==> final(self).known(b),
    {
        let block = self.raw.create_block();
        let ghost before = self.entries@;
        self.entries.push(BlockEntry { id: block, filled: false, sealed: false, has_predecessors: false });
        proof {
            assert forall|k: int| 0 <= k < before.len() implies #[trigger] before[k].id != block by {
                assert(old(self).raw.blocks().contains_key(before[k].id));
            }
            assert forall|b: u32| #[trigger] self.raw.blocks().contains_key(b) implies exists|k: int|
                0 <= k < self.entries@.len() && #[trigger] self.entries@[k].id == b by {
                if b == block {
                    assert(self.entries@[before.len() as int].id == b);
                } else {
                    assert(old(self).raw.blocks().contains_key(b));
                    let k = choose|k: int| 0 <= k < before.len() && #[trigger] before[k].id == b;
                    assert(self.entries@[k].id == b);
                }
            }
        }
        block
    }

    pub fn switch_to_block(&mut self, block: u32)
        requires
            old(self).wf(),
        ensures
            final(self).wf(),
            old(self).refused() ==> final(self).refused(),
            final(self).steps() == old(self).steps(),
    {
        let target = match self.find(block) {
            Some(k) => k,
            None => {
                self.refused = true;
                return;
            },
        };
        if self.entries[target].filled {
            self.refused = true;
            return;
        }
        if let Some(current) = self.position {
            match self.find(current) {
                Some(k) => if !self.entries[k].filled {
                    self.refused = true;
                    return;
                },
                None => {
                    self.refused = true;
                    return;
                },
            }
        }
        let ghost earlier = self.entries@;
        self.raw.switch_to_block(block);
        self.position = Some(block);
        proof {
            assert forall|b: u32| #[trigger] self.raw.blocks().contains_key(b) implies exists|k: int|
                0 <= k < self.entries@.len() && #[trigger] self.entries@[k].id == b by {
                assert(old(self).raw.blocks().contains_key(b));
                let k = choose|k: int| 0 <= k < earlier.len() && #[trigger] earlier[k].id == b;
                assert(self.entries@[k].id == b);
            }
        }
    }

    pub fn seal_block(&mut self, block: u32)
        requires
            old(self).wf(),
        ensures
            final(self).wf(),
            old(self).refused() ==> final(self).refused(),
            final(self).steps() == old(self).steps(),
    {
        let k = match self.find(block) {
            Some(k) => k,
            None => {
                self.refused = true;
                return;
            },
        };
        if self.entries[k].sealed {
            self.refused = true;
            return;
        }
        let ghost before = self.raw.blocks();
        let ghost earlier = self.entries@;
        self.raw.seal_block(block);
        let entry = self.entries[k];
        self.entries.set(k, BlockEntry { sealed: true, ..entry });
        proof {
            let expected = before.insert(block, BlockFacts { sealed: true, ..before[block] });
            assert forall|i: int| 0 <= i < self.entries@.len() implies {
                let e = #[trigger] self.entries@[i];
                &&& self.raw.blocks().contains_key(e.id)
                &&& self.raw.blocks()[e.id].filled == e.filled
                &&& self.raw.blocks()[e.id].sealed == e.sealed
                &&& self.raw.blocks()[e.id].has_predecessors == e.has_predecessors
            } by {
                assert(expected.dom().contains(self.entries@[i].id));
                if i != k {
                    assert(old(self).entries@[i] == self.entries@[i]);
                }
            }
            assert forall|b: u32| #[trigger] self.raw.blocks().contains_key(b) implies exists|j: int|
                0 <= j < self.entries@.len() && #[trigger] self.entries@[j].id == b by {
                assert(before.contains_key(b));
                let j = choose|j: int| 0 <= j < old(self).entries@.len() && #[trigger] old(self).entries@[j].id == b;
                assert(self.entries@[j].id == b);
            }
        }
    }

    pub fn declare_var(&mut self, primitive: PrimitiveType) -> (r: u32)
        requires
            old(self).wf(),
        ensures
            final(self).steps() == old(self).steps(),
            final(self).wf(),
            final(self).refused() == old(self).refused(),
            forall|b: u32| #[trigger] old(self).known(b) ==> final(self).known(b),
    {
        let ty = cranelift_type(primitive);
        let r = self.raw.declare_var(ty);
        proof {
            self.lemma_same_blocks(old(self));
            assert forall|v: u32| #[trigger] self.raw.variable_types().contains_key(v) implies exists|p: PrimitiveType|
                self.raw.variable_types()[v] == cranelift_type_of(p) by {
                if v == r {
                    assert(self.raw.variable_types()[v] == cranelift_type_of(primitive));
                } else {
                    assert(old(self).raw.variable_types().contains_key(v));
                }
            }
        }
        r
    }

    /// Defines a variable; `false` where Cranelift refuses it (an undeclared variable, a
    /// value of another type), or where there is no current block or no such value.
    pub fn def_var(&mut self, variable: u32, value: u32) -> (r: bool)
        requires
            old(self).wf(),
        ensures
            final(self).wf(),
            final(self).refused() == old(self).refused(),
            r ==> final(self).steps() == old(self).steps().push(Step::Define(variable, value)),
            !r ==> final(self).steps() == old(self).steps(),
    {
        if self.position.is_none() || !self.raw.value_exists(value) {
            return false;
        }
        let r = self.raw.def_var(variable, value);
        if r {
            self.steps = Ghost(self.steps@.push(Step::Define(variable, value)));
        }
        proof {
            assert forall|b: u32| #[trigger] self.raw.blocks().contains_key(b) implies exists|k: int|
                0 <= k < self.entries@.len() && #[trigger] self.entries@[k].id == b by {
                assert(old(self).raw.blocks().contains_key(b));
                let k = choose|k: int| 0 <= k < old(self).entries@.len() && #[trigger] old(self).entries@[k].id == b;
                assert(self.entries@[k].id == b);
            }
        }
        r
    }

    /// The value of a variable; none where Cranelift refuses it (an undeclared variable)
    /// or where no block can take an instruction.
    pub fn use_var(&mut self, variable: u32) -> (r: Option<u32>)
        requires
            old(self).wf(),
        ensures
            final(self).wf(),
            final(self).refused() == old(self).refused(),
            r matches Some(v) ==> final(self).steps() == old(self).steps().push(Step::Read(variable, v)),
            r is None ==> final(self).steps() == old(self).steps(),
    {
        if self.open_current().is_none() {
            return None;
        }
        let ghost before = self.raw.blocks();
        let ghost earlier = self.entries@;
        let r = self.raw.use_var(variable);
        if let Some(v) = r {
            self.steps = Ghost(self.steps@.push(Step::Read(variable, v)));
        }
        proof {
            self.lemma_kept(before, earlier);
        }
        r
    }

    pub fn append_block_params_for_function_params(&mut self, block: u32)
        requires
            old(self).wf(),
            old(self).known(block),
            old(self).facts(block).pristine,
            !old(self).facts(block).has_predecessors,
        ensures
            final(self).steps() == old(self).steps(),
            final(self).wf(),
            final(self).refused() == old(self).refused(),
            forall|b: u32| #[trigger] old(self).known(b) ==> final(self).known(b) && final(self).facts(b) == old(self).facts(b),
    {
        self.raw.append_block_params_for_function_params(block);
        proof {
            assert forall|b: u32| #[trigger] self.raw.blocks().contains_key(b) implies exists|k: int|
                0 <= k < self.entries@.len() && #[trigger] self.entries@[k].id == b by {
                assert(old(self).raw.blocks().contains_key(b));
                let k = choose|k: int| 0 <= k < old(self).entries@.len() && #[trigger] old(self).entries@[k].id == b;
                assert(self.entries@[k].id == b);
            }
        }
    }

    /// The parameters of a block; none where it was not created here.
    pub fn block_params(&self, block: u32) -> (r: Vec<u32>)
        requires
            self.wf(),
    {
        if self.find(block).is_none() {
            return Vec::new();
        }
        self.raw.block_params(block)
    }

    pub fn inst_results(&self, inst: cranelift::codegen::ir::Inst) -> (r: Vec<u32>) {
        self.raw.inst_results(inst)
    }

    pub fn import_function(
        &mut self,
        module: &mut cranelift_jit::JITModule,
        id: cranelift_module::FuncId,
    ) -> (r: cranelift::codegen::ir::FuncRef)
        requires
            old(self).wf(),
            declared_functions(*old(module)).contains(id),
        ensures
            declared_functions(*final(module)) == declared_functions(*old(module)),
            final(self).steps() == old(self).steps(),
            final(self).wf(),
            final(self).refused() == old(self).refused(),
    {
        let r = self.raw.import_function(module, id);
        proof {
            self.lemma_same_blocks(old(self));
        }
        r
    }

    pub fn jump(&mut self, block: u32)
        requires
            old(self).wf(),
        ensures
            final(self).wf(),
            old(self).refused() ==> final(self).refused(),
            final(self).steps() == old(self).steps().push(Step::Jump(block))
                || (final(self).refused() && final(self).steps() == old(self).steps()),
    {
        let current = match self.open_current() {
            Some(k) => k,
            None => {
                self.refused = true;
                return;
            },
        };
        let target = match self.find(block) {
            Some(k) => k,
            None => {
                self.refused = true;
                return;
            },
        };
        if self.entries[target].sealed {
            self.refused = true;
            return;
        }
        let ghost before = self.raw.blocks();
        let ghost earlier = self.entries@;
        let ghost c = self.raw.current()->0;
        self.raw.jump(block);
        self.mark_branch(current, true, true, target, target);
        self.steps = Ghost(self.steps@.push(Step::Jump(block)));
        proof {
            self.lemma_inserted(before, earlier, c, true, set![block]);
        }
    }

    pub fn brif(&mut self, condition: u32, then: u32, otherwise: u32)
        requires
            old(self).wf(),
        ensures
            final(self).wf(),
            old(self).refused() ==> final(self).refused(),
            final(self).steps() == old(self).steps().push(Step::Brif(condition, then, otherwise))
                || (final(self).refused() && final(self).steps() == old(self).steps()),
    {
        let current = match self.open_current() {
            Some(k) => k,
            None => {
                self.refused = true;
                return;
            },
        };
        let t = match self.find(then) {
            Some(k) => k,
            None => {
                self.refused = true;
                return;
            },
        };
        let e = match self.find(otherwise) {
            Some(k) => k,
            None => {
                self.refused = true;
                return;
            },
        };
        if self.entries[t].sealed || self.entries[e].sealed || !self.raw.value_exists(condition) {
            self.refused = true;
            return;
        }
        let ghost before = self.raw.blocks();
        let ghost earlier = self.entries@;
        let ghost c = self.raw.current()->0;
        self.raw.brif(condition, then, otherwise);
        self.mark_branch(current, true, true, t, e);
        self.steps = Ghost(self.steps@.push(Step::Brif(condition, then, otherwise)));
        proof {
            self.lemma_inserted(before, earlier, c, true, set![then, otherwise]);
        }
    }

    /// All the values exist in the function.
    fn values_exist(&self, values: &[u32]) -> (r: bool)
        ensures
            r ==> forall|i: int| 0 <= i < values@.len() ==> self.raw.values().contains(#[trigger] values@[i]),
    {
        let mut i: usize = 0;
        while i < values.len()
            invariant
                i <= values@.len(),
                forall|j: int| 0 <= j < i ==> self.raw.values().contains(#[trigger] values@[j]),
            decreases values@.len() - i,
        {
            if !self.raw.value_exists(values[i]) {
                return false;
            }
            i = i + 1;
        }
        true
    }

    pub fn return_(&mut self, values: &[u32])
        requires
            old(self).wf(),
        ensures
            final(self).wf(),
            old(self).refused() ==> final(self).refused(),
            final(self).steps() == old(self).steps().push(Step::Return(values@))
                || (final(self).refused() && final(self).steps() == old(self).steps()),
    {
        let current = match self.open_current() {
            Some(k) => k,
            None => {
                self.refused = true;
                return;
            },
        };
        if !self.values_exist(values) {
            self.refused = true;
            return;
        }
        let ghost before = self.raw.blocks();
        let ghost earlier = self.entries@;
        let ghost c = self.raw.current()->0;
        self.raw.return_(values);
        self.mark_branch(current, true, false, current, current);
        self.steps = Ghost(self.steps@.push(Step::Return(values@)));
        proof {
            self.lemma_inserted(before, earlier, c, true, Set::empty());
        }
    }

    /// A constant in the current block; where none can take it, the step is refused.
    pub fn iconst(&mut self, ty: cranelift::codegen::ir::Type, value: i64) -> (r: u32)
        requires
            old(self).wf(),
        ensures
            final(self).wf(),
            old(self).refused() ==> final(self).refused(),
            final(self).steps() == old(self).steps().push(Step::Const(ty, value, r))
                || (final(self).refused() && final(self).steps() == old(self).steps()),
    {
        let current = match self.open_current() {
            Some(k) => k,
            None => {
                self.refused = true;
                return 0;
            },
        };
        let ghost before = self.raw.blocks();
        let ghost earlier = self.entries@;
        let ghost c = self.raw.current()->0;
        let r = self.raw.iconst(ty, value);
        self.mark_branch(current, false, false, current, current);
        self.steps = Ghost(self.steps@.push(Step::Const(ty, value, r)));
        proof {
            self.lemma_inserted(before, earlier, c, false, Set::empty());
        }
        r
    }

    /// A call in the current block; none where the step is refused.
    pub fn call(&mut self, function: cranelift::codegen::ir::FuncRef, arguments: &[u32]) -> (r: Option<cranelift::codegen::ir::Inst>)
        requires
            old(self).wf(),
        ensures
            final(self).wf(),
            old(self).refused() ==> final(self).refused(),
            r is None ==> final(self).refused() && final(self).steps() == old(self).steps(),
            r is Some ==> final(self).steps() == old(self).steps().push(Step::Invoke(function, arguments@)),
    {
        let current = match self.open_current() {
            Some(k) => k,
            None => {
                self.refused = true;
                return None;
            },
        };
        if !self.values_exist(arguments) || !self.raw.function_exists(function) {
            self.refused = true;
            return None;
        }
        let ghost before = self.raw.blocks();
        let ghost earlier = self.entries@;
        let ghost c = self.raw.current()->0;
        let r = self.raw.call(function, arguments);
        self.mark_branch(current, false, false, current, current);
        self.steps = Ghost(self.steps@.push(Step::Invoke(function, arguments@)));
        proof {
            self.lemma_inserted(before, earlier, c, false, Set::empty());
        }
        Some(r)
    }

    /// Records an instruction in the current block (entry `current`): it ends the block
    /// where `ends`, and branches to the blocks of entries `t` and `e` where `branches`.
    fn mark_branch(&mut self, current: usize, ends: bool, branches: bool, t: usize, e: usize)
        requires
            current < old(self).entries@.len(),
            t < old(self).entries@.len(),
            e < old(self).entries@.len(),
        ensures
            final(self).raw == old(self).raw,
            final(self).position == old(self).position,
            final(self).refused == old(self).refused,
            final(self).steps == old(self).steps,
            final(self).entries@.len() == old(self).entries@.len(),
            forall|k: int|
                0 <= k < old(self).entries@.len() ==> {
                    let o = old(self).entries@[k];
                    let n = #[trigger] final(self).entries@[k];
                    &&& n.id == o.id
                    &&& n.sealed == o.sealed
                    &&& n.filled == (o.filled || (ends && k == current))
                    &&& n.has_predecessors == (o.has_predecessors || (branches && (k == t || k == e)))
                },
    {
        let c = self.entries[current];
        self.entries.set(current, BlockEntry { filled: c.filled || ends, ..c });
        if branches {
            let te = self.entries[t];
            self.entries.set(t, BlockEntry { has_predecessors: true, ..te });
            let ee = self.entries[e];
            self.entries.set(e, BlockEntry { has_predecessors: true, ..ee });
        }
    }

    /// An instruction inserted in the current block keeps the records in step with the
    /// model.
    proof fn lemma_inserted(&self, before: Map<u32, BlockFacts>, earlier: Seq<BlockEntry>, c: u32, ends: bool, targets: Set<u32>)
        requires
            earlier.len() == self.entries@.len(),
            forall|k: int| 0 <= k < earlier.len() ==> #[trigger] self.entries@[k].id == earlier[k].id,
            forall|b: u32| #[trigger] before.contains_key(b) ==> exists|k: int| 0 <= k < earlier.len() && #[trigger] earlier[k].id == b,
            inserted(before, self.raw.blocks(), c, ends, targets),
            forall|k: int|
                0 <= k < self.entries@.len() ==> {
                    let e = #[trigger] self.entries@[k];
                    &&& before.contains_key(e.id)
                    &&& e.filled == (before[e.id].filled || (ends && e.id == c))
                    &&& e.sealed == before[e.id].sealed
                    &&& e.has_predecessors == (before[e.id].has_predecessors || targets.contains(e.id))
                },
            forall|i: int, j: int| 0 <= i < j < self.entries@.len() ==> #[trigger] self.entries@[i].id != #[trigger] self.entries@[j].id,
            self.position == self.raw.current(),
            self.raw.variables_zeroable(),
        ensures
            self.wf(),
    {
        assert forall|b: u32| #[trigger] self.raw.blocks().contains_key(b) implies exists|k: int|
            0 <= k < self.entries@.len() && #[trigger] self.entries@[k].id == b by {
            assert(before.contains_key(b));
            let k = choose|k: int| 0 <= k < earlier.len() && #[trigger] earlier[k].id == b;
            assert(self.entries@[k].id == b);
        }
    }

    /// A step that changes no block keeps the records in step with the model.
    proof fn lemma_same_blocks(&self, o: &Self)
        requires
            o.wf(),
            self.raw.blocks() == o.raw.blocks(),
            self.entries@ == o.entries@,
            self.position == self.raw.current(),
            self.raw.variables_zeroable(),
        ensures
            self.wf(),
    {
        assert forall|b: u32| #[trigger] self.raw.blocks().contains_key(b) implies exists|k: int|
            0 <= k < self.entries@.len() && #[trigger] self.entries@[k].id == b by {
            assert(o.raw.blocks().contains_key(b));
            let k = choose|k: int| 0 <= k < o.entries@.len() && #[trigger] o.entries@[k].id == b;
            assert(self.entries@[k].id == b);
        }
    }

    /// Facts kept by a step keep the records in step with the model.
    proof fn lemma_kept(&self, before: Map<u32, BlockFacts>, earlier: Seq<BlockEntry>)
        requires
            earlier.len() == self.entries@.len(),
            forall|k: int| 0 <= k < earlier.len() ==> #[trigger] self.entries@[k].id == earlier[k].id,
            forall|b: u32| #[trigger] before.contains_key(b) ==> exists|k: int| 0 <= k < earlier.len() && #[trigger] earlier[k].id == b,
            facts_kept(before, self.raw.blocks()),
            forall|k: int|
                0 <= k < self.entries@.len() ==> {
                    let e = #[trigger] self.entries@[k];
                    &&& before.contains_key(e.id)
                    &&& before[e.id].filled == e.filled
                    &&& before[e.id].sealed == e.sealed
                    &&& before[e.id].has_predecessors == e.has_predecessors
                },
            forall|i: int, j: int| 0 <= i < j < self.entries@.len() ==> #[trigger] self.entries@[i].id != #[trigger] self.entries@[j].id,
            self.position == self.raw.current(),
            self.raw.variables_zeroable(),
        ensures
            self.wf(),
    {
        assert forall|b: u32| #[trigger] self.raw.blocks().contains_key(b) implies exists|k: int|
            0 <= k < self.entries@.len() && #[trigger] self.entries@[k].id == b by {
            assert(before.contains_key(b));
            let k = choose|k: int| 0 <= k < earlier.len() && #[trigger] earlier[k].id == b;
            assert(self.entries@[k].id == b);
        }
    }

    /// Ends the function; `false` where a step was refused or a block that received an
    /// instruction is not both sealed and filled, and then the function is not finalized.
    pub fn finalize(self) -> (r: bool)
        requires
            self.wf(),
        ensures
            r ==> !self.refused(),
    {
        if self.refused {
            return false;
        }
        let mut k: usize = 0;
        while k < self.entries.len()
            invariant
                self.wf(),
                k <= self.entries@.len(),
                forall|j: int| 0 <= j < k ==> #[trigger] self.entries@[j].sealed && self.entries@[j].filled,
            decreases self.entries@.len() - k,
        {
            if !(self.entries[k].sealed && self.entries[k].filled) {
                return false;
            }
            k = k + 1;
        }
        proof {
            assert forall|b: u32|
                #[trigger] self.raw.blocks().contains_key(b) && !self.raw.blocks()[b].pristine implies self.raw.blocks()[b].sealed
                    && self.raw.blocks()[b].filled by {
                let j = choose|j: int| 0 <= j < self.entries@.len() && #[trigger] self.entries@[j].id == b;
                assert(self.entries@[j].sealed && self.entries@[j].filled);
            }
        }
        let Builder { raw, .. } = self;
        raw.finalize();
        true
    }
}

} // verus!
