//! Compiles the inferred instances to machine code with Cranelift.
pub mod backend_value;
pub mod compilation;
pub mod ir_builder;

use crate::compiler::backend::backend_value::{BackendValueType, BackendVariable};
use crate::compiler::backend::compilation::{
    BackendError, FnBackendCompiler, IfScope, InstructionFlow, LoopScope, Scratch, ids_declared,
};
use crate::compiler::backend::ir_builder::{
    Builder, BuilderContext, clear_context, declare_function, declared_functions, define_function, export_linkage,
    import_linkage, make_context, push_param, push_return,
    type_slice,
};
use crate::compiler::hir::definition::{FnDefinition, FnDefinitionStage, FnId};
use crate::compiler::hir::instance::{FnInstance, FnInstanceId, FnInstanceStage};
use crate::compiler::hir::params::ParamsTypes;
use crate::compiler::hir::value::ValueType;
use crate::compiler::type_inference::{CodeModule, TypeInferenceStage, definitions_ready, instances_ready};
use vstd::prelude::*;

verus! {

/// A compiled program: the function to start with, and the type it returns.
pub struct Executable {
    entry_point: cranelift_module::FuncId,
    return_type: ValueType,
}

impl Executable {
    pub(crate) fn new(entry_point: cranelift_module::FuncId, return_type: ValueType) -> (r: Executable)
        ensures
            r.return_type() == return_type,
    {
        Executable { entry_point, return_type }
    }

    pub closed spec fn return_type(&self) -> ValueType {
        self.return_type
    }

    /// The module's id of the entry point.
    pub fn entry_point(&self) -> (r: cranelift_module::FuncId)
        ensures
            r == self.entry_id(),
    {
        self.entry_point
    }

    pub closed spec fn entry_id(&self) -> cranelift_module::FuncId {
        self.entry_point
    }

    /// The type that the entry point returns.
    pub fn result_type(&self) -> (r: ValueType)
        ensures
            r == self.return_type(),
    {
        self.return_type
    }
}

/// The parameters and the return value of the instance have known types.
pub open spec fn signature_known(instance: FnInstance) -> bool {
    &&& forall|k: int| 0 <= k < instance.parameters ==> #[trigger] instance.variables@[k] != ValueType::Unknown
    &&& instance.return_type != ValueType::Unknown
}

/// The instance is complete and its signature can be given to Cranelift.
pub open spec fn declarable(stage: FnInstanceStage) -> bool {
    &&& stage matches FnInstanceStage::Created(instance)
    &&& stage->Created_0.parameters <= stage->Created_0.variables@.len()
    &&& signature_known(stage->Created_0)
}

/// Why the back end produced no executable.
pub enum BackendFailure {
    /// The earlier stages found errors; they are in the error set.
    CompilationErrors,
    /// The back end could not lower the code.
    Backend(BackendError),
}

/// In order to reduce memory reallocations when compiling multiple times,
/// [`BackendCompiler`] holds various data structures which are cleared between
/// functions, rather than dropped, preserving the underlying allocations.
pub struct BackendCompiler {
    module: cranelift_jit::JITModule,
    context: cranelift::codegen::Context,
    builder_context: BuilderContext,
    variables: Vec<BackendVariable>,
    func_ids: Vec<cranelift_module::FuncId>,
    func_refs: Vec<cranelift::codegen::ir::FuncRef>,
    values_buffer: Vec<u32>,
    name_buffer: Vec<u8>,
    if_scope_stack: Vec<IfScope>,
    loop_scope_stack: Vec<LoopScope>,
}

impl BackendCompiler {
    pub fn new(module: cranelift_jit::JITModule) -> (r: Self)
        ensures
            r.declared() == 0,
            r.module() == module,
    {
        let context = make_context(&module);
        BackendCompiler {
            context,
            builder_context: BuilderContext::new(),
            module,
            variables: Vec::new(),
            func_ids: Vec::new(),
            func_refs: Vec::new(),
            values_buffer: Vec::new(),
            name_buffer: Vec::new(),
            if_scope_stack: Vec::new(),
            loop_scope_stack: Vec::new(),
        }
    }

    /// The module that the functions are compiled into.
    pub closed spec fn module(&self) -> cranelift_jit::JITModule {
        self.module
    }

    /// The module's id of the function declared for instance `i`.
    pub closed spec fn declared_id(&self, i: int) -> cranelift_module::FuncId {
        self.func_ids@[i]
    }

    /// The number of functions declared to the module by the last compilation.
    pub closed spec fn declared(&self) -> nat {
        self.func_ids@.len()
    }

    /// Sets the signature of the context's function to that of the instance.
    fn load_signature(&mut self, instance: &FnInstance) -> (r: Result<(), BackendError>)
        requires
            instance.parameters <= instance.variables@.len(),
        ensures
            final(self).module == old(self).module,
            final(self).func_ids == old(self).func_ids,
            r is Ok <==> signature_known(*instance),
            r is Err ==> r == Err::<(), BackendError>(BackendError::UnknownType),
    {
        clear_context(&self.module, &mut self.context);
        let parameters = instance.parameters();
        let mut i: usize = 0;
        while i < parameters.len()
            invariant
                i <= parameters@.len(),
                self.func_ids == old(self).func_ids,
                self.module == old(self).module,
                instance.parameters <= instance.variables@.len(),
                parameters@ == instance.variables@.subrange(0, instance.parameters as int),
                forall|k: int| 0 <= k < i ==> #[trigger] instance.variables@[k] != ValueType::Unknown,
            decreases parameters@.len() - i,
        {
            assert(parameters@[i as int] == instance.variables@[i as int]);
            if parameters[i] == ValueType::Unknown {
                return Err(BackendError::UnknownType);
            }
            let types = BackendValueType::from_value_type(parameters[i]).types();
            let slice = type_slice(&types);
            let mut k: usize = 0;
            while k < slice.len()
                invariant
                    k <= slice@.len(),
                    self.func_ids == old(self).func_ids,
                self.module == old(self).module,
                decreases slice@.len() - k,
            {
                push_param(&mut self.context, slice[k]);
                k = k + 1;
            }
            i = i + 1;
        }
        if instance.return_type == ValueType::Unknown {
            return Err(BackendError::UnknownType);
        }
        let types = BackendValueType::from_value_type(instance.return_type).types();
        let slice = type_slice(&types);
        let mut k: usize = 0;
        while k < slice.len()
            invariant
                k <= slice@.len(),
                self.func_ids == old(self).func_ids,
                self.module == old(self).module,
            decreases slice@.len() - k,
        {
            push_return(&mut self.context, slice[k]);
            k = k + 1;
        }
        Ok(())
    }

    /// Declares every instance to the module, in the order of their ids: the external
    /// ones as imported, the others as exported.
    fn declare_functions(&mut self, code: &CodeModule) -> (r: Result<(), BackendError>)
        ensures
            r is Ok ==> ids_declared(final(self).func_ids@, final(self).module),
            r is Ok ==> final(self).declared() == code.instances.stages().len(),
            r is Ok ==> forall|i: int|
                0 <= i < code.instances.stages().len() ==> #[trigger] code.instances.stages()[i] is Created,
            r is Ok ==> forall|i: int|
                0 <= i < code.instances.stages().len() ==> declarable(#[trigger] code.instances.stages()[i]),
            r matches Err(e) ==> e == BackendError::ModuleFailure || exists|i: int|
                0 <= i < code.instances.stages().len() && !declarable(#[trigger] code.instances.stages()[i]),
            r matches Err(e) ==> e == BackendError::IncompleteInstance || e == BackendError::UnknownType
                || e == BackendError::ModuleFailure,
    {
        self.func_ids.clear();
        let mut i: usize = 0;
        while i < code.instances.len()
            invariant
                i <= code.instances.stages().len(),
                self.func_ids@.len() == i,
                ids_declared(self.func_ids@, self.module),
                forall|k: int| 0 <= k < i ==> #[trigger] code.instances.stages()[k] is Created,
                forall|k: int| 0 <= k < i ==> declarable(#[trigger] code.instances.stages()[k]),
            decreases code.instances.stages().len() - i,
        {
            let instance = match code.instances.index(FnInstanceId(i)) {
                FnInstanceStage::Created(instance) => instance,
                _ => return Err(BackendError::IncompleteInstance),
            };
            if instance.parameters > instance.variables.len() {
                return Err(BackendError::IncompleteInstance);
            }
            self.load_signature(instance)?;
            let linkage = match instance.external_ptr {
                Some(_) => import_linkage(),
                None => export_linkage(),
            };
            instance.name(&mut self.name_buffer);
            let ghost m0 = self.module;
            let id = match declare_function(&mut self.module, self.name_buffer.as_slice(), linkage, &self.context) {
                Some(id) => id,
                None => return Err(BackendError::ModuleFailure),
            };
            let ghost before = self.func_ids@;
            self.func_ids.push(id);
            proof {
                assert forall|k: int| 0 <= k < self.func_ids@.len() implies declared_functions(self.module).contains(
                    #[trigger] self.func_ids@[k],
                ) by {
                    if k < before.len() {
                        assert(self.func_ids@[k] == before[k]);
                        assert(declared_functions(m0).contains(before[k]));
                    }
                }
            }
            i = i + 1;
        }
        Ok(())
    }

    /// Lowers one instance of a function; returns its id in the module.
    fn compile_function<'code>(
        &mut self,
        code: &CodeModule<'code>,
        definition: &FnDefinition<'code>,
        instance_id: FnInstanceId,
    ) -> (r: Result<cranelift_module::FuncId, BackendError>)
        requires
            definition.wf(),
            ids_declared(old(self).func_ids@, old(self).module),
        ensures
            declared_functions(final(self).module) == declared_functions(old(self).module),
            final(self).declared() == old(self).declared(),
            final(self).func_ids == old(self).func_ids,
            instance_id.0 >= code.instances.stages().len() || instance_id.0 >= old(self).declared()
                ==> r == Err::<cranelift_module::FuncId, BackendError>(BackendError::MissingInstance),
            instance_id.0 < code.instances.stages().len() && instance_id.0 < old(self).declared()
                && !(code.instances.stages()[instance_id.0 as int] is Created)
                ==> r == Err::<cranelift_module::FuncId, BackendError>(BackendError::IncompleteInstance),
            r matches Ok(id) ==> id == old(self).declared_id(instance_id.0 as int),
            r is Ok ==> {
                let stage = code.instances.stages()[instance_id.0 as int];
                &&& declarable(stage)
                &&& !crate::compiler::backend::compilation::has_unknown_variable(stage->Created_0)
                &&& stage->Created_0.variables@.len() == definition.variables_metadata@.len()
            },
    {
        if instance_id.0 >= code.instances.len() || instance_id.0 >= self.func_ids.len() {
            return Err(BackendError::MissingInstance);
        }
        let instance = match code.instances.index(instance_id) {
            FnInstanceStage::Created(instance) => instance,
            _ => return Err(BackendError::IncompleteInstance),
        };
        if instance.parameters > instance.variables.len()
            || instance.variables.len() != definition.variables_metadata.len() {
            return Err(BackendError::IncompleteInstance);
        }
        self.load_signature(instance)?;
        let mut variables: Vec<BackendVariable> = Vec::new();
        let mut func_refs: Vec<cranelift::codegen::ir::FuncRef> = Vec::new();
        let mut values_buffer: Vec<u32> = Vec::new();
        let mut if_scope_stack: Vec<IfScope> = Vec::new();
        let mut loop_scope_stack: Vec<LoopScope> = Vec::new();
        std::mem::swap(&mut variables, &mut self.variables);
        std::mem::swap(&mut func_refs, &mut self.func_refs);
        std::mem::swap(&mut values_buffer, &mut self.values_buffer);
        std::mem::swap(&mut if_scope_stack, &mut self.if_scope_stack);
        std::mem::swap(&mut loop_scope_stack, &mut self.loop_scope_stack);
        if_scope_stack.clear();
        loop_scope_stack.clear();
        // Cranelift wants a context that no builder used; one whose lowering stopped half way
        // is not.
        self.builder_context = BuilderContext::new();
        let builder = Builder::new(&mut self.context, &mut self.builder_context);
        let compiler = FnBackendCompiler {
            builder,
            variables,
            next: 0,
            instance,
            definition,
            func_ids: self.func_ids.as_slice(),
            func_refs,
            values_buffer,
            instruction_flow: InstructionFlow::Terminated,
            if_scope_stack,
            loop_scope_stack,
        };
        let (result, scratch) = compiler.compile(&mut self.module);
        let Scratch { variables, func_refs, values_buffer, if_scope_stack, loop_scope_stack } = scratch;
        self.variables = variables;
        self.func_refs = func_refs;
        self.values_buffer = values_buffer;
        self.if_scope_stack = if_scope_stack;
        self.loop_scope_stack = loop_scope_stack;
        result?;
        Ok(self.func_ids[instance_id.0])
    }

    /// Declares every instance, lowers the functions of the module, and links them.
    fn compile(&mut self, code: &CodeModule) -> (r: Result<(), BackendError>)
        requires
            definitions_ready(code.definitions),
        ensures
            r is Ok ==> final(self).declared() == code.instances.stages().len(),
            r is Ok ==> forall|i: int|
                0 <= i < code.instances.stages().len() ==> #[trigger] code.instances.stages()[i] is Created,
            r is Ok ==> forall|i: int|
                0 <= i < code.instances.stages().len() ==> declarable(#[trigger] code.instances.stages()[i]),
    {
        self.declare_functions(code)?;
        let declarations = code.instances.iter_local_declarations();
        let mut i: usize = 0;
        while i < declarations.len()
            invariant
                definitions_ready(code.definitions),
                i <= declarations@.len(),
                self.declared() == code.instances.stages().len(),
                ids_declared(self.func_ids@, self.module),
                forall|k: int|
                    0 <= k < code.instances.stages().len() ==> #[trigger] code.instances.stages()[k] is Created,
            decreases declarations@.len() - i,
        {
            let (instance, declaration) = declarations[i];
            if declaration.fn_id.0 >= code.definitions.len() {
                return Err(BackendError::MissingInstance);
            }
            let definition = match code.definitions.index(declaration.fn_id) {
                FnDefinitionStage::Defined(definition) => definition,
                FnDefinitionStage::ToDefine { .. } => return Err(BackendError::MissingInstance),
            };
            let id = self.compile_function(code, definition, instance)?;
            if !define_function(&mut self.module, id, &mut self.context) {
                return Err(BackendError::ModuleFailure);
            }
            i = i + 1;
        }
        Ok(())
    }

    /// The module, to link the compiled functions with the host's symbols.
    pub fn module_mut(&mut self) -> (r: &mut cranelift_jit::JITModule)
        ensures
            *r == old(self).module(),
            final(self).module() == *final(r),
    {
        &mut self.module
    }
}

impl<'code, 'compiler> TypeInferenceStage<'code, 'compiler> {
    /// Compiles the instances, if the earlier stages found no error.
    pub fn backend_stage(self, compiler: &mut BackendCompiler) -> (r: Result<Executable, BackendFailure>)
        requires
            definitions_ready(self.code.definitions),
            instances_ready(self.code.definitions, self.code.instances),
        ensures
            old(self.errors)@.len() != 0 <==> r matches Err(BackendFailure::CompilationErrors),
            r matches Err(BackendFailure::CompilationErrors) ==> *final(compiler) == *old(compiler),
            ({
                let key = (self.entry_point, Seq::<ValueType>::empty());
                let map = self.code.instances.local_map();
                &&& old(self.errors)@.len() == 0 && !map.dom().contains(key) ==> r == Err::<
                    Executable,
                    BackendFailure,
                >(BackendFailure::Backend(BackendError::MissingInstance)) && *final(compiler) == *old(compiler)
                &&& old(self.errors)@.len() == 0 && map.dom().contains(key)
                    && !(self.code.instances.stages()[map[key].0 as int] is Created) ==> r == Err::<
                    Executable,
                    BackendFailure,
                >(BackendFailure::Backend(BackendError::IncompleteInstance)) && *final(compiler) == *old(compiler)
            }),
            r is Ok ==> forall|i: int|
                0 <= i < self.code.instances.stages().len() ==> #[trigger] self.code.instances.stages()[i] is Created,
            match r {
                Ok(executable) => {
                    let key = (self.entry_point, Seq::<ValueType>::empty());
                    &&& self.code.instances.local_map().dom().contains(key)
                    &&& self.code.instances.stages()[self.code.instances.local_map()[key].0 as int] matches FnInstanceStage::Created(entry)
                        && entry.return_type == executable.return_type()
                },
                Err(_) => true,
            },
    {
        if !self.errors.is_empty() {
            return Err(BackendFailure::CompilationErrors);
        }
        let entry_point_id = match self.code.instances.get_id(FnId::Local(self.entry_point), ParamsTypes::default()) {
            Some(id) => id,
            None => return Err(BackendFailure::Backend(BackendError::MissingInstance)),
        };
        proof {
            self.code.instances.lemma_wf();
        }
        let return_type = match self.code.instances.index(entry_point_id) {
            FnInstanceStage::Created(instance) => instance.return_type,
            _ => return Err(BackendFailure::Backend(BackendError::IncompleteInstance)),
        };
        if let Err(e) = compiler.compile(&self.code) {
            return Err(BackendFailure::Backend(e));
        }
        let func_id = compiler.func_ids[entry_point_id.0];
        Ok(Executable::new(func_id, return_type))
    }
}

} // verus!
