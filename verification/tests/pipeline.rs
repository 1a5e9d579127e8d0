use makovi::compiler::backend::{BackendCompiler, BackendFailure};
use makovi::compiler::error::{CompilationErrorKind, CompilationErrorSet};
use makovi::compiler::hir::definition::{FnDefinitionId, FnId};
use makovi::compiler::hir::instance::{ExternalCode, FnInstanceStage};
use makovi::compiler::hir::params::ParamsTypes;
use makovi::compiler::hir::value::ValueType;
use makovi::compiler::CompilationPipeline;

fn new_module() -> cranelift_jit::JITModule {
    let builder = cranelift_jit::JITBuilder::with_flags(
        &[("opt_level", "speed")],
        cranelift_module::default_libcall_names(),
    )
    .unwrap();
    cranelift_jit::JITModule::new(builder)
}

fn return_type_of(stage: &FnInstanceStage) -> Option<ValueType> {
    match stage {
        FnInstanceStage::Created(instance) => Some(instance.return_type),
        FnInstanceStage::WithErrors { return_type } => Some(*return_type),
        _ => None,
    }
}

#[test]
fn infers_a_generic_function_per_argument_types() {
    let source = "fn id(a)\n    return a\nlet x = id(5)\nlet y = id(true)\nreturn x\n";
    let mut errors = CompilationErrorSet::default();
    let ExternalCode { definitions, instances } = ExternalCode::new();
    let stage = CompilationPipeline
        .lexer_stage(source)
        .parser_stage(&mut errors, definitions)
        .type_inference_stage(instances);
    assert!(stage.errors.is_empty());
    let code = &stage.code;
    let entry = code
        .instances
        .get_id(FnId::Local(stage.entry_point), ParamsTypes::default())
        .unwrap();
    assert_eq!(return_type_of(code.instances.index(entry)), Some(ValueType::Int));
    let id_fn = FnId::Local(FnDefinitionId(0));
    let for_int = code.instances.get_id(id_fn, ParamsTypes::from_types(&[ValueType::Int])).unwrap();
    let for_bool = code.instances.get_id(id_fn, ParamsTypes::from_types(&[ValueType::Bool])).unwrap();
    assert_eq!(return_type_of(code.instances.index(for_int)), Some(ValueType::Int));
    assert_eq!(return_type_of(code.instances.index(for_bool)), Some(ValueType::Bool));
    assert_ne!(for_int.0, for_bool.0);
    assert_eq!(code.instances.len(), 3);
}

#[test]
fn reports_a_wrong_argument_count() {
    let source = "fn f(a)\n    return a\nreturn f(1, 2)\n";
    let mut errors = CompilationErrorSet::default();
    let ExternalCode { definitions, instances } = ExternalCode::new();
    let stage = CompilationPipeline
        .lexer_stage(source)
        .parser_stage(&mut errors, definitions)
        .type_inference_stage(instances);
    let found = stage.errors.errors();
    assert_eq!(found.len(), 1);
    assert_eq!(
        found[0].kind,
        CompilationErrorKind::WrongArgumentCount { name: b"f".to_vec(), parameters: 1 }
    );
}

#[test]
fn reports_an_undefined_function() {
    let source = "return g(1)\n";
    let mut errors = CompilationErrorSet::default();
    let ExternalCode { definitions, instances } = ExternalCode::new();
    let stage = CompilationPipeline
        .lexer_stage(source)
        .parser_stage(&mut errors, definitions)
        .type_inference_stage(instances);
    let found = stage.errors.errors();
    assert_eq!(found.len(), 1);
    assert_eq!(found[0].kind, CompilationErrorKind::UndefinedFunction { name: b"g".to_vec() });
}

#[test]
fn reports_returns_of_different_types() {
    let source = "fn f(a)\n    if a\n        return 1\n    return a\nreturn f(true)\n";
    let mut errors = CompilationErrorSet::default();
    let ExternalCode { definitions, instances } = ExternalCode::new();
    let stage = CompilationPipeline
        .lexer_stage(source)
        .parser_stage(&mut errors, definitions)
        .type_inference_stage(instances);
    let found = stage.errors.errors();
    assert_eq!(found.len(), 1);
    assert_eq!(
        found[0].kind,
        CompilationErrorKind::ReturnTypeMismatch {
            return_type: ValueType::Int,
            value_type: ValueType::Bool
        }
    );
}

#[test]
fn reports_a_variable_assigned_another_type() {
    let source = "let x = 1\nx = true\nreturn x\n";
    let mut errors = CompilationErrorSet::default();
    let ExternalCode { definitions, instances } = ExternalCode::new();
    let stage = CompilationPipeline
        .lexer_stage(source)
        .parser_stage(&mut errors, definitions)
        .type_inference_stage(instances);
    let found = stage.errors.errors();
    assert_eq!(found.len(), 1);
    assert_eq!(
        found[0].kind,
        CompilationErrorKind::VariableTypeMismatch {
            value_type: ValueType::Bool,
            actual: ValueType::Int
        }
    );
}

#[test]
fn reports_a_recursive_instance() {
    let source = "fn f(a)\n    return f(a)\nreturn f(1)\n";
    let mut errors = CompilationErrorSet::default();
    let ExternalCode { definitions, instances } = ExternalCode::new();
    let stage = CompilationPipeline
        .lexer_stage(source)
        .parser_stage(&mut errors, definitions)
        .type_inference_stage(instances);
    let found = stage.errors.errors();
    assert_eq!(found.len(), 1);
    assert_eq!(found[0].kind, CompilationErrorKind::RecursiveInstance);
}

#[test]
fn uses_an_external_instance_for_operators() {
    let source = "return 1 + 2\n";
    let mut errors = CompilationErrorSet::default();
    let mut external = ExternalCode::new();
    external.declare_function(
        b"+",
        ParamsTypes::from_types(&[ValueType::Int, ValueType::Int]),
        ValueType::Int,
        1,
    );
    let ExternalCode { definitions, instances } = external;
    let stage = CompilationPipeline
        .lexer_stage(source)
        .parser_stage(&mut errors, definitions)
        .type_inference_stage(instances);
    assert!(stage.errors.is_empty());
    let entry = stage
        .code
        .instances
        .get_id(FnId::Local(stage.entry_point), ParamsTypes::default())
        .unwrap();
    assert_eq!(entry.0, 1);
    assert_eq!(return_type_of(stage.code.instances.index(entry)), Some(ValueType::Int));
}

#[test]
fn reports_unsupported_argument_types_of_an_external_function() {
    let source = "return 1 + true\n";
    let mut errors = CompilationErrorSet::default();
    let mut external = ExternalCode::new();
    external.declare_function(
        b"+",
        ParamsTypes::from_types(&[ValueType::Int, ValueType::Int]),
        ValueType::Int,
        1,
    );
    let ExternalCode { definitions, instances } = external;
    let stage = CompilationPipeline
        .lexer_stage(source)
        .parser_stage(&mut errors, definitions)
        .type_inference_stage(instances);
    let found = stage.errors.errors();
    assert_eq!(found.len(), 1);
    match &found[0].kind {
        CompilationErrorKind::UnsupportedArgumentTypes { fn_id, arguments } => {
            assert_eq!(fn_id.0, 0);
            assert_eq!(arguments, &vec![ValueType::Int, ValueType::Bool]);
        }
        other => panic!("unexpected error {other:?}"),
    }
}

#[test]
fn compiles_a_constant_program() {
    let mut errors = CompilationErrorSet::default();
    let ExternalCode { definitions, instances } = ExternalCode::new();
    let stage = CompilationPipeline
        .lexer_stage("return 123\n")
        .parser_stage(&mut errors, definitions)
        .type_inference_stage(instances);
    let mut compiler = BackendCompiler::new(new_module());
    let executable = match stage.backend_stage(&mut compiler) {
        Ok(executable) => executable,
        Err(_) => panic!("the back end failed"),
    };
    assert_eq!(executable.result_type(), ValueType::Int);
    let module = compiler.module_mut();
    module.finalize_definitions().unwrap();
    assert!(!module.get_finalized_function(executable.entry_point()).is_null());
}

#[test]
fn compiles_nested_ifs() {
    let source = "let x = true\nif x\n    if x\n        x = false\nreturn 1\n";
    let mut errors = CompilationErrorSet::default();
    let ExternalCode { definitions, instances } = ExternalCode::new();
    let stage = CompilationPipeline
        .lexer_stage(source)
        .parser_stage(&mut errors, definitions)
        .type_inference_stage(instances);
    let mut compiler = BackendCompiler::new(new_module());
    let executable = match stage.backend_stage(&mut compiler) {
        Ok(executable) => executable,
        Err(BackendFailure::Backend(error)) => panic!("the back end failed: {error:?}"),
        Err(BackendFailure::CompilationErrors) => panic!("the source has errors"),
    };
    assert_eq!(executable.result_type(), ValueType::Int);
    compiler.module_mut().finalize_definitions().unwrap();
}

fn compile_and_link(source: &'static str) -> ValueType {
    let mut errors = CompilationErrorSet::default();
    let ExternalCode { definitions, instances } = ExternalCode::new();
    let stage = CompilationPipeline
        .lexer_stage(source)
        .parser_stage(&mut errors, definitions)
        .type_inference_stage(instances);
    let mut compiler = BackendCompiler::new(new_module());
    let executable = match stage.backend_stage(&mut compiler) {
        Ok(executable) => executable,
        Err(BackendFailure::Backend(error)) => panic!("the back end failed: {error:?}"),
        Err(BackendFailure::CompilationErrors) => panic!("the source has errors"),
    };
    compiler.module_mut().finalize_definitions().unwrap();
    executable.result_type()
}

#[test]
fn a_break_is_followed_by_the_end_of_its_if() {
    // The break of a while loop skips to the `IfEnd` that closes its `if`, which is
    // lowered: the loop compiles and links.
    assert_eq!(compile_and_link("let x = true\nwhile x\n    x = false\nreturn 1\n"), ValueType::Int);
}

#[test]
fn compiles_if_else_chains() {
    let source = "let x = 1\nlet b = true\nif b\n    x = 2\nelse if b\n    x = 3\nelse\n    x = 4\nreturn x\n";
    assert_eq!(compile_and_link(source), ValueType::Int);
}

#[test]
fn refuses_to_compile_code_with_errors() {
    let mut errors = CompilationErrorSet::default();
    let ExternalCode { definitions, instances } = ExternalCode::new();
    let stage = CompilationPipeline
        .lexer_stage("return missing(1)\n")
        .parser_stage(&mut errors, definitions)
        .type_inference_stage(instances);
    let mut compiler = BackendCompiler::new(new_module());
    assert!(matches!(stage.backend_stage(&mut compiler), Err(BackendFailure::CompilationErrors)));
}


#[test]
fn lists_the_instances_of_a_module() {
    let source = "fn add(a, b)\n    return a + b\nreturn add(1, 2)\n";
    let mut errors = CompilationErrorSet::default();
    let mut external = ExternalCode::new();
    external.declare_function(
        b"+",
        ParamsTypes::from_types(&[ValueType::Int, ValueType::Int]),
        ValueType::Int,
        1,
    );
    let ExternalCode { definitions, instances } = external;
    let stage = CompilationPipeline
        .lexer_stage(source)
        .parser_stage(&mut errors, definitions)
        .type_inference_stage(instances);
    assert!(stage.errors.is_empty());
    let text = String::from_utf8(stage.code.instances.render()).unwrap();
    assert_eq!(
        text,
        "fn extern_f0(v0: Int, v1: Int) -> Int\n\
         fn local_f0(v0: Int, v1: Int) -> Int\n    v2: Int\n\
         fn local_f1() -> Int\n    v0: Int\n"
    );
}
