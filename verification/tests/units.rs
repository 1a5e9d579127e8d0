use makovi::ast::operator::Operator;
use makovi::compiler::backend::backend_value::{BackendValue, BackendValueType, BackendVariable};
use makovi::compiler::error::{LineColumnNumber, LineSpan};
use makovi::compiler::hir::definition::{
    Call, ExternFnId, FnDefinition, FnDefinitionId, FnDefinitionStage, FnId, Instruction, ModuleDefinitions,
    RunIf,
};
use makovi::compiler::hir::display::push_int;
use makovi::compiler::hir::instance::{
    FnInstance, FnInstanceId, FnInstanceStage, ModuleInstances, NewFnInstanceResult, ExternalInstances,
};
use makovi::compiler::hir::names::NameMap;
use makovi::compiler::hir::params::ParamsTypes;
use makovi::compiler::hir::value::{Value, ValueType, Variable, VariableId};
use makovi::compiler::lexer::tokens::Token;
use makovi::compiler::lexer::Lexer;
use makovi::compiler::parser::scope::FunctionScope;
use makovi::compiler::text::parse_i64;
use makovi::error::{CompilationError, CompilationErrorSet};
use makovi::lexer::TokenResult;

fn span(line: usize, start: usize, end: usize) -> LineSpan {
    LineSpan {
        start: LineColumnNumber { line, column: start },
        end: LineColumnNumber { line, column: end },
    }
}

#[test]
fn lexer_reads_tokens_with_their_positions() {
    let mut lexer = Lexer::new("let x = 12\n    return x");
    assert_eq!(lexer.token(), Token::Let);
    assert_eq!(lexer.span(), span(1, 1, 3));
    assert_eq!(lexer.next(), Token::Identifier);
    assert_eq!(lexer.slice(), b"x");
    assert_eq!(lexer.next(), Token::Assign);
    assert_eq!(lexer.next(), Token::Integer);
    assert_eq!(lexer.slice(), b"12");
    assert_eq!(lexer.span(), span(1, 9, 10));
    assert_eq!(lexer.next(), Token::NewLine);
    assert_eq!(lexer.indent(), 0);
    assert_eq!(lexer.next(), Token::Return);
    assert_eq!(lexer.indent(), 4);
    assert_eq!(lexer.span(), span(2, 5, 10));
    assert_eq!(lexer.next(), Token::Identifier);
    assert_eq!(lexer.next(), Token::EndOfFile);
}

#[test]
fn lexer_prefers_the_longest_token() {
    let mut lexer = Lexer::new("<= < letter let");
    assert_eq!(lexer.token(), Token::Le);
    assert_eq!(lexer.next(), Token::Lt);
    assert_eq!(lexer.next(), Token::Identifier);
    assert_eq!(lexer.slice(), b"letter");
    assert_eq!(lexer.next(), Token::Let);
}

#[test]
fn lexer_marks_invalid_slices() {
    let mut lexer = Lexer::new("a $ b");
    assert_eq!(lexer.token(), Token::Identifier);
    assert_eq!(lexer.next(), Token::Invalid);
    assert_eq!(lexer.slice(), b"$");
    assert_eq!(lexer.next(), Token::Identifier);
}

#[test]
fn leading_spaces_are_the_first_indentation() {
    let lexer = Lexer::new("  fn");
    assert_eq!(lexer.indent(), 2);
    assert_eq!(lexer.token(), Token::Fn);
    assert_eq!(lexer.indent_span(), span(1, 1, 2));
}

#[test]
fn integers_are_read_until_they_overflow() {
    assert_eq!(parse_i64(b"0"), Some(0));
    assert_eq!(parse_i64(b"123"), Some(123));
    assert_eq!(parse_i64(b"9223372036854775807"), Some(i64::MAX));
    assert_eq!(parse_i64(b"9223372036854775808"), None);
}

#[test]
fn printed_numbers_read_back() {
    for n in [0i64, 7, 10, 99, 12345, i64::MAX] {
        let mut out = Vec::new();
        push_int(&mut out, n);
        assert_eq!(parse_i64(&out), Some(n));
    }
    let mut out = Vec::new();
    push_int(&mut out, i64::MIN);
    assert_eq!(String::from_utf8(out).unwrap(), i64::MIN.to_string());
}

#[test]
fn instructions_print_like_the_ir() {
    let mut function = FnDefinition::new(b"f", 1);
    let result = function.new_variable();
    function.push_fn_call(
        FnId::Extern(ExternFnId(2)),
        &[Variable::Id(VariableId(0)), Variable::Const(Value::Int(-4))],
        Some(result),
    );
    function.push(Instruction::IfStart(Variable::Const(Value::Bool(true)), RunIf::False));
    function.push(Instruction::IfEnd(1));
    function.push(Instruction::Return(Variable::Unknown));
    let texts: Vec<String> = function
        .instructions
        .iter()
        .map(|i| String::from_utf8(i.display(&function).to_text()).unwrap())
        .collect();
    assert_eq!(texts, vec!["v1 = extern_f2(v0, -4)", "if true is false", "endif x1", "return unknown"]);
    let mut out = Vec::new();
    function.write(&mut out);
    assert_eq!(
        String::from_utf8(out).unwrap(),
        "fn f(v0)\n    v1 = extern_f2(v0, -4)\n    if true is false\n    endif x1\n    return unknown\n"
    );
}

#[test]
fn a_function_called_before_its_definition_keeps_its_id() {
    let mut module = ModuleDefinitions::new(NameMap::new());
    let called = module.get_fn_id(b"later");
    assert_eq!(called, FnId::Local(FnDefinitionId(0)));
    assert!(matches!(module.index(FnDefinitionId(0)), FnDefinitionStage::ToDefine { .. }));
    let defined = module.define(FnDefinition::new(b"later", 0));
    assert_eq!(defined, Ok(FnDefinitionId(0)));
    assert!(module.define(FnDefinition::new(b"later", 0)).is_err());
    assert_eq!(module.get_fn_id(b"later"), FnId::Local(FnDefinitionId(0)));
    assert_eq!(module.len(), 1);
    assert_eq!(String::from_utf8(module.render()).unwrap(), "f0 = fn later()\n");
}

#[test]
fn defining_then_looking_up_matches_the_other_order() {
    let mut first = ModuleDefinitions::new(NameMap::new());
    let looked = first.get_fn_id(b"g");
    let defined = first.define(FnDefinition::new(b"g", 1));
    let mut second = ModuleDefinitions::new(NameMap::new());
    let defined_first = second.define(FnDefinition::new(b"g", 1));
    let looked_after = second.get_fn_id(b"g");
    assert_eq!(looked, FnId::Local(FnDefinitionId(0)));
    assert_eq!(looked_after, looked);
    assert_eq!(defined, Ok(FnDefinitionId(0)));
    assert_eq!(defined_first, defined);
    assert_eq!(first.len(), second.len());
    assert_eq!(first.render(), second.render());
}

#[test]
fn an_external_name_cannot_be_defined() {
    let mut names = NameMap::new();
    names.insert_new(b"print", FnId::Extern(ExternFnId(0)));
    let mut module = ModuleDefinitions::new(names);
    assert_eq!(module.get_fn_id(b"print"), FnId::Extern(ExternFnId(0)));
    assert!(module.define(FnDefinition::new(b"print", 1)).is_err());
    assert_eq!(module.define(FnDefinition::new(b"", 0)), Ok(FnDefinitionId(0)));
}

#[test]
fn a_redefinition_shadows_the_earlier_variable() {
    let mut scope = FunctionScope::new();
    scope.define_variable(0, b"counter", VariableId(0));
    scope.define_variable(1, b"counter", VariableId(1));
    assert_eq!(scope.get_variable(b"counter"), Some(VariableId(1)));
    scope.set_nesting(0);
    assert_eq!(scope.get_variable(b"counter"), Some(VariableId(0)));
    assert_eq!(scope.get_variable(b"other"), None);
}

#[test]
fn instances_are_made_once_per_parameter_types() {
    let mut module = ModuleDefinitions::new(NameMap::new());
    let mut function = FnDefinition::new(b"id", 1);
    function.push(Instruction::Return(Variable::Id(VariableId(0))));
    let id = module.define(function).unwrap();
    let mut instances = ModuleInstances::new(ExternalInstances::new());
    let created = match instances.new_instance(
        &module,
        FnId::Local(id),
        ParamsTypes::from_types(&[ValueType::Int]),
    ) {
        NewFnInstanceResult::New { id, instance, .. } => {
            assert_eq!(instance.variables, vec![ValueType::Int]);
            assert_eq!(instance.return_type, ValueType::Unknown);
            assert!(matches!(instances.index(id), FnInstanceStage::BeeingCreated));
            id
        }
        _ => panic!("a new instance was expected"),
    };
    assert_eq!(created, FnInstanceId(0));
    match instances.new_instance(&module, FnId::Local(id), ParamsTypes::from_types(&[ValueType::Int])) {
        NewFnInstanceResult::Exists { id } => assert_eq!(id, created),
        _ => panic!("the instance was expected to exist"),
    }
    match instances.new_instance(&module, FnId::Local(id), ParamsTypes::from_types(&[])) {
        NewFnInstanceResult::WrongArgumentCount { definition } => assert_eq!(definition.parameters, 1),
        _ => panic!("a wrong argument count was expected"),
    }
    assert_eq!(
        instances.get_id(FnId::Local(id), ParamsTypes::from_types(&[ValueType::Int])),
        Some(created)
    );
    assert_eq!(instances.get_id(FnId::Local(id), ParamsTypes::from_types(&[ValueType::Bool])), None);
    assert_eq!(instances.iter_local_declarations().len(), 1);
}

fn instance(variables: Vec<ValueType>, return_type: ValueType) -> FnInstance {
    FnInstance {
        id: FnInstanceId(0),
        parameters: 0,
        variables,
        imported_instances: Vec::new(),
        return_type,
        external_ptr: None,
    }
}

#[test]
fn finalized_instances_are_complete_only_with_known_types() {
    let mut module = ModuleDefinitions::new(NameMap::new());
    let mut function = FnDefinition::new(b"f", 0);
    function.new_variable();
    let id = module.define(function).unwrap();
    let mut instances = ModuleInstances::new(ExternalInstances::new());
    for _ in 0..3 {
        let _ = instances.new_instance(&module, FnId::Local(id), ParamsTypes::default());
    }
    instances.finalize_instance(FnInstanceId(0), instance(vec![ValueType::Int], ValueType::Unknown));
    assert!(matches!(instances.index(FnInstanceId(0)), FnInstanceStage::WithFatalErrors));
    instances.finalize_instance(FnInstanceId(0), instance(vec![ValueType::Unknown], ValueType::Bool));
    assert!(matches!(
        instances.index(FnInstanceId(0)),
        FnInstanceStage::WithErrors { return_type: ValueType::Bool }
    ));
    instances.finalize_instance(FnInstanceId(0), instance(vec![ValueType::Int], ValueType::Null));
    assert!(matches!(instances.index(FnInstanceId(0)), FnInstanceStage::Created(_)));
}

#[test]
fn instance_names_list_the_parameter_types() {
    let instance = FnInstance {
        id: FnInstanceId(3),
        parameters: 2,
        variables: vec![ValueType::Int, ValueType::Bool, ValueType::Null],
        imported_instances: Vec::new(),
        return_type: ValueType::Int,
        external_ptr: None,
    };
    let mut buffer = b"previous".to_vec();
    instance.name(&mut buffer);
    assert_eq!(buffer, b"f3<Int, Bool>".to_vec());
    assert_eq!(instance.parameters(), &[ValueType::Int, ValueType::Bool]);
    assert_eq!(instance.type_of(&Variable::Id(VariableId(2))), ValueType::Null);
    assert_eq!(instance.type_of(&Variable::Const(Value::Bool(false))), ValueType::Bool);
    assert_eq!(instance.type_of(&Variable::Unknown), ValueType::Unknown);
}

#[test]
fn params_types_hold_their_types_in_order() {
    let mut params = ParamsTypes::default();
    assert_eq!(params.len(), 0);
    params.push(ValueType::Int);
    params.push(ValueType::Null);
    assert_eq!(params.as_slice(), &[ValueType::Int, ValueType::Null]);
    let many = vec![ValueType::Bool; 20];
    assert_eq!(ParamsTypes::from_types(&many).len(), 20);
}

#[test]
fn operators_bind_by_priority() {
    assert_eq!(Operator::Mul.priority(), 4);
    assert_eq!(Operator::Add.priority(), 3);
    assert_eq!(Operator::Ne.priority(), 2);
    assert_eq!(Operator::And.priority(), 1);
    assert_eq!(Operator::XOr.priority(), 0);
    assert!(Operator::Le.is_comparison());
    assert!(!Operator::Ne.is_comparison());
    assert!(!Operator::Add.is_comparison());
    assert_eq!(Operator::Mod.symbol(), "mod");
}

#[test]
fn error_sets_collect_errors() {
    let mut errors = CompilationErrorSet::default();
    assert!(errors.is_empty());
    errors.add(CompilationError { message: "oops".to_string(), span: span(1, 1, 2) });
    assert!(!errors.is_empty());
    assert_eq!(errors.errors().len(), 1);
}

#[test]
fn nesting_is_indentation_in_steps_of_four() {
    let result = TokenResult::new(Some(Token::Return), "return", span(3, 9, 14), 8);
    assert_eq!(result.nesting().ok(), Some(2));
    assert_eq!(result.line_span(), span(3, 1, 1));
    assert_eq!(result.nesting_span(), span(3, 1, 8));
    let odd = TokenResult::new(None, "", span(2, 4, 4), 3);
    let error = odd.nesting().err().unwrap();
    assert_eq!(
        error.message,
        "Invalid indentation of 3 spaces. Expected an indentation multiple of 4"
    );
    assert_eq!(error.span, span(2, 1, 3));
}

#[test]
fn spans_join_from_the_earlier_start() {
    let a = span(2, 5, 8);
    let b = span(1, 3, 4);
    let joined = a.and(b);
    assert_eq!(joined.start, LineColumnNumber { line: 1, column: 3 });
    assert_eq!(joined.end, b.end);
}

#[test]
fn backend_values_give_their_value() {
    assert_eq!(BackendValue::Int(7).expect_int(), 7);
    assert_eq!(BackendValue::Bool(3).expect_bool(), 3);
    BackendValue::Null.expect_null();
    assert_eq!(Value::Int(4).get_type(), ValueType::Int);
}

#[test]
fn backend_values_take_one_cranelift_value_unless_null() {
    assert_eq!(BackendValue::Int(5).values().as_slice(), &[5]);
    assert_eq!(BackendValue::Bool(2).values().as_slice(), &[2]);
    assert!(BackendValue::Null.values().is_empty());
    assert_eq!(BackendVariable::Int(9).variables().as_slice(), &[9]);
    assert!(BackendVariable::Null.variables().is_empty());
    assert_eq!(BackendValueType::from_value_type(ValueType::Null).types().len(), 0);
    let int_types = BackendValueType::from_value_type(ValueType::Int).types();
    assert_eq!(int_types.as_slice(), &[cranelift::codegen::ir::types::I64]);
    let bool_types = BackendValueType::from_value_type(ValueType::Bool).types();
    assert_eq!(bool_types.as_slice(), &[cranelift::codegen::ir::types::I8]);
}

#[test]
fn call_arguments_stay_as_the_definition_grows() {
    let mut function = FnDefinition::new(b"f", 2);
    assert_eq!(function.variables(), 2);
    let sum = function.new_variable();
    function.push_fn_call(
        FnId::Extern(ExternFnId(0)),
        &[Variable::Id(VariableId(0)), Variable::Id(VariableId(1))],
        Some(sum),
    );
    let Instruction::Call(first) = function.instructions[0] else {
        panic!("a call was pushed");
    };
    let other = function.new_variable();
    function.push_fn_call(FnId::Extern(ExternFnId(1)), &[Variable::Id(sum), Variable::Const(Value::Int(3))], Some(other));
    function.use_variable(sum);
    function.push(Instruction::Return(Variable::Id(other)));
    assert_eq!(
        function.get_arguments(&first),
        &[Variable::Id(VariableId(0)), Variable::Id(VariableId(1))]
    );
    assert_eq!(function.variables(), 4);
}

#[test]
fn a_pushed_call_is_kept_as_it_is() {
    let mut function = FnDefinition::new(b"f", 0);
    let call = Call {
        result: None,
        fn_id: FnId::Extern(ExternFnId(2)),
        arguments_start: 0,
        arguments_end: 0,
        call_id: 7,
    };
    function.push(Instruction::Call(call));
    assert_eq!(function.instructions, vec![Instruction::Call(call)]);
    assert_eq!(function.calls, 0);
    assert_eq!(function.get_arguments(&call).len(), 0);
}
