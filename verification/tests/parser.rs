use makovi::compiler::error::{CompilationErrorKind, CompilationErrorSet};
use makovi::compiler::hir::definition::{FnDefinition, FnDefinitionId, FnDefinitionStage, ModuleDefinitions};
use makovi::compiler::hir::instance::ExternalCode;
use makovi::compiler::CompilationPipeline;
use makovi::compiler::hir::names::NameMap;
use makovi::compiler::hir::value::VariableId;
use makovi::compiler::lexer::tokens::Token;
use makovi::compiler::lexer::Lexer;
use makovi::compiler::parser::scope::FunctionScope;
use makovi::compiler::parser::FunctionParser;

fn test_parse_expression(expr: &'static str, variables: &[&'static str], expect: &str) {
    let lexer = Lexer::new(expr);
    let module = ModuleDefinitions::new(NameMap::new());
    let errors = CompilationErrorSet::default();
    let mut scope = FunctionScope::new();
    for (id, name) in variables.iter().enumerate() {
        scope.define_variable(0, name.as_bytes(), VariableId(id));
    }
    let function = FnDefinition::new(b"test", variables.len());
    let mut parser = FunctionParser::new(lexer, module, errors, function, scope);

    parser.parse_expression();
    let _ = parser.expect_token(Token::EndOfFile);
    let FunctionParser { mut module, function, errors, .. } = parser;
    module.define(function).unwrap();

    let text = String::from_utf8(module.render()).unwrap();
    assert_eq!(expect.trim(), text.trim());
    assert!(errors.is_empty());
}

#[test]
pub fn parse_expression_with_operators() {
    const RESULT: &str = r#"
f0 = fn +(...) <not defined>
f1 = fn -(...) <not defined>
f2 = fn *(...) <not defined>
f3 = fn test(v0, v1, v2)
    v3 = local_f0(v0, v1)
    v4 = local_f1(v3, 3)
    v5 = local_f2(v2, 123)
    v6 = local_f0(v5, 2)
    v7 = local_f0(v4, v6)
"#;
    test_parse_expression("a + b - 3 + (hey * 123 + 2)", &["a", "b", "hey"], RESULT);
}

#[test]
fn parse_expression_with_calls() {
    const RESULT: &str = r#"
f0 = fn *(...) <not defined>
f1 = fn f(...) <not defined>
f2 = fn +(...) <not defined>
f3 = fn test(v0, v1)
    v2 = local_f0(2, v1)
    v3 = local_f1(v0, v2)
    v4 = local_f2(v3, v0)
"#;
    test_parse_expression("f(a, 2 * b) + a", &["a", "b"], RESULT);
}

#[test]
fn an_empty_argument_list_leaves_its_bracket() {
    let lexer = Lexer::new("g() + 1");
    let module = ModuleDefinitions::new(NameMap::new());
    let function = FnDefinition::new(b"test", 0);
    let mut parser = FunctionParser::new(lexer, module, CompilationErrorSet::default(), function, FunctionScope::new());
    parser.parse_expression();
    assert_eq!(parser.lexer.token(), Token::BracketClose);
    assert_eq!(parser.function.instructions.len(), 1);
    assert_eq!(parser.function.arguments.len(), 0);
    assert!(parser.errors.is_empty());
}

#[test]
fn control_flow_is_closed_in_order() {
    let source = "let x = 1\nwhile x\n    if x\n        x = 2\n    else\n        x = 3\nreturn x\n";
    let mut errors = CompilationErrorSet::default();
    let ExternalCode { definitions, instances: _ } = ExternalCode::new();
    let stage = CompilationPipeline.lexer_stage(source).parser_stage(&mut errors, definitions);
    assert!(stage.errors.is_empty());
    let FnDefinitionStage::Defined(entry) = stage.definitions.index(FnDefinitionId(stage.entry_point.0)) else {
        panic!("the entry point is defined");
    };
    let lines: Vec<String> = entry
        .instructions
        .iter()
        .map(|i| String::from_utf8(i.display(entry).to_text()).unwrap())
        .collect();
    assert_eq!(
        lines,
        vec![
            "v0 = 1",
            "loop",
            "if v0 is false",
            "break",
            "endif x1",
            "if v0 is true",
            "v0 = 2",
            "else",
            "v0 = 3",
            "endif x1",
            "endloop",
            "return v0",
        ]
    );
}

fn entry_lines(source: &'static str) -> (Vec<String>, CompilationErrorSet) {
    let mut errors = CompilationErrorSet::default();
    let ExternalCode { definitions, instances: _ } = ExternalCode::new();
    let stage = CompilationPipeline.lexer_stage(source).parser_stage(&mut errors, definitions);
    let FnDefinitionStage::Defined(entry) = stage.definitions.index(FnDefinitionId(stage.entry_point.0)) else {
        panic!("the entry point is defined");
    };
    let lines = entry
        .instructions
        .iter()
        .map(|i| String::from_utf8(i.display(entry).to_text()).unwrap())
        .collect();
    drop(stage);
    (lines, errors)
}

#[test]
fn a_bare_return_returns_null() {
    let (lines, errors) = entry_lines("return\n");
    assert_eq!(lines, vec!["return null"]);
    assert!(errors.is_empty());
}

#[test]
fn a_let_binds_the_name_to_the_value() {
    let (lines, errors) = entry_lines("let x = 7\nlet x = true\nreturn x\n");
    assert_eq!(lines, vec!["v0 = 7", "v1 = true", "return v1"]);
    assert!(errors.is_empty());
}

#[test]
fn an_if_chain_opens_with_its_first_condition() {
    let (lines, errors) = entry_lines("let x = 1\nif x\n    x = 2\nelse if x\n    x = 3\n");
    assert_eq!(lines, vec!["v0 = 1", "if v0 is true", "v0 = 2", "else", "if v0 is true", "v0 = 3", "endif x2"]);
    assert!(errors.is_empty());
}

#[test]
fn a_lambda_and_a_huge_integer_are_reported() {
    let (_, errors) = entry_lines("let f = fn\nlet n = 99999999999999999999\n");
    let kinds = errors.errors();
    assert!(matches!(kinds[0].kind, CompilationErrorKind::LambdaNotImplemented));
    assert!(kinds
        .iter()
        .any(|e| matches!(e.kind, CompilationErrorKind::UnexpectedToken { expected: "i64 number", .. })));
}

#[test]
fn an_if_chain_with_an_else_closes_once() {
    let (lines, errors) = entry_lines("let x = 1\nif x\n    x = 2\nelse if x\n    x = 3\nelse\n    x = 4\n");
    assert_eq!(
        lines,
        vec!["v0 = 1", "if v0 is true", "v0 = 2", "else", "if v0 is true", "v0 = 3", "else", "v0 = 4", "endif x2"]
    );
    assert!(errors.is_empty());
}

fn parameters_of(source: &'static str) -> (Result<usize, ()>, FunctionScope<'static>, Token, bool) {
    let lexer = Lexer::new(source);
    let module = ModuleDefinitions::new(NameMap::new());
    let function = FnDefinition::new(b"f", 0);
    let mut parser = FunctionParser::new(lexer, module, CompilationErrorSet::default(), function, FunctionScope::new());
    let mut scope = FunctionScope::new();
    let r = parser.parse_parameters(&mut scope);
    let token = parser.lexer.token();
    (r, scope, token, parser.errors.is_empty())
}

#[test]
fn parameters_are_numbered_in_order_and_the_bracket_is_read() {
    let (r, scope, token, no_errors) = parameters_of("(a, b)\n");
    assert_eq!(r, Ok(2));
    assert_eq!(scope.get_variable(b"a"), Some(VariableId(0)));
    assert_eq!(scope.get_variable(b"b"), Some(VariableId(1)));
    assert_eq!(token, Token::NewLine);
    assert!(no_errors);
}

#[test]
fn no_parameters_leave_the_closing_bracket() {
    let (r, scope, token, no_errors) = parameters_of("()\n");
    assert_eq!(r, Ok(0));
    assert_eq!(scope.get_variable(b"a"), None);
    assert_eq!(token, Token::BracketClose);
    assert!(no_errors);
}

#[test]
fn a_missing_separator_fails_the_parameters() {
    let (r, _, _, no_errors) = parameters_of("(a b)\n");
    assert_eq!(r, Err(()));
    assert!(!no_errors);
}
