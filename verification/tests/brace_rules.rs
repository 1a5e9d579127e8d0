use makovi::parser::{parse_identifier, parse_literal, Expr};

#[test]
fn an_identifier_runs_over_letters_digits_and_underscores() {
    assert_eq!(parse_identifier(b"fn _abc9 (x)", 3), Some((8, String::from("_abc9"))));
    assert_eq!(parse_identifier(b"x", 0), Some((1, String::from("x"))));
}

#[test]
fn an_identifier_does_not_start_with_a_digit() {
    assert_eq!(parse_identifier(b"9abc", 0), None);
    assert_eq!(parse_identifier(b"abc", 3), None);
    assert_eq!(parse_identifier(b" abc", 0), None);
}

#[test]
fn a_literal_is_its_digits() {
    match parse_literal(b"1234+5", 0) {
        Some((4, Expr::Literal(digits))) => assert_eq!(digits, "1234"),
        _ => panic!("digits were expected"),
    }
}

#[test]
fn an_ampersand_and_an_identifier_are_an_address() {
    match parse_literal(b"&hello world", 0) {
        Some((6, Expr::GlobalDataAddr(name))) => assert_eq!(name, "hello"),
        _ => panic!("an address was expected"),
    }
    assert!(parse_literal(b"&9", 0).is_none());
    assert!(parse_literal(b"x1", 0).is_none());
    assert!(parse_literal(b"", 0).is_none());
}

use makovi::parser::rules::{function, parse_binary_op, parse_expression, parse_if_else, parse_while_loop};

fn shown(r: Option<(usize, Expr)>) -> Option<(usize, String)> {
    r.map(|(n, e)| (n, format!("{:?}", e)))
}

#[test]
fn operations_follow_their_levels() {
    assert_eq!(
        shown(parse_binary_op(b"a + b * 2", 0)),
        Some((9, String::from("Add(Identifier(\"a\"), Mul(Identifier(\"b\"), Literal(\"2\")))")))
    );
    assert_eq!(
        shown(parse_binary_op(b"a - b - c", 0)),
        Some((9, String::from("Sub(Identifier(\"a\"), Sub(Identifier(\"b\"), Identifier(\"c\")))")))
    );
    assert_eq!(
        shown(parse_binary_op(b"a <= 3 == b", 0)),
        Some((11, String::from("Le(Identifier(\"a\"), Eq(Literal(\"3\"), Identifier(\"b\")))")))
    );
}

#[test]
fn calls_and_mod_groups_are_operands() {
    assert_eq!(
        shown(parse_binary_op(b"f(1, x) mod (y)", 0)),
        Some((
            15,
            String::from("Mod(Call(\"f\", [Literal(\"1\"), Identifier(\"x\")]), Identifier(\"y\"))")
        ))
    );
    assert_eq!(shown(parse_binary_op(b"f (", 0)), Some((1, String::from("Identifier(\"f\")"))));
    assert_eq!(shown(parse_binary_op(b"+ 1", 0)), None);
}

#[test]
fn a_while_loop_holds_its_statements() {
    assert_eq!(
        shown(parse_while_loop(b"while a < 10 {\n    a = a + 1\n}", 0)),
        Some((
            30,
            String::from(
                "WhileLoop(Lt(Identifier(\"a\"), Literal(\"10\")), [Assign(\"a\", Add(Identifier(\"a\"), Literal(\"1\")))])"
            )
        ))
    );
}

#[test]
fn an_else_if_nests_the_next_if() {
    assert_eq!(
        shown(parse_if_else(b"if a {\n b\n} else if c {\n d\n} else {\n e\n}", 0)),
        Some((
            40,
            String::from(
                "IfElse(Identifier(\"a\"), [Identifier(\"b\")], [IfElse(Identifier(\"c\"), [Identifier(\"d\")], [Identifier(\"e\")])])"
            )
        ))
    );
    assert_eq!(shown(parse_if_else(b"if a {\n b\n}", 0)), None);
    assert_eq!(shown(parse_expression(b"if a {\n b\n}", 0)), Some((2, String::from("Identifier(\"if\")"))));
}

#[test]
fn a_whole_function_is_read() {
    let f = function(b"function foo(a, b) -> (c) {\n    c = a + b\n}\n").unwrap();
    assert_eq!(f.name, "foo");
    assert_eq!(f.params_names, vec![String::from("a"), String::from("b")]);
    assert_eq!(f.return_name, "c");
    assert_eq!(
        format!("{:?}", f.statements),
        "[Assign(\"c\", Add(Identifier(\"a\"), Identifier(\"b\")))]"
    );
    let empty = function(b"\n function f() -> (r) {\n}\n").unwrap();
    assert!(empty.params_names.is_empty());
    assert!(empty.statements.is_empty());
}

#[test]
fn a_function_without_its_result_or_with_more_text_is_refused() {
    assert!(function(b"function foo(a) {\n}\n").is_err());
    assert!(function(b"function foo(a) -> (b) {\n}\nx").is_err());
}
