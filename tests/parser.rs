use dlang::ast::{BinaryOp, Expr, Literal, Program, Stmt};
use dlang::lexer::Lexer;
use dlang::parser::{op_precedence, Expected, ParseError, Parser};

fn parse(src: &str) -> Result<Program, ParseError> {
    let mut p = Parser::new(Lexer::new(src));
    p.parse_program()
}

fn first_expr(src: &str) -> Expr {
    let prog = parse(src).unwrap();
    let mut f = prog.functions.into_iter().next().unwrap();
    match f.body.remove(0) {
        Stmt::Expr(e) => e,
        other => panic!("not an expression statement: {:?}", other),
    }
}

fn is_int(e: &Expr, v: i64) -> bool {
    matches!(e, Expr::Literal(Literal::Int(n)) if *n == v)
}

#[test]
fn multiplication_binds_tighter_than_addition() {
    let e = first_expr("fn main() { 1 + 2 * 3; }");
    match e {
        Expr::BinaryOp { left, op: BinaryOp::Add, right } => {
            assert!(is_int(&left, 1));
            match *right {
                Expr::BinaryOp { left: l2, op: BinaryOp::Mul, right: r2 } => {
                    assert!(is_int(&l2, 2));
                    assert!(is_int(&r2, 3));
                },
                other => panic!("{:?}", other),
            }
        },
        other => panic!("{:?}", other),
    }
}

#[test]
fn subtraction_associates_left() {
    let e = first_expr("fn main() { 10 - 3 - 2; }");
    match e {
        Expr::BinaryOp { left, op: BinaryOp::Sub, right } => {
            assert!(is_int(&right, 2));
            match *left {
                Expr::BinaryOp { left: l2, op: BinaryOp::Sub, right: r2 } => {
                    assert!(is_int(&l2, 10));
                    assert!(is_int(&r2, 3));
                },
                other => panic!("{:?}", other),
            }
        },
        other => panic!("{:?}", other),
    }
}

#[test]
fn parentheses_reset_precedence() {
    let e = first_expr("fn main() { (1 + 2) * 3; }");
    match e {
        Expr::BinaryOp { left, op: BinaryOp::Mul, right } => {
            assert!(is_int(&right, 3));
            assert!(matches!(*left, Expr::BinaryOp { op: BinaryOp::Add, .. }));
        },
        other => panic!("{:?}", other),
    }
}

#[test]
fn logical_and_comparison_levels() {
    let e = first_expr("fn main() { a < b && c || d; }");
    match e {
        Expr::BinaryOp { left, op: BinaryOp::Or, right } => {
            assert!(matches!(*right, Expr::Ident(ref n) if n == "d"));
            match *left {
                Expr::BinaryOp { left: l2, op: BinaryOp::And, .. } => {
                    assert!(matches!(*l2, Expr::BinaryOp { op: BinaryOp::Lt, .. }));
                },
                other => panic!("{:?}", other),
            }
        },
        other => panic!("{:?}", other),
    }
}

#[test]
fn precedence_levels() {
    assert_eq!(op_precedence(BinaryOp::Mul), 5);
    assert_eq!(op_precedence(BinaryOp::Div), 5);
    assert_eq!(op_precedence(BinaryOp::Add), 4);
    assert_eq!(op_precedence(BinaryOp::Sub), 4);
    assert_eq!(op_precedence(BinaryOp::Ge), 3);
    assert_eq!(op_precedence(BinaryOp::And), 2);
    assert_eq!(op_precedence(BinaryOp::Or), 1);
}

#[test]
fn function_header_params_and_return_type() {
    let prog = parse("fn add(a: i32, b) -> i32 { return a; } fn g() {}").unwrap();
    assert_eq!(prog.functions.len(), 2);
    let f = &prog.functions[0];
    assert_eq!(f.name, "add");
    assert_eq!(f.params.len(), 2);
    assert_eq!(f.params[0], ("a".to_string(), Some("i32".to_string())));
    assert_eq!(f.params[1], ("b".to_string(), None));
    assert_eq!(f.return_type, Some("i32".to_string()));
    assert!(matches!(&f.body[0], Stmt::Return(Some(Expr::Ident(n))) if n == "a"));
    assert_eq!(prog.functions[1].name, "g");
    assert!(prog.functions[1].body.is_empty());
    assert_eq!(prog.functions[1].return_type, None);
}

#[test]
fn statements_let_while_if_call() {
    let src = "fn main() { let x: i32 = f(1, 2); while x < 3 { x; } if x { 1; } else { 2; } return; }";
    let prog = parse(src).unwrap();
    let body = &prog.functions[0].body;
    assert_eq!(body.len(), 4);
    match &body[0] {
        Stmt::Let { name, type_annot, value } => {
            assert_eq!(name, "x");
            assert_eq!(type_annot.as_deref(), Some("i32"));
            assert!(matches!(value, Expr::Call { callee, args } if callee == "f" && args.len() == 2));
        },
        other => panic!("{:?}", other),
    }
    assert!(matches!(&body[1], Stmt::While { body, .. } if body.len() == 1));
    assert!(matches!(&body[2], Stmt::Expr(Expr::If { else_branch: Some(e), .. }) if e.len() == 1));
    assert!(matches!(&body[3], Stmt::Return(None)));
}

#[test]
fn empty_program_parses() {
    assert!(parse("  // nothing\n").unwrap().functions.is_empty());
}

#[test]
fn missing_paren_names_expected_token_and_position() {
    let src = "fn f(a { }";
    let err = parse(src).unwrap_err();
    assert_eq!(err, ParseError { expected: Expected::RParen, at: 4 });
    let p = Parser::new(Lexer::new(src));
    assert_eq!(p.span_at(err.at), (7, 8));
}

#[test]
fn top_level_must_be_function() {
    let err = parse("let x = 1;").unwrap_err();
    assert_eq!(err, ParseError { expected: Expected::FunctionDeclaration, at: 0 });
}

#[test]
fn premature_end_of_input() {
    let err = parse("fn f() { return 1 +").unwrap_err();
    assert_eq!(err.expected, Expected::Expression);
    let err = parse("fn f() { 1;").unwrap_err();
    assert_eq!(err.expected, Expected::RBrace);
}

#[test]
fn invalid_token_is_a_parse_error() {
    let err = parse("fn f() { 1 @ 2; }").unwrap_err();
    assert_eq!(err.expected, Expected::Expression);
    assert_eq!(err.at, 6);
}

#[test]
fn missing_function_name_and_variable_name() {
    assert_eq!(parse("fn (").unwrap_err().expected, Expected::FunctionName);
    assert_eq!(parse("fn f() { let = 1; }").unwrap_err().expected, Expected::VariableName);
    assert_eq!(parse("fn f() { let x 1; }").unwrap_err().expected, Expected::Equals);
    assert_eq!(parse("fn f() -> { }").unwrap_err().expected, Expected::TypeAnnotation);
}

#[test]
fn missing_parameter_list_and_body_braces() {
    assert_eq!(parse("fn f { }").unwrap_err(), ParseError { expected: Expected::LParen, at: 2 });
    assert_eq!(parse("fn f() x").unwrap_err(), ParseError { expected: Expected::LBrace, at: 4 });
    assert_eq!(parse("fn f() { while x 1 }").unwrap_err().expected, Expected::LBrace);
}

#[test]
fn parser_takes_the_rest_of_a_started_lexer() {
    let mut lx = Lexer::new("junk fn g() { }");
    let _ = lx.next_token();
    let mut p = Parser::new(lx);
    let prog = p.parse_program().unwrap();
    assert_eq!(prog.functions.len(), 1);
    assert_eq!(prog.functions[0].name, "g");
}
