use dlang::ast::Program;
use dlang::lexer::Lexer;
use dlang::parser::Parser;
use dlang::typechecker::{Type, TypeChecker, TypeError};

fn program(src: &str) -> Program {
    let mut p = Parser::new(Lexer::new(src));
    p.parse_program().unwrap()
}

fn check(src: &str) -> Result<(), TypeError> {
    let mut tc = TypeChecker::new();
    tc.check_program(&program(src))
}

#[test]
fn undefined_variable_is_named() {
    let r = check("fn f(a: i32) -> i32 { return a + y; }");
    assert!(matches!(r, Err(TypeError::UndefinedVariable(ref n)) if n == "y"));
}

#[test]
fn call_with_wrong_argument_count() {
    let r = check("fn z() -> i32 { return 1; } fn main() { z(5); }");
    assert!(matches!(r, Err(TypeError::ArgumentCount { expected: 0, found: 1 })));
}

#[test]
fn int_plus_bool_is_a_binary_mismatch() {
    let r = check("fn main() { let x = 1 + true; }");
    assert!(matches!(r, Err(TypeError::BinaryMismatch { left: Type::Int, right: Type::Bool })));
}

#[test]
fn well_typed_program_passes() {
    let src = "fn add(a: i32, b: i32) -> i32 { return a + b; } \
               fn main() { let s: i32 = add(1, 2); let ok: bool = s < 3 && true; let t = \"hi\"; }";
    assert!(check(src).is_ok());
}

#[test]
fn forward_reference_to_later_function() {
    assert!(check("fn main() { later(1.5); } fn later(x: f64) { }").is_ok());
}

#[test]
fn duplicate_function_is_rejected() {
    let r = check("fn f() { } fn f() { }");
    assert!(matches!(r, Err(TypeError::DuplicateFunction(ref n)) if n == "f"));
}

#[test]
fn duplicate_parameter_is_rejected() {
    let r = check("fn f(a: i32, a: bool) { }");
    assert!(matches!(r, Err(TypeError::DuplicateParameter(ref n)) if n == "a"));
}

#[test]
fn let_annotation_must_match_value() {
    let r = check("fn main() { let x: bool = 1; }");
    assert!(matches!(r, Err(TypeError::Mismatch { declared: Type::Bool, value: Type::Int })));
}

#[test]
fn unknown_annotation_never_matches() {
    let r = check("fn main() { let x: u8 = 1; }");
    assert!(matches!(r, Err(TypeError::Mismatch { declared: Type::Error, value: Type::Int })));
    let r = check("fn f(a) { let b = a + a; }");
    assert!(matches!(r, Err(TypeError::BinaryMismatch { left: Type::Error, right: Type::Error })));
}

#[test]
fn arithmetic_and_logic_operand_rules() {
    assert!(matches!(check("fn main() { true + false; }"), Err(TypeError::ArithmeticNeedsNumbers)));
    assert!(matches!(check("fn main() { 1 && 2; }"), Err(TypeError::LogicalNeedsBooleans)));
    assert!(matches!(
        check("fn main() { 1 + 2.5; }"),
        Err(TypeError::BinaryMismatch { left: Type::Int, right: Type::Float })
    ));
    assert!(check("fn main() { let b: bool = \"a\" == \"b\"; let f: f64 = 1.5 * 2.0; }").is_ok());
}

#[test]
fn argument_type_is_checked_by_position() {
    let r = check("fn g(a: i32, b: str) { } fn main() { g(1, 2); }");
    assert!(matches!(r, Err(TypeError::ArgumentType { index: 1, param: Type::String, arg: Type::Int })));
}

#[test]
fn calling_a_variable_is_not_a_function() {
    let r = check("fn main() { let x = 1; x(); }");
    assert!(matches!(r, Err(TypeError::NotAFunction(ref n)) if n == "x"));
    let r = check("fn main() { nothing(); }");
    assert!(matches!(r, Err(TypeError::UndefinedVariable(ref n)) if n == "nothing"));
}

#[test]
fn let_inside_a_loop_body_stays_visible_after_it() {
    assert!(check("fn main() { while true { let y = 1; } let z: i32 = y; }").is_ok());
}

#[test]
fn symbol_table_holds_signatures_after_checking() {
    let mut tc = TypeChecker::new();
    assert!(tc.check_program(&program("fn f(a: i32) -> bool { return true; }")).is_ok());
    let t = tc.parse_type(&Some("f64".to_string()));
    assert!(matches!(t, Type::Float));
    assert!(matches!(tc.parse_type(&None), Type::Error));
    assert!(matches!(tc.parse_type(&Some("str".to_string())), Type::String));
    assert!(tc.check_program(&program("fn f() { } fn f() { }")).is_err());
    assert!(tc.check_program(&program("fn f() { }")).is_ok());
}
