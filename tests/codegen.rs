use dlang::ast::Program;
use dlang::codegen::{CodeGen, Construct, Instr, IrType, LowerError, Value};
use dlang::driver::{compile_source, CompileError};
use dlang::ast::BinaryOp;
use dlang::lexer::{tokenize, Lexer, Token};
use dlang::parser::Parser;
use dlang::typechecker::TypeChecker;

fn program(src: &str) -> Program {
    let mut p = Parser::new(Lexer::new(src));
    p.parse_program().unwrap()
}

fn lower(src: &str) -> Result<CodeGen, LowerError> {
    let mut cg = CodeGen::new();
    cg.compile(&program(src))?;
    Ok(cg)
}

#[test]
fn add_function_end_to_end() {
    let src = "fn add(a: i32, b: i32) -> i32 { return a + b; }";
    let toks = tokenize(src);
    assert!(matches!(toks[0].0, Token::KeywordFn));
    assert!(matches!(&toks[1].0, Token::Ident(n) if n == "add"));
    assert!(matches!(toks[2].0, Token::LParen));
    assert!(matches!(toks[4].0, Token::Colon));
    assert!(matches!(toks[6].0, Token::Comma));
    assert!(matches!(toks[10].0, Token::RParen));
    assert!(matches!(toks[11].0, Token::Arrow));
    assert!(matches!(toks[13].0, Token::LBrace));
    assert!(matches!(toks[14].0, Token::KeywordReturn));
    assert!(matches!(toks[16].0, Token::Plus));
    assert!(matches!(toks[18].0, Token::Semicolon));
    assert!(matches!(toks[19].0, Token::RBrace));
    assert!(matches!(toks[20].0, Token::End));

    let prog = program(src);
    assert_eq!(prog.functions.len(), 1);
    assert_eq!(prog.functions[0].name, "add");
    assert_eq!(prog.functions[0].params.len(), 2);
    let mut tc = TypeChecker::new();
    assert!(tc.check_program(&prog).is_ok());

    let mut cg = CodeGen::new();
    assert!(cg.compile(&prog).is_ok());
    let f = &cg.module.functions[1];
    assert_eq!(f.name, "add");
    assert_eq!(f.params, vec![("a".to_string(), IrType::I32), ("b".to_string(), IrType::I32)]);
    assert_eq!(f.ret, IrType::I32);
    assert_eq!(f.blocks.len(), 1);
    let body = &f.blocks[0].instrs;
    assert_eq!(body.len(), 2);
    assert!(matches!(
        &body[0],
        Instr::Add { lhs: Value::Param(0, IrType::I32), rhs: Value::Param(1, IrType::I32) }
    ));
    assert!(matches!(&body[1], Instr::Ret(Some(Value::Temp(0, IrType::I32)))));
}

#[test]
fn module_starts_with_print_declaration() {
    let cg = CodeGen::new();
    assert_eq!(cg.module.name, "dlang");
    assert_eq!(cg.module.functions.len(), 1);
    let p = &cg.module.functions[0];
    assert_eq!(p.name, "print");
    assert_eq!(p.params, vec![("text".to_string(), IrType::Ptr)]);
    assert_eq!(p.ret, IrType::Void);
    assert!(p.blocks.is_empty());
}

#[test]
fn void_function_without_return_gets_ret_void() {
    let cg = lower("fn main() { let x = 1; x - 2; }").unwrap();
    let f = &cg.module.functions[1];
    assert_eq!(f.ret, IrType::Void);
    let body = &f.blocks[0].instrs;
    assert_eq!(f.blocks[0].label, "entry");
    assert!(matches!(&body[0], Instr::Alloca { name, ty: IrType::I32 } if name == "x"));
    assert!(matches!(&body[1], Instr::Store { slot: 0, value: Value::ConstInt(1) }));
    assert!(matches!(&body[2], Instr::Load { slot: 0, ty: IrType::I32 }));
    assert!(matches!(&body[3], Instr::Sub { lhs: Value::Temp(2, IrType::I32), rhs: Value::ConstInt(2) }));
    assert!(matches!(&body[4], Instr::Ret(None)));
    assert_eq!(body.len(), 5);
}

#[test]
fn empty_void_function_is_just_ret_void() {
    let cg = lower("fn main() { }").unwrap();
    let body = &cg.module.functions[1].blocks[0].instrs;
    assert_eq!(body.len(), 1);
    assert!(matches!(&body[0], Instr::Ret(None)));
}

#[test]
fn explicit_return_is_not_doubled_and_ends_the_block() {
    let cg = lower("fn main() { return; let x = 1; }").unwrap();
    let body = &cg.module.functions[1].blocks[0].instrs;
    assert_eq!(body.len(), 1);
    assert!(matches!(&body[0], Instr::Ret(None)));
}

#[test]
fn shadowing_let_uses_newest_slot() {
    let cg = lower("fn f() -> i32 { let x = 1; let x = true; let y = \"s\"; return 3; }").unwrap();
    let body = &cg.module.functions[1].blocks[0].instrs;
    assert!(matches!(&body[2], Instr::Alloca { ty: IrType::I1, .. }));
    assert!(matches!(&body[4], Instr::Alloca { ty: IrType::Ptr, .. }));
    assert!(matches!(&body[5], Instr::Store { slot: 4, value: Value::ConstString(s) } if s == "s"));
    let cg = lower("fn f() -> i32 { let x = 1; let x = 2; return x; }").unwrap();
    let body = &cg.module.functions[1].blocks[0].instrs;
    assert!(matches!(&body[4], Instr::Load { slot: 2, ty: IrType::I32 }));
}

#[test]
fn non_void_function_falling_through_is_an_error() {
    let r = lower("fn f() -> i32 { let x = 1; }");
    assert!(matches!(r, Err(LowerError::MissingReturn(ref n)) if n == "f"));
}

#[test]
fn unimplemented_constructs_fail_loudly() {
    assert!(matches!(
        lower("fn f() { 1 * 2; }"),
        Err(LowerError::Unsupported(Construct::Operator(BinaryOp::Mul)))
    ));
    assert!(matches!(lower("fn f() { f(); }"), Err(LowerError::Unsupported(Construct::Call))));
    assert!(matches!(lower("fn f() { while true { } }"), Err(LowerError::Unsupported(Construct::While))));
    assert!(matches!(lower("fn f() { if true { } }"), Err(LowerError::Unsupported(Construct::If))));
    assert!(matches!(lower("fn f() { 1.5 + 2.5; }"), Err(LowerError::NotInteger)));
}

#[test]
fn unknown_annotation_is_a_lowering_error() {
    assert!(matches!(lower("fn f(a) { }"), Err(LowerError::UnknownType(None))));
    assert!(matches!(lower("fn f() -> u8 { }"), Err(LowerError::UnknownType(Some(ref t))) if t == "u8"));
}

#[test]
fn compile_source_stops_at_first_failing_phase() {
    assert!(matches!(compile_source("fn f( {"), Err(CompileError::Parse(_))));
    assert!(matches!(compile_source("fn f() { y; }"), Err(CompileError::Type(_))));
    assert!(matches!(compile_source("fn f() { 1 * 2; }"), Err(CompileError::Lower(_))));
    let m = compile_source("fn f() -> f64 { return 1.5; } fn g(b: bool) -> bool { return b; }").unwrap();
    assert_eq!(m.functions.len(), 3);
    assert!(matches!(&m.functions[1].blocks[0].instrs[0], Instr::Ret(Some(Value::ConstFloat(t))) if t == "1.5"));
    assert_eq!(m.functions[2].params, vec![("b".to_string(), IrType::I1)]);
}

#[test]
fn function_used_as_value_cannot_be_lowered() {
    let r = lower("fn f() { let a = f; }");
    assert!(matches!(r, Err(LowerError::UnknownName(ref n)) if n == "f"));
}
