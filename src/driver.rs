use vstd::prelude::*;
use vstd::string::StringSliceAdditionalSpecFns;
use crate::codegen::{lower_program_spec, module_view, print_declaration, CodeGen, IrModule, LowerError};
use crate::lexer::{token_stream, Lexer, Token};
use crate::parser::{kinds, spec_program, ParseError, Parser};
use crate::typechecker::{check_program_spec, TypeChecker, TypeError};

verus! {

/// The failure of the first phase that rejected the source.
#[derive(Debug)]
pub enum CompileError {
    Parse(ParseError),
    Type(TypeError),
    Lower(LowerError),
}

/// What compiling a source whose token stream is `ts` yields: each phase runs
/// only when the one before it succeeded.
pub open spec fn compile_outcome(ts: Seq<(Token, (usize, usize))>, r: Result<IrModule, CompileError>) -> bool {
    match spec_program(kinds(ts)) {
        Err(e) => r == Err::<IrModule, CompileError>(CompileError::Parse(e)),
        Ok(p) => match check_program_spec(p) {
            Err(x) => r matches Err(CompileError::Type(y)) && y@ == x,
            Ok(()) => match lower_program_spec(p) {
                Err(x) => r matches Err(CompileError::Lower(y)) && y@ == x,
                Ok(fs) => r matches Ok(m) && module_view(&m) == seq![print_declaration()] + fs,
            },
        },
    }
}

/// Compiles one source text to an IR module.
pub fn compile_source(source: &str) -> (r: Result<IrModule, CompileError>)
    ensures
        exists|ts: Seq<(Token, (usize, usize))>|
            token_stream(source.spec_bytes(), 0, ts) && compile_outcome(ts, r),
{
    let lexer = Lexer::new(source);
    let mut parser = Parser::new(lexer);
    let ghost ts = parser.stream();
    let r = compile_tokens(&mut parser);
    assert(token_stream(source.spec_bytes(), 0, ts) && compile_outcome(ts, r));
    r
}

fn compile_tokens(parser: &mut Parser) -> (r: Result<IrModule, CompileError>)
    requires
        old(parser).wf(),
    ensures
        compile_outcome(old(parser).stream(), r),
{
    let program = match parser.parse_program() {
        Ok(p) => p,
        Err(e) => {
            return Err(CompileError::Parse(e));
        },
    };
    let mut checker = TypeChecker::new();
    match checker.check_program(&program) {
        Ok(()) => {},
        Err(x) => {
            return Err(CompileError::Type(x));
        },
    }
    let mut codegen = CodeGen::new();
    match codegen.compile(&program) {
        Ok(()) => {},
        Err(x) => {
            return Err(CompileError::Lower(x));
        },
    }
    Ok(codegen.module)
}

} // verus!
