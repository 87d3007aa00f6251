// A compiler front end for a small statically typed language: a tokenizer,
// a precedence-climbing parser, a two-pass type checker, and a lowering to a
// small IR module. Each phase is specified by spec functions over models of
// its data and verified against them.
pub mod ast;
pub mod codegen;
pub mod driver;
pub mod lexer;
pub mod parser;
pub mod typechecker;
