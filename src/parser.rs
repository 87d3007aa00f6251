use vstd::prelude::*;
use crate::ast::{
    opt_str_view, view_exprs, view_params, view_stmts, BinaryOp, Expr, ExprModel, Function,
    FunctionModel, LitModel, Literal, ParamModel, Program, Stmt, StmtModel,
};
use crate::lexer::{token_stream, Lexer, Token};

verus! {

/// What the parser was looking for when it stopped.
#[derive(Clone, Copy, PartialEq, Eq, Structural, Debug)]
pub enum Expected {
    FunctionDeclaration,
    FunctionName,
    VariableName,
    TypeAnnotation,
    Expression,
    KeywordFn,
    LParen,
    RParen,
    LBrace,
    RBrace,
    Equals,
}

/// The first syntax error: what was expected, and the index of the token
/// found instead (its span is `Parser::span_at(at)`).
#[derive(Clone, Copy, PartialEq, Eq, Structural, Debug)]
pub struct ParseError {
    pub expected: Expected,
    pub at: usize,
}

// ---------------------------------------------------------------------------
// The grammar, as a function on the token sequence
pub open spec fn tok(ts: Seq<Token>, i: int) -> Token {
    if 0 <= i < ts.len() {
        ts[i]
    } else {
        Token::End
    }
}

pub open spec fn fail<X>(what: Expected, i: int) -> Result<X, ParseError> {
    Err(ParseError { expected: what, at: i as usize })
}

/// A sub-parse that started at `i` and ended at `p` consumed something.
pub open spec fn advanced(ts: Seq<Token>, i: int, p: int) -> bool {
    i < p <= ts.len()
}

pub open spec fn binop_of(t: Token) -> Option<BinaryOp> {
    match t {
        Token::Plus => Some(BinaryOp::Add),
        Token::Minus => Some(BinaryOp::Sub),
        Token::Star => Some(BinaryOp::Mul),
        Token::Slash => Some(BinaryOp::Div),
        Token::DoubleEquals => Some(BinaryOp::Eq),
        Token::NotEquals => Some(BinaryOp::Neq),
        Token::LessThan => Some(BinaryOp::Lt),
        Token::GreaterThan => Some(BinaryOp::Gt),
        Token::LessOrEqual => Some(BinaryOp::Le),
        Token::GreaterOrEqual => Some(BinaryOp::Ge),
        Token::And => Some(BinaryOp::And),
        Token::Or => Some(BinaryOp::Or),
        _ => None,
    }
}

/// Binding strength: multiplicative 5, additive 4, comparison 3, `&&` 2, `||` 1.
pub open spec fn prec(op: BinaryOp) -> nat {
    match op {
        BinaryOp::Mul | BinaryOp::Div => 5,
        BinaryOp::Add | BinaryOp::Sub => 4,
        BinaryOp::Eq | BinaryOp::Neq | BinaryOp::Lt | BinaryOp::Gt | BinaryOp::Le | BinaryOp::Ge => 3,
        BinaryOp::And => 2,
        BinaryOp::Or => 1,
    }
}

/// `stmt*` up to a `}` (or the end), each optionally followed by `;`.
pub open spec fn spec_block(ts: Seq<Token>, i: int, acc: Seq<StmtModel>) -> Result<
    (Seq<StmtModel>, int),
    ParseError,
>
    decreases ts.len() - i, 7nat,
{
    if tok(ts, i) == Token::RBrace || tok(ts, i) == Token::End {
        Ok((acc, i))
    } else {
        match spec_stmt(ts, i) {
            Ok((s, p)) => if advanced(ts, i, p) {
                let q = if tok(ts, p) == Token::Semicolon {
                    p + 1
                } else {
                    p
                };
                spec_block(ts, q, acc.push(s))
            } else {
                fail(Expected::Expression, i)
            },
            Err(e) => Err(e),
        }
    }
}

pub open spec fn spec_stmt(ts: Seq<Token>, i: int) -> Result<(StmtModel, int), ParseError>
    decreases ts.len() - i, 6nat,
{
    match tok(ts, i) {
        Token::KeywordLet => match tok(ts, i + 1) {
            Token::Ident(n) => {
                let annot: Result<(Option<Seq<char>>, int), ParseError> = if tok(ts, i + 2)
                    == Token::Colon {
                    match tok(ts, i + 3) {
                        Token::Ident(t) => Ok((Some(t@), i + 4)),
                        _ => fail(Expected::TypeAnnotation, i + 3),
                    }
                } else {
                    Ok((None, i + 2))
                };
                match annot {
                    Ok((a, j)) => if tok(ts, j) == Token::Equals && i < j {
                        match spec_expr(ts, j + 1) {
                            Ok((v, p)) => Ok((StmtModel::Let(n@, a, v), p)),
                            Err(e) => Err(e),
                        }
                    } else {
                        fail(Expected::Equals, j)
                    },
                    Err(e) => Err(e),
                }
            },
            _ => fail(Expected::VariableName, i + 1),
        },
        Token::KeywordReturn => {
            let t = tok(ts, i + 1);
            if t == Token::Semicolon || t == Token::RBrace || t == Token::End {
                Ok((StmtModel::Return(None), i + 1))
            } else {
                match spec_expr(ts, i + 1) {
                    Ok((e, p)) => Ok((StmtModel::Return(Some(e)), p)),
                    Err(e) => Err(e),
                }
            }
        },
        Token::KeywordWhile => match spec_expr(ts, i + 1) {
            Ok((c, p)) => if tok(ts, p) == Token::LBrace && advanced(ts, i, p) {
                match spec_block(ts, p + 1, Seq::empty()) {
                    Ok((body, q)) => if tok(ts, q) == Token::RBrace {
                        Ok((StmtModel::While(c, body), q + 1))
                    } else {
                        fail(Expected::RBrace, q)
                    },
                    Err(e) => Err(e),
                }
            } else {
                fail(Expected::LBrace, p)
            },
            Err(e) => Err(e),
        },
        Token::KeywordIf => match spec_if(ts, i) {
            Ok((e, p)) => Ok((StmtModel::Expr(e), p)),
            Err(e) => Err(e),
        },
        _ => match spec_expr(ts, i) {
            Ok((e, p)) => Ok((StmtModel::Expr(e), p)),
            Err(e) => Err(e),
        },
    }
}

pub open spec fn spec_expr(ts: Seq<Token>, i: int) -> Result<(ExprModel, int), ParseError>
    decreases ts.len() - i, 5nat,
{
    spec_binary(ts, i, 0)
}

/// A binary expression whose operators all bind at least as tightly as `min`.
pub open spec fn spec_binary(ts: Seq<Token>, i: int, min: nat) -> Result<(ExprModel, int), ParseError>
    decreases ts.len() - i, 4nat,
{
    match spec_primary(ts, i) {
        Ok((left, p)) => if advanced(ts, i, p) {
            spec_climb(ts, left, p, min)
        } else {
            fail(Expected::Expression, i)
        },
        Err(e) => Err(e),
    }
}

/// Precedence climbing: fold operators of precedence at least `min` into
/// `left`; each right operand takes only operators binding more tightly,
/// which makes equal operators associate to the left.
pub open spec fn spec_climb(ts: Seq<Token>, left: ExprModel, i: int, min: nat) -> Result<
    (ExprModel, int),
    ParseError,
>
    decreases ts.len() - i, 0nat,
{
    match binop_of(tok(ts, i)) {
        Some(op) => if prec(op) >= min && 0 <= i < ts.len() {
            match spec_binary(ts, i + 1, prec(op) + 1) {
                Ok((right, p)) => if advanced(ts, i, p) {
                    spec_climb(ts, ExprModel::Binary(Box::new(left), op, Box::new(right)), p, min)
                } else {
                    fail(Expected::Expression, i)
                },
                Err(e) => Err(e),
            }
        } else {
            Ok((left, i))
        },
        None => Ok((left, i)),
    }
}

pub open spec fn spec_primary(ts: Seq<Token>, i: int) -> Result<(ExprModel, int), ParseError>
    decreases ts.len() - i, 3nat,
{
    match tok(ts, i) {
        Token::Int(n) => Ok((ExprModel::Lit(LitModel::Int(n as int)), i + 1)),
        Token::Float(x) => Ok((ExprModel::Lit(LitModel::Float(x@)), i + 1)),
        Token::StringLit(s) => Ok((ExprModel::Lit(LitModel::Str(s@)), i + 1)),
        Token::Bool(b) => Ok((ExprModel::Lit(LitModel::Bool(b)), i + 1)),
        Token::Ident(n) => if tok(ts, i + 1) == Token::LParen {
            match spec_args(ts, i + 2, Seq::empty()) {
                Ok((args, p)) => if tok(ts, p) == Token::RParen {
                    Ok((ExprModel::Call(n@, args), p + 1))
                } else {
                    fail(Expected::RParen, p)
                },
                Err(e) => Err(e),
            }
        } else {
            Ok((ExprModel::Ident(n@), i + 1))
        },
        Token::LParen => match spec_expr(ts, i + 1) {
            Ok((e, p)) => if tok(ts, p) == Token::RParen {
                Ok((e, p + 1))
            } else {
                fail(Expected::RParen, p)
            },
            Err(e) => Err(e),
        },
        Token::KeywordIf => spec_if(ts, i),
        _ => fail(Expected::Expression, i),
    }
}

/// Call arguments: comma-separated expressions up to a `)`.
pub open spec fn spec_args(ts: Seq<Token>, i: int, acc: Seq<ExprModel>) -> Result<
    (Seq<ExprModel>, int),
    ParseError,
>
    decreases ts.len() - i, 6nat,
{
    if tok(ts, i) == Token::RParen {
        Ok((acc, i))
    } else {
        match spec_expr(ts, i) {
            Ok((e, p)) => if advanced(ts, i, p) {
                if tok(ts, p) == Token::Comma {
                    spec_args(ts, p + 1, acc.push(e))
                } else {
                    Ok((acc.push(e), p))
                }
            } else {
                fail(Expected::Expression, i)
            },
            Err(e) => Err(e),
        }
    }
}

/// `if expr { stmt* }`, optionally followed by `else { stmt* }`.
pub open spec fn spec_if(ts: Seq<Token>, i: int) -> Result<(ExprModel, int), ParseError>
    decreases ts.len() - i, 2nat,
{
    if 0 <= i < ts.len() {
        match spec_expr(ts, i + 1) {
            Ok((c, p)) => if tok(ts, p) == Token::LBrace && advanced(ts, i, p) {
                match spec_block(ts, p + 1, Seq::empty()) {
                    Ok((then_b, q)) => if tok(ts, q) == Token::RBrace && p < q {
                        if tok(ts, q + 1) == Token::KeywordElse {
                            if tok(ts, q + 2) == Token::LBrace {
                                match spec_block(ts, q + 3, Seq::empty()) {
                                    Ok((else_b, r)) => if tok(ts, r) == Token::RBrace {
                                        Ok(
                                            (
                                                ExprModel::If(Box::new(c), then_b, Some(else_b)),
                                                r + 1,
                                            ),
                                        )
                                    } else {
                                        fail(Expected::RBrace, r)
                                    },
                                    Err(e) => Err(e),
                                }
                            } else {
                                fail(Expected::LBrace, q + 2)
                            }
                        } else {
                            Ok((ExprModel::If(Box::new(c), then_b, None), q + 1))
                        }
                    } else {
                        fail(Expected::RBrace, q)
                    },
                    Err(e) => Err(e),
                }
            } else {
                fail(Expected::LBrace, p)
            },
            Err(e) => Err(e),
        }
    } else {
        fail(Expected::Expression, i)
    }
}

/// `name (: type)?` items separated by commas; stops at anything else.
pub open spec fn spec_params(ts: Seq<Token>, i: int, acc: Seq<ParamModel>) -> Result<
    (Seq<ParamModel>, int),
    ParseError,
>
    decreases ts.len() - i,
{
    match tok(ts, i) {
        Token::Ident(n) => {
            let annot: Result<(Option<Seq<char>>, int), ParseError> = if tok(ts, i + 1)
                == Token::Colon {
                match tok(ts, i + 2) {
                    Token::Ident(t) => Ok((Some(t@), i + 3)),
                    _ => fail(Expected::TypeAnnotation, i + 2),
                }
            } else {
                Ok((None, i + 1))
            };
            match annot {
                Ok((a, j)) => if tok(ts, j) == Token::Comma && i < j {
                    spec_params(ts, j + 1, acc.push((n@, a)))
                } else {
                    Ok((acc.push((n@, a)), j))
                },
                Err(e) => Err(e),
            }
        },
        _ => Ok((acc, i)),
    }
}

/// `fn name ( params ) (-> type)? { stmt* }`
pub open spec fn spec_function(ts: Seq<Token>, i: int) -> Result<(FunctionModel, int), ParseError> {
    if tok(ts, i) != Token::KeywordFn {
        fail(Expected::KeywordFn, i)
    } else {
        match tok(ts, i + 1) {
            Token::Ident(name) => if tok(ts, i + 2) != Token::LParen {
                fail(Expected::LParen, i + 2)
            } else {
                match spec_params(ts, i + 3, Seq::empty()) {
                    Ok((params, p)) => if tok(ts, p) != Token::RParen {
                        fail(Expected::RParen, p)
                    } else {
                        let ret: Result<(Option<Seq<char>>, int), ParseError> = if tok(ts, p + 1)
                            == Token::Arrow {
                            match tok(ts, p + 2) {
                                Token::Ident(t) => Ok((Some(t@), p + 3)),
                                _ => fail(Expected::TypeAnnotation, p + 2),
                            }
                        } else {
                            Ok((None, p + 1))
                        };
                        match ret {
                            Ok((ret, q)) => if tok(ts, q) != Token::LBrace {
                                fail(Expected::LBrace, q)
                            } else {
                                match spec_block(ts, q + 1, Seq::empty()) {
                                    Ok((body, r)) => if tok(ts, r) != Token::RBrace {
                                        fail(Expected::RBrace, r)
                                    } else {
                                        Ok(
                                            (
                                                FunctionModel { name: name@, params, ret, body },
                                                r + 1,
                                            ),
                                        )
                                    },
                                    Err(e) => Err(e),
                                }
                            },
                            Err(e) => Err(e),
                        }
                    },
                    Err(e) => Err(e),
                }
            },
            _ => fail(Expected::FunctionName, i + 1),
        }
    }
}

pub open spec fn spec_functions(ts: Seq<Token>, i: int, acc: Seq<FunctionModel>) -> Result<
    Seq<FunctionModel>,
    ParseError,
>
    decreases ts.len() - i,
{
    if tok(ts, i) == Token::End {
        Ok(acc)
    } else if tok(ts, i) == Token::KeywordFn {
        match spec_function(ts, i) {
            Ok((f, p)) => if advanced(ts, i, p) {
                spec_functions(ts, p, acc.push(f))
            } else {
                fail(Expected::FunctionDeclaration, i)
            },
            Err(e) => Err(e),
        }
    } else {
        fail(Expected::FunctionDeclaration, i)
    }
}

/// The program the token sequence spells, or its first syntax error.
pub open spec fn spec_program(ts: Seq<Token>) -> Result<Seq<FunctionModel>, ParseError> {
    spec_functions(ts, 0, Seq::empty())
}

// ---------------------------------------------------------------------------
// Results seen through the models
pub open spec fn expr_res(r: Result<(Expr, usize), ParseError>) -> Result<(ExprModel, int), ParseError> {
    match r {
        Ok((e, p)) => Ok((e@, p as int)),
        Err(e) => Err(e),
    }
}

pub open spec fn stmt_res(r: Result<(Stmt, usize), ParseError>) -> Result<(StmtModel, int), ParseError> {
    match r {
        Ok((s, p)) => Ok((s@, p as int)),
        Err(e) => Err(e),
    }
}

pub open spec fn stmts_res(r: Result<(Vec<Stmt>, usize), ParseError>) -> Result<
    (Seq<StmtModel>, int),
    ParseError,
> {
    match r {
        Ok((s, p)) => Ok((view_stmts(s@), p as int)),
        Err(e) => Err(e),
    }
}

pub open spec fn exprs_res(r: Result<(Vec<Expr>, usize), ParseError>) -> Result<
    (Seq<ExprModel>, int),
    ParseError,
> {
    match r {
        Ok((s, p)) => Ok((view_exprs(s@), p as int)),
        Err(e) => Err(e),
    }
}

pub open spec fn params_res(r: Result<(Vec<(String, Option<String>)>, usize), ParseError>) -> Result<
    (Seq<ParamModel>, int),
    ParseError,
> {
    match r {
        Ok((s, p)) => Ok((view_params(s@), p as int)),
        Err(e) => Err(e),
    }
}

pub open spec fn function_res(r: Result<(Function, usize), ParseError>) -> Result<
    (FunctionModel, int),
    ParseError,
> {
    match r {
        Ok((f, p)) => Ok((f@, p as int)),
        Err(e) => Err(e),
    }
}

pub open spec fn program_res(r: Result<Program, ParseError>) -> Result<Seq<FunctionModel>, ParseError> {
    match r {
        Ok(p) => Ok(p@),
        Err(e) => Err(e),
    }
}

/// A sub-parse from `i` that succeeded ended before the end marker.
pub open spec fn ends_within<X>(r: Result<(X, usize), ParseError>, i: int, len: int, strict: bool) -> bool {
    r matches Ok((_, p)) ==> (if strict { i < p } else { i <= p }) && p < len
}

/// Binding strength of a binary operator.
pub fn op_precedence(op: BinaryOp) -> (r: u8)
    ensures
        r as nat == prec(op),
{
    match op {
        BinaryOp::Mul | BinaryOp::Div => 5,
        BinaryOp::Add | BinaryOp::Sub => 4,
        BinaryOp::Eq | BinaryOp::Neq | BinaryOp::Lt | BinaryOp::Gt | BinaryOp::Le | BinaryOp::Ge => 3,
        BinaryOp::And => 2,
        BinaryOp::Or => 1,
    }
}

/// A recursive-descent parser over a fully scanned token sequence; one token
/// of lookahead is the token at the current index, and the next index may be
/// inspected without consuming.
pub struct Parser {
    stream: Vec<(Token, (usize, usize))>,
}

pub open spec fn kinds(ts: Seq<(Token, (usize, usize))>) -> Seq<Token> {
    ts.map_values(|x: (Token, (usize, usize))| x.0)
}

impl Parser {
    pub closed spec fn stream(&self) -> Seq<(Token, (usize, usize))> {
        self.stream@
    }

    pub open spec fn tokens(&self) -> Seq<Token> {
        kinds(self.stream())
    }

    pub open spec fn wf(&self) -> bool {
        &&& 1 <= self.stream().len() <= usize::MAX
        &&& self.tokens().last() == Token::End
    }

    /// Takes the rest of the lexer's token stream.
    pub fn new(lexer: Lexer) -> (r: Parser)
        requires
            lexer.wf(),
        ensures
            r.wf(),
            token_stream(lexer.source(), lexer.position(), r.stream()),
    {
        let stream = crate::lexer::collect_tokens(lexer);
        let _n = stream.len();
        Parser { stream }
    }

    /// The span of the token at index `at`, for reporting an error.
    pub fn span_at(&self, at: usize) -> (r: (usize, usize))
        ensures
            at < self.stream().len() ==> r == self.stream()[at as int].1,
    {
        if at < self.stream.len() {
            self.stream[at].1
        } else {
            (0, 0)
        }
    }

    fn current_binary_op(&self, i: usize) -> (r: Option<BinaryOp>)
        requires
            i < self.stream().len(),
        ensures
            r == binop_of(tok(self.tokens(), i as int)),
    {
        match &self.stream[i].0 {
            Token::Plus => Some(BinaryOp::Add),
            Token::Minus => Some(BinaryOp::Sub),
            Token::Star => Some(BinaryOp::Mul),
            Token::Slash => Some(BinaryOp::Div),
            Token::DoubleEquals => Some(BinaryOp::Eq),
            Token::NotEquals => Some(BinaryOp::Neq),
            Token::LessThan => Some(BinaryOp::Lt),
            Token::GreaterThan => Some(BinaryOp::Gt),
            Token::LessOrEqual => Some(BinaryOp::Le),
            Token::GreaterOrEqual => Some(BinaryOp::Ge),
            Token::And => Some(BinaryOp::And),
            Token::Or => Some(BinaryOp::Or),
            _ => None,
        }
    }

    fn parse_block(&self, i0: usize) -> (r: Result<(Vec<Stmt>, usize), ParseError>)
        requires
            self.wf(),
            i0 < self.stream().len(),
        ensures
            stmts_res(r) == spec_block(self.tokens(), i0 as int, Seq::empty()),
            ends_within(r, i0 as int, self.stream().len() as int, false),
        decreases self.stream().len() - i0, 7nat,
    {
        let ghost ts = self.tokens();
        let mut out: Vec<Stmt> = Vec::new();
        let mut i = i0;
        assert(view_stmts(out@) =~= Seq::<StmtModel>::empty());
        loop
            invariant
                self.wf(),
                ts == self.tokens(),
                i0 <= i < ts.len(),
                spec_block(ts, i0 as int, Seq::empty()) == spec_block(ts, i as int, view_stmts(out@)),
            decreases ts.len() - i,
        {
            if matches!(self.stream[i].0, Token::RBrace) || matches!(self.stream[i].0, Token::End) {
                return Ok((out, i));
            }
            match self.parse_stmt(i) {
                Ok((st, p)) => {
                    proof {
                        crate::ast::lemma_view_stmts_push(out@, st);
                    }
                    out.push(st);
                    if matches!(self.stream[p].0, Token::Semicolon) {
                        i = p + 1;
                    } else {
                        i = p;
                    }
                },
                Err(e) => {
                    return Err(e);
                },
            }
        }
    }

    fn parse_stmt(&self, i: usize) -> (r: Result<(Stmt, usize), ParseError>)
        requires
            self.wf(),
            i < self.stream().len(),
        ensures
            stmt_res(r) == spec_stmt(self.tokens(), i as int),
            ends_within(r, i as int, self.stream().len() as int, true),
        decreases self.stream().len() - i, 6nat,
    {
        match &self.stream[i].0 {
            Token::KeywordLet => self.parse_let_stmt(i),
            Token::KeywordReturn => self.parse_return_stmt(i),
            Token::KeywordWhile => self.parse_while_stmt(i),
            Token::KeywordIf => {
                match self.parse_if_expr(i) {
                    Ok((e, p)) => Ok((Stmt::Expr(e), p)),
                    Err(e) => Err(e),
                }
            },
            _ => {
                match self.parse_expr(i) {
                    Ok((e, p)) => Ok((Stmt::Expr(e), p)),
                    Err(e) => Err(e),
                }
            },
        }
    }

    /// A type annotation: one identifier.
    fn parse_type_annotation(&self, i: usize) -> (r: Result<(String, usize), ParseError>)
        requires
            self.wf(),
            i < self.stream().len(),
        ensures
            match tok(self.tokens(), i as int) {
                Token::Ident(t) => r matches Ok((x, p)) && x@ == t@ && p == i + 1,
                _ => r == fail::<(String, usize)>(Expected::TypeAnnotation, i as int),
            },
    {
        match &self.stream[i].0 {
            Token::Ident(t) => Ok((t.clone(), i + 1)),
            _ => Err(ParseError { expected: Expected::TypeAnnotation, at: i }),
        }
    }

    /// `let name (: type)? = expr`
    fn parse_let_stmt(&self, i: usize) -> (r: Result<(Stmt, usize), ParseError>)
        requires
            self.wf(),
            i < self.stream().len(),
            self.tokens()[i as int] == Token::KeywordLet,
        ensures
            stmt_res(r) == spec_stmt(self.tokens(), i as int),
            ends_within(r, i as int, self.stream().len() as int, true),
        decreases self.stream().len() - i, 5nat,
    {
        let name = match &self.stream[i + 1].0 {
            Token::Ident(n) => n.clone(),
            _ => {
                return Err(ParseError { expected: Expected::VariableName, at: i + 1 });
            },
        };
        let mut j = i + 2;
        let mut annot: Option<String> = None;
        if matches!(self.stream[j].0, Token::Colon) {
            match self.parse_type_annotation(j + 1) {
                Ok((t, k)) => {
                    annot = Some(t);
                    j = k;
                },
                Err(e) => {
                    return Err(e);
                },
            }
        }
        if !matches!(self.stream[j].0, Token::Equals) {
            return Err(ParseError { expected: Expected::Equals, at: j });
        }
        match self.parse_expr(j + 1) {
            Ok((v, p)) => Ok((Stmt::Let { name, type_annot: annot, value: v }, p)),
            Err(e) => Err(e),
        }
    }

    /// `return expr?`; the value is absent before `;`, `}` or the end.
    fn parse_return_stmt(&self, i: usize) -> (r: Result<(Stmt, usize), ParseError>)
        requires
            self.wf(),
            i < self.stream().len(),
            self.tokens()[i as int] == Token::KeywordReturn,
        ensures
            stmt_res(r) == spec_stmt(self.tokens(), i as int),
            ends_within(r, i as int, self.stream().len() as int, true),
        decreases self.stream().len() - i, 5nat,
    {
        if matches!(self.stream[i + 1].0, Token::Semicolon) || matches!(
            self.stream[i + 1].0,
            Token::RBrace
        ) || matches!(self.stream[i + 1].0, Token::End) {
            Ok((Stmt::Return(None), i + 1))
        } else {
            match self.parse_expr(i + 1) {
                Ok((e, p)) => Ok((Stmt::Return(Some(e)), p)),
                Err(e) => Err(e),
            }
        }
    }

    /// `while expr { stmt* }`
    fn parse_while_stmt(&self, i: usize) -> (r: Result<(Stmt, usize), ParseError>)
        requires
            self.wf(),
            i < self.stream().len(),
            self.tokens()[i as int] == Token::KeywordWhile,
        ensures
            stmt_res(r) == spec_stmt(self.tokens(), i as int),
            ends_within(r, i as int, self.stream().len() as int, true),
        decreases self.stream().len() - i, 5nat,
    {
        match self.parse_expr(i + 1) {
            Ok((c, p)) => {
                if !matches!(self.stream[p].0, Token::LBrace) {
                    return Err(ParseError { expected: Expected::LBrace, at: p });
                }
                match self.parse_block(p + 1) {
                    Ok((body, q)) => {
                        if !matches!(self.stream[q].0, Token::RBrace) {
                            return Err(ParseError { expected: Expected::RBrace, at: q });
                        }
                        Ok((Stmt::While { condition: c, body }, q + 1))
                    },
                    Err(e) => Err(e),
                }
            },
            Err(e) => Err(e),
        }
    }

    fn parse_expr(&self, i: usize) -> (r: Result<(Expr, usize), ParseError>)
        requires
            self.wf(),
            i < self.stream().len(),
        ensures
            expr_res(r) == spec_expr(self.tokens(), i as int),
            ends_within(r, i as int, self.stream().len() as int, true),
        decreases self.stream().len() - i, 5nat,
    {
        self.parse_binary_expr(i, 0)
    }

    fn parse_binary_expr(&self, i0: usize, min: u8) -> (r: Result<(Expr, usize), ParseError>)
        requires
            self.wf(),
            i0 < self.stream().len(),
        ensures
            expr_res(r) == spec_binary(self.tokens(), i0 as int, min as nat),
            ends_within(r, i0 as int, self.stream().len() as int, true),
        decreases self.stream().len() - i0, 4nat,
    {
        let ghost ts = self.tokens();
        let (mut left, mut i) = match self.parse_primary_expr(i0) {
            Ok(x) => x,
            Err(e) => {
                return Err(e);
            },
        };
        loop
            invariant
                self.wf(),
                ts == self.tokens(),
                i0 < i < ts.len(),
                spec_binary(ts, i0 as int, min as nat) == spec_climb(ts, left@, i as int, min as nat),
            decreases ts.len() - i,
        {
            let op = match self.current_binary_op(i) {
                Some(op) => op,
                None => {
                    return Ok((left, i));
                },
            };
            let op_prec = op_precedence(op);
            if op_prec < min {
                return Ok((left, i));
            }
            match self.parse_binary_expr(i + 1, op_prec + 1) {
                Ok((right, p)) => {
                    left = Expr::BinaryOp { left: Box::new(left), op, right: Box::new(right) };
                    i = p;
                },
                Err(e) => {
                    return Err(e);
                },
            }
        }
    }

    fn parse_primary_expr(&self, i: usize) -> (r: Result<(Expr, usize), ParseError>)
        requires
            self.wf(),
            i < self.stream().len(),
        ensures
            expr_res(r) == spec_primary(self.tokens(), i as int),
            ends_within(r, i as int, self.stream().len() as int, true),
        decreases self.stream().len() - i, 3nat,
    {
        match &self.stream[i].0 {
            Token::Int(n) => Ok((Expr::Literal(Literal::Int(*n)), i + 1)),
            Token::Float(x) => Ok((Expr::Literal(Literal::Float(x.clone())), i + 1)),
            Token::StringLit(x) => Ok((Expr::Literal(Literal::String(x.clone())), i + 1)),
            Token::Bool(b) => Ok((Expr::Literal(Literal::Bool(*b)), i + 1)),
            Token::Ident(n) => {
                if matches!(self.stream[i + 1].0, Token::LParen) {
                    self.parse_call_expr(i)
                } else {
                    Ok((Expr::Ident(n.clone()), i + 1))
                }
            },
            Token::LParen => {
                match self.parse_expr(i + 1) {
                    Ok((e, p)) => {
                        if !matches!(self.stream[p].0, Token::RParen) {
                            return Err(ParseError { expected: Expected::RParen, at: p });
                        }
                        Ok((e, p + 1))
                    },
                    Err(e) => Err(e),
                }
            },
            Token::KeywordIf => self.parse_if_expr(i),
            _ => Err(ParseError { expected: Expected::Expression, at: i }),
        }
    }

    /// `name ( args )`
    fn parse_call_expr(&self, i: usize) -> (r: Result<(Expr, usize), ParseError>)
        requires
            self.wf(),
            i < self.stream().len(),
            self.tokens()[i as int] is Ident,
            self.tokens()[i as int + 1] == Token::LParen,
        ensures
            expr_res(r) == spec_primary(self.tokens(), i as int),
            ends_within(r, i as int, self.stream().len() as int, true),
        decreases self.stream().len() - i, 2nat,
    {
        let callee = match &self.stream[i].0 {
            Token::Ident(n) => n.clone(),
            _ => {
                return Err(ParseError { expected: Expected::Expression, at: i });
            },
        };
        match self.parse_call_args(i + 2) {
            Ok((args, p)) => {
                if !matches!(self.stream[p].0, Token::RParen) {
                    return Err(ParseError { expected: Expected::RParen, at: p });
                }
                Ok((Expr::Call { callee, args }, p + 1))
            },
            Err(e) => Err(e),
        }
    }

    fn parse_call_args(&self, i0: usize) -> (r: Result<(Vec<Expr>, usize), ParseError>)
        requires
            self.wf(),
            i0 < self.stream().len(),
        ensures
            exprs_res(r) == spec_args(self.tokens(), i0 as int, Seq::empty()),
            ends_within(r, i0 as int, self.stream().len() as int, false),
        decreases self.stream().len() - i0, 6nat,
    {
        let ghost ts = self.tokens();
        let mut out: Vec<Expr> = Vec::new();
        let mut i = i0;
        assert(view_exprs(out@) =~= Seq::<ExprModel>::empty());
        loop
            invariant
                self.wf(),
                ts == self.tokens(),
                i0 <= i < ts.len(),
                spec_args(ts, i0 as int, Seq::empty()) == spec_args(ts, i as int, view_exprs(out@)),
            decreases ts.len() - i,
        {
            if matches!(self.stream[i].0, Token::RParen) {
                return Ok((out, i));
            }
            match self.parse_expr(i) {
                Ok((e, p)) => {
                    proof {
                        crate::ast::lemma_view_exprs_push(out@, e);
                    }
                    out.push(e);
                    if matches!(self.stream[p].0, Token::Comma) {
                        i = p + 1;
                    } else {
                        return Ok((out, p));
                    }
                },
                Err(e) => {
                    return Err(e);
                },
            }
        }
    }

    fn parse_if_expr(&self, i: usize) -> (r: Result<(Expr, usize), ParseError>)
        requires
            self.wf(),
            i < self.stream().len(),
            self.tokens()[i as int] == Token::KeywordIf,
        ensures
            expr_res(r) == spec_if(self.tokens(), i as int),
            ends_within(r, i as int, self.stream().len() as int, true),
        decreases self.stream().len() - i, 2nat,
    {
        let (condition, p) = match self.parse_expr(i + 1) {
            Ok(x) => x,
            Err(e) => {
                return Err(e);
            },
        };
        if !matches!(self.stream[p].0, Token::LBrace) {
            return Err(ParseError { expected: Expected::LBrace, at: p });
        }
        let (then_branch, q) = match self.parse_block(p + 1) {
            Ok(x) => x,
            Err(e) => {
                return Err(e);
            },
        };
        if !matches!(self.stream[q].0, Token::RBrace) {
            return Err(ParseError { expected: Expected::RBrace, at: q });
        }
        if matches!(self.stream[q + 1].0, Token::KeywordElse) {
            if !matches!(self.stream[q + 2].0, Token::LBrace) {
                return Err(ParseError { expected: Expected::LBrace, at: q + 2 });
            }
            let (else_branch, r) = match self.parse_block(q + 3) {
                Ok(x) => x,
                Err(e) => {
                    return Err(e);
                },
            };
            if !matches!(self.stream[r].0, Token::RBrace) {
                return Err(ParseError { expected: Expected::RBrace, at: r });
            }
            Ok((
                Expr::If { condition: Box::new(condition), then_branch, else_branch: Some(else_branch) },
                r + 1,
            ))
        } else {
            Ok((Expr::If { condition: Box::new(condition), then_branch, else_branch: None }, q + 1))
        }
    }

    fn parse_params(&self, i0: usize) -> (r: Result<(Vec<(String, Option<String>)>, usize), ParseError>)
        requires
            self.wf(),
            i0 < self.stream().len(),
        ensures
            params_res(r) == spec_params(self.tokens(), i0 as int, Seq::empty()),
            ends_within(r, i0 as int, self.stream().len() as int, false),
    {
        let ghost ts = self.tokens();
        let mut out: Vec<(String, Option<String>)> = Vec::new();
        let mut i = i0;
        assert(view_params(out@) =~= Seq::<ParamModel>::empty());
        loop
            invariant
                self.wf(),
                ts == self.tokens(),
                i0 <= i < self.stream().len(),
                spec_params(ts, i0 as int, Seq::empty()) == spec_params(ts, i as int, view_params(out@)),
            decreases self.stream().len() - i,
        {
            let name = match &self.stream[i].0 {
                Token::Ident(n) => n.clone(),
                _ => {
                    return Ok((out, i));
                },
            };
            let mut j = i + 1;
            let mut annot: Option<String> = None;
            if matches!(self.stream[j].0, Token::Colon) {
                match self.parse_type_annotation(j + 1) {
                    Ok((t, k)) => {
                        annot = Some(t);
                        j = k;
                    },
                    Err(e) => {
                        return Err(e);
                    },
                }
            }
            let ghost before = out@;
            out.push((name, annot));
            assert(view_params(out@) =~= view_params(before).push((name@, opt_str_view(annot))));
            if matches!(self.stream[j].0, Token::Comma) {
                i = j + 1;
            } else {
                return Ok((out, j));
            }
        }
    }

    fn parse_function(&self, i: usize) -> (r: Result<(Function, usize), ParseError>)
        requires
            self.wf(),
            i < self.stream().len(),
        ensures
            function_res(r) == spec_function(self.tokens(), i as int),
            ends_within(r, i as int, self.stream().len() as int, true),
    {
        if !matches!(self.stream[i].0, Token::KeywordFn) {
            return Err(ParseError { expected: Expected::KeywordFn, at: i });
        }
        let name = match &self.stream[i + 1].0 {
            Token::Ident(n) => n.clone(),
            _ => {
                return Err(ParseError { expected: Expected::FunctionName, at: i + 1 });
            },
        };
        if !matches!(self.stream[i + 2].0, Token::LParen) {
            return Err(ParseError { expected: Expected::LParen, at: i + 2 });
        }
        let (params, p) = match self.parse_params(i + 3) {
            Ok(x) => x,
            Err(e) => {
                return Err(e);
            },
        };
        if !matches!(self.stream[p].0, Token::RParen) {
            return Err(ParseError { expected: Expected::RParen, at: p });
        }
        let mut q = p + 1;
        let mut return_type: Option<String> = None;
        if matches!(self.stream[q].0, Token::Arrow) {
            match self.parse_type_annotation(q + 1) {
                Ok((t, k)) => {
                    return_type = Some(t);
                    q = k;
                },
                Err(e) => {
                    return Err(e);
                },
            }
        }
        if !matches!(self.stream[q].0, Token::LBrace) {
            return Err(ParseError { expected: Expected::LBrace, at: q });
        }
        let (body, r) = match self.parse_block(q + 1) {
            Ok(x) => x,
            Err(e) => {
                return Err(e);
            },
        };
        if !matches!(self.stream[r].0, Token::RBrace) {
            return Err(ParseError { expected: Expected::RBrace, at: r });
        }
        Ok((Function { name, params, return_type, body }, r + 1))
    }

    /// Parses the whole token sequence: a program, or the first syntax error.
    pub fn parse_program(&mut self) -> (r: Result<Program, ParseError>)
        requires
            old(self).wf(),
        ensures
            *final(self) == *old(self),
            program_res(r) == spec_program(old(self).tokens()),
    {
        let ghost ts = self.tokens();
        let mut functions: Vec<Function> = Vec::new();
        let mut i: usize = 0;
        assert(functions@.map_values(|f: Function| f@) =~= Seq::<FunctionModel>::empty());
        loop
            invariant
                self.wf(),
                ts == self.tokens(),
                i < self.stream().len(),
                spec_program(ts) == spec_functions(
                    ts,
                    i as int,
                    functions@.map_values(|f: Function| f@),
                ),
            decreases self.stream().len() - i,
        {
            if matches!(self.stream[i].0, Token::End) {
                return Ok(Program { functions });
            }
            if !matches!(self.stream[i].0, Token::KeywordFn) {
                return Err(ParseError { expected: Expected::FunctionDeclaration, at: i });
            }
            match self.parse_function(i) {
                Ok((f, p)) => {
                    let ghost before = functions@;
                    functions.push(f);
                    assert(functions@.map_values(|f: Function| f@) =~= before.map_values(
                        |f: Function| f@,
                    ).push(f@));
                    i = p;
                },
                Err(e) => {
                    return Err(e);
                },
            }
        }
    }
}

} // verus!
