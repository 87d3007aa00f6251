use vstd::prelude::*;

verus! {

#[derive(Clone, Copy, PartialEq, Eq, Structural, Debug)]
pub enum BinaryOp {
    Add,
    Sub,
    Mul,
    Div,
    Eq,
    Neq,
    Lt,
    Gt,
    Le,
    Ge,
    And,
    Or,
}

/// A literal. A float literal keeps its source text.
#[derive(Debug)]
pub enum Literal {
    Int(i64),
    Float(String),
    String(String),
    Bool(bool),
}

#[derive(Debug)]
pub enum Expr {
    Literal(Literal),
    Ident(String),
    BinaryOp { left: Box<Expr>, op: BinaryOp, right: Box<Expr> },
    Call { callee: String, args: Vec<Expr> },
    If { condition: Box<Expr>, then_branch: Vec<Stmt>, else_branch: Option<Vec<Stmt>> },
}

#[derive(Debug)]
pub enum Stmt {
    Expr(Expr),
    Let { name: String, type_annot: Option<String>, value: Expr },
    Return(Option<Expr>),
    While { condition: Expr, body: Vec<Stmt> },
}

#[derive(Debug)]
pub struct Function {
    pub name: String,
    pub params: Vec<(String, Option<String>)>,
    pub return_type: Option<String>,
    pub body: Vec<Stmt>,
}

#[derive(Debug)]
pub struct Program {
    pub functions: Vec<Function>,
}

// ---------------------------------------------------------------------------
// Mathematical models of the tree
pub enum LitModel {
    Int(int),
    Float(Seq<char>),
    Str(Seq<char>),
    Bool(bool),
}

pub enum ExprModel {
    Lit(LitModel),
    Ident(Seq<char>),
    Binary(Box<ExprModel>, BinaryOp, Box<ExprModel>),
    Call(Seq<char>, Seq<ExprModel>),
    If(Box<ExprModel>, Seq<StmtModel>, Option<Seq<StmtModel>>),
}

pub enum StmtModel {
    Expr(ExprModel),
    Let(Seq<char>, Option<Seq<char>>, ExprModel),
    Return(Option<ExprModel>),
    While(ExprModel, Seq<StmtModel>),
}

pub type ParamModel = (Seq<char>, Option<Seq<char>>);

pub struct FunctionModel {
    pub name: Seq<char>,
    pub params: Seq<ParamModel>,
    pub ret: Option<Seq<char>>,
    pub body: Seq<StmtModel>,
}

pub open spec fn opt_str_view(o: Option<String>) -> Option<Seq<char>> {
    match o {
        Some(s) => Some(s@),
        None => None,
    }
}

impl View for Literal {
    type V = LitModel;

    open spec fn view(&self) -> LitModel {
        match self {
            Literal::Int(v) => LitModel::Int(*v as int),
            Literal::Float(t) => LitModel::Float(t@),
            Literal::String(s) => LitModel::Str(s@),
            Literal::Bool(b) => LitModel::Bool(*b),
        }
    }
}

pub open spec fn view_exprs(s: Seq<Expr>) -> Seq<ExprModel>
    decreases s,
{
    if s.len() == 0 {
        Seq::empty()
    } else {
        view_exprs(s.drop_last()).push(s.last().view())
    }
}

pub open spec fn view_stmts(s: Seq<Stmt>) -> Seq<StmtModel>
    decreases s,
{
    if s.len() == 0 {
        Seq::empty()
    } else {
        view_stmts(s.drop_last()).push(s.last().view())
    }
}

impl View for Expr {
    type V = ExprModel;

    open spec fn view(&self) -> ExprModel
        decreases self,
    {
        match self {
            Expr::Literal(l) => ExprModel::Lit(l@),
            Expr::Ident(n) => ExprModel::Ident(n@),
            Expr::BinaryOp { left, op, right } => ExprModel::Binary(
                Box::new((**left).view()),
                *op,
                Box::new((**right).view()),
            ),
            Expr::Call { callee, args } => ExprModel::Call(callee@, view_exprs(args@)),
            Expr::If { condition, then_branch, else_branch } => ExprModel::If(
                Box::new((**condition).view()),
                view_stmts(then_branch@),
                match else_branch {
                    Some(e) => Some(view_stmts(e@)),
                    None => None,
                },
            ),
        }
    }
}

impl View for Stmt {
    type V = StmtModel;

    open spec fn view(&self) -> StmtModel
        decreases self,
    {
        match self {
            Stmt::Expr(e) => StmtModel::Expr(e.view()),
            Stmt::Let { name, type_annot, value } => StmtModel::Let(
                name@,
                opt_str_view(*type_annot),
                value.view(),
            ),
            Stmt::Return(e) => StmtModel::Return(
                match e {
                    Some(x) => Some(x.view()),
                    None => None,
                },
            ),
            Stmt::While { condition, body } => StmtModel::While(condition.view(), view_stmts(body@)),
        }
    }
}

pub open spec fn view_params(s: Seq<(String, Option<String>)>) -> Seq<ParamModel> {
    s.map_values(|p: (String, Option<String>)| (p.0@, opt_str_view(p.1)))
}

impl View for Function {
    type V = FunctionModel;

    open spec fn view(&self) -> FunctionModel {
        FunctionModel {
            name: self.name@,
            params: view_params(self.params@),
            ret: opt_str_view(self.return_type),
            body: view_stmts(self.body@),
        }
    }
}

impl View for Program {
    type V = Seq<FunctionModel>;

    open spec fn view(&self) -> Seq<FunctionModel> {
        self.functions@.map_values(|f: Function| f@)
    }
}

pub proof fn lemma_view_exprs_push(s: Seq<Expr>, x: Expr)
    ensures
        view_exprs(s.push(x)) == view_exprs(s).push(x@),
{
    assert(s.push(x).drop_last() =~= s);
}

pub proof fn lemma_view_stmts_push(s: Seq<Stmt>, x: Stmt)
    ensures
        view_stmts(s.push(x)) == view_stmts(s).push(x@),
{
    assert(s.push(x).drop_last() =~= s);
}

pub proof fn lemma_view_exprs_index(s: Seq<Expr>)
    ensures
        view_exprs(s).len() == s.len(),
        forall|k: int| 0 <= k < s.len() ==> view_exprs(s)[k] == (#[trigger] s[k])@,
    decreases s.len(),
{
    if s.len() > 0 {
        lemma_view_exprs_index(s.drop_last());
        assert(view_exprs(s) == view_exprs(s.drop_last()).push(s.last()@));
        assert forall|k: int| 0 <= k < s.len() implies view_exprs(s)[k] == (#[trigger] s[k])@ by {
            if k < s.len() - 1 {
                assert(s.drop_last()[k] == s[k]);
            }
        }
    } else {
        assert(view_exprs(s) == Seq::<ExprModel>::empty());
    }
}

pub proof fn lemma_view_stmts_index(s: Seq<Stmt>)
    ensures
        view_stmts(s).len() == s.len(),
        forall|k: int| 0 <= k < s.len() ==> view_stmts(s)[k] == (#[trigger] s[k])@,
    decreases s.len(),
{
    if s.len() > 0 {
        lemma_view_stmts_index(s.drop_last());
        assert(view_stmts(s) == view_stmts(s.drop_last()).push(s.last()@));
        assert forall|k: int| 0 <= k < s.len() implies view_stmts(s)[k] == (#[trigger] s[k])@ by {
            if k < s.len() - 1 {
                assert(s.drop_last()[k] == s[k]);
            }
        }
    } else {
        assert(view_stmts(s) == Seq::<StmtModel>::empty());
    }
}

} // verus!
