use vstd::prelude::*;
use crate::ast::{
    lemma_view_exprs_index, lemma_view_stmts_index, opt_str_view, view_exprs,
    view_stmts, BinaryOp, Expr,
    ExprModel, Function, FunctionModel, LitModel, Literal, ParamModel, Program, Stmt, StmtModel,
};

verus! {

#[derive(Debug)]
pub enum Type {
    Int,
    Float,
    Bool,
    String,
    Function(Vec<Type>, Box<Type>),
    /// An unknown or missing annotation; it never matches any type.
    Error,
}

pub enum TypeModel {
    Int,
    Float,
    Bool,
    Str,
    Function(Seq<TypeModel>, Box<TypeModel>),
    Error,
}

pub open spec fn view_types(s: Seq<Type>) -> Seq<TypeModel>
    decreases s,
{
    if s.len() == 0 {
        Seq::empty()
    } else {
        view_types(s.drop_last()).push(s.last().view())
    }
}

impl View for Type {
    type V = TypeModel;

    open spec fn view(&self) -> TypeModel
        decreases self,
    {
        match self {
            Type::Int => TypeModel::Int,
            Type::Float => TypeModel::Float,
            Type::Bool => TypeModel::Bool,
            Type::String => TypeModel::Str,
            Type::Function(ps, r) => TypeModel::Function(view_types(ps@), Box::new((**r).view())),
            Type::Error => TypeModel::Error,
        }
    }
}

pub proof fn lemma_view_types_index(s: Seq<Type>)
    ensures
        view_types(s).len() == s.len(),
        forall|k: int| 0 <= k < s.len() ==> view_types(s)[k] == (#[trigger] s[k])@,
    decreases s.len(),
{
    if s.len() > 0 {
        lemma_view_types_index(s.drop_last());
        assert(view_types(s) == view_types(s.drop_last()).push(s.last()@));
        assert forall|k: int| 0 <= k < s.len() implies view_types(s)[k] == (#[trigger] s[k])@ by {
            if k < s.len() - 1 {
                assert(s.drop_last()[k] == s[k]);
            }
        }
    } else {
        assert(view_types(s) == Seq::<TypeModel>::empty());
    }
}

pub proof fn lemma_view_types_push(s: Seq<Type>, x: Type)
    ensures
        view_types(s.push(x)) == view_types(s).push(x@),
{
    assert(s.push(x).drop_last() =~= s);
}

/// Why a program was rejected.
#[derive(Debug)]
pub enum TypeError {
    UndefinedVariable(String),
    /// A `let` annotation differs from the value's type.
    Mismatch { declared: Type, value: Type },
    BinaryMismatch { left: Type, right: Type },
    ArithmeticNeedsNumbers,
    LogicalNeedsBooleans,
    ArgumentCount { expected: usize, found: usize },
    ArgumentType { index: usize, param: Type, arg: Type },
    NotAFunction(String),
    DuplicateFunction(String),
    DuplicateParameter(String),
}

pub enum TypeErrorModel {
    UndefinedVariable(Seq<char>),
    Mismatch(TypeModel, TypeModel),
    BinaryMismatch(TypeModel, TypeModel),
    ArithmeticNeedsNumbers,
    LogicalNeedsBooleans,
    ArgumentCount(int, int),
    ArgumentType(int, TypeModel, TypeModel),
    NotAFunction(Seq<char>),
    DuplicateFunction(Seq<char>),
    DuplicateParameter(Seq<char>),
}

impl View for TypeError {
    type V = TypeErrorModel;

    open spec fn view(&self) -> TypeErrorModel {
        match self {
            TypeError::UndefinedVariable(n) => TypeErrorModel::UndefinedVariable(n@),
            TypeError::Mismatch { declared, value } => TypeErrorModel::Mismatch(declared@, value@),
            TypeError::BinaryMismatch { left, right } => TypeErrorModel::BinaryMismatch(left@, right@),
            TypeError::ArithmeticNeedsNumbers => TypeErrorModel::ArithmeticNeedsNumbers,
            TypeError::LogicalNeedsBooleans => TypeErrorModel::LogicalNeedsBooleans,
            TypeError::ArgumentCount { expected, found } => TypeErrorModel::ArgumentCount(
                *expected as int,
                *found as int,
            ),
            TypeError::ArgumentType { index, param, arg } => TypeErrorModel::ArgumentType(
                *index as int,
                param@,
                arg@,
            ),
            TypeError::NotAFunction(n) => TypeErrorModel::NotAFunction(n@),
            TypeError::DuplicateFunction(n) => TypeErrorModel::DuplicateFunction(n@),
            TypeError::DuplicateParameter(n) => TypeErrorModel::DuplicateParameter(n@),
        }
    }
}

// ---------------------------------------------------------------------------
// The typing rules
/// A scope: name and type pairs; a later entry shadows an earlier one.
pub type Env = Seq<(Seq<char>, TypeModel)>;

pub open spec fn lookup(env: Env, name: Seq<char>) -> Option<TypeModel>
    decreases env.len(),
{
    if env.len() == 0 {
        None
    } else if env.last().0 == name {
        Some(env.last().1)
    } else {
        lookup(env.drop_last(), name)
    }
}

/// The type an annotation names: `i32`, `f64`, `bool`, `str`; anything else,
/// or no annotation, is `Error`.
pub open spec fn annotation_type(a: Option<Seq<char>>) -> TypeModel {
    match a {
        Some(s) => if s == seq!['i', '3', '2'] {
            TypeModel::Int
        } else if s == seq!['f', '6', '4'] {
            TypeModel::Float
        } else if s == seq!['b', 'o', 'o', 'l'] {
            TypeModel::Bool
        } else if s == seq!['s', 't', 'r'] {
            TypeModel::Str
        } else {
            TypeModel::Error
        },
        None => TypeModel::Error,
    }
}

/// Two types agree when they are equal and not `Error`.
pub open spec fn same_type(a: TypeModel, b: TypeModel) -> bool {
    a == b && !(a is Error)
}

pub open spec fn lit_type(l: LitModel) -> TypeModel {
    match l {
        LitModel::Int(_) => TypeModel::Int,
        LitModel::Float(_) => TypeModel::Float,
        LitModel::Str(_) => TypeModel::Str,
        LitModel::Bool(_) => TypeModel::Bool,
    }
}

pub open spec fn is_arithmetic(op: BinaryOp) -> bool {
    op is Add || op is Sub || op is Mul || op is Div
}

pub open spec fn is_comparison(op: BinaryOp) -> bool {
    op is Eq || op is Neq || op is Lt || op is Gt || op is Le || op is Ge
}

/// The result type of `l op r` once both operand types are known.
pub open spec fn binary_type(op: BinaryOp, l: TypeModel, r: TypeModel) -> Result<TypeModel, TypeErrorModel> {
    if !same_type(l, r) {
        Err(TypeErrorModel::BinaryMismatch(l, r))
    } else if is_arithmetic(op) {
        if l is Int || l is Float {
            Ok(l)
        } else {
            Err(TypeErrorModel::ArithmeticNeedsNumbers)
        }
    } else if is_comparison(op) {
        Ok(TypeModel::Bool)
    } else if l is Bool {
        Ok(TypeModel::Bool)
    } else {
        Err(TypeErrorModel::LogicalNeedsBooleans)
    }
}

/// The type of an expression in scope `env`, and the scope after it: `let`s
/// inside the blocks of an `if` stay visible afterwards, as blocks open no
/// scope of their own. An `if` has no value, so its type is `Error`.
pub open spec fn type_of_expr(e: ExprModel, env: Env) -> Result<(TypeModel, Env), TypeErrorModel>
    decreases e,
{
    match e {
        ExprModel::Lit(l) => Ok((lit_type(l), env)),
        ExprModel::Ident(n) => match lookup(env, n) {
            Some(t) => Ok((t, env)),
            None => Err(TypeErrorModel::UndefinedVariable(n)),
        },
        ExprModel::Binary(l, op, r) => match type_of_expr(*l, env) {
            Ok((lt, env1)) => match type_of_expr(*r, env1) {
                Ok((rt, env2)) => match binary_type(op, lt, rt) {
                    Ok(t) => Ok((t, env2)),
                    Err(x) => Err(x),
                },
                Err(x) => Err(x),
            },
            Err(x) => Err(x),
        },
        ExprModel::Call(callee, args) => match lookup(env, callee) {
            Some(TypeModel::Function(ps, ret)) => if args.len() != ps.len() {
                Err(TypeErrorModel::ArgumentCount(ps.len() as int, args.len() as int))
            } else {
                match check_args(args, ps, 0, env) {
                    Ok(env1) => Ok((*ret, env1)),
                    Err(x) => Err(x),
                }
            },
            Some(_) => Err(TypeErrorModel::NotAFunction(callee)),
            None => Err(TypeErrorModel::UndefinedVariable(callee)),
        },
        ExprModel::If(c, then_b, else_b) => match type_of_expr(*c, env) {
            Ok((_, env1)) => match check_stmts(then_b, env1) {
                Ok(env2) => match else_b {
                    Some(eb) => match check_stmts(eb, env2) {
                        Ok(env3) => Ok((TypeModel::Error, env3)),
                        Err(x) => Err(x),
                    },
                    None => Ok((TypeModel::Error, env2)),
                },
                Err(x) => Err(x),
            },
            Err(x) => Err(x),
        },
    }
}

/// Arguments from position `index` on, each against its parameter type.
pub open spec fn check_args(args: Seq<ExprModel>, ps: Seq<TypeModel>, index: int, env: Env) -> Result<
    Env,
    TypeErrorModel,
>
    decreases args,
{
    if args.len() == 0 || ps.len() == 0 {
        Ok(env)
    } else {
        match type_of_expr(args[0], env) {
            Ok((t, env1)) => if same_type(t, ps[0]) {
                check_args(args.drop_first(), ps.drop_first(), index + 1, env1)
            } else {
                Err(TypeErrorModel::ArgumentType(index, ps[0], t))
            },
            Err(x) => Err(x),
        }
    }
}

/// Statements in order; each sees the bindings of those before it.
pub open spec fn check_stmts(ss: Seq<StmtModel>, env: Env) -> Result<Env, TypeErrorModel>
    decreases ss,
{
    if ss.len() == 0 {
        Ok(env)
    } else {
        match check_stmt(ss[0], env) {
            Ok(env1) => check_stmts(ss.drop_first(), env1),
            Err(x) => Err(x),
        }
    }
}

/// A `let` binds its annotation's type if it has one (which must then equal
/// the value's type), else the value's type. A `return` value is checked on
/// its own, not against the function's return type; a `while` condition
/// and body are checked for their own consistency.
pub open spec fn check_stmt(s: StmtModel, env: Env) -> Result<Env, TypeErrorModel>
    decreases s,
{
    match s {
        StmtModel::Let(name, annot, value) => match type_of_expr(value, env) {
            Ok((vt, env1)) => match annot {
                Some(a) => if same_type(annotation_type(Some(a)), vt) {
                    Ok(env1.push((name, vt)))
                } else {
                    Err(TypeErrorModel::Mismatch(annotation_type(Some(a)), vt))
                },
                None => Ok(env1.push((name, vt))),
            },
            Err(x) => Err(x),
        },
        StmtModel::Expr(e) => match type_of_expr(e, env) {
            Ok((_, env1)) => Ok(env1),
            Err(x) => Err(x),
        },
        StmtModel::Return(e) => match e {
            Some(x) => match type_of_expr(x, env) {
                Ok((_, env1)) => Ok(env1),
                Err(y) => Err(y),
            },
            None => Ok(env),
        },
        StmtModel::While(c, body) => match type_of_expr(c, env) {
            Ok((_, env1)) => check_stmts(body, env1),
            Err(x) => Err(x),
        },
    }
}

// ---------------------------------------------------------------------------
// Whole programs
/// The type of a function: its parameters' annotations and its return annotation.
pub open spec fn signature(f: FunctionModel) -> TypeModel {
    TypeModel::Function(
        f.params.map_values(|p: ParamModel| annotation_type(p.1)),
        Box::new(annotation_type(f.ret)),
    )
}

/// First pass: every function's signature from index `k` on, in order; a name
/// declared twice is an error.
pub open spec fn register(fs: Seq<FunctionModel>, k: int, env: Env) -> Result<Env, TypeErrorModel>
    decreases fs.len() - k,
{
    if k < 0 || k >= fs.len() {
        Ok(env)
    } else if lookup(env, fs[k].name) is Some {
        Err(TypeErrorModel::DuplicateFunction(fs[k].name))
    } else {
        register(fs, k + 1, env.push((fs[k].name, signature(fs[k]))))
    }
}

/// A function's scope: the top-level table followed by its parameters, whose
/// names must be distinct.
pub open spec fn seed_params(ps: Seq<ParamModel>, j: int, env: Env) -> Result<Env, TypeErrorModel>
    decreases ps.len() - j,
{
    if j < 0 || j >= ps.len() {
        Ok(env)
    } else if exists|m: int| 0 <= m < j && ps[m].0 == ps[j].0 {
        Err(TypeErrorModel::DuplicateParameter(ps[j].0))
    } else {
        seed_params(ps, j + 1, env.push((ps[j].0, annotation_type(ps[j].1))))
    }
}

/// Second pass: each body from index `k` on, in its own scope.
pub open spec fn check_bodies(fs: Seq<FunctionModel>, k: int, top: Env) -> Result<(), TypeErrorModel>
    decreases fs.len() - k,
{
    if k < 0 || k >= fs.len() {
        Ok(())
    } else {
        match seed_params(fs[k].params, 0, top) {
            Ok(env) => match check_stmts(fs[k].body, env) {
                Ok(_) => check_bodies(fs, k + 1, top),
                Err(x) => Err(x),
            },
            Err(x) => Err(x),
        }
    }
}

/// Whether a program type-checks, or the first rule it breaks.
pub open spec fn check_program_spec(fs: Seq<FunctionModel>) -> Result<(), TypeErrorModel> {
    match register(fs, 0, Seq::empty()) {
        Ok(top) => check_bodies(fs, 0, top),
        Err(x) => Err(x),
    }
}

// ---------------------------------------------------------------------------
// Executable checker
pub open spec fn env_of(v: Seq<(String, Type)>) -> Env {
    v.map_values(|e: (String, Type)| (e.0@, e.1@))
}

pub open spec fn unit_res(r: Result<(), TypeError>) -> Result<(), TypeErrorModel> {
    match r {
        Ok(()) => Ok(()),
        Err(x) => Err(x@),
    }
}

/// A copy of a type.
pub fn copy_type(t: &Type) -> (r: Type)
    ensures
        r@ == t@,
    decreases t, 1nat,
{
    match t {
        Type::Int => Type::Int,
        Type::Float => Type::Float,
        Type::Bool => Type::Bool,
        Type::String => Type::String,
        Type::Error => Type::Error,
        Type::Function(ps, ret) => Type::Function(copy_types(ps), Box::new(copy_type(ret))),
    }
}

fn copy_types(ps: &Vec<Type>) -> (r: Vec<Type>)
    ensures
        view_types(r@) == view_types(ps@),
    decreases ps, 0nat,
{
    let mut out: Vec<Type> = Vec::new();
    let mut k: usize = 0;
    assert(ps@.subrange(0, 0) =~= Seq::<Type>::empty());
    while k < ps.len()
        invariant
            k <= ps@.len(),
            view_types(out@) == view_types(ps@.subrange(0, k as int)),
        decreases ps@.len() - k,
    {
        let c = copy_type(&ps[k]);
        proof {
            lemma_view_types_push(out@, c);
            lemma_view_types_push(ps@.subrange(0, k as int), ps@[k as int]);
            assert(ps@.subrange(0, k as int).push(ps@[k as int]) =~= ps@.subrange(0, k as int + 1));
        }
        out.push(c);
        k += 1;
    }
    assert(ps@.subrange(0, ps@.len() as int) =~= ps@);
    out
}

/// Structural equality of two types.
pub fn type_eq(a: &Type, b: &Type) -> (r: bool)
    ensures
        r == (a@ == b@),
    decreases a, 1nat,
{
    match (a, b) {
        (Type::Int, Type::Int) => true,
        (Type::Float, Type::Float) => true,
        (Type::Bool, Type::Bool) => true,
        (Type::String, Type::String) => true,
        (Type::Error, Type::Error) => true,
        (Type::Function(pa, ra), Type::Function(pb, rb)) => types_eq(pa, pb) && type_eq(ra, rb),
        _ => false,
    }
}

fn types_eq(pa: &Vec<Type>, pb: &Vec<Type>) -> (r: bool)
    ensures
        r == (view_types(pa@) == view_types(pb@)),
    decreases pa, 0nat,
{
    proof {
        lemma_view_types_index(pa@);
        lemma_view_types_index(pb@);
    }
    if pa.len() != pb.len() {
        return false;
    }
    let mut k: usize = 0;
    while k < pa.len()
        invariant
            pa@.len() == pb@.len(),
            view_types(pa@).len() == pa@.len(),
            view_types(pb@).len() == pb@.len(),
            forall|j: int| 0 <= j < pa@.len() ==> view_types(pa@)[j] == (#[trigger] pa@[j])@,
            forall|j: int| 0 <= j < pb@.len() ==> view_types(pb@)[j] == (#[trigger] pb@[j])@,
            k <= pa@.len(),
            forall|j: int| 0 <= j < k ==> (#[trigger] pa@[j])@ == pb@[j]@,
        decreases pa@.len() - k,
    {
        if !type_eq(&pa[k], &pb[k]) {
            assert(view_types(pa@)[k as int] != view_types(pb@)[k as int]);
            return false;
        }
        k += 1;
    }
    assert forall|j: int| 0 <= j < pa@.len() implies view_types(pa@)[j] == view_types(pb@)[j] by {
        assert(pa@[j]@ == pb@[j]@);
    }
    assert(view_types(pa@) =~= view_types(pb@));
    true
}

fn same_type_exec(a: &Type, b: &Type) -> (r: bool)
    ensures
        r == same_type(a@, b@),
{
    match a {
        Type::Error => false,
        _ => type_eq(a, b),
    }
}

/// The entry for `name` that is visible in `env`: the last one.
pub fn lookup_symbol(env: &Vec<(String, Type)>, name: &String) -> (r: Option<Type>)
    ensures
        match r {
            Some(t) => lookup(env_of(env@), name@) == Some(t@),
            None => lookup(env_of(env@), name@) is None,
        },
{
    let mut k = env.len();
    assert(env_of(env@).subrange(0, k as int) =~= env_of(env@));
    while k > 0
        invariant
            k <= env@.len(),
            lookup(env_of(env@), name@) == lookup(env_of(env@).subrange(0, k as int), name@),
        decreases k,
    {
        let ghost sub = env_of(env@).subrange(0, k as int);
        assert(sub.drop_last() =~= env_of(env@).subrange(0, k as int - 1));
        if env[k - 1].0 == *name {
            return Some(copy_type(&env[k - 1].1));
        }
        k -= 1;
    }
    None
}

fn push_symbol(env: &mut Vec<(String, Type)>, name: String, t: Type)
    ensures
        env_of(final(env)@) == env_of(old(env)@).push((name@, t@)),
{
    env.push((name, t));
    assert(env_of(final(env)@) =~= env_of(old(env)@).push((name@, t@)));
}

/// A binary operator's result once both operand types are known.
fn binary_result(op: BinaryOp, lt: Type, rt: Type) -> (r: Result<Type, TypeError>)
    ensures
        match r {
            Ok(t) => binary_type(op, lt@, rt@) == Ok::<TypeModel, TypeErrorModel>(t@),
            Err(x) => binary_type(op, lt@, rt@) == Err::<TypeModel, TypeErrorModel>(x@),
        },
{
    if !same_type_exec(&lt, &rt) {
        return Err(TypeError::BinaryMismatch { left: lt, right: rt });
    }
    match op {
        BinaryOp::Add | BinaryOp::Sub | BinaryOp::Mul | BinaryOp::Div => match lt {
            Type::Int => Ok(Type::Int),
            Type::Float => Ok(Type::Float),
            _ => Err(TypeError::ArithmeticNeedsNumbers),
        },
        BinaryOp::Eq | BinaryOp::Neq | BinaryOp::Lt | BinaryOp::Gt | BinaryOp::Le | BinaryOp::Ge => Ok(
            Type::Bool,
        ),
        BinaryOp::And | BinaryOp::Or => match lt {
            Type::Bool => Ok(Type::Bool),
            _ => Err(TypeError::LogicalNeedsBooleans),
        },
    }
}

fn is_named(s: &String, lit: &str) -> (r: bool)
    ensures
        r == (s@ == lit@),
{
    *s == lit.to_owned()
}

pub open spec fn check_function_spec(f: FunctionModel, top: Env) -> Result<(), TypeErrorModel> {
    match seed_params(f.params, 0, top) {
        Ok(env) => match check_stmts(f.body, env) {
            Ok(_) => Ok(()),
            Err(x) => Err(x),
        },
        Err(x) => Err(x),
    }
}

fn copy_env(env: &Vec<(String, Type)>) -> (r: Vec<(String, Type)>)
    ensures
        env_of(r@) == env_of(env@),
{
    let mut out: Vec<(String, Type)> = Vec::new();
    let mut k: usize = 0;
    while k < env.len()
        invariant
            k <= env@.len(),
            env_of(out@) == env_of(env@).subrange(0, k as int),
        decreases env@.len() - k,
    {
        let name = env[k].0.clone();
        let t = copy_type(&env[k].1);
        push_symbol(&mut out, name, t);
        k += 1;
        assert(env_of(out@) =~= env_of(env@).subrange(0, k as int));
    }
    assert(env_of(env@).subrange(0, env@.len() as int) =~= env_of(env@));
    out
}

/// Checks programs in two passes: signatures first, so that bodies may call
/// functions declared later, then each body in a scope of its own.
pub struct TypeChecker {
    symbols: Vec<(String, Type)>,
}

impl TypeChecker {
    /// The top-level table: each function's name and signature.
    pub closed spec fn symbols(&self) -> Env {
        env_of(self.symbols@)
    }

    pub fn new() -> (r: TypeChecker)
        ensures
            r.symbols() == Seq::<(Seq<char>, TypeModel)>::empty(),
    {
        let r = TypeChecker { symbols: Vec::new() };
        assert(r.symbols() =~= Seq::<(Seq<char>, TypeModel)>::empty());
        r
    }

    /// The type an annotation names.
    pub fn parse_type(&self, type_str: &Option<String>) -> (r: Type)
        ensures
            r@ == annotation_type(opt_str_view(*type_str)),
    {
        proof {
            reveal_strlit("i32");
            reveal_strlit("f64");
            reveal_strlit("bool");
            reveal_strlit("str");
            assert("i32"@ =~= seq!['i', '3', '2']);
            assert("f64"@ =~= seq!['f', '6', '4']);
            assert("bool"@ =~= seq!['b', 'o', 'o', 'l']);
            assert("str"@ =~= seq!['s', 't', 'r']);
        }
        match type_str {
            Some(s) => {
                if is_named(s, "i32") {
                    Type::Int
                } else if is_named(s, "f64") {
                    Type::Float
                } else if is_named(s, "bool") {
                    Type::Bool
                } else if is_named(s, "str") {
                    Type::String
                } else {
                    Type::Error
                }
            },
            None => Type::Error,
        }
    }

    fn check_expr(&self, e: &Expr, env: &mut Vec<(String, Type)>) -> (r: Result<Type, TypeError>)
        ensures
            match r {
                Ok(t) => type_of_expr(e@, env_of(old(env)@)) == Ok::<(TypeModel, Env), TypeErrorModel>(
                    (t@, env_of(final(env)@)),
                ),
                Err(x) => type_of_expr(e@, env_of(old(env)@)) == Err::<(TypeModel, Env), TypeErrorModel>(
                    x@,
                ),
            },
        decreases e,
    {
        match e {
            Expr::Literal(l) => Ok(
                match l {
                    Literal::Int(_) => Type::Int,
                    Literal::Float(_) => Type::Float,
                    Literal::String(_) => Type::String,
                    Literal::Bool(_) => Type::Bool,
                },
            ),
            Expr::Ident(n) => match lookup_symbol(env, n) {
                Some(t) => Ok(t),
                None => Err(TypeError::UndefinedVariable(n.clone())),
            },
            Expr::BinaryOp { left, op, right } => {
                let lt = match self.check_expr(left, env) {
                    Ok(t) => t,
                    Err(x) => {
                        return Err(x);
                    },
                };
                let rt = match self.check_expr(right, env) {
                    Ok(t) => t,
                    Err(x) => {
                        return Err(x);
                    },
                };
                binary_result(*op, lt, rt)
            },
            Expr::Call { callee, args } => match lookup_symbol(env, callee) {
                Some(Type::Function(ps, ret)) => {
                    proof {
                        lemma_view_exprs_index(args@);
                        lemma_view_types_index(ps@);
                    }
                    if args.len() != ps.len() {
                        return Err(TypeError::ArgumentCount { expected: ps.len(), found: args.len() });
                    }
                    match self.check_call_args(args, &ps, env) {
                        Ok(()) => Ok(*ret),
                        Err(x) => Err(x),
                    }
                },
                Some(_) => Err(TypeError::NotAFunction(callee.clone())),
                None => Err(TypeError::UndefinedVariable(callee.clone())),
            },
            Expr::If { condition, then_branch, else_branch } => {
                match self.check_expr(condition, env) {
                    Ok(_) => {},
                    Err(x) => {
                        return Err(x);
                    },
                }
                match self.check_stmts(then_branch, env) {
                    Ok(()) => {},
                    Err(x) => {
                        return Err(x);
                    },
                }
                match else_branch {
                    Some(eb) => match self.check_stmts(eb, env) {
                        Ok(()) => Ok(Type::Error),
                        Err(x) => Err(x),
                    },
                    None => Ok(Type::Error),
                }
            },
        }
    }

    fn check_call_args(&self, args: &Vec<Expr>, ps: &Vec<Type>, env: &mut Vec<(String, Type)>) -> (r:
        Result<(), TypeError>)
        requires
            args@.len() == ps@.len(),
        ensures
            match r {
                Ok(()) => check_args(view_exprs(args@), view_types(ps@), 0, env_of(old(env)@)) == Ok::<
                    Env,
                    TypeErrorModel,
                >(env_of(final(env)@)),
                Err(x) => check_args(view_exprs(args@), view_types(ps@), 0, env_of(old(env)@)) == Err::<
                    Env,
                    TypeErrorModel,
                >(x@),
            },
        decreases args,
    {
        let ghost va = view_exprs(args@);
        let ghost vp = view_types(ps@);
        let ghost n = args@.len() as int;
        proof {
            lemma_view_exprs_index(args@);
            lemma_view_types_index(ps@);
            assert(va.subrange(0, n) =~= va);
            assert(vp.subrange(0, n) =~= vp);
        }
        let mut k: usize = 0;
        while k < args.len()
            invariant
                args@.len() == ps@.len(),
                n == args@.len(),
                va == view_exprs(args@),
                vp == view_types(ps@),
                va.len() == n,
                vp.len() == n,
                forall|j: int| 0 <= j < n ==> va[j] == (#[trigger] args@[j])@,
                forall|j: int| 0 <= j < n ==> vp[j] == (#[trigger] ps@[j])@,
                k <= n,
                check_args(va, vp, 0, env_of(old(env)@)) == check_args(
                    va.subrange(k as int, n),
                    vp.subrange(k as int, n),
                    k as int,
                    env_of(env@),
                ),
            decreases n - k,
        {
            let ghost sa = va.subrange(k as int, n);
            let ghost sp = vp.subrange(k as int, n);
            assert(sa[0] == args@[k as int]@);
            assert(sp[0] == ps@[k as int]@);
            assert(sa.drop_first() =~= va.subrange(k as int + 1, n));
            assert(sp.drop_first() =~= vp.subrange(k as int + 1, n));
            let t = match self.check_expr(&args[k], env) {
                Ok(t) => t,
                Err(x) => {
                    return Err(x);
                },
            };
            if !same_type_exec(&t, &ps[k]) {
                return Err(TypeError::ArgumentType { index: k, param: copy_type(&ps[k]), arg: t });
            }
            k += 1;
        }
        assert(va.subrange(n, n).len() == 0);
        Ok(())
    }

    fn check_stmts(&self, ss: &Vec<Stmt>, env: &mut Vec<(String, Type)>) -> (r: Result<(), TypeError>)
        ensures
            match r {
                Ok(()) => check_stmts(view_stmts(ss@), env_of(old(env)@)) == Ok::<Env, TypeErrorModel>(
                    env_of(final(env)@),
                ),
                Err(x) => check_stmts(view_stmts(ss@), env_of(old(env)@)) == Err::<Env, TypeErrorModel>(
                    x@,
                ),
            },
        decreases ss,
    {
        let ghost vs = view_stmts(ss@);
        let ghost n = ss@.len() as int;
        proof {
            lemma_view_stmts_index(ss@);
            assert(vs.subrange(0, n) =~= vs);
        }
        let mut k: usize = 0;
        while k < ss.len()
            invariant
                n == ss@.len(),
                vs == view_stmts(ss@),
                vs.len() == n,
                forall|j: int| 0 <= j < n ==> vs[j] == (#[trigger] ss@[j])@,
                k <= n,
                check_stmts(vs, env_of(old(env)@)) == check_stmts(vs.subrange(k as int, n), env_of(env@)),
            decreases n - k,
        {
            let ghost sub = vs.subrange(k as int, n);
            assert(sub[0] == ss@[k as int]@);
            assert(sub.drop_first() =~= vs.subrange(k as int + 1, n));
            match self.check_stmt(&ss[k], env) {
                Ok(()) => {},
                Err(x) => {
                    return Err(x);
                },
            }
            k += 1;
        }
        assert(vs.subrange(n, n).len() == 0);
        Ok(())
    }

    fn check_stmt(&self, s: &Stmt, env: &mut Vec<(String, Type)>) -> (r: Result<(), TypeError>)
        ensures
            match r {
                Ok(()) => check_stmt(s@, env_of(old(env)@)) == Ok::<Env, TypeErrorModel>(env_of(final(env)@)),
                Err(x) => check_stmt(s@, env_of(old(env)@)) == Err::<Env, TypeErrorModel>(x@),
            },
        decreases s,
    {
        match s {
            Stmt::Let { name, type_annot, value } => {
                let vt = match self.check_expr(value, env) {
                    Ok(t) => t,
                    Err(x) => {
                        return Err(x);
                    },
                };
                match type_annot {
                    Some(_) => {
                        let declared = self.parse_type(type_annot);
                        if !same_type_exec(&declared, &vt) {
                            return Err(TypeError::Mismatch { declared, value: vt });
                        }
                    },
                    None => {},
                }
                push_symbol(env, name.clone(), vt);
                Ok(())
            },
            Stmt::Expr(e) => match self.check_expr(e, env) {
                Ok(_) => Ok(()),
                Err(x) => Err(x),
            },
            Stmt::Return(e) => match e {
                Some(x) => match self.check_expr(x, env) {
                    Ok(_) => Ok(()),
                    Err(y) => Err(y),
                },
                None => Ok(()),
            },
            Stmt::While { condition, body } => {
                match self.check_expr(condition, env) {
                    Ok(_) => {},
                    Err(x) => {
                        return Err(x);
                    },
                }
                self.check_stmts(body, env)
            },
        }
    }

    /// A function's signature type.
    fn signature_of(&self, f: &Function) -> (r: Type)
        ensures
            r@ == signature(f@),
    {
        let ghost want = f@.params.map_values(|p: ParamModel| annotation_type(p.1));
        let mut out: Vec<Type> = Vec::new();
        let mut k: usize = 0;
        while k < f.params.len()
            invariant
                want == f@.params.map_values(|p: ParamModel| annotation_type(p.1)),
                want.len() == f.params@.len(),
                k <= f.params@.len(),
                view_types(out@) == want.subrange(0, k as int),
            decreases f.params@.len() - k,
        {
            let t = self.parse_type(&f.params[k].1);
            proof {
                lemma_view_types_push(out@, t);
            }
            out.push(t);
            k += 1;
            assert(view_types(out@) =~= want.subrange(0, k as int));
        }
        assert(want.subrange(0, want.len() as int) =~= want);
        let ret = self.parse_type(&f.return_type);
        Type::Function(out, Box::new(ret))
    }

    /// Checks one body in the top-level table extended with its parameters.
    fn check_function(&self, f: &Function) -> (r: Result<(), TypeError>)
        ensures
            unit_res(r) == check_function_spec(f@, self.symbols()),
    {
        let ghost ps = f@.params;
        let mut env = copy_env(&self.symbols);
        let mut j: usize = 0;
        while j < f.params.len()
            invariant
                ps == f@.params,
                ps.len() == f.params@.len(),
                j <= ps.len(),
                seed_params(ps, 0, self.symbols()) == seed_params(ps, j as int, env_of(env@)),
            decreases ps.len() - j,
        {
            let mut m: usize = 0;
            while m < j
                invariant
                    ps == f@.params,
                    ps.len() == f.params@.len(),
                    m <= j < ps.len(),
                    seed_params(ps, 0, self.symbols()) == seed_params(ps, j as int, env_of(env@)),
                    forall|q: int| 0 <= q < m ==> ps[q].0 != ps[j as int].0,
                decreases j - m,
            {
                if f.params[m].0 == f.params[j].0 {
                    assert(ps[m as int].0 == ps[j as int].0);
                    return Err(TypeError::DuplicateParameter(f.params[j].0.clone()));
                }
                m += 1;
            }
            let t = self.parse_type(&f.params[j].1);
            push_symbol(&mut env, f.params[j].0.clone(), t);
            j += 1;
        }
        match self.check_stmts(&f.body, &mut env) {
            Ok(()) => Ok(()),
            Err(x) => Err(x),
        }
    }

    /// Checks a whole program: `Ok` exactly when every rule holds, else the
    /// first rule broken. Afterwards the table holds every signature.
    pub fn check_program(&mut self, program: &Program) -> (r: Result<(), TypeError>)
        ensures
            unit_res(r) == check_program_spec(program@),
            register(program@, 0, Seq::empty()) matches Ok(top) ==> final(self).symbols() == top,
    {
        let ghost fs = program@;
        self.symbols = Vec::new();
        assert(env_of(self.symbols@) =~= Seq::<(Seq<char>, TypeModel)>::empty());
        let mut k: usize = 0;
        while k < program.functions.len()
            invariant
                fs == program@,
                fs.len() == program.functions@.len(),
                k <= fs.len(),
                register(fs, 0, Seq::empty()) == register(fs, k as int, env_of(self.symbols@)),
            decreases fs.len() - k,
        {
            let f = &program.functions[k];
            if lookup_symbol(&self.symbols, &f.name).is_some() {
                return Err(TypeError::DuplicateFunction(f.name.clone()));
            }
            let sig = self.signature_of(f);
            push_symbol(&mut self.symbols, f.name.clone(), sig);
            k += 1;
        }
        let ghost top = env_of(self.symbols@);
        let mut k: usize = 0;
        while k < program.functions.len()
            invariant
                fs == program@,
                fs.len() == program.functions@.len(),
                k <= fs.len(),
                top == env_of(self.symbols@),
                register(fs, 0, Seq::empty()) == Ok::<Env, TypeErrorModel>(top),
                check_program_spec(fs) == check_bodies(fs, k as int, top),
            decreases fs.len() - k,
        {
            match self.check_function(&program.functions[k]) {
                Ok(()) => {},
                Err(x) => {
                    return Err(x);
                },
            }
            k += 1;
        }
        Ok(())
    }
}

// ---------------------------------------------------------------------------
// Laws
proof fn lemma_lookup_push(env: Env, x: (Seq<char>, TypeModel), n: Seq<char>)
    ensures
        lookup(env.push(x), n) == (if x.0 == n {
            Some(x.1)
        } else {
            lookup(env, n)
        }),
{
    assert(env.push(x).drop_last() =~= env);
}

/// What `register` leaves visible: names it did not declare look up as
/// before, none of the names it declares was visible before, and each
/// declared name finds its own signature.
proof fn lemma_register_lookup(fs: Seq<FunctionModel>, k: int, env: Env)
    requires
        0 <= k <= fs.len(),
        register(fs, k, env) is Ok,
    ensures
        forall|m: int| k <= m < fs.len() ==> lookup(env, #[trigger] fs[m].name) is None,
        forall|n: Seq<char>|
            (forall|m: int| k <= m < fs.len() ==> #[trigger] fs[m].name != n) ==> lookup(
                register(fs, k, env)->Ok_0,
                n,
            ) == lookup(env, n),
        forall|m: int|
            k <= m < fs.len() ==> lookup(register(fs, k, env)->Ok_0, #[trigger] fs[m].name) == Some(
                signature(fs[m]),
            ),
    decreases fs.len() - k,
{
    if k < fs.len() {
        let x = (fs[k].name, signature(fs[k]));
        let env1 = env.push(x);
        lemma_register_lookup(fs, k + 1, env1);
        lemma_lookup_push(env, x, fs[k].name);
        assert forall|m: int| k <= m < fs.len() implies lookup(env, #[trigger] fs[m].name) is None by {
            if m > k {
                lemma_lookup_push(env, x, fs[m].name);
            }
        }
        assert forall|n: Seq<char>|
            (forall|m: int| k <= m < fs.len() ==> #[trigger] fs[m].name != n) implies lookup(
                register(fs, k, env)->Ok_0,
                n,
            ) == lookup(env, n) by {
            assert(fs[k].name != n);
            lemma_lookup_push(env, x, n);
            assert forall|m: int| k + 1 <= m < fs.len() implies #[trigger] fs[m].name != n by {
                assert(fs[m].name != n);
            }
        }
        assert forall|m: int| k <= m < fs.len() implies lookup(
            register(fs, k, env)->Ok_0,
            #[trigger] fs[m].name,
        ) == Some(signature(fs[m])) by {
            if m == k {
                assert forall|q: int| k + 1 <= q < fs.len() implies #[trigger] fs[q].name != fs[k].name by {
                    lemma_lookup_push(env, x, fs[q].name);
                }
            }
        }
    }
}

/// Seeding with parameters leaves every other name as it was.
proof fn lemma_seed_lookup(ps: Seq<ParamModel>, j: int, env: Env, n: Seq<char>)
    requires
        0 <= j <= ps.len(),
        seed_params(ps, j, env) is Ok,
        forall|q: int| j <= q < ps.len() ==> (#[trigger] ps[q]).0 != n,
    ensures
        lookup(seed_params(ps, j, env)->Ok_0, n) == lookup(env, n),
    decreases ps.len() - j,
{
    if j < ps.len() {
        let x = (ps[j].0, annotation_type(ps[j].1));
        assert(ps[j].0 != n);
        lemma_seed_lookup(ps, j + 1, env.push(x), n);
        lemma_lookup_push(env, x, n);
    }
}

/// The expression a statement starts by evaluating, if any.
pub open spec fn leading_expr(s: StmtModel) -> Option<ExprModel> {
    match s {
        StmtModel::Expr(e) => Some(e),
        StmtModel::Let(_, _, e) => Some(e),
        StmtModel::Return(Some(e)) => Some(e),
        _ => None,
    }
}

/// `n` names no function of `fs` and no parameter of `f`.
pub open spec fn bound_nowhere(n: Seq<char>, fs: Seq<FunctionModel>, f: FunctionModel) -> bool {
    &&& forall|m: int| 0 <= m < fs.len() ==> (#[trigger] fs[m]).name != n
    &&& forall|q: int| 0 <= q < f.params.len() ==> (#[trigger] f.params[q]).0 != n
}

/// A program whose first function starts its body by using a name that no
/// function, parameter or earlier `let` binds fails type checking with
/// `UndefinedVariable` naming it. (A program with a repeated function or
/// parameter name fails earlier, on that repetition.)
pub proof fn lemma_unbound_name_rejected(fs: Seq<FunctionModel>, n: Seq<char>)
    requires
        fs.len() > 0,
        bound_nowhere(n, fs, fs[0]),
        fs[0].body.len() > 0,
        leading_expr(fs[0].body[0]) == Some(ExprModel::Ident(n)),
        register(fs, 0, Seq::empty()) is Ok,
        seed_params(fs[0].params, 0, register(fs, 0, Seq::empty())->Ok_0) is Ok,
    ensures
        check_program_spec(fs) == Err::<(), TypeErrorModel>(TypeErrorModel::UndefinedVariable(n)),
{
    let top = register(fs, 0, Seq::empty())->Ok_0;
    lemma_register_lookup(fs, 0, Seq::empty());
    assert(lookup(top, n) == lookup(Seq::empty(), n));
    lemma_seed_lookup(fs[0].params, 0, top, n);
    let env = seed_params(fs[0].params, 0, top)->Ok_0;
    assert(lookup(env, n) is None);
    assert(check_stmt(fs[0].body[0], env) == Err::<Env, TypeErrorModel>(TypeErrorModel::UndefinedVariable(n)));
}

/// A program whose first function starts its body by calling, with one
/// argument, a function declared with no parameters fails type checking
/// with `ArgumentCount` 0 expected, 1 found. (A parameter of that name would
/// shadow the function; repeated names fail earlier.)
pub proof fn lemma_arity_mismatch_rejected(fs: Seq<FunctionModel>, g: int, a: ExprModel)
    requires
        0 <= g < fs.len(),
        fs[g].params.len() == 0,
        fs[0].body.len() > 0,
        leading_expr(fs[0].body[0]) == Some(ExprModel::Call(fs[g].name, seq![a])),
        forall|q: int| 0 <= q < fs[0].params.len() ==> (#[trigger] fs[0].params[q]).0 != fs[g].name,
        register(fs, 0, Seq::empty()) is Ok,
        seed_params(fs[0].params, 0, register(fs, 0, Seq::empty())->Ok_0) is Ok,
    ensures
        check_program_spec(fs) == Err::<(), TypeErrorModel>(TypeErrorModel::ArgumentCount(0, 1)),
{
    let top = register(fs, 0, Seq::empty())->Ok_0;
    lemma_register_lookup(fs, 0, Seq::empty());
    assert(lookup(top, fs[g].name) == Some(signature(fs[g])));
    lemma_seed_lookup(fs[0].params, 0, top, fs[g].name);
    let env = seed_params(fs[0].params, 0, top)->Ok_0;
    assert(signature(fs[g]) matches TypeModel::Function(ps, _) && ps.len() == 0);
    assert(check_stmt(fs[0].body[0], env) == Err::<Env, TypeErrorModel>(TypeErrorModel::ArgumentCount(0, 1)));
}

} // verus!
