use vstd::prelude::*;
use crate::ast::{
    lemma_view_stmts_index, opt_str_view, view_stmts, BinaryOp, Expr, ExprModel,
    Function, FunctionModel, LitModel, Literal, ParamModel, Program, Stmt, StmtModel,
};

verus! {

/// Primitive IR types: `i32`, `f64`, `i1`, pointer to byte, and no value.
#[derive(Clone, Copy, PartialEq, Eq, Structural, Debug)]
pub enum IrType {
    I32,
    F64,
    I1,
    Ptr,
    Void,
}

/// An IR value, tagged with what it is. An instruction's result is named by
/// the instruction's index in its block.
#[derive(Debug)]
pub enum Value {
    /// A constant of type `i32`; the backend keeps the low 32 bits.
    ConstInt(i64),
    /// A constant of type `f64`, kept as its source text.
    ConstFloat(String),
    ConstBool(bool),
    /// A constant byte string, addressed through a pointer.
    ConstString(String),
    Param(usize, IrType),
    Temp(usize, IrType),
}

#[derive(Debug)]
pub enum Instr {
    /// A named local slot for one value of the given type.
    Alloca { name: String, ty: IrType },
    Store { slot: usize, value: Value },
    Load { slot: usize, ty: IrType },
    Add { lhs: Value, rhs: Value },
    Sub { lhs: Value, rhs: Value },
    Ret(Option<Value>),
}

#[derive(Debug)]
pub struct BasicBlock {
    pub label: String,
    pub instrs: Vec<Instr>,
}

/// A function of the module; one without blocks is only declared.
#[derive(Debug)]
pub struct IrFunction {
    pub name: String,
    pub params: Vec<(String, IrType)>,
    pub ret: IrType,
    pub blocks: Vec<BasicBlock>,
}

#[derive(Debug)]
pub struct IrModule {
    pub name: String,
    pub functions: Vec<IrFunction>,
}

/// A construct that lowering does not cover.
#[derive(Clone, Copy, PartialEq, Eq, Structural, Debug)]
pub enum Construct {
    Operator(BinaryOp),
    Call,
    If,
    While,
}

#[derive(Debug)]
pub enum LowerError {
    /// A type annotation that names no IR type, or a missing one.
    UnknownType(Option<String>),
    /// A name bound to neither a parameter nor a local (a function, say).
    UnknownName(String),
    /// An addition or subtraction whose operands are not integers of one type.
    NotInteger,
    Unsupported(Construct),
    /// A function with a return type whose body may end without `return`.
    MissingReturn(String),
}

// ---------------------------------------------------------------------------
// Models
pub enum ValueModel {
    ConstInt(int),
    ConstFloat(Seq<char>),
    ConstBool(bool),
    ConstString(Seq<char>),
    Param(int, IrType),
    Temp(int, IrType),
}

pub enum InstrModel {
    Alloca(Seq<char>, IrType),
    Store(int, ValueModel),
    Load(int, IrType),
    Add(ValueModel, ValueModel),
    Sub(ValueModel, ValueModel),
    Ret(Option<ValueModel>),
}

pub struct BlockModel {
    pub label: Seq<char>,
    pub instrs: Seq<InstrModel>,
}

pub struct IrFunctionModel {
    pub name: Seq<char>,
    pub params: Seq<(Seq<char>, IrType)>,
    pub ret: IrType,
    pub blocks: Seq<BlockModel>,
}

pub enum LowerErrorModel {
    UnknownType(Option<Seq<char>>),
    UnknownName(Seq<char>),
    NotInteger,
    Unsupported(Construct),
    MissingReturn(Seq<char>),
}

impl View for Value {
    type V = ValueModel;

    open spec fn view(&self) -> ValueModel {
        match self {
            Value::ConstInt(n) => ValueModel::ConstInt(*n as int),
            Value::ConstFloat(t) => ValueModel::ConstFloat(t@),
            Value::ConstBool(b) => ValueModel::ConstBool(*b),
            Value::ConstString(s) => ValueModel::ConstString(s@),
            Value::Param(i, t) => ValueModel::Param(*i as int, *t),
            Value::Temp(i, t) => ValueModel::Temp(*i as int, *t),
        }
    }
}

pub open spec fn opt_value_view(v: Option<Value>) -> Option<ValueModel> {
    match v {
        Some(x) => Some(x@),
        None => None,
    }
}

impl View for Instr {
    type V = InstrModel;

    open spec fn view(&self) -> InstrModel {
        match self {
            Instr::Alloca { name, ty } => InstrModel::Alloca(name@, *ty),
            Instr::Store { slot, value } => InstrModel::Store(*slot as int, value@),
            Instr::Load { slot, ty } => InstrModel::Load(*slot as int, *ty),
            Instr::Add { lhs, rhs } => InstrModel::Add(lhs@, rhs@),
            Instr::Sub { lhs, rhs } => InstrModel::Sub(lhs@, rhs@),
            Instr::Ret(v) => InstrModel::Ret(opt_value_view(*v)),
        }
    }
}

pub open spec fn view_instrs(s: Seq<Instr>) -> Seq<InstrModel> {
    s.map_values(|i: Instr| i@)
}

impl View for BasicBlock {
    type V = BlockModel;

    open spec fn view(&self) -> BlockModel {
        BlockModel { label: self.label@, instrs: view_instrs(self.instrs@) }
    }
}

pub open spec fn view_ir_params(s: Seq<(String, IrType)>) -> Seq<(Seq<char>, IrType)> {
    s.map_values(|p: (String, IrType)| (p.0@, p.1))
}

impl View for IrFunction {
    type V = IrFunctionModel;

    open spec fn view(&self) -> IrFunctionModel {
        IrFunctionModel {
            name: self.name@,
            params: view_ir_params(self.params@),
            ret: self.ret,
            blocks: self.blocks@.map_values(|b: BasicBlock| b@),
        }
    }
}

impl View for LowerError {
    type V = LowerErrorModel;

    open spec fn view(&self) -> LowerErrorModel {
        match self {
            LowerError::UnknownType(a) => LowerErrorModel::UnknownType(opt_str_view(*a)),
            LowerError::UnknownName(n) => LowerErrorModel::UnknownName(n@),
            LowerError::NotInteger => LowerErrorModel::NotInteger,
            LowerError::Unsupported(c) => LowerErrorModel::Unsupported(*c),
            LowerError::MissingReturn(n) => LowerErrorModel::MissingReturn(n@),
        }
    }
}

// ---------------------------------------------------------------------------
// Lowering rules
/// The IR type an annotation names, if any.
pub open spec fn ir_type_of(a: Option<Seq<char>>) -> Option<IrType> {
    match a {
        Some(s) => if s == seq!['i', '3', '2'] {
            Some(IrType::I32)
        } else if s == seq!['f', '6', '4'] {
            Some(IrType::F64)
        } else if s == seq!['b', 'o', 'o', 'l'] {
            Some(IrType::I1)
        } else if s == seq!['s', 't', 'r'] {
            Some(IrType::Ptr)
        } else {
            None
        },
        None => None,
    }
}

/// The IR return type: none means `Void`.
pub open spec fn ir_return_type(a: Option<Seq<char>>) -> Result<IrType, LowerErrorModel> {
    match a {
        None => Ok(IrType::Void),
        Some(_) => match ir_type_of(a) {
            Some(t) => Ok(t),
            None => Err(LowerErrorModel::UnknownType(a)),
        },
    }
}

/// The parameters with their IR types; the first one without a known type is an error.
pub open spec fn ir_params(ps: Seq<ParamModel>) -> Result<Seq<(Seq<char>, IrType)>, LowerErrorModel>
    decreases ps.len(),
{
    if ps.len() == 0 {
        Ok(Seq::empty())
    } else {
        match ir_params(ps.drop_last()) {
            Ok(done) => match ir_type_of(ps.last().1) {
                Some(t) => Ok(done.push((ps.last().0, t))),
                None => Err(LowerErrorModel::UnknownType(ps.last().1)),
            },
            Err(x) => Err(x),
        }
    }
}

pub open spec fn value_type(v: ValueModel) -> IrType {
    match v {
        ValueModel::ConstInt(_) => IrType::I32,
        ValueModel::ConstFloat(_) => IrType::F64,
        ValueModel::ConstBool(_) => IrType::I1,
        ValueModel::ConstString(_) => IrType::Ptr,
        ValueModel::Param(_, t) => t,
        ValueModel::Temp(_, t) => t,
    }
}

pub open spec fn is_int_type(t: IrType) -> bool {
    t is I32 || t is I1
}

/// What a name stands for while a body is lowered.
#[derive(Clone, Copy, PartialEq, Eq, Structural, Debug)]
pub enum Binding {
    Param(usize, IrType),
    Slot(usize, IrType),
}

/// Lowering state of one body: the names in scope (a later entry shadows an
/// earlier one) and the instructions emitted so far.
pub struct LowerState {
    pub names: Seq<(Seq<char>, Binding)>,
    pub instrs: Seq<InstrModel>,
}

pub open spec fn find_binding(names: Seq<(Seq<char>, Binding)>, n: Seq<char>) -> Option<Binding>
    decreases names.len(),
{
    if names.len() == 0 {
        None
    } else if names.last().0 == n {
        Some(names.last().1)
    } else {
        find_binding(names.drop_last(), n)
    }
}

/// Appends an instruction; the value it defines is named by its index.
pub open spec fn emit(st: LowerState, i: InstrModel) -> LowerState {
    LowerState { names: st.names, instrs: st.instrs.push(i) }
}

pub open spec fn lower_expr_spec(e: ExprModel, st: LowerState) -> Result<(ValueModel, LowerState), LowerErrorModel>
    decreases e,
{
    match e {
        ExprModel::Lit(l) => Ok(
            (
                match l {
                    LitModel::Int(n) => ValueModel::ConstInt(n),
                    LitModel::Float(t) => ValueModel::ConstFloat(t),
                    LitModel::Bool(b) => ValueModel::ConstBool(b),
                    LitModel::Str(s) => ValueModel::ConstString(s),
                },
                st,
            ),
        ),
        ExprModel::Ident(n) => match find_binding(st.names, n) {
            Some(Binding::Param(i, t)) => Ok((ValueModel::Param(i as int, t), st)),
            Some(Binding::Slot(s, t)) => Ok(
                (ValueModel::Temp(st.instrs.len() as int, t), emit(st, InstrModel::Load(s as int, t))),
            ),
            None => Err(LowerErrorModel::UnknownName(n)),
        },
        ExprModel::Binary(l, op, r) => if op is Add || op is Sub {
            match lower_expr_spec(*l, st) {
                Ok((lv, st1)) => match lower_expr_spec(*r, st1) {
                    Ok((rv, st2)) => if is_int_type(value_type(lv)) && value_type(lv) == value_type(
                        rv,
                    ) {
                        Ok(
                            (
                                ValueModel::Temp(st2.instrs.len() as int, value_type(lv)),
                                emit(
                                    st2,
                                    if op is Add {
                                        InstrModel::Add(lv, rv)
                                    } else {
                                        InstrModel::Sub(lv, rv)
                                    },
                                ),
                            ),
                        )
                    } else {
                        Err(LowerErrorModel::NotInteger)
                    },
                    Err(x) => Err(x),
                },
                Err(x) => Err(x),
            }
        } else {
            Err(LowerErrorModel::Unsupported(Construct::Operator(op)))
        },
        ExprModel::Call(_, _) => Err(LowerErrorModel::Unsupported(Construct::Call)),
        ExprModel::If(_, _, _) => Err(LowerErrorModel::Unsupported(Construct::If)),
    }
}

/// Lowers one statement; the flag tells whether it returned.
pub open spec fn lower_stmt_spec(s: StmtModel, st: LowerState) -> Result<(LowerState, bool), LowerErrorModel> {
    match s {
        StmtModel::Let(name, _, value) => match lower_expr_spec(value, st) {
            Ok((v, st1)) => {
                let slot = st1.instrs.len();
                let t = value_type(v);
                let st2 = emit(emit(st1, InstrModel::Alloca(name, t)), InstrModel::Store(slot as int, v));
                Ok((LowerState { names: st2.names.push((name, Binding::Slot(slot as usize, t))), instrs: st2.instrs }, false))
            },
            Err(x) => Err(x),
        },
        StmtModel::Return(None) => Ok((emit(st, InstrModel::Ret(None)), true)),
        StmtModel::Return(Some(e)) => match lower_expr_spec(e, st) {
            Ok((v, st1)) => Ok((emit(st1, InstrModel::Ret(Some(v))), true)),
            Err(x) => Err(x),
        },
        StmtModel::Expr(e) => match lower_expr_spec(e, st) {
            Ok((_, st1)) => Ok((st1, false)),
            Err(x) => Err(x),
        },
        StmtModel::While(_, _) => Err(LowerErrorModel::Unsupported(Construct::While)),
    }
}

/// Lowers statements in order up to the first `return`; what follows a
/// `return` is unreachable and emits nothing.
pub open spec fn lower_stmts_spec(ss: Seq<StmtModel>, st: LowerState) -> Result<(LowerState, bool), LowerErrorModel>
    decreases ss.len(),
{
    if ss.len() == 0 {
        Ok((st, false))
    } else {
        match lower_stmt_spec(ss[0], st) {
            Ok((st1, true)) => Ok((st1, true)),
            Ok((st1, false)) => lower_stmts_spec(ss.drop_first(), st1),
            Err(x) => Err(x),
        }
    }
}

/// The names a body starts with: each parameter bound to its position.
pub open spec fn param_bindings(ps: Seq<(Seq<char>, IrType)>) -> Seq<(Seq<char>, Binding)> {
    Seq::new(ps.len(), |k: int| (ps[k].0, Binding::Param(k as usize, ps[k].1)))
}

/// The entry block of a declared function: its body, closed by a synthesized
/// `ret void` when a function without return type falls off its end.
pub open spec fn lower_body(f: FunctionModel, params: Seq<(Seq<char>, IrType)>, ret: IrType) -> Result<
    Seq<InstrModel>,
    LowerErrorModel,
> {
    match lower_stmts_spec(f.body, LowerState { names: param_bindings(params), instrs: Seq::empty() }) {
        Ok((st, true)) => Ok(st.instrs),
        Ok((st, false)) => if ret is Void {
            Ok(st.instrs.push(InstrModel::Ret(None)))
        } else {
            Err(LowerErrorModel::MissingReturn(f.name))
        },
        Err(x) => Err(x),
    }
}

// ---------------------------------------------------------------------------
// Declarations and the module
/// A function's declaration: its IR signature and no body yet. The return
/// type is resolved first, then the parameters in order.
pub open spec fn declare_spec(f: FunctionModel) -> Result<IrFunctionModel, LowerErrorModel> {
    match ir_return_type(f.ret) {
        Ok(ret) => match ir_params(f.params) {
            Ok(ps) => Ok(IrFunctionModel { name: f.name, params: ps, ret, blocks: Seq::empty() }),
            Err(x) => Err(x),
        },
        Err(x) => Err(x),
    }
}

/// The definition of a declared function: one entry block holding its body.
pub open spec fn define_spec(f: FunctionModel, d: IrFunctionModel) -> Result<IrFunctionModel, LowerErrorModel> {
    match lower_body(f, d.params, d.ret) {
        Ok(instrs) => Ok(
            IrFunctionModel {
                name: d.name,
                params: d.params,
                ret: d.ret,
                blocks: seq![BlockModel { label: seq!['e', 'n', 't', 'r', 'y'], instrs }],
            },
        ),
        Err(x) => Err(x),
    }
}

/// First pass over the first `n` functions.
pub open spec fn declare_upto(fs: Seq<FunctionModel>, n: int) -> Result<Seq<IrFunctionModel>, LowerErrorModel>
    decreases n,
{
    if n <= 0 {
        Ok(Seq::empty())
    } else {
        match declare_upto(fs, n - 1) {
            Ok(ds) => match declare_spec(fs[n - 1]) {
                Ok(d) => Ok(ds.push(d)),
                Err(x) => Err(x),
            },
            Err(x) => Err(x),
        }
    }
}

/// Second pass over the first `n` functions.
pub open spec fn define_upto(fs: Seq<FunctionModel>, ds: Seq<IrFunctionModel>, n: int) -> Result<
    Seq<IrFunctionModel>,
    LowerErrorModel,
>
    decreases n,
{
    if n <= 0 {
        Ok(Seq::empty())
    } else {
        match define_upto(fs, ds, n - 1) {
            Ok(out) => match define_spec(fs[n - 1], ds[n - 1]) {
                Ok(d) => Ok(out.push(d)),
                Err(x) => Err(x),
            },
            Err(x) => Err(x),
        }
    }
}

/// The functions a program lowers to, in order, or the first lowering error:
/// every declaration is made before any body is lowered.
pub open spec fn lower_program_spec(fs: Seq<FunctionModel>) -> Result<Seq<IrFunctionModel>, LowerErrorModel> {
    match declare_upto(fs, fs.len() as int) {
        Ok(ds) => define_upto(fs, ds, fs.len() as int),
        Err(x) => Err(x),
    }
}

/// The runtime's text output routine, declared in every module.
pub open spec fn print_declaration() -> IrFunctionModel {
    IrFunctionModel {
        name: seq!['p', 'r', 'i', 'n', 't'],
        params: seq![(seq!['t', 'e', 'x', 't'], IrType::Ptr)],
        ret: IrType::Void,
        blocks: Seq::empty(),
    }
}

pub open spec fn module_view(m: &IrModule) -> Seq<IrFunctionModel> {
    m.functions@.map_values(|f: IrFunction| f@)
}

// ---------------------------------------------------------------------------
// Executable lowering
pub open spec fn names_view(v: Seq<(String, Binding)>) -> Seq<(Seq<char>, Binding)> {
    v.map_values(|e: (String, Binding)| (e.0@, e.1))
}

/// The state of one body being lowered.
pub struct BodyBuilder {
    pub names: Vec<(String, Binding)>,
    pub instrs: Vec<Instr>,
}

impl View for BodyBuilder {
    type V = LowerState;

    open spec fn view(&self) -> LowerState {
        LowerState { names: names_view(self.names@), instrs: view_instrs(self.instrs@) }
    }
}

fn is_named(s: &String, lit: &str) -> (r: bool)
    ensures
        r == (s@ == lit@),
{
    *s == lit.to_owned()
}

/// The IR type an annotation names.
pub fn parse_type(a: &Option<String>) -> (r: Option<IrType>)
    ensures
        r == ir_type_of(opt_str_view(*a)),
{
    proof {
        reveal_strlit("i32");
        reveal_strlit("f64");
        reveal_strlit("bool");
        reveal_strlit("str");
        assert("i32"@ =~= seq!['i', '3', '2']);
        assert("f64"@ =~= seq!['f', '6', '4']);
        assert("bool"@ =~= seq!['b', 'o', 'o', 'l']);
        assert("str"@ =~= seq!['s', 't', 'r']);
    }
    match a {
        Some(s) => if is_named(s, "i32") {
            Some(IrType::I32)
        } else if is_named(s, "f64") {
            Some(IrType::F64)
        } else if is_named(s, "bool") {
            Some(IrType::I1)
        } else if is_named(s, "str") {
            Some(IrType::Ptr)
        } else {
            None
        },
        None => None,
    }
}

fn opt_string_clone(a: &Option<String>) -> (r: Option<String>)
    ensures
        opt_str_view(r) == opt_str_view(*a),
{
    match a {
        Some(s) => Some(s.clone()),
        None => None,
    }
}

fn value_type_of(v: &Value) -> (r: IrType)
    ensures
        r == value_type(v@),
{
    match v {
        Value::ConstInt(_) => IrType::I32,
        Value::ConstFloat(_) => IrType::F64,
        Value::ConstBool(_) => IrType::I1,
        Value::ConstString(_) => IrType::Ptr,
        Value::Param(_, t) => *t,
        Value::Temp(_, t) => *t,
    }
}

fn find_binding_exec(names: &Vec<(String, Binding)>, n: &String) -> (r: Option<Binding>)
    ensures
        r == find_binding(names_view(names@), n@),
{
    let mut k = names.len();
    assert(names_view(names@).subrange(0, k as int) =~= names_view(names@));
    while k > 0
        invariant
            k <= names@.len(),
            find_binding(names_view(names@), n@) == find_binding(
                names_view(names@).subrange(0, k as int),
                n@,
            ),
        decreases k,
    {
        let ghost sub = names_view(names@).subrange(0, k as int);
        assert(sub.drop_last() =~= names_view(names@).subrange(0, k as int - 1));
        if names[k - 1].0 == *n {
            return Some(names[k - 1].1);
        }
        k -= 1;
    }
    None
}

impl BodyBuilder {
    fn emit(&mut self, i: Instr)
        ensures
            final(self)@ == emit(old(self)@, i@),
    {
        self.instrs.push(i);
        assert(view_instrs(self.instrs@) =~= view_instrs(old(self).instrs@).push(i@));
    }

    fn compile_expr(&mut self, e: &Expr) -> (r: Result<Value, LowerError>)
        ensures
            match r {
                Ok(v) => lower_expr_spec(e@, old(self)@) == Ok::<(ValueModel, LowerState), LowerErrorModel>(
                    (v@, final(self)@),
                ),
                Err(x) => lower_expr_spec(e@, old(self)@) == Err::<
                    (ValueModel, LowerState),
                    LowerErrorModel,
                >(x@),
            },
        decreases e,
    {
        match e {
            Expr::Literal(l) => Ok(
                match l {
                    Literal::Int(n) => Value::ConstInt(*n),
                    Literal::Float(t) => Value::ConstFloat(t.clone()),
                    Literal::Bool(b) => Value::ConstBool(*b),
                    Literal::String(s) => Value::ConstString(s.clone()),
                },
            ),
            Expr::Ident(n) => match find_binding_exec(&self.names, n) {
                Some(Binding::Param(i, t)) => Ok(Value::Param(i, t)),
                Some(Binding::Slot(slot, t)) => {
                    let dest = self.instrs.len();
                    self.emit(Instr::Load { slot, ty: t });
                    Ok(Value::Temp(dest, t))
                },
                None => Err(LowerError::UnknownName(n.clone())),
            },
            Expr::BinaryOp { left, op, right } => {
                match op {
                    BinaryOp::Add | BinaryOp::Sub => {},
                    _ => {
                        return Err(LowerError::Unsupported(Construct::Operator(*op)));
                    },
                }
                let lv = match self.compile_expr(left) {
                    Ok(v) => v,
                    Err(x) => {
                        return Err(x);
                    },
                };
                let rv = match self.compile_expr(right) {
                    Ok(v) => v,
                    Err(x) => {
                        return Err(x);
                    },
                };
                let lt = value_type_of(&lv);
                let rt = value_type_of(&rv);
                if !((lt == IrType::I32 || lt == IrType::I1) && lt == rt) {
                    return Err(LowerError::NotInteger);
                }
                let dest = self.instrs.len();
                match op {
                    BinaryOp::Add => self.emit(Instr::Add { lhs: lv, rhs: rv }),
                    _ => self.emit(Instr::Sub { lhs: lv, rhs: rv }),
                }
                Ok(Value::Temp(dest, lt))
            },
            Expr::Call { .. } => Err(LowerError::Unsupported(Construct::Call)),
            Expr::If { .. } => Err(LowerError::Unsupported(Construct::If)),
        }
    }

    fn compile_stmt(&mut self, s: &Stmt) -> (r: Result<bool, LowerError>)
        ensures
            match r {
                Ok(b) => lower_stmt_spec(s@, old(self)@) == Ok::<(LowerState, bool), LowerErrorModel>(
                    (final(self)@, b),
                ),
                Err(x) => lower_stmt_spec(s@, old(self)@) == Err::<(LowerState, bool), LowerErrorModel>(
                    x@,
                ),
            },
    {
        match s {
            Stmt::Let { name, value, .. } => {
                let v = match self.compile_expr(value) {
                    Ok(v) => v,
                    Err(x) => {
                        return Err(x);
                    },
                };
                let t = value_type_of(&v);
                let slot = self.instrs.len();
                self.emit(Instr::Alloca { name: name.clone(), ty: t });
                self.emit(Instr::Store { slot, value: v });
                let ghost before = self.names@;
                self.names.push((name.clone(), Binding::Slot(slot, t)));
                assert(names_view(self.names@) =~= names_view(before).push((name@, Binding::Slot(slot, t))));
                Ok(false)
            },
            Stmt::Return(None) => {
                self.emit(Instr::Ret(None));
                Ok(true)
            },
            Stmt::Return(Some(e)) => {
                let v = match self.compile_expr(e) {
                    Ok(v) => v,
                    Err(x) => {
                        return Err(x);
                    },
                };
                self.emit(Instr::Ret(Some(v)));
                Ok(true)
            },
            Stmt::Expr(e) => match self.compile_expr(e) {
                Ok(_) => Ok(false),
                Err(x) => Err(x),
            },
            Stmt::While { .. } => Err(LowerError::Unsupported(Construct::While)),
        }
    }

    fn compile_stmts(&mut self, ss: &Vec<Stmt>) -> (r: Result<bool, LowerError>)
        ensures
            match r {
                Ok(b) => lower_stmts_spec(view_stmts(ss@), old(self)@) == Ok::<
                    (LowerState, bool),
                    LowerErrorModel,
                >((final(self)@, b)),
                Err(x) => lower_stmts_spec(view_stmts(ss@), old(self)@) == Err::<
                    (LowerState, bool),
                    LowerErrorModel,
                >(x@),
            },
    {
        let ghost vs = view_stmts(ss@);
        let ghost n = ss@.len() as int;
        proof {
            lemma_view_stmts_index(ss@);
            assert(vs.subrange(0, n) =~= vs);
        }
        let mut k: usize = 0;
        while k < ss.len()
            invariant
                n == ss@.len(),
                vs == view_stmts(ss@),
                vs.len() == n,
                forall|j: int| 0 <= j < n ==> vs[j] == (#[trigger] ss@[j])@,
                k <= n,
                lower_stmts_spec(vs, old(self)@) == lower_stmts_spec(vs.subrange(k as int, n), self@),
            decreases n - k,
        {
            let ghost sub = vs.subrange(k as int, n);
            assert(sub[0] == ss@[k as int]@);
            assert(sub.drop_first() =~= vs.subrange(k as int + 1, n));
            match self.compile_stmt(&ss[k]) {
                Ok(true) => {
                    return Ok(true);
                },
                Ok(false) => {},
                Err(x) => {
                    return Err(x);
                },
            }
            k += 1;
        }
        assert(vs.subrange(n, n).len() == 0);
        Ok(false)
    }
}

proof fn lemma_ir_params_err_prefix(ps: Seq<ParamModel>, k: int, m: int)
    requires
        0 <= k < m <= ps.len(),
        ir_params(ps.subrange(0, k + 1)) is Err,
    ensures
        ir_params(ps.subrange(0, m)) == ir_params(ps.subrange(0, k + 1)),
    decreases m,
{
    if m > k + 1 {
        lemma_ir_params_err_prefix(ps, k, m - 1);
        assert(ps.subrange(0, m).drop_last() =~= ps.subrange(0, m - 1));
    }
}

proof fn lemma_declare_err_prefix(fs: Seq<FunctionModel>, k: int, m: int)
    requires
        0 <= k < m <= fs.len(),
        declare_upto(fs, k + 1) is Err,
    ensures
        declare_upto(fs, m) == declare_upto(fs, k + 1),
    decreases m,
{
    if m > k + 1 {
        lemma_declare_err_prefix(fs, k, m - 1);
    }
}

proof fn lemma_define_err_prefix(fs: Seq<FunctionModel>, ds: Seq<IrFunctionModel>, k: int, m: int)
    requires
        0 <= k < m <= fs.len(),
        define_upto(fs, ds, k + 1) is Err,
    ensures
        define_upto(fs, ds, m) == define_upto(fs, ds, k + 1),
    decreases m,
{
    if m > k + 1 {
        lemma_define_err_prefix(fs, ds, k, m - 1);
    }
}

fn copy_ir_params(ps: &Vec<(String, IrType)>) -> (r: Vec<(String, IrType)>)
    ensures
        view_ir_params(r@) == view_ir_params(ps@),
{
    let mut out: Vec<(String, IrType)> = Vec::new();
    let mut k: usize = 0;
    while k < ps.len()
        invariant
            k <= ps@.len(),
            view_ir_params(out@) == view_ir_params(ps@).subrange(0, k as int),
        decreases ps@.len() - k,
    {
        let ghost before = out@;
        out.push((ps[k].0.clone(), ps[k].1));
        assert(view_ir_params(out@) =~= view_ir_params(before).push((ps@[k as int].0@, ps@[k as int].1)));
        assert(view_ir_params(ps@).subrange(0, k as int + 1) =~= view_ir_params(ps@).subrange(0, k as int).push(
            view_ir_params(ps@)[k as int],
        ));
        k += 1;
    }
    assert(view_ir_params(ps@).subrange(0, ps@.len() as int) =~= view_ir_params(ps@));
    out
}

/// First pass for one function: its declaration.
pub fn declare_function(f: &Function) -> (r: Result<IrFunction, LowerError>)
    ensures
        match r {
            Ok(d) => declare_spec(f@) == Ok::<IrFunctionModel, LowerErrorModel>(d@),
            Err(x) => declare_spec(f@) == Err::<IrFunctionModel, LowerErrorModel>(x@),
        },
{
    let ret = match &f.return_type {
        None => IrType::Void,
        Some(_) => match parse_type(&f.return_type) {
            Some(t) => t,
            None => {
                return Err(LowerError::UnknownType(opt_string_clone(&f.return_type)));
            },
        },
    };
    let ghost ps = f@.params;
    let mut params: Vec<(String, IrType)> = Vec::new();
    let mut k: usize = 0;
    assert(ps.subrange(0, 0).len() == 0);
    assert(view_ir_params(params@) =~= Seq::<(Seq<char>, IrType)>::empty());
    while k < f.params.len()
        invariant
            ps == f@.params,
            ps.len() == f.params@.len(),
            k <= ps.len(),
            ir_return_type(f@.ret) == Ok::<IrType, LowerErrorModel>(ret),
            ir_params(ps.subrange(0, k as int)) == Ok::<Seq<(Seq<char>, IrType)>, LowerErrorModel>(
                view_ir_params(params@),
            ),
        decreases ps.len() - k,
    {
        assert(ps.subrange(0, k as int + 1).drop_last() =~= ps.subrange(0, k as int));
        assert(ps.subrange(0, k as int + 1).last() == ps[k as int]);
        match parse_type(&f.params[k].1) {
            Some(t) => {
                let ghost before = params@;
                params.push((f.params[k].0.clone(), t));
                assert(view_ir_params(params@) =~= view_ir_params(before).push((ps[k as int].0, t)));
            },
            None => {
                proof {
                    assert(ir_type_of(ps[k as int].1) is None);
                    assert(ir_params(ps.subrange(0, k as int + 1)) is Err);
                    lemma_ir_params_err_prefix(ps, k as int, ps.len() as int);
                    assert(ps.subrange(0, ps.len() as int) =~= ps);
                }
                return Err(LowerError::UnknownType(opt_string_clone(&f.params[k].1)));
            },
        }
        k += 1;
    }
    assert(ps.subrange(0, ps.len() as int) =~= ps);
    let d = IrFunction { name: f.name.clone(), params, ret, blocks: Vec::new() };
    assert(d@.blocks =~= Seq::<BlockModel>::empty());
    Ok(d)
}

/// Second pass for one declared function: its entry block.
pub fn define_function(f: &Function, d: &IrFunction) -> (r: Result<IrFunction, LowerError>)
    ensures
        match r {
            Ok(x) => define_spec(f@, d@) == Ok::<IrFunctionModel, LowerErrorModel>(x@),
            Err(e) => define_spec(f@, d@) == Err::<IrFunctionModel, LowerErrorModel>(e@),
        },
{
    let ghost pv = view_ir_params(d.params@);
    let mut b = BodyBuilder { names: Vec::new(), instrs: Vec::new() };
    let mut k: usize = 0;
    while k < d.params.len()
        invariant
            pv == view_ir_params(d.params@),
            k <= d.params@.len(),
            b.instrs@.len() == 0,
            names_view(b.names@) =~= Seq::new(
                k as nat,
                |j: int| (pv[j].0, Binding::Param(j as usize, pv[j].1)),
            ),
        decreases d.params@.len() - k,
    {
        let ghost before = b.names@;
        b.names.push((d.params[k].0.clone(), Binding::Param(k, d.params[k].1)));
        assert(names_view(b.names@) =~= names_view(before).push((pv[k as int].0, Binding::Param(k, pv[k as int].1))));
        k += 1;
    }
    assert(names_view(b.names@) =~= param_bindings(pv));
    assert(view_instrs(b.instrs@) =~= Seq::<InstrModel>::empty());
    let returned = match b.compile_stmts(&f.body) {
        Ok(x) => x,
        Err(e) => {
            return Err(e);
        },
    };
    if !returned {
        if d.ret == IrType::Void {
            b.emit(Instr::Ret(None));
        } else {
            return Err(LowerError::MissingReturn(f.name.clone()));
        }
    }
    let label = "entry".to_owned();
    proof {
        reveal_strlit("entry");
        assert("entry"@ =~= seq!['e', 'n', 't', 'r', 'y']);
    }
    let block = BasicBlock { label, instrs: b.instrs };
    let ghost bv = block@;
    let blocks = vec![block];
    assert(blocks@.map_values(|x: BasicBlock| x@) =~= seq![bv]);
    Ok(IrFunction { name: d.name.clone(), params: copy_ir_params(&d.params), ret: d.ret, blocks })
}

/// Lowers checked programs into one IR module.
pub struct CodeGen {
    pub module: IrModule,
}

impl CodeGen {
    /// A module named `dlang` holding the declaration of the runtime's `print`.
    pub fn new() -> (r: CodeGen)
        ensures
            module_view(&r.module) == seq![print_declaration()],
            r.module.name@ == seq!['d', 'l', 'a', 'n', 'g'],
    {
        proof {
            reveal_strlit("dlang");
            reveal_strlit("print");
            reveal_strlit("text");
            assert("dlang"@ =~= seq!['d', 'l', 'a', 'n', 'g']);
            assert("print"@ =~= seq!['p', 'r', 'i', 'n', 't']);
            assert("text"@ =~= seq!['t', 'e', 'x', 't']);
        }
        let params = vec![("text".to_owned(), IrType::Ptr)];
        let print = IrFunction { name: "print".to_owned(), params, ret: IrType::Void, blocks: Vec::new() };
        assert(print@.params =~= seq![(seq!['t', 'e', 'x', 't'], IrType::Ptr)]);
        assert(print@.blocks =~= Seq::<BlockModel>::empty());
        assert(print@ == print_declaration());
        let ghost pv = print@;
        let functions = vec![print];
        assert(functions@.map_values(|f: IrFunction| f@) =~= seq![pv]);
        CodeGen { module: IrModule { name: "dlang".to_owned(), functions } }
    }

    /// Declares every function, then defines each one, and appends them to
    /// the module; on an error the module is left as it was.
    pub fn compile(&mut self, program: &Program) -> (r: Result<(), LowerError>)
        ensures
            match r {
                Ok(()) => lower_program_spec(program@) matches Ok(fs) && module_view(&final(self).module)
                    == module_view(&old(self).module) + fs,
                Err(x) => lower_program_spec(program@) == Err::<Seq<IrFunctionModel>, LowerErrorModel>(
                    x@,
                ) && module_view(&final(self).module) == module_view(&old(self).module),
            },
            final(self).module.name == old(self).module.name,
    {
        let ghost fs = program@;
        let n = program.functions.len();
        let mut decls: Vec<IrFunction> = Vec::new();
        let mut k: usize = 0;
        assert(decls@.map_values(|f: IrFunction| f@) =~= Seq::<IrFunctionModel>::empty());
        while k < n
            invariant
                fs == program@,
                n == fs.len(),
                k <= n,
                decls@.len() == k,
                declare_upto(fs, k as int) == Ok::<Seq<IrFunctionModel>, LowerErrorModel>(
                    decls@.map_values(|f: IrFunction| f@),
                ),
            decreases n - k,
        {
            match declare_function(&program.functions[k]) {
                Ok(d) => {
                    let ghost before = decls@;
                    decls.push(d);
                    assert(decls@.map_values(|f: IrFunction| f@) =~= before.map_values(
                        |f: IrFunction| f@,
                    ).push(d@));
                },
                Err(x) => {
                    proof {
                        lemma_declare_err_prefix(fs, k as int, n as int);
                    }
                    return Err(x);
                },
            }
            k += 1;
        }
        let ghost ds = decls@.map_values(|f: IrFunction| f@);
        let mut defs: Vec<IrFunction> = Vec::new();
        let mut k: usize = 0;
        assert(defs@.map_values(|f: IrFunction| f@) =~= Seq::<IrFunctionModel>::empty());
        while k < n
            invariant
                fs == program@,
                n == fs.len(),
                decls@.len() == n,
                ds == decls@.map_values(|f: IrFunction| f@),
                declare_upto(fs, n as int) == Ok::<Seq<IrFunctionModel>, LowerErrorModel>(ds),
                k <= n,
                define_upto(fs, ds, k as int) == Ok::<Seq<IrFunctionModel>, LowerErrorModel>(
                    defs@.map_values(|f: IrFunction| f@),
                ),
            decreases n - k,
        {
            match define_function(&program.functions[k], &decls[k]) {
                Ok(d) => {
                    let ghost before = defs@;
                    defs.push(d);
                    assert(defs@.map_values(|f: IrFunction| f@) =~= before.map_values(
                        |f: IrFunction| f@,
                    ).push(d@));
                },
                Err(x) => {
                    proof {
                        lemma_define_err_prefix(fs, ds, k as int, n as int);
                    }
                    return Err(x);
                },
            }
            k += 1;
        }
        let ghost old_fns = module_view(&self.module);
        let ghost new_fns = defs@.map_values(|f: IrFunction| f@);
        self.module.functions.append(&mut defs);
        assert(module_view(&self.module) =~= old_fns + new_fns);
        Ok(())
    }
}

// ---------------------------------------------------------------------------
// Laws
/// No top-level statement of `ss` is a `return`.
pub open spec fn returns_nowhere(ss: Seq<StmtModel>) -> bool {
    forall|k: int| 0 <= k < ss.len() ==> !(#[trigger] ss[k] is Return)
}

proof fn lemma_no_return_falls_through(ss: Seq<StmtModel>, st: LowerState)
    requires
        returns_nowhere(ss),
        lower_stmts_spec(ss, st) is Ok,
    ensures
        lower_stmts_spec(ss, st)->Ok_0.1 == false,
    decreases ss.len(),
{
    if ss.len() > 0 {
        assert(!(ss[0] is Return));
        let st1 = lower_stmt_spec(ss[0], st)->Ok_0.0;
        assert forall|k: int| 0 <= k < ss.drop_first().len() implies !(#[trigger] ss.drop_first()[k] is Return) by {
            assert(ss.drop_first()[k] == ss[k + 1]);
        }
        lemma_no_return_falls_through(ss.drop_first(), st1);
    }
}

/// A function declared without a return type whose body has no `return`
/// statement lowers to a single entry block that ends in a synthesized
/// `ret void`, whenever the statements of its body lower at all (calls,
/// loops, conditionals and operators other than `+` and `-` do not).
pub proof fn lemma_void_body_gets_trailing_return(f: FunctionModel, d: IrFunctionModel)
    requires
        f.ret is None,
        declare_spec(f) == Ok::<IrFunctionModel, LowerErrorModel>(d),
        returns_nowhere(f.body),
        lower_stmts_spec(f.body, LowerState { names: param_bindings(d.params), instrs: Seq::empty() }) is Ok,
    ensures
        define_spec(f, d) is Ok,
        define_spec(f, d)->Ok_0.ret == IrType::Void,
        define_spec(f, d)->Ok_0.blocks.len() == 1,
        define_spec(f, d)->Ok_0.blocks[0].instrs.last() == InstrModel::Ret(None),
{
    lemma_no_return_falls_through(
        f.body,
        LowerState { names: param_bindings(d.params), instrs: Seq::empty() },
    );
}

} // verus!
