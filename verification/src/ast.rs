//! The abstract syntax tree and its mathematical model.
use vstd::prelude::*;
use crate::typ::{Type, TypeV};
use crate::value::Val;

verus! {

/// An expression node. Every node carries an id (set by the node id assigner) and a
/// source location (a byte offset).
#[allow(inconsistent_fields)]
#[derive(Debug)]
pub enum Expr {
    Const { id: usize, loc: usize, val: Val },
    Var { id: usize, loc: usize, name: String },
    UnOp { id: usize, loc: usize, operator: UnaryOperator, operand: Box<Expr> },
    BinOp { id: usize, loc: usize, left: Box<Expr>, operator: BinaryOperator, right: Box<Expr> },
    Deref { id: usize, loc: usize, operand: Box<Expr> },
    AddrOf { id: usize, loc: usize, operand: Box<Expr> },
    Subscr { id: usize, loc: usize, operand: Box<Expr>, index: Box<Expr> },
    Cast { id: usize, loc: usize, operand: Box<Expr>, typ: Type },
    Call { id: usize, loc: usize, name: String, args: Vec<Box<Expr>>, ret_type: Option<Type> },
}

/// A statement node.
#[derive(Debug)]
pub enum Stmt {
    Expr { id: usize, loc: usize, expr: Box<Expr> },
    Declare { id: usize, loc: usize, typ: Type, name: String },
    Define { id: usize, loc: usize, typ: Type, name: String, rhs: Box<Expr> },
    Assign { id: usize, loc: usize, lhs: Box<Expr>, rhs: Box<Expr> },
    Block { id: usize, loc: usize, stmts: Vec<Box<Stmt>> },
    If { id: usize, loc: usize, cond: Box<Expr>, true_arm: Box<Stmt>, false_arm: Box<Stmt> },
    While { id: usize, loc: usize, cond: Box<Expr>, body: Box<Stmt> },
    FnDecl {
        id: usize,
        loc: usize,
        name: String,
        args: Vec<(String, Type)>,
        ret_type: Type,
        body: Box<Stmt>,
    },
    Return { id: usize, loc: usize, expr: Box<Expr> },
    Break { id: usize, loc: usize },
    Continue { id: usize, loc: usize },
    PrintByte { id: usize, loc: usize, expr: Box<Expr> },
    PrintInt { id: usize, loc: usize, expr: Box<Expr> },
    PrintString { id: usize, loc: usize, expr: Box<Expr> },
}

#[derive(Clone, Copy, Debug, PartialEq, Eq, Structural)]
pub enum BinaryOperator {
    Add,
    Sub,
    Mul,
    Div,
    Lt,
    Leq,
    Gt,
    Geq,
    Eq,
    Neq,
    And,
    Or,
}

#[derive(Clone, Copy, Debug, PartialEq, Eq, Structural)]
pub enum UnaryOperator {
    Neg,
    Pos,
    Not,
}

/// The model of an [`Expr`].
#[allow(inconsistent_fields)]
pub enum ExprV {
    Const { id: usize, loc: usize, val: Val },
    Var { id: usize, loc: usize, name: Seq<char> },
    UnOp { id: usize, loc: usize, operator: UnaryOperator, operand: Box<ExprV> },
    BinOp { id: usize, loc: usize, left: Box<ExprV>, operator: BinaryOperator, right: Box<ExprV> },
    Deref { id: usize, loc: usize, operand: Box<ExprV> },
    AddrOf { id: usize, loc: usize, operand: Box<ExprV> },
    Subscr { id: usize, loc: usize, operand: Box<ExprV>, index: Box<ExprV> },
    Cast { id: usize, loc: usize, operand: Box<ExprV>, typ: TypeV },
    Call { id: usize, loc: usize, name: Seq<char>, args: Seq<ExprV>, ret_type: Option<TypeV> },
}

/// The model of a [`Stmt`].
pub enum StmtV {
    Expr { id: usize, loc: usize, expr: Box<ExprV> },
    Declare { id: usize, loc: usize, typ: TypeV, name: Seq<char> },
    Define { id: usize, loc: usize, typ: TypeV, name: Seq<char>, rhs: Box<ExprV> },
    Assign { id: usize, loc: usize, lhs: Box<ExprV>, rhs: Box<ExprV> },
    Block { id: usize, loc: usize, stmts: Seq<StmtV> },
    If { id: usize, loc: usize, cond: Box<ExprV>, true_arm: Box<StmtV>, false_arm: Box<StmtV> },
    While { id: usize, loc: usize, cond: Box<ExprV>, body: Box<StmtV> },
    FnDecl {
        id: usize,
        loc: usize,
        name: Seq<char>,
        args: Seq<(Seq<char>, TypeV)>,
        ret_type: TypeV,
        body: Box<StmtV>,
    },
    Return { id: usize, loc: usize, expr: Box<ExprV> },
    Break { id: usize, loc: usize },
    Continue { id: usize, loc: usize },
    PrintByte { id: usize, loc: usize, expr: Box<ExprV> },
    PrintInt { id: usize, loc: usize, expr: Box<ExprV> },
    PrintString { id: usize, loc: usize, expr: Box<ExprV> },
}

pub open spec fn opt_type_view(t: Option<Type>) -> Option<TypeV> {
    match t {
        Some(t) => Some(t@),
        None => None,
    }
}

pub open spec fn expr_view(e: Expr) -> ExprV
    decreases e,
{
    match e {
        Expr::Const { id, loc, val } => ExprV::Const { id, loc, val },
        Expr::Var { id, loc, name } => ExprV::Var { id, loc, name: name@ },
        Expr::UnOp { id, loc, operator, operand } => ExprV::UnOp {
            id,
            loc,
            operator,
            operand: Box::new(expr_view(*operand)),
        },
        Expr::BinOp { id, loc, left, operator, right } => ExprV::BinOp {
            id,
            loc,
            left: Box::new(expr_view(*left)),
            operator,
            right: Box::new(expr_view(*right)),
        },
        Expr::Deref { id, loc, operand } => ExprV::Deref {
            id,
            loc,
            operand: Box::new(expr_view(*operand)),
        },
        Expr::AddrOf { id, loc, operand } => ExprV::AddrOf {
            id,
            loc,
            operand: Box::new(expr_view(*operand)),
        },
        Expr::Subscr { id, loc, operand, index } => ExprV::Subscr {
            id,
            loc,
            operand: Box::new(expr_view(*operand)),
            index: Box::new(expr_view(*index)),
        },
        Expr::Cast { id, loc, operand, typ } => ExprV::Cast {
            id,
            loc,
            operand: Box::new(expr_view(*operand)),
            typ: typ@,
        },
        Expr::Call { id, loc, name, args, ret_type } => ExprV::Call {
            id,
            loc,
            name: name@,
            args: exprs_view(args@),
            ret_type: opt_type_view(ret_type),
        },
    }
}

pub open spec fn exprs_view(s: Seq<Box<Expr>>) -> Seq<ExprV>
    decreases s,
{
    if s.len() == 0 {
        seq![]
    } else {
        exprs_view(s.drop_last()).push(expr_view(*s.last()))
    }
}

pub open spec fn params_view(s: Seq<(String, Type)>) -> Seq<(Seq<char>, TypeV)> {
    s.map_values(|p: (String, Type)| (p.0@, p.1@))
}

pub open spec fn stmt_view(s: Stmt) -> StmtV
    decreases s,
{
    match s {
        Stmt::Expr { id, loc, expr } => StmtV::Expr { id, loc, expr: Box::new(expr_view(*expr)) },
        Stmt::Declare { id, loc, typ, name } => StmtV::Declare { id, loc, typ: typ@, name: name@ },
        Stmt::Define { id, loc, typ, name, rhs } => StmtV::Define {
            id,
            loc,
            typ: typ@,
            name: name@,
            rhs: Box::new(expr_view(*rhs)),
        },
        Stmt::Assign { id, loc, lhs, rhs } => StmtV::Assign {
            id,
            loc,
            lhs: Box::new(expr_view(*lhs)),
            rhs: Box::new(expr_view(*rhs)),
        },
        Stmt::Block { id, loc, stmts } => StmtV::Block { id, loc, stmts: stmts_view(stmts@) },
        Stmt::If { id, loc, cond, true_arm, false_arm } => StmtV::If {
            id,
            loc,
            cond: Box::new(expr_view(*cond)),
            true_arm: Box::new(stmt_view(*true_arm)),
            false_arm: Box::new(stmt_view(*false_arm)),
        },
        Stmt::While { id, loc, cond, body } => StmtV::While {
            id,
            loc,
            cond: Box::new(expr_view(*cond)),
            body: Box::new(stmt_view(*body)),
        },
        Stmt::FnDecl { id, loc, name, args, ret_type, body } => StmtV::FnDecl {
            id,
            loc,
            name: name@,
            args: params_view(args@),
            ret_type: ret_type@,
            body: Box::new(stmt_view(*body)),
        },
        Stmt::Return { id, loc, expr } => StmtV::Return { id, loc, expr: Box::new(expr_view(*expr)) },
        Stmt::Break { id, loc } => StmtV::Break { id, loc },
        Stmt::Continue { id, loc } => StmtV::Continue { id, loc },
        Stmt::PrintByte { id, loc, expr } => StmtV::PrintByte {
            id,
            loc,
            expr: Box::new(expr_view(*expr)),
        },
        Stmt::PrintInt { id, loc, expr } => StmtV::PrintInt { id, loc, expr: Box::new(expr_view(*expr)) },
        Stmt::PrintString { id, loc, expr } => StmtV::PrintString {
            id,
            loc,
            expr: Box::new(expr_view(*expr)),
        },
    }
}

pub open spec fn stmts_view(s: Seq<Box<Stmt>>) -> Seq<StmtV>
    decreases s,
{
    if s.len() == 0 {
        seq![]
    } else {
        stmts_view(s.drop_last()).push(stmt_view(*s.last()))
    }
}

impl View for Expr {
    type V = ExprV;

    open spec fn view(&self) -> ExprV {
        expr_view(*self)
    }
}

impl View for Stmt {
    type V = StmtV;

    open spec fn view(&self) -> StmtV {
        stmt_view(*self)
    }
}

pub proof fn lemma_exprs_view(s: Seq<Box<Expr>>)
    ensures
        exprs_view(s).len() == s.len(),
        forall|i: int| 0 <= i < s.len() ==> #[trigger] exprs_view(s)[i] == expr_view(*s[i]),
    decreases s.len(),
{
    if s.len() > 0 {
        lemma_exprs_view(s.drop_last());
    }
}

pub proof fn lemma_stmts_view(s: Seq<Box<Stmt>>)
    ensures
        stmts_view(s).len() == s.len(),
        forall|i: int| 0 <= i < s.len() ==> #[trigger] stmts_view(s)[i] == stmt_view(*s[i]),
    decreases s.len(),
{
    if s.len() > 0 {
        lemma_stmts_view(s.drop_last());
    }
}

/// The number of nodes of an expression.
pub open spec fn expr_size(e: ExprV) -> nat
    decreases e,
{
    match e {
        ExprV::Const { .. } | ExprV::Var { .. } => 1,
        ExprV::UnOp { operand, .. } | ExprV::Deref { operand, .. } | ExprV::AddrOf { operand, .. }
        | ExprV::Cast { operand, .. } => 1 + expr_size(*operand),
        ExprV::BinOp { left, right, .. } => 1 + expr_size(*left) + expr_size(*right),
        ExprV::Subscr { operand, index, .. } => 1 + expr_size(*operand) + expr_size(*index),
        ExprV::Call { args, .. } => 1 + exprs_size(args),
    }
}

pub open spec fn exprs_size(s: Seq<ExprV>) -> nat
    decreases s,
{
    if s.len() == 0 {
        0
    } else {
        exprs_size(s.drop_last()) + expr_size(s.last())
    }
}

/// The number of nodes of a statement.
pub open spec fn stmt_size(s: StmtV) -> nat
    decreases s,
{
    match s {
        StmtV::Expr { expr, .. } | StmtV::Return { expr, .. } | StmtV::PrintByte { expr, .. }
        | StmtV::PrintInt { expr, .. } | StmtV::PrintString { expr, .. } => 1 + expr_size(*expr),
        StmtV::Declare { .. } | StmtV::Break { .. } | StmtV::Continue { .. } => 1,
        StmtV::Define { rhs, .. } => 1 + expr_size(*rhs),
        StmtV::Assign { lhs, rhs, .. } => 1 + expr_size(*lhs) + expr_size(*rhs),
        StmtV::Block { stmts, .. } => 1 + stmts_size(stmts),
        StmtV::If { cond, true_arm, false_arm, .. } => 1 + expr_size(*cond) + stmt_size(*true_arm)
            + stmt_size(*false_arm),
        StmtV::While { cond, body, .. } => 1 + expr_size(*cond) + stmt_size(*body),
        StmtV::FnDecl { body, .. } => 1 + stmt_size(*body),
    }
}

pub open spec fn stmts_size(s: Seq<StmtV>) -> nat
    decreases s,
{
    if s.len() == 0 {
        0
    } else {
        stmts_size(s.drop_last()) + stmt_size(s.last())
    }
}

/// Each expression of a sequence is no larger than the whole sequence.
pub proof fn lemma_exprs_size(s: Seq<ExprV>, i: int)
    requires
        0 <= i < s.len(),
    ensures
        expr_size(s[i]) <= exprs_size(s),
    decreases s.len(),
{
    if i < s.len() - 1 {
        lemma_exprs_size(s.drop_last(), i);
    }
}

/// Each statement of a sequence is no larger than the whole sequence.
pub proof fn lemma_stmts_size(s: Seq<StmtV>, i: int)
    requires
        0 <= i < s.len(),
    ensures
        stmt_size(s[i]) <= stmts_size(s),
    decreases s.len(),
{
    if i < s.len() - 1 {
        lemma_stmts_size(s.drop_last(), i);
    }
}

impl ExprV {
    /// The id of the node.
    pub open spec fn node_id(self) -> usize {
        match self {
            ExprV::Const { id, .. } => id,
            ExprV::Var { id, .. } => id,
            ExprV::UnOp { id, .. } => id,
            ExprV::BinOp { id, .. } => id,
            ExprV::Deref { id, .. } => id,
            ExprV::AddrOf { id, .. } => id,
            ExprV::Subscr { id, .. } => id,
            ExprV::Cast { id, .. } => id,
            ExprV::Call { id, .. } => id,
        }
    }
}

impl Expr {
    /// The id of the node.
    pub fn id(&self) -> (r: usize)
        ensures
            r == self@.node_id(),
    {
        match self {
            Expr::Const { id, .. }
            | Expr::AddrOf { id, .. }
            | Expr::BinOp { id, .. }
            | Expr::UnOp { id, .. }
            | Expr::Deref { id, .. }
            | Expr::Cast { id, .. }
            | Expr::Call { id, .. }
            | Expr::Var { id, .. }
            | Expr::Subscr { id, .. } => *id,
        }
    }
}

} // verus!
