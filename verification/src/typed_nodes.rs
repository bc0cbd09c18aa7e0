//! Which nodes a successful type check gives a type: every expression node.
use vstd::prelude::*;
use crate::ast::{ExprV, StmtV};
use crate::type_check::{tc_args, tc_expr, tc_program, tc_stmt, tc_stmts};
use crate::typ::TypeV;

verus! {

/// The ids of the nodes of an expression.
pub open spec fn expr_node_ids(e: ExprV) -> Set<usize>
    decreases e,
{
    match e {
        ExprV::Const { id, .. } | ExprV::Var { id, .. } => set![id],
        ExprV::UnOp { id, operand, .. } | ExprV::Deref { id, operand, .. } | ExprV::AddrOf { id, operand, .. }
        | ExprV::Cast { id, operand, .. } => set![id].union(expr_node_ids(*operand)),
        ExprV::BinOp { id, left, right, .. } => set![id].union(expr_node_ids(*left)).union(expr_node_ids(*right)),
        ExprV::Subscr { id, operand, index, .. } => set![id].union(expr_node_ids(*operand)).union(expr_node_ids(*index)),
        ExprV::Call { id, args, .. } => set![id].union(exprs_node_ids(args)),
    }
}

/// The ids of the nodes of the expressions.
pub open spec fn exprs_node_ids(s: Seq<ExprV>) -> Set<usize>
    decreases s,
{
    if s.len() == 0 {
        Set::empty()
    } else {
        exprs_node_ids(s.drop_last()).union(expr_node_ids(s.last()))
    }
}

/// The ids of the expression nodes of a statement, at any depth.
pub open spec fn stmt_expr_ids(s: StmtV) -> Set<usize>
    decreases s,
{
    match s {
        StmtV::Expr { expr, .. } | StmtV::Return { expr, .. } | StmtV::PrintByte { expr, .. }
        | StmtV::PrintInt { expr, .. } | StmtV::PrintString { expr, .. } => expr_node_ids(*expr),
        StmtV::Define { rhs, .. } => expr_node_ids(*rhs),
        StmtV::Assign { lhs, rhs, .. } => expr_node_ids(*lhs).union(expr_node_ids(*rhs)),
        StmtV::Block { stmts, .. } => stmts_expr_ids(stmts),
        StmtV::If { cond, true_arm, false_arm, .. } => expr_node_ids(*cond).union(stmt_expr_ids(*true_arm)).union(
            stmt_expr_ids(*false_arm),
        ),
        StmtV::While { cond, body, .. } => expr_node_ids(*cond).union(stmt_expr_ids(*body)),
        StmtV::FnDecl { body, .. } => stmt_expr_ids(*body),
        StmtV::Declare { .. } | StmtV::Break { .. } | StmtV::Continue { .. } => Set::empty(),
    }
}

/// The ids of the expression nodes of the statements, at any depth.
pub open spec fn stmts_expr_ids(ss: Seq<StmtV>) -> Set<usize>
    decreases ss,
{
    if ss.len() == 0 {
        Set::empty()
    } else {
        stmts_expr_ids(ss.drop_last()).union(stmt_expr_ids(ss.last()))
    }
}

/// Checking an expression keeps the types already recorded, and when it succeeds it
/// records a type for each node of the expression.
pub proof fn lemma_tc_expr_types(e: ExprV, env: Seq<Map<Seq<char>, TypeV>>, m: Map<usize, TypeV>)
    ensures
        m.dom().subset_of(tc_expr(e, env, m).2.dom()),
        tc_expr(e, env, m).0 is Ok ==> expr_node_ids(e).subset_of(tc_expr(e, env, m).2.dom()),
    decreases e,
{
    match e {
        ExprV::UnOp { operand, .. } | ExprV::Deref { operand, .. } | ExprV::AddrOf { operand, .. }
        | ExprV::Cast { operand, .. } => {
            lemma_tc_expr_types(*operand, env, m);
        },
        ExprV::BinOp { left, right, .. } => {
            lemma_tc_expr_types(*left, env, m);
            lemma_tc_expr_types(*right, env, tc_expr(*left, env, m).2);
        },
        ExprV::Subscr { operand, index, .. } => {
            lemma_tc_expr_types(*operand, env, m);
            lemma_tc_expr_types(*index, env, tc_expr(*operand, env, m).2);
        },
        ExprV::Call { args, .. } => {
            lemma_tc_args_types(args, env, m);
        },
        _ => {},
    }
}

/// Checking arguments keeps the types already recorded, and when it succeeds it records
/// a type for each node of the arguments.
pub proof fn lemma_tc_args_types(s: Seq<ExprV>, env: Seq<Map<Seq<char>, TypeV>>, m: Map<usize, TypeV>)
    ensures
        m.dom().subset_of(tc_args(s, env, m).2.dom()),
        tc_args(s, env, m).0 is Ok ==> exprs_node_ids(s).subset_of(tc_args(s, env, m).2.dom()),
    decreases s,
{
    if s.len() > 0 {
        lemma_tc_args_types(s.drop_last(), env, m);
        lemma_tc_expr_types(s.last(), env, tc_args(s.drop_last(), env, m).2);
    }
}

/// Checking a statement keeps the types already recorded, and when it succeeds it
/// records a type for each expression node of the statement.
pub proof fn lemma_tc_stmt_types(s: StmtV, ret: Option<TypeV>, env: Seq<Map<Seq<char>, TypeV>>, m: Map<usize, TypeV>)
    ensures
        m.dom().subset_of(tc_stmt(s, ret, env, m).3.dom()),
        tc_stmt(s, ret, env, m).0 is Ok ==> stmt_expr_ids(s).subset_of(tc_stmt(s, ret, env, m).3.dom()),
    decreases s,
{
    match s {
        StmtV::Expr { expr, .. } | StmtV::Return { expr, .. } | StmtV::PrintByte { expr, .. }
        | StmtV::PrintInt { expr, .. } | StmtV::PrintString { expr, .. } => {
            lemma_tc_expr_types(*expr, env, m);
        },
        StmtV::Define { rhs, .. } => {
            lemma_tc_expr_types(*rhs, env, m);
        },
        StmtV::Assign { lhs, rhs, .. } => {
            lemma_tc_expr_types(*lhs, env, m);
            lemma_tc_expr_types(*rhs, env, tc_expr(*lhs, env, m).2);
        },
        StmtV::If { cond, true_arm, false_arm, .. } => {
            lemma_tc_expr_types(*cond, env, m);
            let m1 = tc_expr(*cond, env, m).2;
            lemma_tc_stmt_types(*true_arm, ret, env.push(Map::empty()), m1);
            let (r2, t1, env2, m2) = tc_stmt(*true_arm, ret, env.push(Map::empty()), m1);
            lemma_tc_stmt_types(*false_arm, ret, env2.drop_last().push(Map::empty()), m2);
        },
        StmtV::While { cond, body, .. } => {
            lemma_tc_expr_types(*cond, env, m);
            lemma_tc_stmt_types(*body, ret, env.push(Map::empty()), tc_expr(*cond, env, m).2);
        },
        StmtV::Block { stmts, .. } => {
            let env1 = crate::type_check::collect_fns(stmts, env.push(Map::empty())).1;
            lemma_tc_stmts_types(stmts, ret, env1, m);
        },
        StmtV::FnDecl { args, ret_type, body, .. } => {
            let env1 = crate::type_check::define_params(env.push(Map::empty()), args);
            lemma_tc_stmt_types(*body, Some(ret_type), env1, m);
        },
        _ => {},
    }
}

/// Checking statements keeps the types already recorded, and when it succeeds it records
/// a type for each expression node of the statements.
pub proof fn lemma_tc_stmts_types(ss: Seq<StmtV>, ret: Option<TypeV>, env: Seq<Map<Seq<char>, TypeV>>, m: Map<usize, TypeV>)
    ensures
        m.dom().subset_of(tc_stmts(ss, ret, env, m).3.dom()),
        tc_stmts(ss, ret, env, m).0 is Ok ==> stmts_expr_ids(ss).subset_of(tc_stmts(ss, ret, env, m).3.dom()),
    decreases ss,
{
    if ss.len() > 0 {
        lemma_tc_stmts_types(ss.drop_last(), ret, env, m);
        let (r, p, env1, m1) = tc_stmts(ss.drop_last(), ret, env, m);
        lemma_tc_stmt_types(ss.last(), ret, env1, m1);
    }
}

/// A program that passes the type check has a type recorded for every expression node,
/// at any depth; the types recorded before stay recorded.
pub proof fn law_checked_program_typed(ss: Seq<StmtV>, m: Map<usize, TypeV>)
    ensures
        m.dom().subset_of(tc_program(ss, m).2.dom()),
        tc_program(ss, m).0 is Ok ==> stmts_expr_ids(ss).subset_of(tc_program(ss, m).2.dom()),
{
    let env0 = Seq::<Map<Seq<char>, TypeV>>::empty().push(Map::empty());
    let env1 = crate::type_check::collect_fns(ss, env0).1;
    lemma_tc_stmts_types(ss, None, env1, m);
}

} // verus!
