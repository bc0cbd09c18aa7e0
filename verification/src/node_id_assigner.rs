//! Numbering of the nodes of a program.
use vstd::prelude::*;
use crate::ast;
use crate::ast::{Expr, ExprV, Stmt, StmtV};

verus! {

/// The source of fresh node ids.
pub struct IdBuilder {
    pub(crate) node_id: usize,
}

impl IdBuilder {
    /// The next id that will be handed out.
    pub closed spec fn next(&self) -> nat {
        self.node_id as nat
    }

    pub fn new() -> (r: Self)
        ensures
            r.next() == 0,
    {
        Self { node_id: 0 }
    }

    fn new_id(&mut self) -> (r: usize)
        requires
            old(self).next() < usize::MAX,
        ensures
            r == old(self).next(),
            final(self).next() == old(self).next() + 1,
    {
        let res = self.node_id;
        self.node_id += 1;
        res
    }
}

/// The expression with its nodes numbered from `n` on, in the order parent first,
/// then the children from left to right; and the next free number.
pub open spec fn number_expr(e: ExprV, n: nat) -> (ExprV, nat)
    decreases e,
{
    let id = n as usize;
    match e {
        ExprV::Const { id: _, loc, val } => (ExprV::Const { id, loc, val }, n + 1),
        ExprV::Var { id: _, loc, name } => (ExprV::Var { id, loc, name }, n + 1),
        ExprV::UnOp { id: _, loc, operator, operand } => {
            let (o, m) = number_expr(*operand, n + 1);
            (ExprV::UnOp { id, loc, operator, operand: Box::new(o) }, m)
        },
        ExprV::Deref { id: _, loc, operand } => {
            let (o, m) = number_expr(*operand, n + 1);
            (ExprV::Deref { id, loc, operand: Box::new(o) }, m)
        },
        ExprV::AddrOf { id: _, loc, operand } => {
            let (o, m) = number_expr(*operand, n + 1);
            (ExprV::AddrOf { id, loc, operand: Box::new(o) }, m)
        },
        ExprV::Cast { id: _, loc, operand, typ } => {
            let (o, m) = number_expr(*operand, n + 1);
            (ExprV::Cast { id, loc, operand: Box::new(o), typ }, m)
        },
        ExprV::BinOp { id: _, loc, left, operator, right } => {
            let (l, m1) = number_expr(*left, n + 1);
            let (r, m2) = number_expr(*right, m1);
            (ExprV::BinOp { id, loc, left: Box::new(l), operator, right: Box::new(r) }, m2)
        },
        ExprV::Subscr { id: _, loc, operand, index } => {
            let (o, m1) = number_expr(*operand, n + 1);
            let (i, m2) = number_expr(*index, m1);
            (ExprV::Subscr { id, loc, operand: Box::new(o), index: Box::new(i) }, m2)
        },
        ExprV::Call { id: _, loc, name, args, ret_type } => {
            let (a, m) = number_exprs(args, n + 1);
            (ExprV::Call { id, loc, name, args: a, ret_type }, m)
        },
    }
}

/// The expressions numbered one after the other from `n` on.
pub open spec fn number_exprs(s: Seq<ExprV>, n: nat) -> (Seq<ExprV>, nat)
    decreases s,
{
    if s.len() == 0 {
        (seq![], n)
    } else {
        let (p, m) = number_exprs(s.drop_last(), n);
        let (e, k) = number_expr(s.last(), m);
        (p.push(e), k)
    }
}

/// The statement with its nodes numbered from `n` on, parent first; in an
/// assignment the right hand side is numbered before the left hand side.
pub open spec fn number_stmt(s: StmtV, n: nat) -> (StmtV, nat)
    decreases s,
{
    let id = n as usize;
    match s {
        StmtV::Break { id: _, loc } => (StmtV::Break { id, loc }, n + 1),
        StmtV::Continue { id: _, loc } => (StmtV::Continue { id, loc }, n + 1),
        StmtV::Declare { id: _, loc, typ, name } => (StmtV::Declare { id, loc, typ, name }, n + 1),
        StmtV::Return { id: _, loc, expr } => {
            let (e, m) = number_expr(*expr, n + 1);
            (StmtV::Return { id, loc, expr: Box::new(e) }, m)
        },
        StmtV::Expr { id: _, loc, expr } => {
            let (e, m) = number_expr(*expr, n + 1);
            (StmtV::Expr { id, loc, expr: Box::new(e) }, m)
        },
        StmtV::PrintByte { id: _, loc, expr } => {
            let (e, m) = number_expr(*expr, n + 1);
            (StmtV::PrintByte { id, loc, expr: Box::new(e) }, m)
        },
        StmtV::PrintInt { id: _, loc, expr } => {
            let (e, m) = number_expr(*expr, n + 1);
            (StmtV::PrintInt { id, loc, expr: Box::new(e) }, m)
        },
        StmtV::PrintString { id: _, loc, expr } => {
            let (e, m) = number_expr(*expr, n + 1);
            (StmtV::PrintString { id, loc, expr: Box::new(e) }, m)
        },
        StmtV::Assign { id: _, loc, lhs, rhs } => {
            let (r, m1) = number_expr(*rhs, n + 1);
            let (l, m2) = number_expr(*lhs, m1);
            (StmtV::Assign { id, loc, lhs: Box::new(l), rhs: Box::new(r) }, m2)
        },
        StmtV::Define { id: _, loc, typ, name, rhs } => {
            let (r, m) = number_expr(*rhs, n + 1);
            (StmtV::Define { id, loc, typ, name, rhs: Box::new(r) }, m)
        },
        StmtV::If { id: _, loc, cond, true_arm, false_arm } => {
            let (c, m1) = number_expr(*cond, n + 1);
            let (t, m2) = number_stmt(*true_arm, m1);
            let (f, m3) = number_stmt(*false_arm, m2);
            (StmtV::If { id, loc, cond: Box::new(c), true_arm: Box::new(t), false_arm: Box::new(f) }, m3)
        },
        StmtV::While { id: _, loc, cond, body } => {
            let (c, m1) = number_expr(*cond, n + 1);
            let (b, m2) = number_stmt(*body, m1);
            (StmtV::While { id, loc, cond: Box::new(c), body: Box::new(b) }, m2)
        },
        StmtV::FnDecl { id: _, loc, name, args, ret_type, body } => {
            let (b, m) = number_stmt(*body, n + 1);
            (StmtV::FnDecl { id, loc, name, args, ret_type, body: Box::new(b) }, m)
        },
        StmtV::Block { id: _, loc, stmts } => {
            let (ss, m) = number_stmts(stmts, n + 1);
            (StmtV::Block { id, loc, stmts: ss }, m)
        },
    }
}

/// The statements numbered one after the other from `n` on.
pub open spec fn number_stmts(s: Seq<StmtV>, n: nat) -> (Seq<StmtV>, nat)
    decreases s,
{
    if s.len() == 0 {
        (seq![], n)
    } else {
        let (p, m) = number_stmts(s.drop_last(), n);
        let (e, k) = number_stmt(s.last(), m);
        (p.push(e), k)
    }
}

pub proof fn lemma_number_expr_grows(e: ExprV, n: nat)
    ensures
        number_expr(e, n).1 > n,
    decreases e,
{
    match e {
        ExprV::UnOp { operand, .. } | ExprV::Deref { operand, .. } | ExprV::AddrOf { operand, .. }
        | ExprV::Cast { operand, .. } => {
            lemma_number_expr_grows(*operand, n + 1);
        },
        ExprV::BinOp { left, right, .. } => {
            lemma_number_expr_grows(*left, n + 1);
            lemma_number_expr_grows(*right, number_expr(*left, n + 1).1);
        },
        ExprV::Subscr { operand, index, .. } => {
            lemma_number_expr_grows(*operand, n + 1);
            lemma_number_expr_grows(*index, number_expr(*operand, n + 1).1);
        },
        ExprV::Call { args, .. } => {
            lemma_number_exprs_grows(args, n + 1, args.len() as int);
        },
        _ => {},
    }
}

/// Numbering a prefix uses no more numbers than numbering the whole sequence.
pub proof fn lemma_number_exprs_grows(s: Seq<ExprV>, n: nat, i: int)
    requires
        0 <= i <= s.len(),
    ensures
        number_exprs(s, n).1 >= number_exprs(s.take(i), n).1 >= n,
    decreases s, s.len() - i,
{
    if s.len() > 0 {
        if i == s.len() {
            assert(s.take(i) == s);
            lemma_number_exprs_grows(s.drop_last(), n, s.len() - 1);
            lemma_number_expr_grows(s.last(), number_exprs(s.drop_last(), n).1);
        } else {
            assert(s.drop_last().take(i) == s.take(i));
            lemma_number_exprs_grows(s.drop_last(), n, i);
            lemma_number_expr_grows(s.last(), number_exprs(s.drop_last(), n).1);
        }
    } else {
        assert(s.take(i) == s);
    }
}

pub proof fn lemma_number_stmt_grows(s: StmtV, n: nat)
    ensures
        number_stmt(s, n).1 > n,
    decreases s,
{
    match s {
        StmtV::Return { expr, .. } | StmtV::Expr { expr, .. } | StmtV::PrintByte { expr, .. }
        | StmtV::PrintInt { expr, .. } | StmtV::PrintString { expr, .. } => {
            lemma_number_expr_grows(*expr, n + 1);
        },
        StmtV::Assign { lhs, rhs, .. } => {
            lemma_number_expr_grows(*rhs, n + 1);
            lemma_number_expr_grows(*lhs, number_expr(*rhs, n + 1).1);
        },
        StmtV::Define { rhs, .. } => {
            lemma_number_expr_grows(*rhs, n + 1);
        },
        StmtV::If { cond, true_arm, false_arm, .. } => {
            lemma_number_expr_grows(*cond, n + 1);
            let m1 = number_expr(*cond, n + 1).1;
            lemma_number_stmt_grows(*true_arm, m1);
            lemma_number_stmt_grows(*false_arm, number_stmt(*true_arm, m1).1);
        },
        StmtV::While { cond, body, .. } => {
            lemma_number_expr_grows(*cond, n + 1);
            lemma_number_stmt_grows(*body, number_expr(*cond, n + 1).1);
        },
        StmtV::FnDecl { body, .. } => {
            lemma_number_stmt_grows(*body, n + 1);
        },
        StmtV::Block { stmts, .. } => {
            lemma_number_stmts_grows(stmts, n + 1, stmts.len() as int);
        },
        _ => {},
    }
}

pub proof fn lemma_number_stmts_grows(s: Seq<StmtV>, n: nat, i: int)
    requires
        0 <= i <= s.len(),
    ensures
        number_stmts(s, n).1 >= number_stmts(s.take(i), n).1 >= n,
    decreases s, s.len() - i,
{
    if s.len() > 0 {
        if i == s.len() {
            assert(s.take(i) == s);
            lemma_number_stmts_grows(s.drop_last(), n, s.len() - 1);
            lemma_number_stmt_grows(s.last(), number_stmts(s.drop_last(), n).1);
        } else {
            assert(s.drop_last().take(i) == s.take(i));
            lemma_number_stmts_grows(s.drop_last(), n, i);
            lemma_number_stmt_grows(s.last(), number_stmts(s.drop_last(), n).1);
        }
    } else {
        assert(s.take(i) == s);
    }
}

fn assign_id_expr(expr: &mut Box<Expr>, id_builder: &mut IdBuilder)
    requires
        number_expr(old(expr)@, old(id_builder).next()).1 <= usize::MAX,
    ensures
        final(expr)@ == number_expr(old(expr)@, old(id_builder).next()).0,
        final(id_builder).next() == number_expr(old(expr)@, old(id_builder).next()).1,
    decreases ast::expr_size(old(expr)@),
{
    let ghost n = id_builder.next();
    let ghost e0 = expr@;
    proof {
        lemma_number_expr_grows(e0, n);
    }
    match &mut **expr {
        Expr::Const { id, .. } => {
            *id = id_builder.new_id();
        },
        Expr::Var { id, .. } => {
            *id = id_builder.new_id();
        },
        Expr::Deref { id, loc: _, operand } => {
            *id = id_builder.new_id();
            assign_id_expr(operand, id_builder);
        },
        Expr::AddrOf { id, loc: _, operand } => {
            *id = id_builder.new_id();
            assign_id_expr(operand, id_builder);
        },
        Expr::UnOp { id, loc: _, operator: _, operand } => {
            *id = id_builder.new_id();
            assign_id_expr(operand, id_builder);
        },
        Expr::Cast { id, loc: _, operand, typ: _ } => {
            *id = id_builder.new_id();
            assign_id_expr(operand, id_builder);
        },
        Expr::BinOp { id, loc: _, left, operator: _, right } => {
            *id = id_builder.new_id();
            proof {
                lemma_number_expr_grows(left@, n + 1);
                lemma_number_expr_grows(right@, number_expr(left@, n + 1).1);
            }
            assign_id_expr(left, id_builder);
            assign_id_expr(right, id_builder);
        },
        Expr::Subscr { id, loc: _, operand, index } => {
            *id = id_builder.new_id();
            proof {
                lemma_number_expr_grows(operand@, n + 1);
                lemma_number_expr_grows(index@, number_expr(operand@, n + 1).1);
            }
            assign_id_expr(operand, id_builder);
            assign_id_expr(index, id_builder);
        },
        Expr::Call { id, loc: _, name: _, args, ret_type: _ } => {
            *id = id_builder.new_id();
            let ghost a0 = ast::exprs_view(args@);
            let ghost n1 = id_builder.next();
            let mut i: usize = 0;
            proof {
                ast::lemma_exprs_view(args@);
                assert(ast::expr_size(e0) == 1 + ast::exprs_size(a0));
            }
            while i < args.len()
                invariant
                    e0 == old(expr)@,
                    ast::expr_size(e0) == 1 + ast::exprs_size(a0),
                    i <= args.len(),
                    ast::exprs_view(args@).len() == args.len(),
                    a0.len() == args.len(),
                    forall|j: int| i <= j < args.len() ==> #[trigger] ast::expr_view(*args@[j]) == a0[j],
                    forall|j: int| 0 <= j < args.len() ==> #[trigger] ast::exprs_view(args@)[j] == ast::expr_view(*args@[j]),
                    number_exprs(a0, n1).1 <= usize::MAX,
                    (ast::exprs_view(args@.take(i as int)), id_builder.next()) == number_exprs(a0.take(i as int), n1),
                decreases args.len() - i,
            {
                proof {
                    lemma_number_exprs_grows(a0, n1, i + 1);
                    assert(a0.take(i + 1).drop_last() == a0.take(i as int));
                    assert(a0.take(i + 1).last() == a0[i as int]);
                }
                let ghost before = args@;
                assert(ast::expr_view(*args@[i as int]) == a0[i as int]);
                proof {
                    ast::lemma_exprs_size(a0, i as int);
                }
                assign_id_expr(&mut args[i], id_builder);
                proof {
                    ast::lemma_exprs_view(args@);
                    assert(args@.take(i + 1).drop_last() == before.take(i as int));
                }
                i += 1;
            }
            proof {
                assert(a0.take(args.len() as int) == a0);
                assert(args@.take(args.len() as int) == args@);
            }
        },
    }
}

fn assign_id_stmt(stmt: &mut Box<Stmt>, id_builder: &mut IdBuilder)
    requires
        number_stmt(old(stmt)@, old(id_builder).next()).1 <= usize::MAX,
    ensures
        final(stmt)@ == number_stmt(old(stmt)@, old(id_builder).next()).0,
        final(id_builder).next() == number_stmt(old(stmt)@, old(id_builder).next()).1,
    decreases ast::stmt_size(old(stmt)@), 0nat,
{
    let ghost n = id_builder.next();
    let ghost s0 = stmt@;
    proof {
        lemma_number_stmt_grows(s0, n);
    }
    match &mut **stmt {
        Stmt::Break { id, .. } => {
            *id = id_builder.new_id();
        },
        Stmt::Continue { id, .. } => {
            *id = id_builder.new_id();
        },
        Stmt::Declare { id, .. } => {
            *id = id_builder.new_id();
        },
        Stmt::Return { id, loc: _, expr } => {
            *id = id_builder.new_id();
            assign_id_expr(expr, id_builder);
        },
        Stmt::Expr { id, loc: _, expr } => {
            *id = id_builder.new_id();
            assign_id_expr(expr, id_builder);
        },
        Stmt::PrintByte { id, loc: _, expr } => {
            *id = id_builder.new_id();
            assign_id_expr(expr, id_builder);
        },
        Stmt::PrintInt { id, loc: _, expr } => {
            *id = id_builder.new_id();
            assign_id_expr(expr, id_builder);
        },
        Stmt::PrintString { id, loc: _, expr } => {
            *id = id_builder.new_id();
            assign_id_expr(expr, id_builder);
        },
        Stmt::Assign { id, loc: _, lhs, rhs } => {
            *id = id_builder.new_id();
            proof {
                lemma_number_expr_grows(rhs@, n + 1);
                lemma_number_expr_grows(lhs@, number_expr(rhs@, n + 1).1);
            }
            assign_id_expr(rhs, id_builder);
            assign_id_expr(lhs, id_builder);
        },
        Stmt::Define { id, loc: _, typ: _, name: _, rhs } => {
            *id = id_builder.new_id();
            assign_id_expr(rhs, id_builder);
        },
        Stmt::If { id, loc: _, cond, true_arm, false_arm } => {
            *id = id_builder.new_id();
            proof {
                lemma_number_expr_grows(cond@, n + 1);
                let m1 = number_expr(cond@, n + 1).1;
                lemma_number_stmt_grows(true_arm@, m1);
                lemma_number_stmt_grows(false_arm@, number_stmt(true_arm@, m1).1);
            }
            assign_id_expr(cond, id_builder);
            assign_id_stmt(true_arm, id_builder);
            assign_id_stmt(false_arm, id_builder);
        },
        Stmt::While { id, loc: _, cond, body } => {
            *id = id_builder.new_id();
            proof {
                lemma_number_expr_grows(cond@, n + 1);
                lemma_number_stmt_grows(body@, number_expr(cond@, n + 1).1);
            }
            assign_id_expr(cond, id_builder);
            assign_id_stmt(body, id_builder);
        },
        Stmt::FnDecl { id, loc: _, name: _, args: _, ret_type: _, body } => {
            *id = id_builder.new_id();
            assign_id_stmt(body, id_builder);
        },
        Stmt::Block { id, loc: _, stmts } => {
            *id = id_builder.new_id();
            let ghost a0 = ast::stmts_view(stmts@);
            let ghost n1 = id_builder.next();
            proof {
                ast::lemma_stmts_view(stmts@);
                assert(ast::stmt_size(s0) == 1 + ast::stmts_size(a0));
            }
            assign_id_seq(stmts, id_builder);
        },
    }
}

/// Numbers the statements one after the other.
fn assign_id_seq(stmts: &mut Vec<Box<Stmt>>, id_builder: &mut IdBuilder)
    requires
        number_stmts(ast::stmts_view(old(stmts)@), old(id_builder).next()).1 <= usize::MAX,
    ensures
        ast::stmts_view(final(stmts)@) == number_stmts(ast::stmts_view(old(stmts)@), old(id_builder).next()).0,
        final(id_builder).next() == number_stmts(ast::stmts_view(old(stmts)@), old(id_builder).next()).1,
    decreases ast::stmts_size(ast::stmts_view(old(stmts)@)), 1nat,
{
    let ghost a0 = ast::stmts_view(stmts@);
    let ghost n1 = id_builder.next();
    let mut i: usize = 0;
    proof {
        ast::lemma_stmts_view(stmts@);
    }
    while i < stmts.len()
        invariant
            a0 == ast::stmts_view(old(stmts)@),
            n1 == old(id_builder).next(),
            i <= stmts.len(),
            ast::stmts_view(stmts@).len() == stmts.len(),
            a0.len() == stmts.len(),
            forall|j: int| i <= j < stmts.len() ==> #[trigger] ast::stmt_view(*stmts@[j]) == a0[j],
            forall|j: int| 0 <= j < stmts.len() ==> #[trigger] ast::stmts_view(stmts@)[j] == ast::stmt_view(*stmts@[j]),
            number_stmts(a0, n1).1 <= usize::MAX,
            (ast::stmts_view(stmts@.take(i as int)), id_builder.next()) == number_stmts(a0.take(i as int), n1),
        decreases stmts.len() - i,
    {
        proof {
            lemma_number_stmts_grows(a0, n1, i + 1);
            assert(a0.take(i + 1).drop_last() == a0.take(i as int));
            assert(a0.take(i + 1).last() == a0[i as int]);
        }
        let ghost before = stmts@;
        assert(ast::stmt_view(*stmts@[i as int]) == a0[i as int]);
        proof {
            ast::lemma_stmts_size(a0, i as int);
        }
        assign_id_stmt(&mut stmts[i], id_builder);
        proof {
            ast::lemma_stmts_view(stmts@);
            assert(stmts@.take(i + 1).drop_last() == before.take(i as int));
        }
        i += 1;
    }
    proof {
        assert(a0.take(stmts.len() as int) == a0);
        assert(stmts@.take(stmts.len() as int) == stmts@);
    }
}

/// Numbering takes one number per node of the expression.
pub proof fn lemma_number_expr_next(e: ExprV, n: nat)
    ensures
        number_expr(e, n).1 == n + ast::expr_size(e),
    decreases e,
{
    match e {
        ExprV::UnOp { operand, .. } | ExprV::Deref { operand, .. } | ExprV::AddrOf { operand, .. }
        | ExprV::Cast { operand, .. } => {
            lemma_number_expr_next(*operand, n + 1);
        },
        ExprV::BinOp { left, right, .. } => {
            lemma_number_expr_next(*left, n + 1);
            lemma_number_expr_next(*right, number_expr(*left, n + 1).1);
        },
        ExprV::Subscr { operand, index, .. } => {
            lemma_number_expr_next(*operand, n + 1);
            lemma_number_expr_next(*index, number_expr(*operand, n + 1).1);
        },
        ExprV::Call { args, .. } => {
            lemma_number_exprs_next(args, n + 1);
        },
        _ => {},
    }
}

/// Numbering takes one number per node of the expressions.
pub proof fn lemma_number_exprs_next(s: Seq<ExprV>, n: nat)
    ensures
        number_exprs(s, n).1 == n + ast::exprs_size(s),
    decreases s,
{
    if s.len() > 0 {
        lemma_number_exprs_next(s.drop_last(), n);
        lemma_number_expr_next(s.last(), number_exprs(s.drop_last(), n).1);
    }
}

/// Numbering takes one number per node of the statement.
pub proof fn lemma_number_stmt_next(s: StmtV, n: nat)
    ensures
        number_stmt(s, n).1 == n + ast::stmt_size(s),
    decreases s,
{
    match s {
        StmtV::Return { expr, .. } | StmtV::Expr { expr, .. } | StmtV::PrintByte { expr, .. }
        | StmtV::PrintInt { expr, .. } | StmtV::PrintString { expr, .. } => {
            lemma_number_expr_next(*expr, n + 1);
        },
        StmtV::Define { rhs, .. } => {
            lemma_number_expr_next(*rhs, n + 1);
        },
        StmtV::Assign { lhs, rhs, .. } => {
            lemma_number_expr_next(*rhs, n + 1);
            lemma_number_expr_next(*lhs, number_expr(*rhs, n + 1).1);
        },
        StmtV::If { cond, true_arm, false_arm, .. } => {
            lemma_number_expr_next(*cond, n + 1);
            let m1 = number_expr(*cond, n + 1).1;
            lemma_number_stmt_next(*true_arm, m1);
            lemma_number_stmt_next(*false_arm, number_stmt(*true_arm, m1).1);
        },
        StmtV::While { cond, body, .. } => {
            lemma_number_expr_next(*cond, n + 1);
            lemma_number_stmt_next(*body, number_expr(*cond, n + 1).1);
        },
        StmtV::FnDecl { body, .. } => {
            lemma_number_stmt_next(*body, n + 1);
        },
        StmtV::Block { stmts, .. } => {
            lemma_number_stmts_next(stmts, n + 1);
        },
        _ => {},
    }
}

/// Numbering takes one number per node of the statements.
pub proof fn lemma_number_stmts_next(s: Seq<StmtV>, n: nat)
    ensures
        number_stmts(s, n).1 == n + ast::stmts_size(s),
    decreases s,
{
    if s.len() > 0 {
        lemma_number_stmts_next(s.drop_last(), n);
        lemma_number_stmt_next(s.last(), number_stmts(s.drop_last(), n).1);
    }
}

/// The number of nodes of the expression, where it is at most `limit`.
fn expr_nodes(e: &Expr, limit: usize) -> (r: Option<usize>)
    ensures
        match r {
            Some(k) => k == ast::expr_size(e@) && k <= limit,
            None => ast::expr_size(e@) > limit,
        },
    decreases ast::expr_size(e@), 0nat,
{
    if limit == 0 {
        return None;
    }
    match e {
        Expr::Const { .. } | Expr::Var { .. } => Some(1),
        Expr::UnOp { operand, .. } | Expr::Deref { operand, .. } | Expr::AddrOf { operand, .. }
        | Expr::Cast { operand, .. } => match expr_nodes(operand, limit - 1) {
            Some(k) => Some(k + 1),
            None => None,
        },
        Expr::BinOp { left, right, .. } => match expr_nodes(left, limit - 1) {
            Some(a) => match expr_nodes(right, limit - 1 - a) {
                Some(b) => Some(1 + a + b),
                None => None,
            },
            None => None,
        },
        Expr::Subscr { operand, index, .. } => match expr_nodes(operand, limit - 1) {
            Some(a) => match expr_nodes(index, limit - 1 - a) {
                Some(b) => Some(1 + a + b),
                None => None,
            },
            None => None,
        },
        Expr::Call { args, .. } => match exprs_nodes(args, limit - 1) {
            Some(k) => Some(k + 1),
            None => None,
        },
    }
}

/// The number of nodes of the expressions, where it is at most `limit`.
fn exprs_nodes(s: &Vec<Box<Expr>>, limit: usize) -> (r: Option<usize>)
    ensures
        match r {
            Some(k) => k == ast::exprs_size(ast::exprs_view(s@)) && k <= limit,
            None => ast::exprs_size(ast::exprs_view(s@)) > limit,
        },
    decreases ast::exprs_size(ast::exprs_view(s@)), 1nat,
{
    let ghost v = ast::exprs_view(s@);
    proof {
        ast::lemma_exprs_view(s@);
        assert(v.take(0) =~= Seq::<ExprV>::empty());
    }
    let mut total: usize = 0;
    let mut i: usize = 0;
    while i < s.len()
        invariant
            v == ast::exprs_view(s@),
            v.len() == s.len(),
            forall|j: int| 0 <= j < s.len() ==> #[trigger] v[j] == ast::expr_view(*s@[j]),
            i <= s.len(),
            total == ast::exprs_size(v.take(i as int)),
            total <= limit,
        decreases s.len() - i,
    {
        proof {
            ast::lemma_exprs_size(v, i as int);
            assert(v.take(i + 1).drop_last() == v.take(i as int));
            assert(v.take(i + 1).last() == v[i as int]);
            lemma_exprs_size_prefix(v, i + 1);
        }
        match expr_nodes(&s[i], limit - total) {
            Some(k) => {
                total = total + k;
            },
            None => {
                return None;
            },
        }
        i += 1;
    }
    assert(v.take(s.len() as int) == v);
    Some(total)
}

/// A prefix of expressions has no more nodes than the whole.
proof fn lemma_exprs_size_prefix(s: Seq<ExprV>, i: int)
    requires
        0 <= i <= s.len(),
    ensures
        ast::exprs_size(s.take(i)) <= ast::exprs_size(s),
    decreases s.len() - i,
{
    if i < s.len() {
        lemma_exprs_size_prefix(s, i + 1);
        assert(s.take(i + 1).drop_last() == s.take(i));
    } else {
        assert(s.take(i) == s);
    }
}

/// A prefix of statements has no more nodes than the whole.
proof fn lemma_stmts_size_prefix(s: Seq<StmtV>, i: int)
    requires
        0 <= i <= s.len(),
    ensures
        ast::stmts_size(s.take(i)) <= ast::stmts_size(s),
    decreases s.len() - i,
{
    if i < s.len() {
        lemma_stmts_size_prefix(s, i + 1);
        assert(s.take(i + 1).drop_last() == s.take(i));
    } else {
        assert(s.take(i) == s);
    }
}

/// The number of nodes of the statement, where it is at most `limit`.
fn stmt_nodes(st: &Stmt, limit: usize) -> (r: Option<usize>)
    ensures
        match r {
            Some(k) => k == ast::stmt_size(st@) && k <= limit,
            None => ast::stmt_size(st@) > limit,
        },
    decreases ast::stmt_size(st@), 0nat,
{
    if limit == 0 {
        return None;
    }
    match st {
        Stmt::Break { .. } | Stmt::Continue { .. } | Stmt::Declare { .. } => Some(1),
        Stmt::Return { expr, .. } | Stmt::Expr { expr, .. } | Stmt::PrintByte { expr, .. }
        | Stmt::PrintInt { expr, .. } | Stmt::PrintString { expr, .. } => match expr_nodes(expr, limit - 1) {
            Some(k) => Some(k + 1),
            None => None,
        },
        Stmt::Define { rhs, .. } => match expr_nodes(rhs, limit - 1) {
            Some(k) => Some(k + 1),
            None => None,
        },
        Stmt::Assign { lhs, rhs, .. } => match expr_nodes(lhs, limit - 1) {
            Some(a) => match expr_nodes(rhs, limit - 1 - a) {
                Some(b) => Some(1 + a + b),
                None => None,
            },
            None => None,
        },
        Stmt::If { cond, true_arm, false_arm, .. } => match expr_nodes(cond, limit - 1) {
            Some(a) => match stmt_nodes(true_arm, limit - 1 - a) {
                Some(b) => match stmt_nodes(false_arm, limit - 1 - a - b) {
                    Some(c) => Some(1 + a + b + c),
                    None => None,
                },
                None => None,
            },
            None => None,
        },
        Stmt::While { cond, body, .. } => match expr_nodes(cond, limit - 1) {
            Some(a) => match stmt_nodes(body, limit - 1 - a) {
                Some(b) => Some(1 + a + b),
                None => None,
            },
            None => None,
        },
        Stmt::FnDecl { body, .. } => match stmt_nodes(body, limit - 1) {
            Some(k) => Some(k + 1),
            None => None,
        },
        Stmt::Block { stmts, .. } => match stmts_nodes(stmts, limit - 1) {
            Some(k) => Some(k + 1),
            None => None,
        },
    }
}

/// The number of nodes of the statements, where it is at most `limit`.
fn stmts_nodes(s: &Vec<Box<Stmt>>, limit: usize) -> (r: Option<usize>)
    ensures
        match r {
            Some(k) => k == ast::stmts_size(ast::stmts_view(s@)) && k <= limit,
            None => ast::stmts_size(ast::stmts_view(s@)) > limit,
        },
    decreases ast::stmts_size(ast::stmts_view(s@)), 1nat,
{
    let ghost v = ast::stmts_view(s@);
    proof {
        ast::lemma_stmts_view(s@);
        assert(v.take(0) =~= Seq::<StmtV>::empty());
    }
    let mut total: usize = 0;
    let mut i: usize = 0;
    while i < s.len()
        invariant
            v == ast::stmts_view(s@),
            v.len() == s.len(),
            forall|j: int| 0 <= j < s.len() ==> #[trigger] v[j] == ast::stmt_view(*s@[j]),
            i <= s.len(),
            total == ast::stmts_size(v.take(i as int)),
            total <= limit,
        decreases s.len() - i,
    {
        proof {
            ast::lemma_stmts_size(v, i as int);
            assert(v.take(i + 1).drop_last() == v.take(i as int));
            assert(v.take(i + 1).last() == v[i as int]);
            lemma_stmts_size_prefix(v, i + 1);
        }
        match stmt_nodes(&s[i], limit - total) {
            Some(k) => {
                total = total + k;
            },
            None => {
                return None;
            },
        }
        i += 1;
    }
    assert(v.take(s.len() as int) == v);
    Some(total)
}

/// Whether numbering the program from the builder's next id stays within the range of
/// ids, as [`assign_id`] needs.
pub fn can_assign_ids(stmts: &Vec<Box<Stmt>>, id_builder: &IdBuilder) -> (r: bool)
    ensures
        r == (number_stmts(ast::stmts_view(stmts@), id_builder.next()).1 <= usize::MAX),
{
    proof {
        lemma_number_stmts_next(ast::stmts_view(stmts@), id_builder.next());
    }
    stmts_nodes(stmts, usize::MAX - id_builder.node_id).is_some()
}

/// Numbers all the nodes of the program in order, from the builder's next id on.
pub fn assign_id(stmts: &mut Vec<Box<Stmt>>, id_builder: &mut IdBuilder)
    requires
        number_stmts(ast::stmts_view(old(stmts)@), old(id_builder).next()).1 <= usize::MAX,
    ensures
        ast::stmts_view(final(stmts)@) == number_stmts(ast::stmts_view(old(stmts)@), old(id_builder).next()).0,
        final(id_builder).next() == number_stmts(ast::stmts_view(old(stmts)@), old(id_builder).next()).1,
{
    assign_id_seq(stmts, id_builder);
}

/// The ids of the nodes of an expression, in the order in which they are numbered.
pub open spec fn expr_ids(e: ExprV) -> Seq<int>
    decreases e,
{
    match e {
        ExprV::Const { id, .. } | ExprV::Var { id, .. } => seq![id as int],
        ExprV::UnOp { id, operand, .. } | ExprV::Deref { id, operand, .. } | ExprV::AddrOf { id, operand, .. }
        | ExprV::Cast { id, operand, .. } => seq![id as int] + expr_ids(*operand),
        ExprV::BinOp { id, left, right, .. } => seq![id as int] + expr_ids(*left) + expr_ids(*right),
        ExprV::Subscr { id, operand, index, .. } => seq![id as int] + expr_ids(*operand) + expr_ids(*index),
        ExprV::Call { id, args, .. } => seq![id as int] + exprs_ids(args),
    }
}

pub open spec fn exprs_ids(s: Seq<ExprV>) -> Seq<int>
    decreases s,
{
    if s.len() == 0 {
        seq![]
    } else {
        exprs_ids(s.drop_last()) + expr_ids(s.last())
    }
}

/// The ids of the nodes of a statement, in the order in which they are numbered: in an
/// assignment, the right hand side before the left hand side.
pub open spec fn stmt_ids(s: StmtV) -> Seq<int>
    decreases s,
{
    match s {
        StmtV::Break { id, .. } | StmtV::Continue { id, .. } | StmtV::Declare { id, .. } => seq![id as int],
        StmtV::Return { id, expr, .. } | StmtV::Expr { id, expr, .. } | StmtV::PrintByte { id, expr, .. }
        | StmtV::PrintInt { id, expr, .. } | StmtV::PrintString { id, expr, .. } => seq![id as int] + expr_ids(*expr),
        StmtV::Assign { id, lhs, rhs, .. } => seq![id as int] + expr_ids(*rhs) + expr_ids(*lhs),
        StmtV::Define { id, rhs, .. } => seq![id as int] + expr_ids(*rhs),
        StmtV::If { id, cond, true_arm, false_arm, .. } => seq![id as int] + expr_ids(*cond) + stmt_ids(*true_arm)
            + stmt_ids(*false_arm),
        StmtV::While { id, cond, body, .. } => seq![id as int] + expr_ids(*cond) + stmt_ids(*body),
        StmtV::FnDecl { id, body, .. } => seq![id as int] + stmt_ids(*body),
        StmtV::Block { id, stmts, .. } => seq![id as int] + stmts_ids(stmts),
    }
}

pub open spec fn stmts_ids(s: Seq<StmtV>) -> Seq<int>
    decreases s,
{
    if s.len() == 0 {
        seq![]
    } else {
        stmts_ids(s.drop_last()) + stmt_ids(s.last())
    }
}

/// The numbers from `a` up to `b`, `b` excluded.
pub open spec fn range_seq(a: nat, b: nat) -> Seq<int> {
    Seq::new((b - a) as nat, |k: int| a + k)
}

proof fn lemma_range_concat(a: nat, b: nat, c: nat)
    requires
        a <= b <= c,
    ensures
        range_seq(a, b) + range_seq(b, c) == range_seq(a, c),
{
    assert(range_seq(a, b) + range_seq(b, c) =~= range_seq(a, c));
}

proof fn lemma_range_cons(a: nat, b: nat)
    requires
        a < b,
    ensures
        seq![a as int] + range_seq(a + 1, b) == range_seq(a, b),
{
    assert(seq![a as int] + range_seq(a + 1, b) =~= range_seq(a, b));
}

/// Numbering an expression gives its nodes the numbers from `n` on, in order, one each.
pub proof fn lemma_expr_ids(e: ExprV, n: nat)
    requires
        number_expr(e, n).1 <= usize::MAX + 1,
    ensures
        expr_ids(number_expr(e, n).0) == range_seq(n, number_expr(e, n).1),
        number_expr(e, n).1 == n + ast::expr_size(e),
    decreases e,
{
    lemma_number_expr_grows(e, n);
    let m = number_expr(e, n).1;
    match e {
        ExprV::UnOp { operand, .. } | ExprV::Deref { operand, .. } | ExprV::AddrOf { operand, .. }
        | ExprV::Cast { operand, .. } => {
            lemma_expr_ids(*operand, n + 1);
            lemma_range_cons(n, m);
        },
        ExprV::BinOp { left, right, .. } => {
            lemma_number_expr_grows(*left, n + 1);
            let m1 = number_expr(*left, n + 1).1;
            lemma_number_expr_grows(*right, m1);
            lemma_expr_ids(*left, n + 1);
            lemma_expr_ids(*right, m1);
            lemma_range_concat(n + 1, m1, m);
            lemma_range_cons(n, m);
        },
        ExprV::Subscr { operand, index, .. } => {
            lemma_number_expr_grows(*operand, n + 1);
            let m1 = number_expr(*operand, n + 1).1;
            lemma_number_expr_grows(*index, m1);
            lemma_expr_ids(*operand, n + 1);
            lemma_expr_ids(*index, m1);
            lemma_range_concat(n + 1, m1, m);
            lemma_range_cons(n, m);
        },
        ExprV::Call { args, .. } => {
            lemma_number_exprs_grows(args, n + 1, args.len() as int);
            assert(args.take(args.len() as int) == args);
            lemma_exprs_ids(args, n + 1);
            lemma_range_cons(n, m);
        },
        _ => {
            assert(range_seq(n, n + 1) =~= seq![n as int]);
        },
    }
}

pub proof fn lemma_exprs_ids(s: Seq<ExprV>, n: nat)
    requires
        number_exprs(s, n).1 <= usize::MAX + 1,
    ensures
        exprs_ids(number_exprs(s, n).0) == range_seq(n, number_exprs(s, n).1),
        number_exprs(s, n).1 == n + ast::exprs_size(s),
    decreases s,
{
    if s.len() == 0 {
        assert(range_seq(n, n) =~= Seq::<int>::empty());
    } else {
        lemma_number_exprs_grows(s, n, s.len() - 1);
        assert(s.take(s.len() - 1) == s.drop_last());
        let (p, m) = number_exprs(s.drop_last(), n);
        lemma_number_expr_grows(s.last(), m);
        lemma_exprs_ids(s.drop_last(), n);
        lemma_expr_ids(s.last(), m);
        let (e, k) = number_expr(s.last(), m);
        assert(number_exprs(s, n).0.drop_last() == p);
        assert(number_exprs(s, n).0.last() == e);
        lemma_range_concat(n, m, k);
    }
}

/// Numbering a statement gives its nodes the numbers from `n` on, in order, one each.
#[verifier::rlimit(40)]
pub proof fn lemma_stmt_ids(s: StmtV, n: nat)
    requires
        number_stmt(s, n).1 <= usize::MAX + 1,
    ensures
        stmt_ids(number_stmt(s, n).0) == range_seq(n, number_stmt(s, n).1),
        number_stmt(s, n).1 == n + ast::stmt_size(s),
    decreases s,
{
    lemma_number_stmt_grows(s, n);
    let m = number_stmt(s, n).1;
    match s {
        StmtV::Return { expr, .. } | StmtV::Expr { expr, .. } | StmtV::PrintByte { expr, .. }
        | StmtV::PrintInt { expr, .. } | StmtV::PrintString { expr, .. } => {
            lemma_expr_ids(*expr, n + 1);
            lemma_range_cons(n, m);
        },
        StmtV::Define { rhs, .. } => {
            lemma_expr_ids(*rhs, n + 1);
            lemma_range_cons(n, m);
        },
        StmtV::Assign { lhs, rhs, .. } => {
            lemma_number_expr_grows(*rhs, n + 1);
            let m1 = number_expr(*rhs, n + 1).1;
            lemma_number_expr_grows(*lhs, m1);
            lemma_expr_ids(*rhs, n + 1);
            lemma_expr_ids(*lhs, m1);
            lemma_range_concat(n + 1, m1, m);
            lemma_range_cons(n, m);
        },
        StmtV::If { cond, true_arm, false_arm, .. } => {
            lemma_number_expr_grows(*cond, n + 1);
            let m1 = number_expr(*cond, n + 1).1;
            lemma_number_stmt_grows(*true_arm, m1);
            let m2 = number_stmt(*true_arm, m1).1;
            lemma_number_stmt_grows(*false_arm, m2);
            lemma_expr_ids(*cond, n + 1);
            lemma_stmt_ids(*true_arm, m1);
            lemma_stmt_ids(*false_arm, m2);
            lemma_range_concat(n + 1, m1, m2);
            lemma_range_concat(n + 1, m2, m);
            lemma_range_cons(n, m);
        },
        StmtV::While { cond, body, .. } => {
            lemma_number_expr_grows(*cond, n + 1);
            let m1 = number_expr(*cond, n + 1).1;
            lemma_number_stmt_grows(*body, m1);
            lemma_expr_ids(*cond, n + 1);
            lemma_stmt_ids(*body, m1);
            lemma_range_concat(n + 1, m1, m);
            lemma_range_cons(n, m);
        },
        StmtV::FnDecl { body, .. } => {
            lemma_stmt_ids(*body, n + 1);
            lemma_range_cons(n, m);
        },
        StmtV::Block { stmts, .. } => {
            lemma_number_stmts_grows(stmts, n + 1, stmts.len() as int);
            assert(stmts.take(stmts.len() as int) == stmts);
            lemma_stmts_ids(stmts, n + 1);
            lemma_range_cons(n, m);
        },
        _ => {
            assert(range_seq(n, n + 1) =~= seq![n as int]);
        },
    }
}

pub proof fn lemma_stmts_ids(s: Seq<StmtV>, n: nat)
    requires
        number_stmts(s, n).1 <= usize::MAX + 1,
    ensures
        stmts_ids(number_stmts(s, n).0) == range_seq(n, number_stmts(s, n).1),
        number_stmts(s, n).1 == n + ast::stmts_size(s),
    decreases s,
{
    if s.len() == 0 {
        assert(range_seq(n, n) =~= Seq::<int>::empty());
    } else {
        lemma_number_stmts_grows(s, n, s.len() - 1);
        assert(s.take(s.len() - 1) == s.drop_last());
        let (p, m) = number_stmts(s.drop_last(), n);
        lemma_number_stmt_grows(s.last(), m);
        lemma_stmts_ids(s.drop_last(), n);
        lemma_stmt_ids(s.last(), m);
        let (e, k) = number_stmt(s.last(), m);
        assert(number_stmts(s, n).0.drop_last() == p);
        assert(number_stmts(s, n).0.last() == e);
        lemma_range_concat(n, m, k);
    }
}

/// Numbering a program gives its nodes the consecutive numbers from the builder's next
/// id on, in order, each number to exactly one node; the next id afterwards is the
/// first number after them, so that ids handed out later are new as well.
pub proof fn law_ids_consecutive(s: Seq<StmtV>, n: nat)
    requires
        number_stmts(s, n).1 <= usize::MAX + 1,
    ensures
        stmts_ids(number_stmts(s, n).0) == range_seq(n, n + ast::stmts_size(s)),
        number_stmts(s, n).1 == n + ast::stmts_size(s),
        stmts_ids(number_stmts(s, n).0).no_duplicates(),
{
    lemma_stmts_ids(s, n);
}

} // verus!
