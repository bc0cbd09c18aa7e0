//! The return check: every function must return on each path through its body.
use vstd::prelude::*;
use crate::Error;
use crate::ast;
use crate::ast::{Expr, ExprV, Stmt, StmtV};
use crate::type_check::msg_name;
use crate::value::Val;

verus! {

/// The model of the result of a return check.
pub open spec fn bool_result_model(r: Result<bool, Error>) -> Result<bool, (usize, Seq<char>)> {
    match r {
        Ok(b) => Ok(b),
        Err(e) => Err(e@),
    }
}

/// Whether a loop condition is the constant `true`.
pub open spec fn is_const_true(e: ExprV) -> bool {
    e matches ExprV::Const { val: Val::Bool(true), .. }
}

/// Whether a statement surely returns (`Ok(true)`), may fall through (`Ok(false)`), or
/// holds a function that may not return (the error of the first such function).
/// A function declaration itself falls through.
pub open spec fn rc_stmt(s: StmtV) -> Result<bool, (usize, Seq<char>)>
    decreases s,
{
    match s {
        StmtV::Return { .. } => Ok(true),
        StmtV::Block { stmts, .. } => rc_stmts(stmts),
        StmtV::If { true_arm, false_arm, .. } => match rc_stmt(*true_arm) {
            Err(e) => Err(e),
            Ok(a) => match rc_stmt(*false_arm) {
                Err(e) => Err(e),
                Ok(b) => Ok(a && b),
            },
        },
        StmtV::While { cond, body, .. } => if is_const_true(*cond) {
            rc_stmt(*body)
        } else {
            Ok(false)
        },
        StmtV::FnDecl { loc, name, body, .. } => match rc_stmt(*body) {
            Err(e) => Err(e),
            Ok(true) => Ok(false),
            Ok(false) => Err((loc, "Function "@ + name + " may not return."@)),
        },
        _ => Ok(false),
    }
}

/// A sequence of statements surely returns when one of them does; the first error of
/// its statements, in order, is its error.
pub open spec fn rc_stmts(ss: Seq<StmtV>) -> Result<bool, (usize, Seq<char>)>
    decreases ss,
{
    if ss.len() == 0 {
        Ok(false)
    } else {
        match rc_stmts(ss.drop_last()) {
            Err(e) => Err(e),
            Ok(a) => match rc_stmt(ss.last()) {
                Err(e) => Err(e),
                Ok(b) => Ok(a || b),
            },
        }
    }
}

fn return_check_stmt(stmt: &Box<Stmt>) -> (r: Result<bool, Error>)
    ensures
        bool_result_model(r) == rc_stmt(stmt@),
    decreases ast::stmt_size(stmt@),
{
    match &**stmt {
        Stmt::Return { .. } => Ok(true),
        Stmt::Block { stmts, .. } => {
            let ghost ss = ast::stmts_view(stmts@);
            proof {
                ast::lemma_stmts_view(stmts@);
                assert(ss.take(0) == Seq::<StmtV>::empty());
            }
            let mut ret = false;
            let mut i: usize = 0;
            while i < stmts.len()
                invariant
                    ss == ast::stmts_view(stmts@),
                    ast::stmt_size(stmt@) == 1 + ast::stmts_size(ss),
                    rc_stmt(stmt@) == rc_stmts(ss),
                    ss.len() == stmts.len(),
                    forall|j: int| 0 <= j < stmts.len() ==> #[trigger] ss[j] == ast::stmt_view(*stmts@[j]),
                    i <= stmts.len(),
                    rc_stmts(ss.take(i as int)) == Ok::<bool, (usize, Seq<char>)>(ret),
                decreases stmts.len() - i,
            {
                proof {
                    ast::lemma_stmts_size(ss, i as int);
                    assert(ss.take(i + 1).drop_last() == ss.take(i as int));
                    assert(ss.take(i + 1).last() == ss[i as int]);
                }
                match return_check_stmt(&stmts[i]) {
                    Ok(t) => ret = ret || t,
                    Err(e) => {
                        proof {
                            lemma_rc_stmts_err(ss, i as int, ss.len() as int);
                            assert(ss.take(ss.len() as int) == ss);
                        }
                        return Err(e);
                    },
                }
                i += 1;
            }
            proof {
                assert(ss.take(stmts.len() as int) == ss);
            }
            Ok(ret)
        },
        Stmt::If { true_arm, false_arm, .. } => {
            let ret_true = match return_check_stmt(true_arm) {
                Ok(b) => b,
                Err(e) => return Err(e),
            };
            let ret_false = match return_check_stmt(false_arm) {
                Ok(b) => b,
                Err(e) => return Err(e),
            };
            Ok(ret_true && ret_false)
        },
        Stmt::While { cond, body, .. } => {
            match &**cond {
                Expr::Const { val: Val::Bool(true), .. } => return_check_stmt(body),
                _ => Ok(false),
            }
        },
        Stmt::FnDecl { loc, name, body, .. } => {
            let ret = match return_check_stmt(body) {
                Ok(b) => b,
                Err(e) => return Err(e),
            };
            if !ret {
                return Err(Error::new(*loc, msg_name("Function ", name.as_str(), " may not return.")));
            }
            Ok(false)
        },
        _ => Ok(false),
    }
}

/// Once a statement fails, the result of the whole sequence is that failure.
proof fn lemma_rc_stmts_err(ss: Seq<StmtV>, i: int, k: int)
    requires
        0 <= i < k <= ss.len(),
        rc_stmts(ss.take(i + 1)) is Err,
    ensures
        rc_stmts(ss.take(k)) == rc_stmts(ss.take(i + 1)),
    decreases k,
{
    if k > i + 1 {
        lemma_rc_stmts_err(ss, i, k - 1);
        assert(ss.take(k).drop_last() == ss.take(k - 1));
    }
}

/// Checks that every function of the program returns on each path: `Ok(true)` when
/// all do, else the error of the first function, in order, that may not.
pub fn return_check(stmts: &Vec<Box<Stmt>>) -> (r: Result<bool, Error>)
    ensures
        bool_result_model(r) == match rc_stmts(ast::stmts_view(stmts@)) {
            Ok(_) => Ok::<bool, (usize, Seq<char>)>(true),
            Err(e) => Err(e),
        },
{
    let ghost ss = ast::stmts_view(stmts@);
    proof {
        ast::lemma_stmts_view(stmts@);
        assert(ss.take(0) == Seq::<StmtV>::empty());
    }
    let mut i: usize = 0;
    while i < stmts.len()
        invariant
            ss == ast::stmts_view(stmts@),
            ss.len() == stmts.len(),
            forall|j: int| 0 <= j < stmts.len() ==> #[trigger] ss[j] == ast::stmt_view(*stmts@[j]),
            i <= stmts.len(),
            rc_stmts(ss.take(i as int)) is Ok,
        decreases stmts.len() - i,
    {
        proof {
            assert(ss.take(i + 1).drop_last() == ss.take(i as int));
            assert(ss.take(i + 1).last() == ss[i as int]);
        }
        match return_check_stmt(&stmts[i]) {
            Ok(_) => {},
            Err(e) => {
                proof {
                    lemma_rc_stmts_err(ss, i as int, ss.len() as int);
                    assert(ss.take(ss.len() as int) == ss);
                }
                return Err(e);
            },
        }
        i += 1;
    }
    proof {
        assert(ss.take(stmts.len() as int) == ss);
    }
    Ok(true)
}


/// An `if` surely returns exactly when both of its arms surely return; and a function
/// whose body may fall through is reported, at the function, as one that may not return.
pub proof fn law_if_returns_on_both_arms(id: usize, loc: usize, cond: ExprV, true_arm: StmtV, false_arm: StmtV)
    ensures
        rc_stmt(StmtV::If { id, loc, cond: Box::new(cond), true_arm: Box::new(true_arm), false_arm: Box::new(false_arm) })
            == Ok::<bool, (usize, Seq<char>)>(true) <==> (rc_stmt(true_arm) == Ok::<bool, (usize, Seq<char>)>(true)
            && rc_stmt(false_arm) == Ok::<bool, (usize, Seq<char>)>(true)),
{
}

/// A function whose body may fall through is reported at the function; one whose body
/// surely returns passes, and itself falls through.
pub proof fn law_function_must_return(
    id: usize,
    loc: usize,
    name: Seq<char>,
    args: Seq<(Seq<char>, crate::typ::TypeV)>,
    ret_type: crate::typ::TypeV,
    body: StmtV,
)
    ensures
        rc_stmt(body) == Ok::<bool, (usize, Seq<char>)>(false) ==> rc_stmt(
            StmtV::FnDecl { id, loc, name, args, ret_type, body: Box::new(body) },
        ) == Err::<bool, (usize, Seq<char>)>((loc, "Function "@ + name + " may not return."@)),
        rc_stmt(body) == Ok::<bool, (usize, Seq<char>)>(true) ==> rc_stmt(
            StmtV::FnDecl { id, loc, name, args, ret_type, body: Box::new(body) },
        ) == Ok::<bool, (usize, Seq<char>)>(false),
{
}

} // verus!
