//! The type checker: it gives every expression node its type, in a map from node ids
//! to types, and reports the first type error.
use vstd::prelude::*;
use std::collections::HashMap;
use crate::Error;
use crate::ast;
use crate::ast::{BinaryOperator, Expr, ExprV, Stmt, StmtV, UnaryOperator};
use crate::symbol_table;
use crate::symbol_table::SymbolTable;
use crate::text;
use crate::text::{push_decimal, push_str};
use crate::typ;
use crate::typ::{Type, TypeV};
use crate::value::Val;

verus! {

broadcast use vstd::std_specs::hash::group_hash_axioms;

/// The type of every expression node, by node id.
pub type NodeTypeMap = HashMap<usize, Type>;

/// The model of a node type map.
pub open spec fn ntm_model(m: Map<usize, Type>) -> Map<usize, TypeV> {
    m.map_values(|t: Type| t@)
}

/// The model of the result of checking an expression: its type and whether it is an
/// l-value, or an error.
pub open spec fn tc_result_model(r: Result<(Type, bool), Error>) -> Result<(TypeV, bool), (usize, Seq<char>)> {
    match r {
        Ok((t, b)) => Ok((t@, b)),
        Err(e) => Err(e@),
    }
}

pub open spec fn unit_result_model(r: Result<(), Error>) -> Result<(), (usize, Seq<char>)> {
    match r {
        Ok(()) => Ok(()),
        Err(e) => Err(e@),
    }
}

/// The model of the scopes of a symbol table of types.
pub open spec fn env_model(scopes: Seq<Map<Seq<char>, Type>>) -> Seq<Map<Seq<char>, TypeV>> {
    scopes.map_values(|m: Map<Seq<char>, Type>| m.map_values(|t: Type| t@))
}

/// The type of a variable or function in scope.
pub open spec fn env_lookup(env: Seq<Map<Seq<char>, TypeV>>, name: Seq<char>) -> Option<TypeV> {
    symbol_table::lookup_in(env, name)
}

proof fn lemma_env_lookup(scopes: Seq<Map<Seq<char>, Type>>, name: Seq<char>)
    ensures
        env_lookup(env_model(scopes), name) == match symbol_table::lookup_in(scopes, name) {
            Some(t) => Some(t@),
            None => None::<TypeV>,
        },
        symbol_table::lookup_current_in(env_model(scopes), name) == match symbol_table::lookup_current_in(scopes, name) {
            Some(t) => Some(t@),
            None => None::<TypeV>,
        },
    decreases scopes.len(),
{
    if scopes.len() > 0 {
        assert(env_model(scopes).drop_last() == env_model(scopes.drop_last()));
        lemma_env_lookup(scopes.drop_last(), name);
    }
}

proof fn lemma_env_define(scopes: Seq<Map<Seq<char>, Type>>, name: Seq<char>, t: Type)
    requires
        scopes.len() > 0,
    ensures
        env_model(symbol_table::define_in(scopes, name, t)) == symbol_table::define_in(env_model(scopes), name, t@),
{
    assert forall|i: int| 0 <= i < scopes.len() implies env_model(symbol_table::define_in(scopes, name, t))[i] == symbol_table::define_in(env_model(scopes), name, t@)[i] by {
        if i == scopes.len() - 1 {
            assert(env_model(symbol_table::define_in(scopes, name, t))[i] =~= symbol_table::define_in(env_model(scopes), name, t@)[i]);
        }
    }
    assert(env_model(symbol_table::define_in(scopes, name, t)) =~= symbol_table::define_in(env_model(scopes), name, t@));
}

pub open spec fn tt(t: TypeV) -> Seq<char> {
    typ::type_text(t)
}

/// The type of `left op right`, or the message of the error.
pub open spec fn binop_type(op: BinaryOperator, l: TypeV, r: TypeV) -> Result<TypeV, Seq<char>> {
    match op {
        BinaryOperator::Add => match (l, r) {
            (TypeV::Arr(t, n), TypeV::Int) => Ok(TypeV::Arr(t, n)),
            (TypeV::Int, TypeV::Arr(t, n)) => Ok(TypeV::Arr(t, n)),
            (TypeV::Ptr(t), TypeV::Int) => Ok(TypeV::Ptr(t)),
            (TypeV::Int, TypeV::Ptr(t)) => Ok(TypeV::Ptr(t)),
            (TypeV::Int, TypeV::Int) => Ok(TypeV::Int),
            _ => Err("Cannot perform operation "@ + tt(l) + " + "@ + tt(r)),
        },
        BinaryOperator::Sub => match (l, r) {
            (TypeV::Ptr(t1), TypeV::Ptr(t2)) => if t1 == t2 {
                Ok(TypeV::Int)
            } else {
                Err("Cannot perform operation "@ + tt(l) + " - "@ + tt(r))
            },
            (TypeV::Ptr(t1), TypeV::Int) => Ok(TypeV::Ptr(t1)),
            (TypeV::Int, TypeV::Int) => Ok(TypeV::Int),
            _ => Err("Cannot perform operation "@ + tt(l) + " - "@ + tt(r)),
        },
        BinaryOperator::Mul | BinaryOperator::Div => if l == TypeV::Int && r == TypeV::Int {
            Ok(TypeV::Int)
        } else {
            Err("Cannot perform * or / on "@ + tt(l) + ", "@ + tt(r))
        },
        BinaryOperator::Eq | BinaryOperator::Neq => if l == r {
            Ok(TypeV::Bool)
        } else {
            Err("Cannot perform == or != on "@ + tt(l) + ", "@ + tt(r))
        },
        BinaryOperator::Lt | BinaryOperator::Leq | BinaryOperator::Gt | BinaryOperator::Geq => if l == r {
            Ok(TypeV::Bool)
        } else {
            Err("Cannot perform <, <=, >, > on "@ + tt(l) + ", "@ + tt(r))
        },
        BinaryOperator::And | BinaryOperator::Or => if l == TypeV::Bool && r == TypeV::Bool {
            Ok(TypeV::Bool)
        } else {
            Err("Cannot perform &&, || on "@ + tt(l) + ", "@ + tt(r))
        },
    }
}

/// The type of `op operand`, or the message of the error.
pub open spec fn unop_type(op: UnaryOperator, t: TypeV) -> Result<TypeV, Seq<char>> {
    match op {
        UnaryOperator::Pos | UnaryOperator::Neg => if t == TypeV::Int {
            Ok(TypeV::Int)
        } else {
            Err("Cannot perform - or +"@ + tt(t))
        },
        UnaryOperator::Not => if t == TypeV::Bool {
            Ok(TypeV::Bool)
        } else {
            Err("Cannot perform !"@ + tt(t))
        },
    }
}

/// The first position from `i` on where the two sequences of types differ.
pub open spec fn first_mismatch(a: Seq<TypeV>, b: Seq<TypeV>, i: nat) -> Option<nat>
    decreases a.len() - i,
{
    if i >= a.len() || i >= b.len() {
        None
    } else if a[i as int] != b[i as int] {
        Some(i)
    } else {
        first_mismatch(a, b, i + 1)
    }
}

/// The type of a call of `name` with arguments of the given types, when `name` has
/// type `f` in scope; or the message of the error.
pub open spec fn call_type(name: Seq<char>, arg_types: Seq<TypeV>, f: Option<TypeV>) -> Result<TypeV, Seq<char>> {
    match f {
        None => Err("Undefined function "@ + name),
        Some(TypeV::Func { name: _, args, ret_type }) => if arg_types.len() != args.len() {
            Err("Argument length mismatch of "@ + name + "."@)
        } else {
            match first_mismatch(arg_types, args, 0) {
                Some(i) => Err("Type mismatch of "@ + name + " on argument "@ + text::decimal(i) + ". Expected "@
                    + tt(args[i as int]) + " but got "@ + tt(arg_types[i as int]) + "."@),
                None => Ok(*ret_type),
            }
        },
        Some(t) => Err("Tried to call a "@ + tt(t)),
    }
}

/// Checks an expression: the result, the expression afterwards (calls get their
/// return type) and the node type map afterwards.
pub open spec fn tc_expr(e: ExprV, env: Seq<Map<Seq<char>, TypeV>>, m: Map<usize, TypeV>) -> (
    Result<(TypeV, bool), (usize, Seq<char>)>,
    ExprV,
    Map<usize, TypeV>,
)
    decreases e,
{
    match e {
        ExprV::Const { id, loc, val } => {
            let t = match val {
                Val::Int(_) => TypeV::Int,
                Val::Byte(_) => TypeV::Byte,
                Val::Bool(_) => TypeV::Bool,
            };
            (Ok((t, false)), e, m.insert(id, t))
        },
        ExprV::Var { id, loc, name } => match env_lookup(env, name) {
            Some(t) => (Ok((t, true)), e, m.insert(id, t)),
            None => (Err((loc, "Use of undeclared variable "@ + name + "."@)), e, m),
        },
        ExprV::AddrOf { id, loc, operand } => {
            let (r, o, m1) = tc_expr(*operand, env, m);
            let e1 = ExprV::AddrOf { id, loc, operand: Box::new(o) };
            match r {
                Err(err) => (Err(err), e1, m1),
                Ok((t, true)) => (Ok((TypeV::Ptr(Box::new(t)), false)), e1, m1.insert(id, TypeV::Ptr(Box::new(t)))),
                Ok((t, false)) => (Err((loc, "Cannot get lvalue of type "@ + tt(t))), e1, m1),
            }
        },
        ExprV::Deref { id, loc, operand } => {
            let (r, o, m1) = tc_expr(*operand, env, m);
            let e1 = ExprV::Deref { id, loc, operand: Box::new(o) };
            match r {
                Err(err) => (Err(err), e1, m1),
                Ok((TypeV::Ptr(t), _)) => (Ok((*t, true)), e1, m1.insert(id, *t)),
                Ok((TypeV::Arr(t, _), _)) => (Ok((*t, true)), e1, m1.insert(id, *t)),
                Ok((t, _)) => (Err((loc, "Cannot dereference value of type "@ + tt(t))), e1, m1),
            }
        },
        ExprV::Subscr { id, loc, operand, index } => {
            let (r1, o, m1) = tc_expr(*operand, env, m);
            let (r2, i, m2) = tc_expr(*index, env, m1);
            let e1 = ExprV::Subscr { id, loc, operand: Box::new(o), index: Box::new(i) };
            match (r1, r2) {
                (Err(err), _) => (Err(err), e1, m2),
                (_, Err(err)) => (Err(err), e1, m2),
                (Ok((TypeV::Ptr(t), _)), Ok((TypeV::Int, _))) => (Ok((*t, true)), e1, m2.insert(id, *t)),
                (Ok((TypeV::Arr(t, _), _)), Ok((TypeV::Int, _))) => (Ok((*t, true)), e1, m2.insert(id, *t)),
                (Ok((t1, _)), Ok((t2, _))) => (Err((loc, "Cannot perform "@ + tt(t1) + "["@ + tt(t2) + "]"@)), e1, m2),
            }
        },
        ExprV::Cast { id, loc, operand, typ } => {
            let (r, o, m1) = tc_expr(*operand, env, m);
            let e1 = ExprV::Cast { id, loc, operand: Box::new(o), typ };
            match r {
                Err(err) => (Err(err), e1, m1),
                Ok((TypeV::Func { name, .. }, _)) => (Err((loc, "Cannot cast function "@ + name)), e1, m1),
                Ok(_) => (Ok((typ, false)), e1, m1.insert(id, typ)),
            }
        },
        ExprV::BinOp { id, loc, left, operator, right } => {
            let (r1, l, m1) = tc_expr(*left, env, m);
            match r1 {
                Err(err) => (Err(err), ExprV::BinOp { id, loc, left: Box::new(l), operator, right }, m1),
                Ok((lt, _)) => {
                    let (r2, r, m2) = tc_expr(*right, env, m1);
                    let e1 = ExprV::BinOp { id, loc, left: Box::new(l), operator, right: Box::new(r) };
                    match r2 {
                        Err(err) => (Err(err), e1, m2),
                        Ok((rt, _)) => match binop_type(operator, lt, rt) {
                            Ok(t) => (Ok((t, false)), e1, m2.insert(id, t)),
                            Err(msg) => (Err((loc, msg)), e1, m2),
                        },
                    }
                },
            }
        },
        ExprV::UnOp { id, loc, operator, operand } => {
            let (r, o, m1) = tc_expr(*operand, env, m);
            let e1 = ExprV::UnOp { id, loc, operator, operand: Box::new(o) };
            match r {
                Err(err) => (Err(err), e1, m1),
                Ok((t, _)) => match unop_type(operator, t) {
                    Ok(t2) => (Ok((t2, false)), e1, m1.insert(id, t2)),
                    Err(msg) => (Err((loc, msg)), e1, m1),
                },
            }
        },
        ExprV::Call { id, loc, name, args, ret_type } => {
            let (r, a, m1) = tc_args(args, env, m);
            match r {
                Err(err) => (Err(err), ExprV::Call { id, loc, name, args: a, ret_type }, m1),
                Ok(types) => match call_type(name, types, env_lookup(env, name)) {
                    Ok(t) => (Ok((t, false)), ExprV::Call { id, loc, name, args: a, ret_type: Some(t) }, m1.insert(id, t)),
                    Err(msg) => (Err((loc, msg)), ExprV::Call { id, loc, name, args: a, ret_type }, m1),
                },
            }
        },
    }
}

/// Checks the arguments of a call from left to right, up to the first error.
pub open spec fn tc_args(s: Seq<ExprV>, env: Seq<Map<Seq<char>, TypeV>>, m: Map<usize, TypeV>) -> (
    Result<Seq<TypeV>, (usize, Seq<char>)>,
    Seq<ExprV>,
    Map<usize, TypeV>,
)
    decreases s,
{
    if s.len() == 0 {
        (Ok(seq![]), seq![], m)
    } else {
        let (r, a, m1) = tc_args(s.drop_last(), env, m);
        match r {
            Err(err) => (Err(err), a.push(s.last()), m1),
            Ok(types) => {
                let (r2, e2, m2) = tc_expr(s.last(), env, m1);
                match r2 {
                    Err(err) => (Err(err), a.push(e2), m2),
                    Ok((t, _)) => (Ok(types.push(t)), a.push(e2), m2),
                }
            },
        }
    }
}

pub open spec fn type_result_model(r: Result<Type, String>) -> Result<TypeV, Seq<char>> {
    match r {
        Ok(t) => Ok(t@),
        Err(m) => Err(m@),
    }
}

/// `prefix` followed by the printed form of `t`.
fn msg_t(prefix: &str, t: &Type) -> (r: String)
    ensures
        r@ == prefix@ + tt(t@),
{
    let mut s = text::text_of(prefix);
    t.push_text(&mut s);
    s
}

/// `prefix`, the printed `t1`, `mid`, the printed `t2`, then `suffix`.
fn msg_tt(prefix: &str, t1: &Type, mid: &str, t2: &Type, suffix: &str) -> (r: String)
    ensures
        r@ == prefix@ + tt(t1@) + mid@ + tt(t2@) + suffix@,
{
    let mut s = text::text_of(prefix);
    t1.push_text(&mut s);
    push_str(&mut s, mid);
    t2.push_text(&mut s);
    push_str(&mut s, suffix);
    s
}

/// `prefix`, the printed `t1`, `mid`, then the printed `t2`.
fn msg_tt0(prefix: &str, t1: &Type, mid: &str, t2: &Type) -> (r: String)
    ensures
        r@ == prefix@ + tt(t1@) + mid@ + tt(t2@),
{
    let mut s = text::text_of(prefix);
    t1.push_text(&mut s);
    push_str(&mut s, mid);
    t2.push_text(&mut s);
    s
}

/// `prefix` then `name`.
fn msg_name0(prefix: &str, name: &str) -> (r: String)
    ensures
        r@ == prefix@ + name@,
{
    let mut s = text::text_of(prefix);
    push_str(&mut s, name);
    s
}

/// `prefix`, `name`, then `suffix`.
pub(crate) fn msg_name(prefix: &str, name: &str, suffix: &str) -> (r: String)
    ensures
        r@ == prefix@ + name@ + suffix@,
{
    let mut s = text::text_of(prefix);
    push_str(&mut s, name);
    push_str(&mut s, suffix);
    s
}

fn record(ntm: &mut NodeTypeMap, id: usize, t: Type)
    ensures
        ntm_model(final(ntm)@) == ntm_model(old(ntm)@).insert(id, t@),
{
    let ghost tv = t@;
    ntm.insert(id, t);
    assert(ntm_model(ntm@) =~= ntm_model(old(ntm)@).insert(id, tv));
}

fn lookup_type(sym_tab: &SymbolTable<Type>, name: &str) -> (r: Option<Type>)
    ensures
        match r {
            Some(t) => env_lookup(env_model(sym_tab.scopes()), name@) == Some(t@),
            None => env_lookup(env_model(sym_tab.scopes()), name@) is None,
        },
{
    proof {
        lemma_env_lookup(sym_tab.scopes(), name@);
    }
    match sym_tab.lookup(name) {
        Some(t) => Some(t.deep_copy()),
        None => None,
    }
}

fn binop_check(op: BinaryOperator, l: &Type, r: &Type) -> (res: Result<Type, String>)
    ensures
        type_result_model(res) == binop_type(op, l@, r@),
{
    match op {
        BinaryOperator::Add => match (l, r) {
            (Type::Arr(t, n), Type::Int) => Ok(Type::Arr(Box::new(t.deep_copy()), *n)),
            (Type::Int, Type::Arr(t, n)) => Ok(Type::Arr(Box::new(t.deep_copy()), *n)),
            (Type::Ptr(t), Type::Int) => Ok(Type::Ptr(Box::new(t.deep_copy()))),
            (Type::Int, Type::Ptr(t)) => Ok(Type::Ptr(Box::new(t.deep_copy()))),
            (Type::Int, Type::Int) => Ok(Type::Int),
            _ => Err(msg_tt0("Cannot perform operation ", l, " + ", r)),
        },
        BinaryOperator::Sub => match (l, r) {
            (Type::Ptr(t1), Type::Ptr(t2)) => {
                if t1.same(t2) {
                    Ok(Type::Int)
                } else {
                    Err(msg_tt0("Cannot perform operation ", l, " - ", r))
                }
            },
            (Type::Ptr(t1), Type::Int) => Ok(Type::Ptr(Box::new(t1.deep_copy()))),
            (Type::Int, Type::Int) => Ok(Type::Int),
            _ => Err(msg_tt0("Cannot perform operation ", l, " - ", r)),
        },
        BinaryOperator::Mul | BinaryOperator::Div => {
            if l.same(&Type::Int) && r.same(&Type::Int) {
                Ok(Type::Int)
            } else {
                Err(msg_tt0("Cannot perform * or / on ", l, ", ", r))
            }
        },
        BinaryOperator::Eq | BinaryOperator::Neq => {
            if l.same(r) {
                Ok(Type::Bool)
            } else {
                Err(msg_tt0("Cannot perform == or != on ", l, ", ", r))
            }
        },
        BinaryOperator::Lt | BinaryOperator::Leq | BinaryOperator::Gt | BinaryOperator::Geq => {
            if l.same(r) {
                Ok(Type::Bool)
            } else {
                Err(msg_tt0("Cannot perform <, <=, >, > on ", l, ", ", r))
            }
        },
        BinaryOperator::And | BinaryOperator::Or => {
            if l.same(&Type::Bool) && r.same(&Type::Bool) {
                Ok(Type::Bool)
            } else {
                Err(msg_tt0("Cannot perform &&, || on ", l, ", ", r))
            }
        },
    }
}

fn unop_check(op: UnaryOperator, t: &Type) -> (res: Result<Type, String>)
    ensures
        type_result_model(res) == unop_type(op, t@),
{
    match op {
        UnaryOperator::Pos | UnaryOperator::Neg => {
            if t.same(&Type::Int) {
                Ok(Type::Int)
            } else {
                Err(msg_t("Cannot perform - or +", t))
            }
        },
        UnaryOperator::Not => {
            if t.same(&Type::Bool) {
                Ok(Type::Bool)
            } else {
                Err(msg_t("Cannot perform !", t))
            }
        },
    }
}

#[verifier::loop_isolation(false)]
fn call_check(name: &str, arg_types: &Vec<Type>, f: Option<Type>) -> (res: Result<Type, String>)
    ensures
        type_result_model(res) == call_type(
            name@,
            arg_types@.map_values(|t: Type| t@),
            match f {
                Some(t) => Some(t@),
                None => None,
            },
        ),
{
    let ghost av = arg_types@.map_values(|t: Type| t@);
    match f {
        None => Err(msg_name0("Undefined function ", name)),
        Some(Type::Func { name: _, args, ret_type }) => {
            let ghost fv = typ::types_view(args@);
            proof {
                typ::lemma_types_view(args@);
            }
            if arg_types.len() != args.len() {
                return Err(msg_name("Argument length mismatch of ", name, "."));
            }
            let mut i: usize = 0;
            while i < args.len()
                invariant
                    i <= args.len(),
                    args.len() == arg_types.len(),
                    fv == typ::types_view(args@),
                    fv.len() == args.len(),
                    av == arg_types@.map_values(|t: Type| t@),
                    forall|j: int| 0 <= j < args.len() ==> #[trigger] fv[j] == typ::type_view(*args@[j]),
                    first_mismatch(av, fv, 0) == first_mismatch(av, fv, i as nat),
                decreases args.len() - i,
            {
                if !arg_types[i].same(&args[i]) {
                    assert(av[i as int] == arg_types@[i as int]@);
                    assert(av[i as int] != fv[i as int]);
                    assert(first_mismatch(av, fv, i as nat) == Some(i as nat));
                    let mut s = msg_name("Type mismatch of ", name, " on argument ");
                    push_decimal(&mut s, i);
                    push_str(&mut s, ". Expected ");
                    args[i].push_text(&mut s);
                    push_str(&mut s, " but got ");
                    arg_types[i].push_text(&mut s);
                    push_str(&mut s, ".");
                    return Err(s);
                }
                i += 1;
            }
            Ok(*ret_type)
        },
        Some(t) => Err(msg_t("Tried to call a ", &t)),
    }
}

/// Once an argument fails, the later ones are left as they are.
proof fn lemma_tc_args_err(s: Seq<ExprV>, env: Seq<Map<Seq<char>, TypeV>>, m: Map<usize, TypeV>, i: int, k: int)
    requires
        0 <= i < k <= s.len(),
        tc_args(s.take(i + 1), env, m).0 is Err,
    ensures
        tc_args(s.take(k), env, m).0 == tc_args(s.take(i + 1), env, m).0,
        tc_args(s.take(k), env, m).1 == tc_args(s.take(i + 1), env, m).1 + s.subrange(i + 1, k),
        tc_args(s.take(k), env, m).2 == tc_args(s.take(i + 1), env, m).2,
    decreases k,
{
    if k > i + 1 {
        lemma_tc_args_err(s, env, m, i, k - 1);
        assert(s.take(k).drop_last() == s.take(k - 1));
        assert(s.take(k).last() == s[k - 1]);
        assert(s.subrange(i + 1, k) == s.subrange(i + 1, k - 1).push(s[k - 1]));
    } else {
        assert(s.subrange(i + 1, k) == Seq::<ExprV>::empty());
    }
}

fn type_check_expr(expr: &mut Box<Expr>, sym_tab: &SymbolTable<Type>, ntm: &mut NodeTypeMap) -> (r: Result<(Type, bool), Error>)
    ensures
        (tc_result_model(r), final(expr)@, ntm_model(final(ntm)@)) == tc_expr(
            old(expr)@,
            env_model(sym_tab.scopes()),
            ntm_model(old(ntm)@),
        ),
    decreases ast::expr_size(old(expr)@), 1nat,
{
    let ghost e0 = expr@;
    let ghost env = env_model(sym_tab.scopes());
    match &mut **expr {
        Expr::Const { id, loc: _, val } => {
            match val {
                Val::Int(_) => {
                    record(ntm, *id, Type::Int);
                    Ok((Type::Int, false))
                },
                Val::Byte(_) => {
                    record(ntm, *id, Type::Byte);
                    Ok((Type::Byte, false))
                },
                Val::Bool(_) => {
                    record(ntm, *id, Type::Bool);
                    Ok((Type::Bool, false))
                },
            }
        },
        Expr::Var { id, loc, name } => {
            match lookup_type(sym_tab, name.as_str()) {
                Some(t) => {
                    record(ntm, *id, t.deep_copy());
                    Ok((t, true))
                },
                None => Err(Error::new(*loc, msg_name("Use of undeclared variable ", name.as_str(), "."))),
            }
        },
        Expr::AddrOf { id, loc, operand } => {
            match type_check_expr(operand, sym_tab, ntm) {
                Err(err) => Err(err),
                Ok((t, true)) => {
                    record(ntm, *id, Type::Ptr(Box::new(t.deep_copy())));
                    Ok((Type::Ptr(Box::new(t)), false))
                },
                Ok((t, false)) => Err(Error::new(*loc, msg_t("Cannot get lvalue of type ", &t))),
            }
        },
        Expr::Deref { id, loc, operand } => {
            match type_check_expr(operand, sym_tab, ntm) {
                Err(err) => Err(err),
                Ok((Type::Ptr(t), _)) => {
                    record(ntm, *id, t.deep_copy());
                    Ok((*t, true))
                },
                Ok((Type::Arr(t, _), _)) => {
                    record(ntm, *id, t.deep_copy());
                    Ok((*t, true))
                },
                Ok((t, _)) => Err(Error::new(*loc, msg_t("Cannot dereference value of type ", &t))),
            }
        },
        Expr::Subscr { id, loc, operand, index } => {
            let r1 = type_check_expr(operand, sym_tab, ntm);
            let r2 = type_check_expr(index, sym_tab, ntm);
            match (r1, r2) {
                (Err(err), _) => Err(err),
                (_, Err(err)) => Err(err),
                (Ok((Type::Ptr(t), _)), Ok((Type::Int, _))) => {
                    record(ntm, *id, t.deep_copy());
                    Ok((*t, true))
                },
                (Ok((Type::Arr(t, _), _)), Ok((Type::Int, _))) => {
                    record(ntm, *id, t.deep_copy());
                    Ok((*t, true))
                },
                (Ok((t1, _)), Ok((t2, _))) => Err(Error::new(*loc, msg_tt("Cannot perform ", &t1, "[", &t2, "]"))),
            }
        },
        Expr::Cast { id, loc, operand, typ } => {
            match type_check_expr(operand, sym_tab, ntm) {
                Err(err) => Err(err),
                Ok((Type::Func { name, args: _, ret_type: _ }, _)) => Err(
                    Error::new(*loc, msg_name0("Cannot cast function ", name.as_str())),
                ),
                Ok((_, _)) => {
                    record(ntm, *id, typ.deep_copy());
                    Ok((typ.deep_copy(), false))
                },
            }
        },
        Expr::BinOp { id, loc, left, operator, right } => {
            let left_type = match type_check_expr(left, sym_tab, ntm) {
                Ok((t, _)) => t,
                Err(err) => return Err(err),
            };
            let right_type = match type_check_expr(right, sym_tab, ntm) {
                Ok((t, _)) => t,
                Err(err) => return Err(err),
            };
            match binop_check(*operator, &left_type, &right_type) {
                Ok(t) => {
                    record(ntm, *id, t.deep_copy());
                    Ok((t, false))
                },
                Err(msg) => Err(Error::new(*loc, msg)),
            }
        },
        Expr::UnOp { id, loc, operator, operand } => {
            let expr_type = match type_check_expr(operand, sym_tab, ntm) {
                Ok((t, _)) => t,
                Err(err) => return Err(err),
            };
            match unop_check(*operator, &expr_type) {
                Ok(t) => {
                    record(ntm, *id, t.deep_copy());
                    Ok((t, false))
                },
                Err(msg) => Err(Error::new(*loc, msg)),
            }
        },
        Expr::Call { id, loc, name, args, ret_type } => {
            type_check_call(*id, *loc, name, args, ret_type, sym_tab, ntm)
        },
    }
}

/// Checks a call `name(args)`, whose node has the given id and location.
fn type_check_call(
    id: usize,
    loc: usize,
    name: &String,
    args: &mut Vec<Box<Expr>>,
    ret_type: &mut Option<Type>,
    sym_tab: &SymbolTable<Type>,
    ntm: &mut NodeTypeMap,
) -> (r: Result<(Type, bool), Error>)
    ensures
        ({
            let e = ExprV::Call { id, loc, name: name@, args: ast::exprs_view(old(args)@), ret_type: ast::opt_type_view(*old(ret_type)) };
            let out = tc_expr(e, env_model(sym_tab.scopes()), ntm_model(old(ntm)@));
            &&& tc_result_model(r) == out.0
            &&& (ExprV::Call { id, loc, name: name@, args: ast::exprs_view(final(args)@), ret_type: ast::opt_type_view(*final(ret_type)) }) == out.1
            &&& ntm_model(final(ntm)@) == out.2
        }),
    decreases 1 + ast::exprs_size(ast::exprs_view(old(args)@)), 0nat,
{
    let ghost e0 = ExprV::Call { id, loc, name: name@, args: ast::exprs_view(args@), ret_type: ast::opt_type_view(*ret_type) };
    let ghost env = env_model(sym_tab.scopes());
    let ghost a0 = ast::exprs_view(args@);
    let ghost m0 = ntm_model(ntm@);
    let mut call_arg_types: Vec<Type> = Vec::new();
    let mut i: usize = 0;
    proof {
        ast::lemma_exprs_view(args@);
        assert(ast::expr_size(e0) == 1 + ast::exprs_size(a0));
        assert(a0.take(0) == Seq::<ExprV>::empty());
        assert(args@.take(0) == Seq::<Box<Expr>>::empty());
        assert(call_arg_types@.map_values(|t: Type| t@) =~= Seq::<TypeV>::empty());
        assert(ast::exprs_view(args@.take(0)) == Seq::<ExprV>::empty());
    }
    while i < args.len()
        invariant
            e0 == (ExprV::Call { id, loc, name: name@, args: ast::exprs_view(old(args)@), ret_type: ast::opt_type_view(*old(ret_type)) }),
            a0 == ast::exprs_view(old(args)@),
            *ret_type == *old(ret_type),
            m0 == ntm_model(old(ntm)@),
            env == env_model(sym_tab.scopes()),
            ast::expr_size(e0) == 1 + ast::exprs_size(a0),
            i <= args.len(),
            a0.len() == args.len(),
            ast::exprs_view(args@).len() == args.len(),
            forall|j: int| i <= j < args.len() ==> #[trigger] ast::expr_view(*args@[j]) == a0[j],
            forall|j: int| 0 <= j < args.len() ==> #[trigger] ast::exprs_view(args@)[j] == ast::expr_view(*args@[j]),
            tc_args(a0.take(i as int), env, m0) == (
                Ok::<Seq<TypeV>, (usize, Seq<char>)>(call_arg_types@.map_values(|t: Type| t@)),
                ast::exprs_view(args@.take(i as int)),
                ntm_model(ntm@),
            ),
        decreases args.len() - i,
    {
        proof {
            ast::lemma_exprs_size(a0, i as int);
            assert(a0.take(i + 1).drop_last() == a0.take(i as int));
            assert(a0.take(i + 1).last() == a0[i as int]);
        }
        let ghost before = args@;
        let ghost before_types = call_arg_types@;
        assert(ast::expr_view(*args@[i as int]) == a0[i as int]);
        let r = type_check_expr(&mut args[i], sym_tab, ntm);
        proof {
            ast::lemma_exprs_view(args@);
            assert(args@.take(i + 1).drop_last() == before.take(i as int));
            assert(args@.take(i + 1) == before.take(i as int).push(args@[i as int]));
        }
        match r {
            Ok((t, _)) => {
                call_arg_types.push(t);
                assert(call_arg_types@.map_values(|t: Type| t@) == before_types.map_values(|t: Type| t@).push(t@));
            },
            Err(err) => {
                proof {
                    let t1 = tc_args(a0.take(i + 1), env, m0);
                    assert(t1.0 == Err::<Seq<TypeV>, (usize, Seq<char>)>(err@));
                    assert(t1.1 == ast::exprs_view(args@.take(i + 1)));
                    assert(t1.2 == ntm_model(ntm@));
                    lemma_tc_args_err(a0, env, m0, i as int, a0.len() as int);
                    assert(a0.take(a0.len() as int) == a0);
                    assert(args@.take(args.len() as int) == args@);
                    assert(ast::exprs_view(args@) == ast::exprs_view(args@.take(i + 1)) + a0.subrange(i + 1, a0.len() as int)) by {
                        ast::lemma_exprs_view(args@.take(i + 1));
                        assert(ast::exprs_view(args@) =~= ast::exprs_view(args@.take(i + 1)) + a0.subrange(i + 1, a0.len() as int));
                    }
                }
                return Err(err);
            },
        }
        i += 1;
    }
    proof {
        assert(a0.take(args.len() as int) == a0);
        assert(args@.take(args.len() as int) == args@);
    }
    let f = lookup_type(sym_tab, name.as_str());
    match call_check(name.as_str(), &call_arg_types, f) {
        Ok(t) => {
            *ret_type = Some(t.deep_copy());
            record(ntm, id, t.deep_copy());
            Ok((t, false))
        },
        Err(msg) => Err(Error::new(loc, msg)),
    }

}

/// The type of a function declaration.
pub open spec fn fn_type(name: Seq<char>, args: Seq<(Seq<char>, TypeV)>, ret_type: TypeV) -> TypeV {
    TypeV::Func { name, args: args.map_values(|p: (Seq<char>, TypeV)| p.1), ret_type: Box::new(ret_type) }
}

/// Declares the functions of a block (or of the program) in the innermost scope, in
/// order, up to the first redeclaration.
pub open spec fn collect_fns(stmts: Seq<StmtV>, env: Seq<Map<Seq<char>, TypeV>>) -> (
    Result<(), (usize, Seq<char>)>,
    Seq<Map<Seq<char>, TypeV>>,
)
    decreases stmts.len(),
{
    if stmts.len() == 0 {
        (Ok(()), env)
    } else {
        let (r, e1) = collect_fns(stmts.drop_last(), env);
        match r {
            Err(err) => (Err(err), e1),
            Ok(()) => match stmts.last() {
                StmtV::FnDecl { id: _, loc, name, args, ret_type, body: _ } => {
                    if symbol_table::lookup_current_in(e1, name) is Some {
                        (Err((loc, "Redeclaration of function "@ + name)), e1)
                    } else {
                        (Ok(()), symbol_table::define_in(e1, name, fn_type(name, args, ret_type)))
                    }
                },
                _ => (Ok(()), e1),
            },
        }
    }
}

/// Binds the parameters of a function, in order, in the innermost scope.
pub open spec fn define_params(env: Seq<Map<Seq<char>, TypeV>>, args: Seq<(Seq<char>, TypeV)>) -> Seq<Map<Seq<char>, TypeV>>
    decreases args.len(),
{
    if args.len() == 0 {
        env
    } else {
        let e1 = define_params(env, args.drop_last());
        symbol_table::define_in(e1, args.last().0, args.last().1)
    }
}

/// The message for a `print_string` of a value of type `t`.
pub open spec fn print_string_msg(t: TypeV) -> Seq<char> {
    "print_string expected ptr<byte> but got "@ + tt(t) + "."@
}

/// Checks the declaration `typ name;`: the result and the scopes afterwards.
pub open spec fn tc_declare(loc: usize, typ: TypeV, name: Seq<char>, env: Seq<Map<Seq<char>, TypeV>>) -> (
    Result<(), (usize, Seq<char>)>,
    Seq<Map<Seq<char>, TypeV>>,
) {
    if symbol_table::lookup_current_in(env, name) is Some {
        (Err((loc, "Redeclaration of variable "@ + name)), env)
    } else {
        (Ok(()), symbol_table::define_in(env, name, typ))
    }
}

/// Checks the definition `typ name = rhs;`.
pub open spec fn tc_define(id: usize, loc: usize, typ: TypeV, name: Seq<char>, rhs: ExprV, env: Seq<Map<Seq<char>, TypeV>>, m: Map<usize, TypeV>) -> (
    Result<(), (usize, Seq<char>)>,
    StmtV,
    Seq<Map<Seq<char>, TypeV>>,
    Map<usize, TypeV>,
) {
    if symbol_table::lookup_current_in(env, name) is Some {
        (Err((loc, "Redeclaration of variable "@ + name)), StmtV::Define { id, loc, typ, name, rhs: Box::new(rhs) }, env, m)
    } else {
        let (r, e1, m1) = tc_expr(rhs, env, m);
        let s1 = StmtV::Define { id, loc, typ, name, rhs: Box::new(e1) };
        match r {
            Err(err) => (Err(err), s1, env, m1),
            Ok((t, _)) => if t == typ {
                (Ok(()), s1, symbol_table::define_in(env, name, typ), m1)
            } else {
                (Err((loc, "Variable "@ + name + " expected type "@ + tt(typ) + " but got "@ + tt(t) + "."@)), s1, env, m1)
            },
        }
    }
}

/// Checks the assignment `lhs = rhs;`.
pub open spec fn tc_assign(id: usize, loc: usize, lhs: ExprV, rhs: ExprV, env: Seq<Map<Seq<char>, TypeV>>, m: Map<usize, TypeV>) -> (
    Result<(), (usize, Seq<char>)>,
    StmtV,
    Seq<Map<Seq<char>, TypeV>>,
    Map<usize, TypeV>,
) {
    let (r1, l1, m1) = tc_expr(lhs, env, m);
    let s1 = StmtV::Assign { id, loc, lhs: Box::new(l1), rhs: Box::new(rhs) };
    match r1 {
        Err(err) => (Err(err), s1, env, m1),
        Ok((lt, lv)) => if !lv {
            (Err((loc, "Left hand side of assignment is not valid l-value."@)), s1, env, m1)
        } else if lt is Arr {
            (Err((loc, "Cannot assign to an entire array of type "@ + tt(lt))), s1, env, m1)
        } else if lt is Func {
            (Err((loc, "Cannot assign to a function of type "@ + tt(lt))), s1, env, m1)
        } else {
            let (r2, r_, m2) = tc_expr(rhs, env, m1);
            let s2 = StmtV::Assign { id, loc, lhs: Box::new(l1), rhs: Box::new(r_) };
            match r2 {
                Err(err) => (Err(err), s2, env, m2),
                Ok((rt, _)) => if lt == rt {
                    (Ok(()), s2, env, m2)
                } else {
                    (Err((loc, "Type mismatch in assignment: expected "@ + tt(lt) + ", got "@ + tt(rt) + "."@)), s2, env, m2)
                },
            }
        },
    }
}

/// What a statement that holds one expression requires of its type.
#[derive(Clone, Copy)]
pub enum ExprStmtKind {
    Plain,
    PrintByte,
    PrintInt,
    PrintString,
}

/// The statement of the given kind around `expr`.
pub open spec fn expr_stmt(kind: ExprStmtKind, id: usize, loc: usize, expr: ExprV) -> StmtV {
    match kind {
        ExprStmtKind::Plain => StmtV::Expr { id, loc, expr: Box::new(expr) },
        ExprStmtKind::PrintByte => StmtV::PrintByte { id, loc, expr: Box::new(expr) },
        ExprStmtKind::PrintInt => StmtV::PrintInt { id, loc, expr: Box::new(expr) },
        ExprStmtKind::PrintString => StmtV::PrintString { id, loc, expr: Box::new(expr) },
    }
}

/// The message when the expression of a statement of the given kind has type `t`, or
/// none when `t` is accepted.
pub open spec fn expr_stmt_error(kind: ExprStmtKind, t: TypeV) -> Option<Seq<char>> {
    match kind {
        ExprStmtKind::Plain => None,
        ExprStmtKind::PrintByte => if t == TypeV::Byte {
            None
        } else {
            Some("print_byte expected byte but got "@ + tt(t) + "."@)
        },
        ExprStmtKind::PrintInt => if t == TypeV::Int {
            None
        } else {
            Some("print_int expected int but got "@ + tt(t) + "."@)
        },
        ExprStmtKind::PrintString => match t {
            TypeV::Ptr(inner) | TypeV::Arr(inner, _) => if *inner == TypeV::Byte {
                None
            } else {
                Some(print_string_msg(t))
            },
            _ => Some(print_string_msg(t)),
        },
    }
}

/// Checks an expression statement or a print statement.
pub open spec fn tc_expr_stmt(kind: ExprStmtKind, id: usize, loc: usize, expr: ExprV, env: Seq<Map<Seq<char>, TypeV>>, m: Map<usize, TypeV>) -> (
    Result<(), (usize, Seq<char>)>,
    StmtV,
    Seq<Map<Seq<char>, TypeV>>,
    Map<usize, TypeV>,
) {
    let (r, e1, m1) = tc_expr(expr, env, m);
    let s1 = expr_stmt(kind, id, loc, e1);
    match r {
        Err(err) => (Err(err), s1, env, m1),
        Ok((t, _)) => match expr_stmt_error(kind, t) {
            None => (Ok(()), s1, env, m1),
            Some(msg) => (Err((loc, msg)), s1, env, m1),
        },
    }
}

/// Checks `return expr;` in a function with the given return type (none at the global
/// level).
pub open spec fn tc_return(id: usize, loc: usize, expr: ExprV, ret: Option<TypeV>, env: Seq<Map<Seq<char>, TypeV>>, m: Map<usize, TypeV>) -> (
    Result<(), (usize, Seq<char>)>,
    StmtV,
    Seq<Map<Seq<char>, TypeV>>,
    Map<usize, TypeV>,
) {
    match ret {
        None => (Err((loc, "Tried to return in global scope."@)), StmtV::Return { id, loc, expr: Box::new(expr) }, env, m),
        Some(rt) => {
            let (r, e1, m1) = tc_expr(expr, env, m);
            let s1 = StmtV::Return { id, loc, expr: Box::new(e1) };
            match r {
                Err(err) => (Err(err), s1, env, m1),
                Ok((t, _)) => if t == rt {
                    (Ok(()), s1, env, m1)
                } else {
                    (Err((loc, "Expected to return type "@ + tt(rt) + " but returned "@ + tt(t) + "."@)), s1, env, m1)
                },
            }
        },
    }
}

/// Checks a statement, in a function with the given return type (none at the global
/// level): the result, the statement afterwards, the scopes afterwards and the node
/// type map afterwards.
pub open spec fn tc_stmt(s: StmtV, ret: Option<TypeV>, env: Seq<Map<Seq<char>, TypeV>>, m: Map<usize, TypeV>) -> (
    Result<(), (usize, Seq<char>)>,
    StmtV,
    Seq<Map<Seq<char>, TypeV>>,
    Map<usize, TypeV>,
)
    decreases s,
{
    match s {
        StmtV::Declare { id, loc, typ, name } => {
            let (r, env1) = tc_declare(loc, typ, name, env);
            (r, s, env1, m)
        },
        StmtV::Define { id, loc, typ, name, rhs } => tc_define(id, loc, typ, name, *rhs, env, m),
        StmtV::Assign { id, loc, lhs, rhs } => tc_assign(id, loc, *lhs, *rhs, env, m),
        StmtV::Break { .. } | StmtV::Continue { .. } => (Ok(()), s, env, m),
        StmtV::Expr { id, loc, expr } => tc_expr_stmt(ExprStmtKind::Plain, id, loc, *expr, env, m),
        StmtV::PrintByte { id, loc, expr } => tc_expr_stmt(ExprStmtKind::PrintByte, id, loc, *expr, env, m),
        StmtV::PrintInt { id, loc, expr } => tc_expr_stmt(ExprStmtKind::PrintInt, id, loc, *expr, env, m),
        StmtV::PrintString { id, loc, expr } => tc_expr_stmt(ExprStmtKind::PrintString, id, loc, *expr, env, m),
        StmtV::Return { id, loc, expr } => tc_return(id, loc, *expr, ret, env, m),
        StmtV::If { id, loc, cond, true_arm, false_arm } => {
            let (r, c1, m1) = tc_expr(*cond, env, m);
            match r {
                Err(err) => (Err(err), StmtV::If { id, loc, cond: Box::new(c1), true_arm, false_arm }, env, m1),
                Ok((t, _)) => if t != TypeV::Bool {
                    (Err((loc, "Expected type bool for condition, but got "@ + tt(t))), StmtV::If { id, loc, cond: Box::new(c1), true_arm, false_arm }, env, m1)
                } else {
                    let (r2, t1, env2, m2) = tc_stmt(*true_arm, ret, env.push(Map::empty()), m1);
                    match r2 {
                        Err(err) => (Err(err), StmtV::If { id, loc, cond: Box::new(c1), true_arm: Box::new(t1), false_arm }, env2.drop_last(), m2),
                        Ok(()) => {
                            let (r3, f1, env3, m3) = tc_stmt(*false_arm, ret, env2.drop_last().push(Map::empty()), m2);
                            (r3, StmtV::If { id, loc, cond: Box::new(c1), true_arm: Box::new(t1), false_arm: Box::new(f1) }, env3.drop_last(), m3)
                        },
                    }
                },
            }
        },
        StmtV::While { id, loc, cond, body } => {
            let (r, c1, m1) = tc_expr(*cond, env, m);
            match r {
                Err(err) => (Err(err), StmtV::While { id, loc, cond: Box::new(c1), body }, env, m1),
                Ok((t, _)) => if t != TypeV::Bool {
                    (Err((loc, "Expected type bool for condition, but got "@ + tt(t))), StmtV::While { id, loc, cond: Box::new(c1), body }, env, m1)
                } else {
                    let (r2, b1, env2, m2) = tc_stmt(*body, ret, env.push(Map::empty()), m1);
                    (r2, StmtV::While { id, loc, cond: Box::new(c1), body: Box::new(b1) }, env2.drop_last(), m2)
                },
            }
        },
        StmtV::Block { id, loc, stmts } => {
            let (r, env1) = collect_fns(stmts, env.push(Map::empty()));
            match r {
                Err(err) => (Err(err), s, env1.drop_last(), m),
                Ok(()) => {
                    let (r2, ss, env2, m2) = tc_stmts(stmts, ret, env1, m);
                    (r2, StmtV::Block { id, loc, stmts: ss }, env2.drop_last(), m2)
                },
            }
        },
        StmtV::FnDecl { id, loc, name, args, ret_type, body } => {
            let env1 = define_params(env.push(Map::empty()), args);
            let (r, b1, env2, m1) = tc_stmt(*body, Some(ret_type), env1, m);
            (r, StmtV::FnDecl { id, loc, name, args, ret_type, body: Box::new(b1) }, env2.drop_last(), m1)
        },
    }
}

/// Checks statements one after the other, up to the first error; the statements
/// after it are left as they are.
pub open spec fn tc_stmts(ss: Seq<StmtV>, ret: Option<TypeV>, env: Seq<Map<Seq<char>, TypeV>>, m: Map<usize, TypeV>) -> (
    Result<(), (usize, Seq<char>)>,
    Seq<StmtV>,
    Seq<Map<Seq<char>, TypeV>>,
    Map<usize, TypeV>,
)
    decreases ss,
{
    if ss.len() == 0 {
        (Ok(()), seq![], env, m)
    } else {
        let (r, p, env1, m1) = tc_stmts(ss.drop_last(), ret, env, m);
        match r {
            Err(err) => (Err(err), p.push(ss.last()), env1, m1),
            Ok(()) => {
                let (r2, s2, env2, m2) = tc_stmt(ss.last(), ret, env1, m1);
                (r2, p.push(s2), env2, m2)
            },
        }
    }
}

/// Checks a whole program: the result, the program afterwards and the node type map
/// afterwards.
pub open spec fn tc_program(ss: Seq<StmtV>, m: Map<usize, TypeV>) -> (Result<(), (usize, Seq<char>)>, Seq<StmtV>, Map<usize, TypeV>) {
    let env0 = Seq::<Map<Seq<char>, TypeV>>::empty().push(Map::empty());
    let (r, env1) = collect_fns(ss, env0);
    match r {
        Err(err) => (Err(err), ss, m),
        Ok(()) => {
            let (r2, ss2, _env2, m2) = tc_stmts(ss, None, env1, m);
            (r2, ss2, m2)
        },
    }
}

proof fn lemma_env_push(scopes: Seq<Map<Seq<char>, Type>>)
    ensures
        env_model(scopes.push(Map::empty())) == env_model(scopes).push(Map::empty()),
{
    assert(Map::<Seq<char>, Type>::empty().map_values(|t: Type| t@) =~= Map::<Seq<char>, TypeV>::empty());
    assert(env_model(scopes.push(Map::empty())) =~= env_model(scopes).push(Map::empty()));
}

proof fn lemma_env_pop(scopes: Seq<Map<Seq<char>, Type>>)
    requires
        scopes.len() > 0,
    ensures
        env_model(scopes.drop_last()) == env_model(scopes).drop_last(),
{
    assert(env_model(scopes.drop_last()) =~= env_model(scopes).drop_last());
}

proof fn lemma_collect_fns_len(stmts: Seq<StmtV>, env: Seq<Map<Seq<char>, TypeV>>)
    requires
        env.len() > 0,
    ensures
        collect_fns(stmts, env).1.len() == env.len(),
    decreases stmts.len(),
{
    if stmts.len() > 0 {
        lemma_collect_fns_len(stmts.drop_last(), env);
    }
}

proof fn lemma_define_params_len(env: Seq<Map<Seq<char>, TypeV>>, args: Seq<(Seq<char>, TypeV)>)
    requires
        env.len() > 0,
    ensures
        define_params(env, args).len() == env.len(),
    decreases args.len(),
{
    if args.len() > 0 {
        lemma_define_params_len(env, args.drop_last());
    }
}

#[verifier::rlimit(60)]
proof fn lemma_tc_stmt_len(s: StmtV, ret: Option<TypeV>, env: Seq<Map<Seq<char>, TypeV>>, m: Map<usize, TypeV>)
    requires
        env.len() > 0,
    ensures
        tc_stmt(s, ret, env, m).2.len() == env.len(),
    decreases s,
{
    match s {
        StmtV::If { id, loc, cond, true_arm, false_arm } => {
            let (r, c1, m1) = tc_expr(*cond, env, m);
            lemma_tc_stmt_len(*true_arm, ret, env.push(Map::empty()), m1);
            let (r2, t1, env2, m2) = tc_stmt(*true_arm, ret, env.push(Map::empty()), m1);
            lemma_tc_stmt_len(*false_arm, ret, env2.drop_last().push(Map::empty()), m2);
        },
        StmtV::While { id, loc, cond, body } => {
            let (r, c1, m1) = tc_expr(*cond, env, m);
            lemma_tc_stmt_len(*body, ret, env.push(Map::empty()), m1);
        },
        StmtV::Block { id, loc, stmts } => {
            lemma_collect_fns_len(stmts, env.push(Map::empty()));
            let (r, env1) = collect_fns(stmts, env.push(Map::empty()));
            lemma_tc_stmts_len(stmts, ret, env1, m);
        },
        StmtV::FnDecl { id, loc, name, args, ret_type, body } => {
            lemma_define_params_len(env.push(Map::empty()), args);
            lemma_tc_stmt_len(*body, Some(ret_type), define_params(env.push(Map::empty()), args), m);
        },
        _ => {},
    }
}

proof fn lemma_tc_stmts_len(ss: Seq<StmtV>, ret: Option<TypeV>, env: Seq<Map<Seq<char>, TypeV>>, m: Map<usize, TypeV>)
    requires
        env.len() > 0,
    ensures
        tc_stmts(ss, ret, env, m).2.len() == env.len(),
    decreases ss,
{
    if ss.len() > 0 {
        lemma_tc_stmts_len(ss.drop_last(), ret, env, m);
        let (r, p, env1, m1) = tc_stmts(ss.drop_last(), ret, env, m);
        lemma_tc_stmt_len(ss.last(), ret, env1, m1);
    }
}

fn param_types(args: &Vec<(String, Type)>) -> (r: Vec<Box<Type>>)
    ensures
        typ::types_view(r@) == ast::params_view(args@).map_values(|p: (Seq<char>, TypeV)| p.1),
{
    let mut r: Vec<Box<Type>> = Vec::new();
    let mut i: usize = 0;
    while i < args.len()
        invariant
            i <= args.len(),
            typ::types_view(r@) == ast::params_view(args@).map_values(|p: (Seq<char>, TypeV)| p.1).take(i as int),
        decreases args.len() - i,
    {
        let t = args[i].1.deep_copy();
        proof {
            typ::lemma_types_view_push(r@, Box::new(t));
        }
        r.push(Box::new(t));
        i += 1;
        assert(typ::types_view(r@) =~= ast::params_view(args@).map_values(|p: (Seq<char>, TypeV)| p.1).take(i as int));
    }
    assert(ast::params_view(args@).map_values(|p: (Seq<char>, TypeV)| p.1).take(i as int) =~= ast::params_view(args@).map_values(|p: (Seq<char>, TypeV)| p.1));
    r
}

/// Declares the functions of `stmts` in the innermost scope, up to the first redeclaration.
#[verifier::rlimit(60)]
fn collect_fndecl(stmts: &Vec<Box<Stmt>>, sym_tab: &mut SymbolTable<Type>) -> (r: Result<(), Error>)
    requires
        old(sym_tab).scopes().len() > 0,
    ensures
        (unit_result_model(r), env_model(final(sym_tab).scopes())) == collect_fns(
            ast::stmts_view(stmts@),
            env_model(old(sym_tab).scopes()),
        ),
{
    let ghost ss = ast::stmts_view(stmts@);
    let ghost env0 = env_model(sym_tab.scopes());
    proof {
        ast::lemma_stmts_view(stmts@);
        assert(ss.take(0) == Seq::<StmtV>::empty());
    }
    let mut i: usize = 0;
    while i < stmts.len()
        invariant
            ss == ast::stmts_view(stmts@),
            env0 == env_model(old(sym_tab).scopes()),
            ss.len() == stmts.len(),
            forall|j: int| 0 <= j < stmts.len() ==> #[trigger] ss[j] == ast::stmt_view(*stmts@[j]),
            i <= stmts.len(),
            sym_tab.scopes().len() > 0,
            collect_fns(ss.take(i as int), env0) == (Ok::<(), (usize, Seq<char>)>(()), env_model(sym_tab.scopes())),
        decreases stmts.len() - i,
    {
        proof {
            assert(ss.take(i + 1).drop_last() == ss.take(i as int));
            assert(ss.take(i + 1).last() == ss[i as int]);
        }
        match &*stmts[i] {
            Stmt::FnDecl { id: _, loc, name, args, ret_type, body: _ } => {
                proof {
                    lemma_env_lookup(sym_tab.scopes(), name@);
                }
                match sym_tab.lookup_current_scope(name.as_str()) {
                    Some(_) => {
                        proof {
                            assert(ss[i as int] == ast::stmt_view(*stmts@[i as int]));
                            assert(symbol_table::lookup_current_in(env_model(sym_tab.scopes()), name@) is Some);
                            assert(collect_fns(ss.take(i + 1), env0).0 is Err);
                            lemma_collect_fns_err(ss, env0, i as int, ss.len() as int);
                            assert(ss.take(ss.len() as int) == ss);
                        }
                        return Err(Error::new(*loc, msg_name0("Redeclaration of function ", name.as_str())));
                    },
                    None => {},
                }
                let f_type = Type::Func { name: name.clone(), args: param_types(args), ret_type: Box::new(ret_type.deep_copy()) };
                proof {
                    lemma_env_define(sym_tab.scopes(), name@, f_type);
                }
                sym_tab.define(name.as_str(), f_type);
            },
            _ => {},
        }
        i += 1;
    }
    proof {
        assert(ss.take(stmts.len() as int) == ss);
    }
    Ok(())
}

proof fn lemma_collect_fns_err(ss: Seq<StmtV>, env: Seq<Map<Seq<char>, TypeV>>, i: int, k: int)
    requires
        0 <= i < k <= ss.len(),
        collect_fns(ss.take(i + 1), env).0 is Err,
    ensures
        collect_fns(ss.take(k), env) == collect_fns(ss.take(i + 1), env),
    decreases k,
{
    if k > i + 1 {
        lemma_collect_fns_err(ss, env, i, k - 1);
        assert(ss.take(k).drop_last() == ss.take(k - 1));
    }
}

pub open spec fn ret_view(r: Option<&Type>) -> Option<TypeV> {
    match r {
        Some(t) => Some(t@),
        None => None,
    }
}

proof fn lemma_tc_stmts_err(
    ss: Seq<StmtV>,
    ret: Option<TypeV>,
    env: Seq<Map<Seq<char>, TypeV>>,
    m: Map<usize, TypeV>,
    i: int,
    k: int,
)
    requires
        0 <= i < k <= ss.len(),
        tc_stmts(ss.take(i + 1), ret, env, m).0 is Err,
    ensures
        tc_stmts(ss.take(k), ret, env, m).0 == tc_stmts(ss.take(i + 1), ret, env, m).0,
        tc_stmts(ss.take(k), ret, env, m).1 == tc_stmts(ss.take(i + 1), ret, env, m).1 + ss.subrange(i + 1, k),
        tc_stmts(ss.take(k), ret, env, m).2 == tc_stmts(ss.take(i + 1), ret, env, m).2,
        tc_stmts(ss.take(k), ret, env, m).3 == tc_stmts(ss.take(i + 1), ret, env, m).3,
    decreases k,
{
    if k > i + 1 {
        lemma_tc_stmts_err(ss, ret, env, m, i, k - 1);
        assert(ss.take(k).drop_last() == ss.take(k - 1));
        assert(ss.take(k).last() == ss[k - 1]);
        assert(ss.subrange(i + 1, k) == ss.subrange(i + 1, k - 1).push(ss[k - 1]));
    } else {
        assert(ss.subrange(i + 1, k) == Seq::<StmtV>::empty());
    }
}

/// Checks the declaration `typ name;`.
fn type_check_declare(loc: usize, typ: &Type, name: &String, sym_tab: &mut SymbolTable<Type>) -> (r: Result<(), Error>)
    requires
        old(sym_tab).scopes().len() > 0,
    ensures
        (unit_result_model(r), env_model(final(sym_tab).scopes())) == tc_declare(loc, typ@, name@, env_model(old(sym_tab).scopes())),
{
    proof {
        lemma_env_lookup(sym_tab.scopes(), name@);
    }
    match sym_tab.lookup_current_scope(name.as_str()) {
        Some(_) => return Err(Error::new(loc, msg_name0("Redeclaration of variable ", name.as_str()))),
        None => {},
    }
    let t = typ.deep_copy();
    proof {
        lemma_env_define(sym_tab.scopes(), name@, t);
    }
    sym_tab.define(name.as_str(), t);
    Ok(())
}

/// Checks the definition `typ name = rhs;`.
fn type_check_define(
    id: usize,
    loc: usize,
    typ: &Type,
    name: &String,
    rhs: &mut Box<Expr>,
    sym_tab: &mut SymbolTable<Type>,
    ntm: &mut NodeTypeMap,
) -> (r: Result<(), Error>)
    requires
        old(sym_tab).scopes().len() > 0,
    ensures
        ({
            let out = tc_define(id, loc, typ@, name@, old(rhs)@, env_model(old(sym_tab).scopes()), ntm_model(old(ntm)@));
            &&& unit_result_model(r) == out.0
            &&& (StmtV::Define { id, loc, typ: typ@, name: name@, rhs: Box::new(final(rhs)@) }) == out.1
            &&& env_model(final(sym_tab).scopes()) == out.2
            &&& ntm_model(final(ntm)@) == out.3
        }),
{
    proof {
        lemma_env_lookup(sym_tab.scopes(), name@);
    }
    match sym_tab.lookup_current_scope(name.as_str()) {
        Some(_) => return Err(Error::new(loc, msg_name0("Redeclaration of variable ", name.as_str()))),
        None => {},
    }
    let expr_type = match type_check_expr(rhs, sym_tab, ntm) {
        Ok((t, _)) => t,
        Err(err) => return Err(err),
    };
    if expr_type.same(typ) {
        let t = typ.deep_copy();
        proof {
            lemma_env_define(sym_tab.scopes(), name@, t);
        }
        sym_tab.define(name.as_str(), t);
        Ok(())
    } else {
        let mut msg = msg_name("Variable ", name.as_str(), " expected type ");
        typ.push_text(&mut msg);
        push_str(&mut msg, " but got ");
        expr_type.push_text(&mut msg);
        push_str(&mut msg, ".");
        Err(Error::new(loc, msg))
    }
}

/// Checks the assignment `lhs = rhs;`.
fn type_check_assign(
    id: usize,
    loc: usize,
    lhs: &mut Box<Expr>,
    rhs: &mut Box<Expr>,
    sym_tab: &SymbolTable<Type>,
    ntm: &mut NodeTypeMap,
) -> (r: Result<(), Error>)
    ensures
        ({
            let out = tc_assign(id, loc, old(lhs)@, old(rhs)@, env_model(sym_tab.scopes()), ntm_model(old(ntm)@));
            &&& unit_result_model(r) == out.0
            &&& (StmtV::Assign { id, loc, lhs: Box::new(final(lhs)@), rhs: Box::new(final(rhs)@) }) == out.1
            &&& ntm_model(final(ntm)@) == out.3
        }),
{
    let (lhs_type, lhs_is_lvalue) = match type_check_expr(lhs, sym_tab, ntm) {
        Ok(t) => t,
        Err(err) => return Err(err),
    };
    if !lhs_is_lvalue {
        return Err(Error::new(loc, text::text_of("Left hand side of assignment is not valid l-value.")));
    }
    match lhs_type {
        Type::Arr(_, _) => {
            return Err(Error::new(loc, msg_t("Cannot assign to an entire array of type ", &lhs_type)));
        },
        Type::Func { .. } => {
            return Err(Error::new(loc, msg_t("Cannot assign to a function of type ", &lhs_type)));
        },
        _ => {},
    }
    let (rhs_type, _) = match type_check_expr(rhs, sym_tab, ntm) {
        Ok(t) => t,
        Err(err) => return Err(err),
    };
    if lhs_type.same(&rhs_type) {
        Ok(())
    } else {
        Err(Error::new(loc, msg_tt("Type mismatch in assignment: expected ", &lhs_type, ", got ", &rhs_type, ".")))
    }
}

/// Checks an expression statement or a print statement around `expr`.
fn type_check_expr_stmt(
    kind: ExprStmtKind,
    id: usize,
    loc: usize,
    expr: &mut Box<Expr>,
    sym_tab: &SymbolTable<Type>,
    ntm: &mut NodeTypeMap,
) -> (r: Result<(), Error>)
    ensures
        ({
            let out = tc_expr_stmt(kind, id, loc, old(expr)@, env_model(sym_tab.scopes()), ntm_model(old(ntm)@));
            &&& unit_result_model(r) == out.0
            &&& expr_stmt(kind, id, loc, final(expr)@) == out.1
            &&& ntm_model(final(ntm)@) == out.3
        }),
{
    let (expr_type, _) = match type_check_expr(expr, sym_tab, ntm) {
        Ok(t) => t,
        Err(err) => return Err(err),
    };
    match kind {
        ExprStmtKind::Plain => Ok(()),
        ExprStmtKind::PrintByte => {
            if expr_type.same(&Type::Byte) {
                Ok(())
            } else {
                let mut msg = msg_t("print_byte expected byte but got ", &expr_type);
                push_str(&mut msg, ".");
                Err(Error::new(loc, msg))
            }
        },
        ExprStmtKind::PrintInt => {
            if expr_type.same(&Type::Int) {
                Ok(())
            } else {
                let mut msg = msg_t("print_int expected int but got ", &expr_type);
                push_str(&mut msg, ".");
                Err(Error::new(loc, msg))
            }
        },
        ExprStmtKind::PrintString => {
            let ok = match &expr_type {
                Type::Ptr(t) => t.same(&Type::Byte),
                Type::Arr(t, _) => t.same(&Type::Byte),
                _ => false,
            };
            if ok {
                Ok(())
            } else {
                let mut msg = msg_t("print_string expected ptr<byte> but got ", &expr_type);
                push_str(&mut msg, ".");
                Err(Error::new(loc, msg))
            }
        },
    }
}

/// Checks `return expr;` against the return type of the enclosing function.
fn type_check_return(
    id: usize,
    loc: usize,
    expr: &mut Box<Expr>,
    return_type: Option<&Type>,
    sym_tab: &SymbolTable<Type>,
    ntm: &mut NodeTypeMap,
) -> (r: Result<(), Error>)
    ensures
        ({
            let out = tc_return(id, loc, old(expr)@, ret_view(return_type), env_model(sym_tab.scopes()), ntm_model(old(ntm)@));
            &&& unit_result_model(r) == out.0
            &&& (StmtV::Return { id, loc, expr: Box::new(final(expr)@) }) == out.1
            &&& ntm_model(final(ntm)@) == out.3
        }),
{
    let ret_type = match return_type {
        Some(t) => t,
        None => return Err(Error::new(loc, text::text_of("Tried to return in global scope."))),
    };
    match type_check_expr(expr, sym_tab, ntm) {
        Err(err) => Err(err),
        Ok((t, _)) => {
            if t.same(ret_type) {
                Ok(())
            } else {
                Err(Error::new(loc, msg_tt("Expected to return type ", ret_type, " but returned ", &t, ".")))
            }
        },
    }
}

#[verifier::rlimit(40)]
fn type_check_stmt(
    stmt: &mut Box<Stmt>,
    return_type: Option<&Type>,
    sym_tab: &mut SymbolTable<Type>,
    ntm: &mut NodeTypeMap,
) -> (r: Result<(), Error>)
    requires
        old(sym_tab).scopes().len() > 0,
    ensures
        (unit_result_model(r), final(stmt)@, env_model(final(sym_tab).scopes()), ntm_model(final(ntm)@)) == tc_stmt(
            old(stmt)@,
            ret_view(return_type),
            env_model(old(sym_tab).scopes()),
            ntm_model(old(ntm)@),
        ),
    decreases ast::stmt_size(old(stmt)@), 1nat,
{
    match &**stmt {
        Stmt::Break { .. } | Stmt::Continue { .. } => return Ok(()),
        _ => {},
    }
    match &mut **stmt {
        Stmt::Declare { id: _, loc, typ, name } => type_check_declare(*loc, typ, name, sym_tab),
        Stmt::Define { id, loc, typ, name, rhs } => type_check_define(*id, *loc, typ, name, rhs, sym_tab, ntm),
        Stmt::Assign { id, loc, lhs, rhs } => type_check_assign(*id, *loc, lhs, rhs, sym_tab, ntm),
        Stmt::Break { id: _, loc: _ } => Ok(()),
        Stmt::Continue { id: _, loc: _ } => Ok(()),
        Stmt::Expr { id, loc, expr } => type_check_expr_stmt(ExprStmtKind::Plain, *id, *loc, expr, sym_tab, ntm),
        Stmt::PrintByte { id, loc, expr } => type_check_expr_stmt(ExprStmtKind::PrintByte, *id, *loc, expr, sym_tab, ntm),
        Stmt::PrintInt { id, loc, expr } => type_check_expr_stmt(ExprStmtKind::PrintInt, *id, *loc, expr, sym_tab, ntm),
        Stmt::PrintString { id, loc, expr } => type_check_expr_stmt(ExprStmtKind::PrintString, *id, *loc, expr, sym_tab, ntm),
        Stmt::Return { id, loc, expr } => type_check_return(*id, *loc, expr, return_type, sym_tab, ntm),
        Stmt::If { id, loc, cond, true_arm, false_arm } => {
            type_check_if(*id, *loc, cond, true_arm, false_arm, return_type, sym_tab, ntm)
        },
        Stmt::While { id, loc, cond, body } => {
            type_check_while(*id, *loc, cond, body, return_type, sym_tab, ntm)
        },
        Stmt::Block { id, loc, stmts } => {
            type_check_block(*id, *loc, stmts, return_type, sym_tab, ntm)
        },
        Stmt::FnDecl { id, loc, name, args, ret_type, body } => {
            type_check_fndecl(*id, *loc, name, args, ret_type, body, sym_tab, ntm)
        },
    }
}

#[verifier::rlimit(40)]
fn type_check_if(
    id: usize,
    loc: usize,
    cond: &mut Box<Expr>,
    true_arm: &mut Box<Stmt>,
    false_arm: &mut Box<Stmt>,
    return_type: Option<&Type>,
    sym_tab: &mut SymbolTable<Type>,
    ntm: &mut NodeTypeMap,
) -> (r: Result<(), Error>)
    requires
        old(sym_tab).scopes().len() > 0,
    ensures
        ({
            let s0 = StmtV::If { id, loc, cond: Box::new(old(cond)@), true_arm: Box::new(old(true_arm)@), false_arm: Box::new(old(false_arm)@) };
            let s1 = StmtV::If { id, loc, cond: Box::new(final(cond)@), true_arm: Box::new(final(true_arm)@), false_arm: Box::new(final(false_arm)@) };
            (unit_result_model(r), s1, env_model(final(sym_tab).scopes()), ntm_model(final(ntm)@))
                == tc_stmt(s0, ret_view(return_type), env_model(old(sym_tab).scopes()), ntm_model(old(ntm)@))
        }),
    decreases 1 + ast::expr_size(old(cond)@) + ast::stmt_size(old(true_arm)@) + ast::stmt_size(old(false_arm)@), 0nat,
{
    match type_check_expr(cond, sym_tab, ntm) {
        Ok((t, _)) => {
            if !t.same(&Type::Bool) {
                return Err(Error::new(loc, msg_t("Expected type bool for condition, but got ", &t)));
            }
        },
        Err(err) => return Err(err),
    }
    let ghost e1 = sym_tab.scopes();
    proof {
        lemma_env_push(sym_tab.scopes());
    }
    sym_tab.push();
    let ghost e2 = sym_tab.scopes();
    let ghost m1 = ntm_model(ntm@);
    let r1 = type_check_stmt(true_arm, return_type, sym_tab, ntm);
    proof {
        lemma_tc_stmt_len(old(true_arm)@, ret_view(return_type), env_model(e2), m1);
        lemma_env_pop(sym_tab.scopes());
    }
    match r1 {
        Ok(()) => {},
        Err(err) => {
            sym_tab.pop();
            return Err(err);
        },
    }
    sym_tab.pop();
    proof {
        lemma_env_push(sym_tab.scopes());
    }
    sym_tab.push();
    let ghost e3 = sym_tab.scopes();
    let ghost m2 = ntm_model(ntm@);
    let r2 = type_check_stmt(false_arm, return_type, sym_tab, ntm);
    proof {
        lemma_tc_stmt_len(old(false_arm)@, ret_view(return_type), env_model(e3), m2);
        lemma_env_pop(sym_tab.scopes());
    }
    match r2 {
        Ok(()) => {},
        Err(err) => {
            sym_tab.pop();
            return Err(err);
        },
    }
    sym_tab.pop();
    Ok(())
}

#[verifier::rlimit(40)]
fn type_check_while(
    id: usize,
    loc: usize,
    cond: &mut Box<Expr>,
    body: &mut Box<Stmt>,
    return_type: Option<&Type>,
    sym_tab: &mut SymbolTable<Type>,
    ntm: &mut NodeTypeMap,
) -> (r: Result<(), Error>)
    requires
        old(sym_tab).scopes().len() > 0,
    ensures
        ({
            let s0 = StmtV::While { id, loc, cond: Box::new(old(cond)@), body: Box::new(old(body)@) };
            let s1 = StmtV::While { id, loc, cond: Box::new(final(cond)@), body: Box::new(final(body)@) };
            (unit_result_model(r), s1, env_model(final(sym_tab).scopes()), ntm_model(final(ntm)@))
                == tc_stmt(s0, ret_view(return_type), env_model(old(sym_tab).scopes()), ntm_model(old(ntm)@))
        }),
    decreases 1 + ast::expr_size(old(cond)@) + ast::stmt_size(old(body)@), 0nat,
{
    match type_check_expr(cond, sym_tab, ntm) {
        Ok((t, _)) => {
            if !t.same(&Type::Bool) {
                return Err(Error::new(loc, msg_t("Expected type bool for condition, but got ", &t)));
            }
        },
        Err(err) => return Err(err),
    }
    proof {
        lemma_env_push(sym_tab.scopes());
    }
    sym_tab.push();
    let ghost e2 = sym_tab.scopes();
    let ghost m1 = ntm_model(ntm@);
    let r1 = type_check_stmt(body, return_type, sym_tab, ntm);
    proof {
        lemma_tc_stmt_len(old(body)@, ret_view(return_type), env_model(e2), m1);
        lemma_env_pop(sym_tab.scopes());
    }
    match r1 {
        Ok(()) => {},
        Err(err) => {
            sym_tab.pop();
            return Err(err);
        },
    }
    sym_tab.pop();
    Ok(())
}

#[verifier::rlimit(40)]
fn type_check_block(
    id: usize,
    loc: usize,
    stmts: &mut Vec<Box<Stmt>>,
    return_type: Option<&Type>,
    sym_tab: &mut SymbolTable<Type>,
    ntm: &mut NodeTypeMap,
) -> (r: Result<(), Error>)
    requires
        old(sym_tab).scopes().len() > 0,
    ensures
        ({
            let s0 = StmtV::Block { id, loc, stmts: ast::stmts_view(old(stmts)@) };
            let s1 = StmtV::Block { id, loc, stmts: ast::stmts_view(final(stmts)@) };
            (unit_result_model(r), s1, env_model(final(sym_tab).scopes()), ntm_model(final(ntm)@))
                == tc_stmt(s0, ret_view(return_type), env_model(old(sym_tab).scopes()), ntm_model(old(ntm)@))
        }),
    decreases 1 + ast::stmts_size(ast::stmts_view(old(stmts)@)), 0nat,
{
    proof {
        lemma_env_push(sym_tab.scopes());
    }
    sym_tab.push();
    let ghost env1 = env_model(sym_tab.scopes());
    match collect_fndecl(stmts, sym_tab) {
        Ok(()) => {},
        Err(err) => {
            proof {
                lemma_collect_fns_len(ast::stmts_view(stmts@), env1);
                lemma_env_pop(sym_tab.scopes());
            }
            sym_tab.pop();
            return Err(err);
        },
    }
    proof {
        lemma_collect_fns_len(ast::stmts_view(stmts@), env1);
    }
    let ghost ss = ast::stmts_view(stmts@);
    let ghost env2 = env_model(sym_tab.scopes());
    let ghost m0 = ntm_model(ntm@);
    proof {
        ast::lemma_stmts_view(stmts@);
        assert(ss.take(0) == Seq::<StmtV>::empty());
        assert(stmts@.take(0) == Seq::<Box<Stmt>>::empty());
        assert(ast::stmts_view(stmts@.take(0)) == Seq::<StmtV>::empty());
    }
    let mut i: usize = 0;
    while i < stmts.len()
        invariant
            ss == ast::stmts_view(old(stmts)@),
            m0 == ntm_model(old(ntm)@),
            collect_fns(ss, env_model(old(sym_tab).scopes()).push(Map::empty())) == (Ok::<(), (usize, Seq<char>)>(()), env2),
            i <= stmts.len(),
            ss.len() == stmts.len(),
            ast::stmts_view(stmts@).len() == stmts.len(),
            forall|j: int| i <= j < stmts.len() ==> #[trigger] ast::stmt_view(*stmts@[j]) == ss[j],
            forall|j: int| 0 <= j < stmts.len() ==> #[trigger] ast::stmts_view(stmts@)[j] == ast::stmt_view(*stmts@[j]),
            sym_tab.scopes().len() == env2.len(),
            env2.len() > 1,
            tc_stmts(ss.take(i as int), ret_view(return_type), env2, m0) == (
                Ok::<(), (usize, Seq<char>)>(()),
                ast::stmts_view(stmts@.take(i as int)),
                env_model(sym_tab.scopes()),
                ntm_model(ntm@),
            ),
        decreases stmts.len() - i,
    {
        proof {
            ast::lemma_stmts_size(ss, i as int);
            assert(ss.take(i + 1).drop_last() == ss.take(i as int));
            assert(ss.take(i + 1).last() == ss[i as int]);
        }
        let ghost before = stmts@;
        assert(ast::stmt_view(*stmts@[i as int]) == ss[i as int]);
        let r = type_check_stmt(&mut stmts[i], return_type, sym_tab, ntm);
        proof {
            ast::lemma_stmts_view(stmts@);
            assert(stmts@.take(i + 1).drop_last() == before.take(i as int));
            assert(stmts@.take(i + 1) == before.take(i as int).push(stmts@[i as int]));
            lemma_tc_stmt_len(ss[i as int], ret_view(return_type), tc_stmts(ss.take(i as int), ret_view(return_type), env2, m0).2, tc_stmts(ss.take(i as int), ret_view(return_type), env2, m0).3);
        }
        match r {
            Ok(()) => {},
            Err(err) => {
                proof {
                    lemma_tc_stmts_err(ss, ret_view(return_type), env2, m0, i as int, ss.len() as int);
                    assert(ss.take(ss.len() as int) == ss);
                    assert(ast::stmts_view(stmts@) == ast::stmts_view(stmts@.take(i + 1)) + ss.subrange(i + 1, ss.len() as int)) by {
                        ast::lemma_stmts_view(stmts@.take(i + 1));
                        assert(ast::stmts_view(stmts@) =~= ast::stmts_view(stmts@.take(i + 1)) + ss.subrange(i + 1, ss.len() as int));
                    }
                    lemma_env_pop(sym_tab.scopes());
                }
                sym_tab.pop();
                return Err(err);
            },
        }
        i += 1;
    }
    proof {
        assert(ss.take(stmts.len() as int) == ss);
        assert(stmts@.take(stmts.len() as int) == stmts@);
        lemma_env_pop(sym_tab.scopes());
    }
    sym_tab.pop();
    Ok(())
}

#[verifier::rlimit(40)]
fn type_check_fndecl(
    id: usize,
    loc: usize,
    name: &String,
    args: &Vec<(String, Type)>,
    ret_type: &Type,
    body: &mut Box<Stmt>,
    sym_tab: &mut SymbolTable<Type>,
    ntm: &mut NodeTypeMap,
) -> (r: Result<(), Error>)
    requires
        old(sym_tab).scopes().len() > 0,
    ensures
        ({
            let s0 = StmtV::FnDecl { id, loc, name: name@, args: ast::params_view(args@), ret_type: ret_type@, body: Box::new(old(body)@) };
            let s1 = StmtV::FnDecl { id, loc, name: name@, args: ast::params_view(args@), ret_type: ret_type@, body: Box::new(final(body)@) };
            (unit_result_model(r), s1, env_model(final(sym_tab).scopes()), ntm_model(final(ntm)@))
                == tc_stmt(s0, None, env_model(old(sym_tab).scopes()), ntm_model(old(ntm)@))
        }),
    decreases 1 + ast::stmt_size(old(body)@), 0nat,
{
    let ghost pv = ast::params_view(args@);
    proof {
        lemma_env_push(sym_tab.scopes());
    }
    sym_tab.push();
    let ghost env1 = env_model(sym_tab.scopes());
    let mut i: usize = 0;
    proof {
        assert(pv.take(0) == Seq::<(Seq<char>, TypeV)>::empty());
    }
    while i < args.len()
        invariant
            pv == ast::params_view(args@),
            pv.len() == args.len(),
            i <= args.len(),
            env1.len() > 0,
            sym_tab.scopes().len() > 0,
            env_model(sym_tab.scopes()) == define_params(env1, pv.take(i as int)),
        decreases args.len() - i,
    {
        let t = args[i].1.deep_copy();
        proof {
            lemma_env_define(sym_tab.scopes(), args@[i as int].0@, t);
            assert(pv.take(i + 1).drop_last() == pv.take(i as int));
            assert(pv.take(i + 1).last() == pv[i as int]);
        }
        sym_tab.define(args[i].0.as_str(), t);
        i += 1;
    }
    proof {
        assert(pv.take(args.len() as int) == pv);
        lemma_define_params_len(env1, pv);
    }
    let ghost m1 = ntm_model(ntm@);
    let r1 = type_check_stmt(body, Some(ret_type), sym_tab, ntm);
    proof {
        lemma_tc_stmt_len(old(body)@, Some(ret_type@), define_params(env1, pv), m1);
        lemma_env_pop(sym_tab.scopes());
    }
    match r1 {
        Ok(()) => {},
        Err(err) => {
            sym_tab.pop();
            return Err(err);
        },
    }
    sym_tab.pop();
    Ok(())
}

/// Checks the types of a program. Each expression node gets its type in `ntm`, under
/// its id, and each call gets its return type; at the first error, checking stops and
/// the error is returned.
pub fn type_check(stmts: &mut Vec<Box<Stmt>>, ntm: &mut NodeTypeMap) -> (r: Result<(), Error>)
    ensures
        (unit_result_model(r), ast::stmts_view(final(stmts)@), ntm_model(final(ntm)@)) == tc_program(
            ast::stmts_view(old(stmts)@),
            ntm_model(old(ntm)@),
        ),
{
    let mut sym_tab: SymbolTable<Type> = SymbolTable::new();
    proof {
        lemma_env_push(sym_tab.scopes());
        assert(env_model(sym_tab.scopes()) =~= Seq::<Map<Seq<char>, TypeV>>::empty());
    }
    sym_tab.push();
    match collect_fndecl(stmts, &mut sym_tab) {
        Ok(()) => {},
        Err(err) => return Err(err),
    }
    let ghost ss = ast::stmts_view(stmts@);
    let ghost env2 = env_model(sym_tab.scopes());
    let ghost m0 = ntm_model(ntm@);
    proof {
        lemma_collect_fns_len(ss, Seq::<Map<Seq<char>, TypeV>>::empty().push(Map::empty()));
        ast::lemma_stmts_view(stmts@);
        assert(ss.take(0) == Seq::<StmtV>::empty());
        assert(stmts@.take(0) == Seq::<Box<Stmt>>::empty());
        assert(ast::stmts_view(stmts@.take(0)) == Seq::<StmtV>::empty());
    }
    let mut i: usize = 0;
    while i < stmts.len()
        invariant
            ss == ast::stmts_view(old(stmts)@),
            m0 == ntm_model(old(ntm)@),
            collect_fns(ss, Seq::<Map<Seq<char>, TypeV>>::empty().push(Map::empty())) == (Ok::<(), (usize, Seq<char>)>(()), env2),
            i <= stmts.len(),
            ss.len() == stmts.len(),
            ast::stmts_view(stmts@).len() == stmts.len(),
            forall|j: int| i <= j < stmts.len() ==> #[trigger] ast::stmt_view(*stmts@[j]) == ss[j],
            forall|j: int| 0 <= j < stmts.len() ==> #[trigger] ast::stmts_view(stmts@)[j] == ast::stmt_view(*stmts@[j]),
            sym_tab.scopes().len() == env2.len(),
            env2.len() > 0,
            tc_stmts(ss.take(i as int), None, env2, m0) == (
                Ok::<(), (usize, Seq<char>)>(()),
                ast::stmts_view(stmts@.take(i as int)),
                env_model(sym_tab.scopes()),
                ntm_model(ntm@),
            ),
        decreases stmts.len() - i,
    {
        proof {
            assert(ss.take(i + 1).drop_last() == ss.take(i as int));
            assert(ss.take(i + 1).last() == ss[i as int]);
        }
        let ghost before = stmts@;
        assert(ast::stmt_view(*stmts@[i as int]) == ss[i as int]);
        let r = type_check_stmt(&mut stmts[i], None, &mut sym_tab, ntm);
        proof {
            ast::lemma_stmts_view(stmts@);
            assert(stmts@.take(i + 1).drop_last() == before.take(i as int));
            assert(stmts@.take(i + 1) == before.take(i as int).push(stmts@[i as int]));
            lemma_tc_stmt_len(ss[i as int], None, tc_stmts(ss.take(i as int), None, env2, m0).2, tc_stmts(ss.take(i as int), None, env2, m0).3);
        }
        match r {
            Ok(()) => {},
            Err(err) => {
                proof {
                    lemma_tc_stmts_err(ss, None, env2, m0, i as int, ss.len() as int);
                    assert(ss.take(ss.len() as int) == ss);
                    assert(ast::stmts_view(stmts@) == ast::stmts_view(stmts@.take(i + 1)) + ss.subrange(i + 1, ss.len() as int)) by {
                        ast::lemma_stmts_view(stmts@.take(i + 1));
                        assert(ast::stmts_view(stmts@) =~= ast::stmts_view(stmts@.take(i + 1)) + ss.subrange(i + 1, ss.len() as int));
                    }
                }
                return Err(err);
            },
        }
        i += 1;
    }
    proof {
        assert(ss.take(stmts.len() as int) == ss);
        assert(stmts@.take(stmts.len() as int) == stmts@);
    }
    sym_tab.pop();
    Ok(())
}


/// Whether an operator compares its operands.
pub open spec fn is_comparison(op: BinaryOperator) -> bool {
    op is Lt || op is Leq || op is Gt || op is Geq || op is Eq || op is Neq
}

/// A comparison has type `bool`: where its operands check with the same type, it checks
/// too, as a `bool` value that is no l-value, and records `bool` for its node; and
/// whenever it checks, its type is `bool`.
pub proof fn law_comparison_is_bool(
    id: usize,
    loc: usize,
    left: ExprV,
    op: BinaryOperator,
    right: ExprV,
    env: Seq<Map<Seq<char>, TypeV>>,
    m: Map<usize, TypeV>,
)
    requires
        is_comparison(op),
    ensures
        ({
            let e = ExprV::BinOp { id, loc, left: Box::new(left), operator: op, right: Box::new(right) };
            let (r1, _, m1) = tc_expr(left, env, m);
            let (r2, _, m2) = tc_expr(right, env, m1);
            &&& (r1 matches Ok((lt, _)) && r2 matches Ok((rt, _)) && lt == rt) ==> tc_expr(e, env, m).0 == Ok::<
                (TypeV, bool),
                (usize, Seq<char>),
            >((TypeV::Bool, false)) && tc_expr(e, env, m).2 == m2.insert(id, TypeV::Bool)
            &&& tc_expr(e, env, m).0 matches Ok((t, _)) ==> t == TypeV::Bool
        }),
{
}

} // verus!
