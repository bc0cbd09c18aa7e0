//! Translation of a checked program into the intermediate representation.
//!
//! The translation of each construct is stated by a spec function over the models. Its
//! result is `None` on the inputs on which translation cannot go on: a node without a
//! type, a variable without a register, an operand that has no address, a function
//! type where a value is needed, a size that does not fit in 32 bits, or a counter of
//! fresh names that is exhausted.
use vstd::prelude::*;
use std::collections::HashMap;
use crate::Error;
use crate::ast;
use crate::ast::{BinaryOperator, Expr, ExprV, Stmt, StmtV, UnaryOperator};
use crate::ir;
use crate::ir::{BinaryOp, BuilderV, IRBuilder, Instr, InstrV, Lbl, LblV, Operand, OperandV, Size, UnaryOp};
use crate::jump_context::JumpContext;
use crate::symbol_table;
use crate::symbol_table::SymbolTable;
use crate::type_check;
use crate::typ::{Type, TypeV};
use crate::value::Val;

verus! {

broadcast use vstd::std_specs::hash::group_hash_axioms;

/// The model of the scopes of a symbol table of registers.
pub open spec fn reg_env(scopes: Seq<Map<Seq<char>, String>>) -> Seq<Map<Seq<char>, Seq<char>>> {
    scopes.map_values(|m: Map<Seq<char>, String>| m.map_values(|s: String| s@))
}

pub(crate) proof fn lemma_reg_env_lookup(scopes: Seq<Map<Seq<char>, String>>, name: Seq<char>)
    ensures
        symbol_table::lookup_in(reg_env(scopes), name) == match symbol_table::lookup_in(scopes, name) {
            Some(s) => Some(s@),
            None => None::<Seq<char>>,
        },
    decreases scopes.len(),
{
    if scopes.len() > 0 {
        assert(reg_env(scopes).drop_last() == reg_env(scopes.drop_last()));
        lemma_reg_env_lookup(scopes.drop_last(), name);
    }
}

pub(crate) proof fn lemma_reg_env_define(scopes: Seq<Map<Seq<char>, String>>, name: Seq<char>, s: String)
    requires
        scopes.len() > 0,
    ensures
        reg_env(symbol_table::define_in(scopes, name, s)) == symbol_table::define_in(reg_env(scopes), name, s@),
{
    assert forall|i: int| 0 <= i < scopes.len() implies reg_env(symbol_table::define_in(scopes, name, s))[i]
        == symbol_table::define_in(reg_env(scopes), name, s@)[i] by {
        if i == scopes.len() - 1 {
            assert(reg_env(symbol_table::define_in(scopes, name, s))[i] =~= symbol_table::define_in(
                reg_env(scopes),
                name,
                s@,
            )[i]);
        }
    }
    assert(reg_env(symbol_table::define_in(scopes, name, s)) =~= symbol_table::define_in(reg_env(scopes), name, s@));
}

pub(crate) proof fn lemma_reg_env_push(scopes: Seq<Map<Seq<char>, String>>)
    ensures
        reg_env(scopes.push(Map::empty())) == reg_env(scopes).push(Map::empty()),
{
    assert(Map::<Seq<char>, String>::empty().map_values(|s: String| s@) =~= Map::<Seq<char>, Seq<char>>::empty());
    assert(reg_env(scopes.push(Map::empty())) =~= reg_env(scopes).push(Map::empty()));
}

pub(crate) proof fn lemma_reg_env_pop(scopes: Seq<Map<Seq<char>, String>>)
    requires
        scopes.len() > 0,
    ensures
        reg_env(scopes.drop_last()) == reg_env(scopes).drop_last(),
{
    assert(reg_env(scopes.drop_last()) =~= reg_env(scopes).drop_last());
}

/// The width of a load or store of a value of type `t`; none for a function.
pub open spec fn size_kind(t: TypeV) -> Option<Size> {
    match t {
        TypeV::Arr(_, _) | TypeV::Ptr(_) => Some(Size::Long),
        TypeV::Bool | TypeV::Byte => Some(Size::Byte),
        TypeV::Int => Some(Size::Word),
        TypeV::Func { .. } => None,
    }
}

/// The number of bytes of a value of type `t`, as a 32-bit integer (the length of an
/// array taken modulo 2^32 as a signed number). `None` for a function, which has no
/// size, and where the product leaves the range of `i32`: translation cannot go on
/// there, and stops with `None` (the compiler panics on such a type).
pub open spec fn byte_size(t: TypeV) -> Option<i32>
    decreases t,
{
    match t {
        TypeV::Arr(inner, n) => match byte_size(*inner) {
            Some(s) => {
                let p = (n as i32) * s;
                if i32::MIN <= p <= i32::MAX {
                    Some(p as i32)
                } else {
                    None
                }
            },
            None => None,
        },
        TypeV::Ptr(_) => Some(8),
        TypeV::Int => Some(4),
        TypeV::Bool | TypeV::Byte => Some(1),
        TypeV::Func { .. } => None,
    }
}

/// The type that a pointer or an array points into.
pub open spec fn pointee(t: TypeV) -> Option<TypeV> {
    match t {
        TypeV::Arr(inner, _) | TypeV::Ptr(inner) => Some(*inner),
        _ => None,
    }
}

/// A literal as a 32-bit integer: `true` is 1 and `false` is 0.
pub open spec fn val_i32(v: Val) -> i32 {
    match v {
        Val::Bool(b) => if b {
            1
        } else {
            0
        },
        Val::Byte(x) => x as i32,
        Val::Int(x) => x,
    }
}

/// The IR operator of an arithmetic or comparison operator; none for `&&` and `||`,
/// which become jumps.
pub open spec fn binop_ir(op: BinaryOperator) -> Option<BinaryOp> {
    match op {
        BinaryOperator::Add => Some(BinaryOp::Add),
        BinaryOperator::Sub => Some(BinaryOp::Sub),
        BinaryOperator::Mul => Some(BinaryOp::Mul),
        BinaryOperator::Div => Some(BinaryOp::Div),
        BinaryOperator::Lt => Some(BinaryOp::Lt),
        BinaryOperator::Leq => Some(BinaryOp::Leq),
        BinaryOperator::Gt => Some(BinaryOp::Gt),
        BinaryOperator::Geq => Some(BinaryOp::Geq),
        BinaryOperator::Eq => Some(BinaryOp::Eq),
        BinaryOperator::Neq => Some(BinaryOp::Neq),
        BinaryOperator::And | BinaryOperator::Or => None,
    }
}

pub open spec fn unop_ir(op: UnaryOperator) -> UnaryOp {
    match op {
        UnaryOperator::Neg => UnaryOp::Neg,
        UnaryOperator::Not => UnaryOp::Not,
        UnaryOperator::Pos => UnaryOp::Pos,
    }
}

/// A fresh register, and the builder afterwards; none when the counter is exhausted.
pub open spec fn fresh_reg(b: BuilderV) -> Option<(Seq<char>, BuilderV)> {
    if b.regs < usize::MAX {
        Some((ir::reg_name(b.regs), BuilderV { regs: b.regs + 1, ..b }))
    } else {
        None
    }
}

/// A fresh label, and the builder afterwards; none when the counter is exhausted.
pub open spec fn fresh_label(b: BuilderV) -> Option<(Seq<char>, BuilderV)> {
    if b.labels < usize::MAX {
        Some((ir::label_name(b.labels), BuilderV { labels: b.labels + 1, ..b }))
    } else {
        None
    }
}

/// The builder with one more instruction.
pub open spec fn emit(b: BuilderV, i: InstrV) -> BuilderV {
    BuilderV { instrs: b.instrs.push(i), ..b }
}

pub open spec fn reg(r: Seq<char>) -> OperandV {
    OperandV::Reg(r)
}

pub open spec fn name(l: Seq<char>) -> LblV {
    LblV::Name(l)
}

/// `base op (idx * size of inner)`: the address arithmetic of pointers and arrays.
pub open spec fn tr_scaled(base: Seq<char>, idx: Seq<char>, inner: TypeV, op: BinaryOp, b: BuilderV) -> Option<(Seq<char>, BuilderV)> {
    match byte_size(inner) {
        None => None,
        Some(f) => match fresh_reg(b) {
            None => None,
            Some((scaled, b1)) => match fresh_reg(b1) {
                None => None,
                Some((r, b2)) => Some((
                    r,
                    emit(
                        emit(b2, InstrV::BinOp { dest: scaled, left: reg(idx), operator: BinaryOp::Mul, right: OperandV::Imm(f) }),
                        InstrV::BinOp { dest: r, left: reg(base), operator: op, right: reg(scaled) },
                    ),
                )),
            },
        },
    }
}

/// `r1 op r2` into a fresh register.
pub open spec fn tr_plain(op: BinaryOp, r1: Seq<char>, r2: Seq<char>, b: BuilderV) -> Option<(Seq<char>, BuilderV)> {
    match fresh_reg(b) {
        None => None,
        Some((r3, b1)) => Some((r3, emit(b1, InstrV::BinOp { dest: r3, left: reg(r1), operator: op, right: reg(r2) }))),
    }
}

/// The difference of two pointers, in elements: `(r1 - r2) / size of inner`.
pub open spec fn tr_ptr_diff(r1: Seq<char>, r2: Seq<char>, inner: TypeV, b: BuilderV) -> Option<(Seq<char>, BuilderV)> {
    match fresh_reg(b) {
        None => None,
        Some((r3, b1)) => {
            let b2 = emit(b1, InstrV::BinOp { dest: r3, left: reg(r1), operator: BinaryOp::Sub, right: reg(r2) });
            match byte_size(inner) {
                None => None,
                Some(f) => match fresh_reg(b2) {
                    None => None,
                    Some((r4, b3)) => Some((r4, emit(b3, InstrV::BinOp { dest: r4, left: reg(r3), operator: BinaryOp::Div, right: OperandV::Imm(f) }))),
                },
            }
        },
    }
}

/// The code of an arithmetic or comparison operator, once both operands are in `r1` and
/// `r2`; `lid` and `rid` are the ids of the operands, which give their types.
pub open spec fn tr_arith(
    op: BinaryOperator,
    r1: Seq<char>,
    r2: Seq<char>,
    lid: usize,
    rid: usize,
    ntm: Map<usize, TypeV>,
    b: BuilderV,
) -> Option<(Seq<char>, BuilderV)> {
    match op {
        BinaryOperator::Add => if !ntm.contains_key(lid) || !ntm.contains_key(rid) {
            None
        } else if ntm[rid] == TypeV::Int && pointee(ntm[lid]) is Some {
            tr_scaled(r1, r2, pointee(ntm[lid])->0, BinaryOp::Add, b)
        } else if ntm[lid] == TypeV::Int && pointee(ntm[rid]) is Some {
            tr_scaled(r2, r1, pointee(ntm[rid])->0, BinaryOp::Add, b)
        } else {
            tr_plain(BinaryOp::Add, r1, r2, b)
        },
        BinaryOperator::Sub => if !ntm.contains_key(lid) || !ntm.contains_key(rid) {
            None
        } else if ntm[rid] == TypeV::Int && pointee(ntm[lid]) is Some {
            tr_scaled(r1, r2, pointee(ntm[lid])->0, BinaryOp::Sub, b)
        } else if ntm[lid] is Ptr && ntm[rid] is Ptr {
            tr_ptr_diff(r1, r2, pointee(ntm[lid])->0, b)
        } else {
            tr_plain(BinaryOp::Sub, r1, r2, b)
        },
        _ => match binop_ir(op) {
            None => None,
            Some(ir_op) => tr_plain(ir_op, r1, r2, b),
        },
    }
}

/// The jump that skips the right operand of `&&` (when the left one is false) or of
/// `||` (when it is true).
pub open spec fn short_circuit(op: BinaryOperator, r1: Seq<char>, l: Seq<char>) -> InstrV {
    if op is And {
        InstrV::GotoIfFalse { cond: reg(r1), dest: name(l) }
    } else {
        InstrV::GotoIf { cond: reg(r1), dest: name(l) }
    }
}

/// The code that computes the value of an expression, and the register that holds it.
pub open spec fn tr_rvalue(
    e: ExprV,
    env: Seq<Map<Seq<char>, Seq<char>>>,
    ntm: Map<usize, TypeV>,
    b: BuilderV,
) -> Option<(Seq<char>, BuilderV)>
    decreases e, 1nat,
{
    match e {
        ExprV::Var { id, .. } | ExprV::Deref { id, .. } | ExprV::Subscr { id, .. } => if !ntm.contains_key(id) {
            None
        } else {
            match tr_lvalue(e, env, ntm, b) {
                None => None,
                Some((addr, b1)) => if ntm[id] is Arr {
                    Some((addr, b1))
                } else {
                    match size_kind(ntm[id]) {
                        None => None,
                        Some(sz) => match fresh_reg(b1) {
                            None => None,
                            Some((r, b2)) => Some((r, emit(b2, InstrV::Load { size: sz, dest: r, src: addr }))),
                        },
                    }
                },
            }
        },
        ExprV::Const { val, .. } => match fresh_reg(b) {
            None => None,
            Some((r, b1)) => Some((r, emit(b1, InstrV::Move { dest: r, src: OperandV::Imm(val_i32(val)) }))),
        },
        ExprV::AddrOf { operand, .. } => tr_lvalue(*operand, env, ntm, b),
        ExprV::BinOp { left, operator, right, .. } => if operator is And || operator is Or {
            match fresh_label(b) {
                None => None,
                Some((l_short, b1)) => match fresh_label(b1) {
                    None => None,
                    Some((l_end, b2)) => match fresh_reg(b2) {
                        None => None,
                        Some((r3, b3)) => match tr_rvalue(*left, env, ntm, b3) {
                            None => None,
                            Some((r1, b4)) => match tr_rvalue(*right, env, ntm, emit(b4, short_circuit(operator, r1, l_short))) {
                                None => None,
                                Some((r2, b5)) => Some((
                                    r3,
                                    emit(
                                        emit(
                                            emit(
                                                emit(
                                                    emit(b5, InstrV::Move { dest: r3, src: reg(r2) }),
                                                    InstrV::Goto { dest: name(l_end) },
                                                ),
                                                InstrV::Label { label: name(l_short) },
                                            ),
                                            InstrV::Move { dest: r3, src: OperandV::Imm(if operator is And { 0 } else { 1 }) },
                                        ),
                                        InstrV::Label { label: name(l_end) },
                                    ),
                                )),
                            },
                        },
                    },
                },
            }
        } else {
            match tr_rvalue(*left, env, ntm, b) {
                None => None,
                Some((r1, b1)) => match tr_rvalue(*right, env, ntm, b1) {
                    None => None,
                    Some((r2, b2)) => tr_arith(operator, r1, r2, left.node_id(), right.node_id(), ntm, b2),
                },
            }
        },
        ExprV::UnOp { operator, operand, .. } => match tr_rvalue(*operand, env, ntm, b) {
            None => None,
            Some((r1, b1)) => match fresh_reg(b1) {
                None => None,
                Some((r2, b2)) => Some((r2, emit(b2, InstrV::UnOp { dest: r2, operator: unop_ir(operator), operand: reg(r1) }))),
            },
        },
        ExprV::Cast { operand, .. } => tr_rvalue(*operand, env, ntm, b),
        ExprV::Call { name, args, .. } => match tr_args(args, env, ntm, b) {
            None => None,
            Some((regs, b1)) => match fresh_reg(b1) {
                None => None,
                Some((rd, b2)) => Some((
                    rd,
                    emit(b2, InstrV::Call { dest: rd, name, args: regs.map_values(|r: Seq<char>| reg(r)) }),
                )),
            },
        },
    }
}

/// The code that computes the address of an expression, and the register that holds
/// it; none for an expression that has no address.
pub open spec fn tr_lvalue(
    e: ExprV,
    env: Seq<Map<Seq<char>, Seq<char>>>,
    ntm: Map<usize, TypeV>,
    b: BuilderV,
) -> Option<(Seq<char>, BuilderV)>
    decreases e, 0nat,
{
    match e {
        ExprV::Var { name, .. } => match symbol_table::lookup_in(env, name) {
            Some(r) => Some((r, b)),
            None => None,
        },
        ExprV::Deref { operand, .. } => tr_rvalue(*operand, env, ntm, b),
        ExprV::Subscr { operand, index, .. } => match tr_rvalue(*operand, env, ntm, b) {
            None => None,
            Some((base, b1)) => match tr_rvalue(*index, env, ntm, b1) {
                None => None,
                Some((idx, b2)) => if !ntm.contains_key(operand.node_id()) {
                    None
                } else {
                    match pointee(ntm[operand.node_id()]) {
                        None => None,
                        Some(inner) => tr_scaled(base, idx, inner, BinaryOp::Add, b2),
                    }
                },
            },
        },
        _ => None,
    }
}

/// The code of the arguments of a call, from left to right, and their registers.
pub open spec fn tr_args(
    s: Seq<ExprV>,
    env: Seq<Map<Seq<char>, Seq<char>>>,
    ntm: Map<usize, TypeV>,
    b: BuilderV,
) -> Option<(Seq<Seq<char>>, BuilderV)>
    decreases s, 2nat,
{
    if s.len() == 0 {
        Some((seq![], b))
    } else {
        match tr_args(s.drop_last(), env, ntm, b) {
            None => None,
            Some((regs, b1)) => match tr_rvalue(s.last(), env, ntm, b1) {
                None => None,
                Some((r, b2)) => Some((regs.push(r), b2)),
            },
        }
    }
}

/// Whether a translation that gives a register ended as the spec says: `None` when it
/// cannot go on, else the same register and builder.
pub open spec fn reg_result(r: Option<String>, b: BuilderV, out: Option<(Seq<char>, BuilderV)>) -> bool {
    match out {
        Some((x, b2)) => r matches Some(s) && s@ == x && b == b2,
        None => r is None,
    }
}

fn fresh_reg_of(b: &mut IRBuilder) -> (r: Option<String>)
    ensures
        reg_result(r, final(b)@, fresh_reg(old(b)@)),
{
    let (rc, _) = b.get_counters();
    if rc < usize::MAX {
        Some(b.new_reg())
    } else {
        None
    }
}

fn fresh_label_of(b: &mut IRBuilder) -> (r: Option<String>)
    ensures
        reg_result(r, final(b)@, fresh_label(old(b)@)),
{
    let (_, lc) = b.get_counters();
    if lc < usize::MAX {
        Some(b.new_label())
    } else {
        None
    }
}

/// Whether values of type `t` have a size: a function has none, nor has an array of
/// functions.
pub open spec fn sized(t: TypeV) -> bool
    decreases t,
{
    match t {
        TypeV::Func { .. } => false,
        TypeV::Arr(inner, _) => sized(*inner),
        _ => true,
    }
}

/// A type without a size has no byte size.
proof fn lemma_unsized(t: TypeV)
    ensures
        !sized(t) ==> byte_size(t) is None,
        sized(t) ==> !(t is Func),
    decreases t,
{
    if let TypeV::Arr(inner, _) = t {
        lemma_unsized(*inner);
    }
}

/// Whether values of type `t` have a size.
fn has_size(t: &Type) -> (r: bool)
    ensures
        r == sized(t@),
    decreases t@,
{
    match t {
        Type::Arr(inner, _) => has_size(inner),
        Type::Ptr(_) | Type::Int | Type::Bool | Type::Byte => true,
        Type::Func { .. } => false,
    }
}

/// The width of a load or store of a value of type `t`, which is not a function.
fn size_type_of_type(t: &Type) -> (r: Size)
    requires
        !(t@ is Func),
    ensures
        size_kind(t@) == Some(r),
{
    match t {
        Type::Arr(_, _) | Type::Ptr(_) => Size::Long,
        Type::Bool | Type::Byte => Size::Byte,
        Type::Int => Size::Word,
        Type::Func { .. } => {
            proof {
                assert(false);
            }
            Size::Long
        },
    }
}

/// The number of bytes of a value of type `t`, which has a size; `None` where the
/// product of an array's length and its element size overflows `i32`.
fn size_of_type(t: &Type) -> (r: Option<i32>)
    requires
        sized(t@),
    ensures
        r == byte_size(t@),
    decreases t@,
{
    match t {
        Type::Arr(inner, n) => match size_of_type(inner) {
            Some(s) => {
                let len: i32 = *n as i32;
                len.checked_mul(s)
            },
            None => None,
        },
        Type::Ptr(_) => Some(8),
        Type::Int => Some(4),
        Type::Bool | Type::Byte => Some(1),
        Type::Func { .. } => None,
    }
}

/// The width of a load or store of a value of type `t`; `None` for a function, where
/// translation cannot go on.
fn width_of(t: &Type) -> (r: Option<Size>)
    ensures
        r == size_kind(t@),
{
    if let Type::Func { .. } = t {
        None
    } else {
        Some(size_type_of_type(t))
    }
}

/// The number of bytes of a value of type `t`; `None` where it has no size or where the
/// size overflows `i32`: translation cannot go on there.
fn checked_size_of(t: &Type) -> (r: Option<i32>)
    ensures
        r == byte_size(t@),
{
    proof {
        lemma_unsized(t@);
    }
    if has_size(t) {
        size_of_type(t)
    } else {
        None
    }
}

fn val_as_i32(v: &Val) -> (r: i32)
    ensures
        r == val_i32(*v),
{
    match v {
        Val::Bool(b) => if *b {
            1
        } else {
            0
        },
        Val::Byte(x) => *x as i32,
        Val::Int(x) => *x,
    }
}

fn binop_ast_to_ir(operator: &BinaryOperator) -> (r: BinaryOp)
    requires
        binop_ir(*operator) is Some,
    ensures
        binop_ir(*operator) == Some(r),
{
    match operator {
        BinaryOperator::Add => BinaryOp::Add,
        BinaryOperator::Sub => BinaryOp::Sub,
        BinaryOperator::Mul => BinaryOp::Mul,
        BinaryOperator::Div => BinaryOp::Div,
        BinaryOperator::Lt => BinaryOp::Lt,
        BinaryOperator::Leq => BinaryOp::Leq,
        BinaryOperator::Gt => BinaryOp::Gt,
        BinaryOperator::Geq => BinaryOp::Geq,
        BinaryOperator::Eq => BinaryOp::Eq,
        BinaryOperator::Neq => BinaryOp::Neq,
        BinaryOperator::And | BinaryOperator::Or => BinaryOp::Add,
    }
}

fn unop_ast_to_ir(operator: &UnaryOperator) -> (r: UnaryOp)
    ensures
        r == unop_ir(*operator),
{
    match operator {
        UnaryOperator::Neg => UnaryOp::Neg,
        UnaryOperator::Not => UnaryOp::Not,
        UnaryOperator::Pos => UnaryOp::Pos,
    }
}

/// The type of a node, if the map has one.
fn node_type<'a>(ntm: &'a HashMap<usize, Type>, id: usize) -> (r: Option<&'a Type>)
    ensures
        match r {
            Some(t) => type_check::ntm_model(ntm@).contains_key(id) && type_check::ntm_model(ntm@)[id] == t@,
            None => !type_check::ntm_model(ntm@).contains_key(id),
        },
{
    ntm.get(&id)
}

/// `base op (idx * size of inner)`.
fn translate_scaled(base: String, idx: String, inner: &Type, op: BinaryOp, b: &mut IRBuilder) -> (r: Option<String>)
    ensures
        reg_result(r, final(b)@, tr_scaled(base@, idx@, inner@, op, old(b)@)),
{
    let factor = match checked_size_of(inner) {
        Some(f) => f,
        None => return None,
    };
    let scaled = match fresh_reg_of(b) {
        Some(r) => r,
        None => return None,
    };
    let r3 = match fresh_reg_of(b) {
        Some(r) => r,
        None => return None,
    };
    b.emit(Instr::BinOp { dest: scaled.clone(), left: Operand::Reg(idx), operator: BinaryOp::Mul, right: Operand::Imm(factor) });
    b.emit(Instr::BinOp { dest: r3.clone(), left: Operand::Reg(base), operator: op, right: Operand::Reg(scaled) });
    Some(r3)
}

/// `r1 op r2` into a fresh register.
fn translate_plain(op: BinaryOp, r1: String, r2: String, b: &mut IRBuilder) -> (r: Option<String>)
    ensures
        reg_result(r, final(b)@, tr_plain(op, r1@, r2@, old(b)@)),
{
    let r3 = match fresh_reg_of(b) {
        Some(r) => r,
        None => return None,
    };
    b.emit(Instr::BinOp { dest: r3.clone(), left: Operand::Reg(r1), operator: op, right: Operand::Reg(r2) });
    Some(r3)
}

/// The code of an arithmetic or comparison operator on `r1` and `r2`.
fn translate_arith(
    op: &BinaryOperator,
    r1: String,
    r2: String,
    lid: usize,
    rid: usize,
    ntm: &HashMap<usize, Type>,
    b: &mut IRBuilder,
) -> (r: Option<String>)
    requires
        !(*op is And || *op is Or),
    ensures
        reg_result(r, final(b)@, tr_arith(*op, r1@, r2@, lid, rid, type_check::ntm_model(ntm@), old(b)@)),
{
    match op {
        BinaryOperator::Add => {
            let left_type = match node_type(ntm, lid) {
                Some(t) => t,
                None => return None,
            };
            let right_type = match node_type(ntm, rid) {
                Some(t) => t,
                None => return None,
            };
            match (left_type, right_type) {
                (Type::Arr(inner, _), Type::Int) | (Type::Ptr(inner), Type::Int) => {
                    translate_scaled(r1, r2, inner, BinaryOp::Add, b)
                },
                (Type::Int, Type::Arr(inner, _)) | (Type::Int, Type::Ptr(inner)) => {
                    translate_scaled(r2, r1, inner, BinaryOp::Add, b)
                },
                _ => translate_plain(BinaryOp::Add, r1, r2, b),
            }
        },
        BinaryOperator::Sub => {
            let left_type = match node_type(ntm, lid) {
                Some(t) => t,
                None => return None,
            };
            let right_type = match node_type(ntm, rid) {
                Some(t) => t,
                None => return None,
            };
            match (left_type, right_type) {
                (Type::Arr(inner, _), Type::Int) | (Type::Ptr(inner), Type::Int) => {
                    translate_scaled(r1, r2, inner, BinaryOp::Sub, b)
                },
                (Type::Ptr(inner), Type::Ptr(_)) => {
                    let r3 = match fresh_reg_of(b) {
                        Some(r) => r,
                        None => return None,
                    };
                    b.emit(Instr::BinOp { dest: r3.clone(), left: Operand::Reg(r1), operator: BinaryOp::Sub, right: Operand::Reg(r2) });
                    let factor = match checked_size_of(inner) {
                        Some(f) => f,
                        None => return None,
                    };
                    let r4 = match fresh_reg_of(b) {
                        Some(r) => r,
                        None => return None,
                    };
                    b.emit(Instr::BinOp { dest: r4.clone(), left: Operand::Reg(r3), operator: BinaryOp::Div, right: Operand::Imm(factor) });
                    Some(r4)
                },
                _ => translate_plain(BinaryOp::Sub, r1, r2, b),
            }
        },
        _ => translate_plain(binop_ast_to_ir(op), r1, r2, b),
    }
}

/// The code that computes the value of an expression; the register that holds it.
fn translate_rvalue(expr: &Expr, b: &mut IRBuilder, sym_tab: &SymbolTable<String>, ntm: &HashMap<usize, Type>) -> (r: Option<String>)
    ensures
        reg_result(r, final(b)@, tr_rvalue(expr@, reg_env(sym_tab.scopes()), type_check::ntm_model(ntm@), old(b)@)),
    decreases ast::expr_size(expr@), 2nat,
{
    match expr {
        Expr::Var { id, .. } => translate_load(expr, *id, b, sym_tab, ntm),
        Expr::Deref { id, .. } => translate_load(expr, *id, b, sym_tab, ntm),
        Expr::Subscr { id, .. } => translate_load(expr, *id, b, sym_tab, ntm),
        Expr::Const { id: _, loc: _, val } => {
            let r1 = match fresh_reg_of(b) {
                Some(r) => r,
                None => return None,
            };
            b.emit(Instr::Move { dest: r1.clone(), src: Operand::Imm(val_as_i32(val)) });
            Some(r1)
        },
        Expr::AddrOf { id: _, loc: _, operand } => translate_lvalue(operand, b, sym_tab, ntm),
        Expr::BinOp { id: _, loc: _, left, operator, right } => {
            proof {
                assert(ast::expr_size(expr@) == 1 + ast::expr_size(left@) + ast::expr_size(right@));
            }
            translate_binop(left, operator, right, b, sym_tab, ntm)
        },
        Expr::UnOp { id: _, loc: _, operator, operand } => {
            let r1 = match translate_rvalue(operand, b, sym_tab, ntm) {
                Some(r) => r,
                None => return None,
            };
            let r2 = match fresh_reg_of(b) {
                Some(r) => r,
                None => return None,
            };
            b.emit(Instr::UnOp { dest: r2.clone(), operator: unop_ast_to_ir(operator), operand: Operand::Reg(r1) });
            Some(r2)
        },
        Expr::Cast { id: _, loc: _, operand, typ: _ } => translate_rvalue(operand, b, sym_tab, ntm),
        Expr::Call { id: _, loc: _, name, args, ret_type: _ } => translate_call(name, args, b, sym_tab, ntm),
    }
}

/// The value of a variable, a dereference or a subscript: its address, then a load of
/// it, unless it is an array, whose value is its address.
fn translate_load(expr: &Expr, id: usize, b: &mut IRBuilder, sym_tab: &SymbolTable<String>, ntm: &HashMap<usize, Type>) -> (r: Option<String>)
    requires
        expr@ is Var || expr@ is Deref || expr@ is Subscr,
        expr@.node_id() == id,
    ensures
        reg_result(r, final(b)@, tr_rvalue(expr@, reg_env(sym_tab.scopes()), type_check::ntm_model(ntm@), old(b)@)),
    decreases ast::expr_size(expr@), 1nat,
{
    let expr_type = match node_type(ntm, id) {
        Some(t) => t,
        None => return None,
    };
    let addr_reg = match translate_lvalue(expr, b, sym_tab, ntm) {
        Some(r) => r,
        None => return None,
    };
    if let Type::Arr(_, _) = expr_type {
        return Some(addr_reg);
    }
    let size = match width_of(expr_type) {
        Some(s) => s,
        None => return None,
    };
    let val_reg = match fresh_reg_of(b) {
        Some(r) => r,
        None => return None,
    };
    b.emit(Instr::Load { size, dest: val_reg.clone(), src: addr_reg });
    Some(val_reg)
}

/// The code of a binary operation.
fn translate_binop(
    left: &Expr,
    operator: &BinaryOperator,
    right: &Expr,
    b: &mut IRBuilder,
    sym_tab: &SymbolTable<String>,
    ntm: &HashMap<usize, Type>,
) -> (r: Option<String>)
    ensures
        reg_result(r, final(b)@, tr_rvalue(
            ExprV::BinOp { id: 0, loc: 0, left: Box::new(left@), operator: *operator, right: Box::new(right@) },
            reg_env(sym_tab.scopes()),
            type_check::ntm_model(ntm@),
            old(b)@,
        )),
    decreases 1 + ast::expr_size(left@) + ast::expr_size(right@), 1nat,
{
    match operator {
        BinaryOperator::Or | BinaryOperator::And => {
            let l_short = match fresh_label_of(b) {
                Some(l) => l,
                None => return None,
            };
            let l_end = match fresh_label_of(b) {
                Some(l) => l,
                None => return None,
            };
            let r3 = match fresh_reg_of(b) {
                Some(r) => r,
                None => return None,
            };
            let r1 = match translate_rvalue(left, b, sym_tab, ntm) {
                Some(r) => r,
                None => return None,
            };
            let is_and = match operator {
                BinaryOperator::And => true,
                _ => false,
            };
            if is_and {
                b.emit(Instr::GotoIfFalse { cond: Operand::Reg(r1), dest: Lbl::Name(l_short.clone()) });
            } else {
                b.emit(Instr::GotoIf { cond: Operand::Reg(r1), dest: Lbl::Name(l_short.clone()) });
            }
            let r2 = match translate_rvalue(right, b, sym_tab, ntm) {
                Some(r) => r,
                None => return None,
            };
            b.emit(Instr::Move { dest: r3.clone(), src: Operand::Reg(r2) });
            b.emit(Instr::Goto { dest: Lbl::Name(l_end.clone()) });
            b.emit(Instr::Label { label: Lbl::Name(l_short) });
            b.emit(Instr::Move { dest: r3.clone(), src: Operand::Imm(if is_and { 0 } else { 1 }) });
            b.emit(Instr::Label { label: Lbl::Name(l_end) });
            Some(r3)
        },
        _ => {
            let r1 = match translate_rvalue(left, b, sym_tab, ntm) {
                Some(r) => r,
                None => return None,
            };
            let r2 = match translate_rvalue(right, b, sym_tab, ntm) {
                Some(r) => r,
                None => return None,
            };
            translate_arith(operator, r1, r2, left.id(), right.id(), ntm, b)
        },
    }
}

/// The code of a call: the arguments from left to right, then the call.
fn translate_call(
    name: &String,
    args: &Vec<Box<Expr>>,
    b: &mut IRBuilder,
    sym_tab: &SymbolTable<String>,
    ntm: &HashMap<usize, Type>,
) -> (r: Option<String>)
    ensures
        reg_result(r, final(b)@, tr_rvalue(
            ExprV::Call { id: 0, loc: 0, name: name@, args: ast::exprs_view(args@), ret_type: None },
            reg_env(sym_tab.scopes()),
            type_check::ntm_model(ntm@),
            old(b)@,
        )),
    decreases 1 + ast::exprs_size(ast::exprs_view(args@)), 1nat,
{
    let ghost a0 = ast::exprs_view(args@);
    let ghost env = reg_env(sym_tab.scopes());
    let ghost m = type_check::ntm_model(ntm@);
    let ghost b0 = b@;
    proof {
        ast::lemma_exprs_view(args@);
        assert(a0.take(0) == Seq::<ExprV>::empty());
    }
    let mut regs: Vec<Operand> = Vec::new();
    let mut i: usize = 0;
    while i < args.len()
        invariant
            a0 == ast::exprs_view(args@),
            env == reg_env(sym_tab.scopes()),
            m == type_check::ntm_model(ntm@),
            b0 == old(b)@,
            a0.len() == args.len(),
            forall|j: int| 0 <= j < args.len() ==> #[trigger] a0[j] == ast::expr_view(*args@[j]),
            i <= args.len(),
            regs.len() == i,
            tr_args(a0.take(i as int), env, m, b0) matches Some((rs, b1)) && b1 == b@
                && ir::operands_view(regs@) == rs.map_values(|x: Seq<char>| reg(x)),
        decreases args.len() - i,
    {
        proof {
            ast::lemma_exprs_size(a0, i as int);
            assert(a0.take(i + 1).drop_last() == a0.take(i as int));
            assert(a0.take(i + 1).last() == a0[i as int]);
        }
        let ghost before = regs@;
        let ghost p0 = tr_args(a0.take(i as int), env, m, b0)->0;
        let r = match translate_rvalue(&args[i], b, sym_tab, ntm) {
            Some(r) => r,
            None => {
                proof {
                    lemma_tr_args_none(a0, env, m, b0, i as int, a0.len() as int);
                    assert(a0.take(a0.len() as int) == a0);
                }
                return None;
            },
        };
        regs.push(Operand::Reg(r));
        proof {
            let rs = p0.0;
            assert(tr_args(a0.take(i + 1), env, m, b0) == Some((rs.push(r@), b@)));
            assert(ir::operands_view(before) == rs.map_values(|x: Seq<char>| reg(x)));
            assert(ir::operands_view(before).len() == i);
            assert(rs.map_values(|x: Seq<char>| reg(x)).len() == rs.len());
            assert(rs.len() == i);
            assert forall|j: int| 0 <= j < regs.len() implies #[trigger] ir::operands_view(regs@)[j]
                == rs.push(r@).map_values(|x: Seq<char>| reg(x))[j] by {
                if j < i {
                    assert(ir::operands_view(before)[j] == rs.map_values(|x: Seq<char>| reg(x))[j]);
                }
            }
            assert(ir::operands_view(regs@) =~= rs.push(r@).map_values(|x: Seq<char>| reg(x)));
        }
        i += 1;
    }
    proof {
        assert(a0.take(args.len() as int) == a0);
    }
    let r_dest = match fresh_reg_of(b) {
        Some(r) => r,
        None => return None,
    };
    b.emit(Instr::Call { dest: r_dest.clone(), name: name.clone(), args: regs });
    Some(r_dest)
}

/// Once an argument cannot be translated, neither can the call.
proof fn lemma_tr_args_none(
    s: Seq<ExprV>,
    env: Seq<Map<Seq<char>, Seq<char>>>,
    ntm: Map<usize, TypeV>,
    b: BuilderV,
    i: int,
    k: int,
)
    requires
        0 <= i < k <= s.len(),
        tr_args(s.take(i + 1), env, ntm, b) is None,
    ensures
        tr_args(s.take(k), env, ntm, b) is None,
    decreases k,
{
    if k > i + 1 {
        lemma_tr_args_none(s, env, ntm, b, i, k - 1);
        assert(s.take(k).drop_last() == s.take(k - 1));
    }
}

/// The code that computes the address of an expression; the register that holds it.
fn translate_lvalue(expr: &Expr, b: &mut IRBuilder, sym_tab: &SymbolTable<String>, ntm: &HashMap<usize, Type>) -> (r: Option<String>)
    ensures
        reg_result(r, final(b)@, tr_lvalue(expr@, reg_env(sym_tab.scopes()), type_check::ntm_model(ntm@), old(b)@)),
    decreases ast::expr_size(expr@), 0nat,
{
    match expr {
        Expr::Var { id: _, loc: _, name } => {
            proof {
                lemma_reg_env_lookup(sym_tab.scopes(), name@);
            }
            match sym_tab.lookup(name.as_str()) {
                Some(r) => Some(r.clone()),
                None => None,
            }
        },
        Expr::Deref { id: _, loc: _, operand } => translate_rvalue(operand, b, sym_tab, ntm),
        Expr::Subscr { id: _, loc: _, operand, index } => {
            let base_addr_reg = match translate_rvalue(operand, b, sym_tab, ntm) {
                Some(r) => r,
                None => return None,
            };
            let index_reg = match translate_rvalue(index, b, sym_tab, ntm) {
                Some(r) => r,
                None => return None,
            };
            let operand_type = match node_type(ntm, operand.id()) {
                Some(t) => t,
                None => return None,
            };
            match operand_type {
                Type::Arr(inner, _) | Type::Ptr(inner) => translate_scaled(base_addr_reg, index_reg, inner, BinaryOp::Add, b),
                _ => None,
            }
        },
        _ => None,
    }
}

/// The instruction that a statement holding one expression emits after computing its
/// value into `r`; none for an expression statement.
pub open spec fn value_instr(s: StmtV, r: Seq<char>) -> Option<InstrV> {
    match s {
        StmtV::Return { .. } => Some(InstrV::Ret { operand: reg(r) }),
        StmtV::PrintByte { .. } => Some(InstrV::PrintByte { operand: reg(r) }),
        StmtV::PrintInt { .. } => Some(InstrV::PrintInt { operand: reg(r) }),
        StmtV::PrintString { .. } => Some(InstrV::PrintString { src: reg(r) }),
        _ => None,
    }
}

/// The parameters of a function, bound in order: each gets a fresh register that holds
/// its address, a slot of its size, and the incoming value stored into it.
pub open spec fn tr_params(
    args: Seq<(Seq<char>, TypeV)>,
    env: Seq<Map<Seq<char>, Seq<char>>>,
    b: BuilderV,
) -> Option<(Seq<Map<Seq<char>, Seq<char>>>, BuilderV)>
    decreases args.len(),
{
    if args.len() == 0 {
        Some((env, b))
    } else {
        match tr_params(args.drop_last(), env, b) {
            None => None,
            Some((env1, b1)) => {
                let (n, t) = args.last();
                match fresh_reg(b1) {
                    None => None,
                    Some((addr, b2)) => match byte_size(t) {
                        None => None,
                        Some(sz) => match size_kind(t) {
                            None => None,
                            Some(k) => Some((
                                symbol_table::define_in(env1, n, addr),
                                emit(
                                    emit(b2, InstrV::Alloc { dest: addr, size: sz as usize }),
                                    InstrV::Store { size: k, src: reg(n), dest: addr },
                                ),
                            )),
                        },
                    },
                }
            },
        }
    }
}

/// The result of translating a statement: the outcome, the scopes afterwards and the
/// builder afterwards; `None` when translation cannot go on.
pub type StmtOut = Option<(Result<(), (usize, Seq<char>)>, Seq<Map<Seq<char>, Seq<char>>>, BuilderV)>;

/// A declaration `typ name;` or a definition `typ name = rhs;`: a slot of the size of
/// `typ` whose address goes into a fresh register bound to `name`, then the store of
/// the initial value.
pub open spec fn tr_decl(s: StmtV, env: Seq<Map<Seq<char>, Seq<char>>>, ntm: Map<usize, TypeV>, b: BuilderV) -> StmtOut {
    match s {
        StmtV::Declare { typ, name, .. } => match fresh_reg(b) {
            None => None,
            Some((addr, b1)) => match byte_size(typ) {
                None => None,
                Some(sz) => Some((
                    Ok(()),
                    symbol_table::define_in(env, name, addr),
                    emit(b1, InstrV::Alloc { dest: addr, size: sz as usize }),
                )),
            },
        },
        StmtV::Define { typ, name, rhs, .. } => match fresh_reg(b) {
            None => None,
            Some((addr, b1)) => match byte_size(typ) {
                None => None,
                Some(sz) => match tr_rvalue(*rhs, env, ntm, emit(b1, InstrV::Alloc { dest: addr, size: sz as usize })) {
                    None => None,
                    Some((val, b2)) => match size_kind(typ) {
                        None => None,
                        Some(k) => Some((
                            Ok(()),
                            symbol_table::define_in(env, name, addr),
                            emit(b2, InstrV::Store { size: k, src: reg(val), dest: addr }),
                        )),
                    },
                },
            },
        },
        _ => None,
    }
}

/// An assignment `lhs = rhs;`: the address of `lhs`, the value of `rhs`, then a store
/// of the width of the type of `lhs`.
pub open spec fn tr_assign(s: StmtV, env: Seq<Map<Seq<char>, Seq<char>>>, ntm: Map<usize, TypeV>, b: BuilderV) -> StmtOut {
    match s {
        StmtV::Assign { lhs, rhs, .. } => match tr_lvalue(*lhs, env, ntm, b) {
            None => None,
            Some((dest, b1)) => match tr_rvalue(*rhs, env, ntm, b1) {
                None => None,
                Some((val, b2)) => if !ntm.contains_key(lhs.node_id()) {
                    None
                } else {
                    match size_kind(ntm[lhs.node_id()]) {
                        None => None,
                        Some(k) => Some((Ok(()), env, emit(b2, InstrV::Store { size: k, src: reg(val), dest }))),
                    }
                },
            },
        },
        _ => None,
    }
}

/// A `break` jumps to the break label of the innermost loop, a `continue` to its
/// continue label; outside any loop, each is an error.
pub open spec fn tr_jump(s: StmtV, env: Seq<Map<Seq<char>, Seq<char>>>, jumps: Seq<(Seq<char>, Seq<char>)>, b: BuilderV) -> StmtOut {
    match s {
        StmtV::Break { loc, .. } => if jumps.len() > 0 {
            Some((Ok(()), env, emit(b, InstrV::Goto { dest: name(jumps.last().0) })))
        } else {
            Some((Err((loc, "Statement break outside any loop"@)), env, b))
        },
        StmtV::Continue { loc, .. } => if jumps.len() > 0 {
            Some((Ok(()), env, emit(b, InstrV::Goto { dest: name(jumps.last().1) })))
        } else {
            Some((Err((loc, "Statement continue outside any loop"@)), env, b))
        },
        _ => None,
    }
}

/// A statement that holds one expression: its value, then the instruction of the
/// statement, if any.
pub open spec fn tr_value_stmt(s: StmtV, env: Seq<Map<Seq<char>, Seq<char>>>, ntm: Map<usize, TypeV>, b: BuilderV) -> StmtOut {
    match s {
        StmtV::Return { expr, .. } | StmtV::PrintByte { expr, .. } | StmtV::PrintInt { expr, .. }
        | StmtV::PrintString { expr, .. } | StmtV::Expr { expr, .. } => match tr_rvalue(*expr, env, ntm, b) {
            None => None,
            Some((r, b1)) => Some((
                Ok(()),
                env,
                match value_instr(s, r) {
                    Some(i) => emit(b1, i),
                    None => b1,
                },
            )),
        },
        _ => None,
    }
}

/// `if (cond) t else f`: the condition jumps over the true arm to the false arm, and
/// the true arm jumps over the false one; each arm has a scope of its own.
pub open spec fn tr_if(
    s: StmtV,
    env: Seq<Map<Seq<char>, Seq<char>>>,
    jumps: Seq<(Seq<char>, Seq<char>)>,
    ntm: Map<usize, TypeV>,
    b: BuilderV,
) -> StmtOut
    decreases s, 0nat,
{
    match s {
        StmtV::If { cond, true_arm, false_arm, .. } => match fresh_label(b) {
            None => None,
            Some((lx, b1)) => match fresh_label(b1) {
                None => None,
                Some((lf, b2)) => match tr_rvalue(*cond, env, ntm, b2) {
                    None => None,
                    Some((c, b3)) => match tr_stmt(
                        *true_arm,
                        env.push(Map::empty()),
                        jumps,
                        ntm,
                        emit(b3, InstrV::GotoIfFalse { cond: reg(c), dest: name(lf) }),
                    ) {
                        None => None,
                        Some((Err(e), env1, b4)) => Some((Err(e), env1, b4)),
                        Some((Ok(()), env1, b4)) => match tr_stmt(
                            *false_arm,
                            env1.drop_last().push(Map::empty()),
                            jumps,
                            ntm,
                            emit(emit(b4, InstrV::Goto { dest: name(lx) }), InstrV::Label { label: name(lf) }),
                        ) {
                            None => None,
                            Some((Err(e), env2, b5)) => Some((Err(e), env2, b5)),
                            Some((Ok(()), env2, b5)) => Some((Ok(()), env2.drop_last(), emit(b5, InstrV::Label { label: name(lx) }))),
                        },
                    },
                },
            },
        },
        _ => None,
    }
}

/// `while (cond) body`: a label before the condition, which jumps out of the loop; the
/// body, in a scope of its own, where `break` and `continue` go to the exit and to the
/// condition; then a jump back.
pub open spec fn tr_while(
    s: StmtV,
    env: Seq<Map<Seq<char>, Seq<char>>>,
    jumps: Seq<(Seq<char>, Seq<char>)>,
    ntm: Map<usize, TypeV>,
    b: BuilderV,
) -> StmtOut
    decreases s, 0nat,
{
    match s {
        StmtV::While { cond, body, .. } => match fresh_label(b) {
            None => None,
            Some((lx, b1)) => match fresh_label(b1) {
                None => None,
                Some((lc, b2)) => match tr_rvalue(*cond, env, ntm, emit(b2, InstrV::Label { label: name(lc) })) {
                    None => None,
                    Some((c, b3)) => match tr_stmt(
                        *body,
                        env.push(Map::empty()),
                        jumps.push((lx, lc)),
                        ntm,
                        emit(b3, InstrV::GotoIfFalse { cond: reg(c), dest: name(lx) }),
                    ) {
                        None => None,
                        Some((Err(e), env1, b4)) => Some((Err(e), env1, b4)),
                        Some((Ok(()), env1, b4)) => Some((
                            Ok(()),
                            env1.drop_last(),
                            emit(emit(b4, InstrV::Goto { dest: name(lc) }), InstrV::Label { label: name(lx) }),
                        )),
                    },
                },
            },
        },
        _ => None,
    }
}

/// A block: its statements in a scope of their own.
pub open spec fn tr_block(
    s: StmtV,
    env: Seq<Map<Seq<char>, Seq<char>>>,
    jumps: Seq<(Seq<char>, Seq<char>)>,
    ntm: Map<usize, TypeV>,
    b: BuilderV,
) -> StmtOut
    decreases s, 0nat,
{
    match s {
        StmtV::Block { stmts, .. } => match tr_stmts(stmts, env.push(Map::empty()), jumps, ntm, b) {
            None => None,
            Some((Err(e), env1, b1)) => Some((Err(e), env1, b1)),
            Some((Ok(()), env1, b1)) => Some((Ok(()), env1.drop_last(), b1)),
        },
        _ => None,
    }
}

/// A function declaration: its parameters and its body go into a builder of their own,
/// which continues the counters, outside any loop; the body becomes one `FnDecl`
/// instruction, and the counters go on from where the body left them.
pub open spec fn tr_fn(s: StmtV, env: Seq<Map<Seq<char>, Seq<char>>>, ntm: Map<usize, TypeV>, b: BuilderV) -> StmtOut
    decreases s, 0nat,
{
    match s {
        StmtV::FnDecl { name, args, body, .. } => match tr_params(
            args,
            env.push(Map::empty()),
            BuilderV { instrs: Seq::empty(), regs: b.regs, labels: b.labels },
        ) {
            None => None,
            Some((env1, bb1)) => match tr_stmt(*body, env1.push(Map::empty()), Seq::empty(), ntm, bb1) {
                None => None,
                Some((Err(e), env2, _)) => Some((Err(e), env2, b)),
                Some((Ok(()), env2, bb2)) => Some((
                    Ok(()),
                    env2.drop_last().drop_last(),
                    emit(
                        BuilderV { instrs: b.instrs, regs: bb2.regs, labels: bb2.labels },
                        InstrV::FnDecl {
                            name,
                            params: args.map_values(|a: (Seq<char>, TypeV)| a.0),
                            body: bb2.instrs,
                        },
                    ),
                )),
            },
        },
        _ => None,
    }
}

/// The translation of a statement, given the registers of the variables in scope, the
/// (break, continue) labels of the enclosing loops, innermost last, and the node types:
/// the result, the scopes afterwards and the builder afterwards. An error stops the
/// translation: the builder is then as it was when the error was found.
pub open spec fn tr_stmt(
    s: StmtV,
    env: Seq<Map<Seq<char>, Seq<char>>>,
    jumps: Seq<(Seq<char>, Seq<char>)>,
    ntm: Map<usize, TypeV>,
    b: BuilderV,
) -> StmtOut
    decreases s, 1nat,
{
    match s {
        StmtV::Declare { .. } | StmtV::Define { .. } => tr_decl(s, env, ntm, b),
        StmtV::Assign { .. } => tr_assign(s, env, ntm, b),
        StmtV::If { .. } => tr_if(s, env, jumps, ntm, b),
        StmtV::While { .. } => tr_while(s, env, jumps, ntm, b),
        StmtV::Break { .. } | StmtV::Continue { .. } => tr_jump(s, env, jumps, b),
        StmtV::Block { .. } => tr_block(s, env, jumps, ntm, b),
        StmtV::Return { .. } | StmtV::PrintByte { .. } | StmtV::PrintInt { .. } | StmtV::PrintString { .. }
        | StmtV::Expr { .. } => tr_value_stmt(s, env, ntm, b),
        StmtV::FnDecl { .. } => tr_fn(s, env, ntm, b),
    }
}

/// The translation of statements one after the other, up to the first error.
pub open spec fn tr_stmts(
    ss: Seq<StmtV>,
    env: Seq<Map<Seq<char>, Seq<char>>>,
    jumps: Seq<(Seq<char>, Seq<char>)>,
    ntm: Map<usize, TypeV>,
    b: BuilderV,
) -> StmtOut
    decreases ss, 2nat,
{
    if ss.len() == 0 {
        Some((Ok(()), env, b))
    } else {
        match tr_stmts(ss.drop_last(), env, jumps, ntm, b) {
            None => None,
            Some((Err(e), env1, b1)) => Some((Err(e), env1, b1)),
            Some((Ok(()), env1, b1)) => tr_stmt(ss.last(), env1, jumps, ntm, b1),
        }
    }
}

/// The translation of a whole program, in one global scope and outside any loop: the
/// result and the builder afterwards.
pub open spec fn tr_program(ss: Seq<StmtV>, ntm: Map<usize, TypeV>, b: BuilderV) -> Option<(Result<(), (usize, Seq<char>)>, BuilderV)> {
    match tr_stmts(ss, seq![Map::empty()], Seq::empty(), ntm, b) {
        None => None,
        Some((r, _, b1)) => Some((r, b1)),
    }
}

/// Whether a translation of a statement ended as the spec says: `None` when it cannot
/// go on; on success the same builder and scopes, with the loop labels as they were
/// (`same_jumps`); on an error the same error and builder.
pub open spec fn stmt_result(r: Option<Result<(), Error>>, b: BuilderV, env: Seq<Map<Seq<char>, Seq<char>>>, same_jumps: bool, out: StmtOut) -> bool {
    match out {
        None => r is None,
        Some((Ok(()), env2, b2)) => r == Some(Ok::<(), Error>(())) && b == b2 && env == env2 && same_jumps,
        Some((Err(e), _, b2)) => r matches Some(Err(x)) && x@ == e && b == b2,
    }
}

proof fn lemma_tr_params_len(args: Seq<(Seq<char>, TypeV)>, env: Seq<Map<Seq<char>, Seq<char>>>, b: BuilderV)
    requires
        env.len() > 0,
    ensures
        tr_params(args, env, b) matches Some((env1, _)) ==> env1.len() == env.len(),
    decreases args.len(),
{
    if args.len() > 0 {
        lemma_tr_params_len(args.drop_last(), env, b);
    }
}

/// Once a parameter cannot be bound, neither can the parameters.
proof fn lemma_tr_params_none(
    args: Seq<(Seq<char>, TypeV)>,
    env: Seq<Map<Seq<char>, Seq<char>>>,
    b: BuilderV,
    i: int,
    k: int,
)
    requires
        0 <= i < k <= args.len(),
        tr_params(args.take(i + 1), env, b) is None,
    ensures
        tr_params(args.take(k), env, b) is None,
    decreases k,
{
    if k > i + 1 {
        lemma_tr_params_none(args, env, b, i, k - 1);
        assert(args.take(k).drop_last() == args.take(k - 1));
    }
}

/// A statement that is translated keeps the number of scopes.
proof fn lemma_tr_stmt_len(
    s: StmtV,
    env: Seq<Map<Seq<char>, Seq<char>>>,
    jumps: Seq<(Seq<char>, Seq<char>)>,
    ntm: Map<usize, TypeV>,
    b: BuilderV,
)
    requires
        env.len() > 0,
    ensures
        tr_stmt(s, env, jumps, ntm, b) matches Some((Ok(()), env1, _)) ==> env1.len() == env.len(),
    decreases s,
{
    match s {
        StmtV::If { cond, true_arm, false_arm, .. } => {
            if let Some((lx, b1)) = fresh_label(b) {
                if let Some((lf, b2)) = fresh_label(b1) {
                    if let Some((c, b3)) = tr_rvalue(*cond, env, ntm, b2) {
                        let b3e = emit(b3, InstrV::GotoIfFalse { cond: reg(c), dest: name(lf) });
                        lemma_tr_stmt_len(*true_arm, env.push(Map::empty()), jumps, ntm, b3e);
                        if let Some((Ok(()), env1, b4)) = tr_stmt(*true_arm, env.push(Map::empty()), jumps, ntm, b3e) {
                            lemma_tr_stmt_len(
                                *false_arm,
                                env1.drop_last().push(Map::empty()),
                                jumps,
                                ntm,
                                emit(emit(b4, InstrV::Goto { dest: name(lx) }), InstrV::Label { label: name(lf) }),
                            );
                        }
                    }
                }
            }
        },
        StmtV::While { cond, body, .. } => {
            if let Some((lx, b1)) = fresh_label(b) {
                if let Some((lc, b2)) = fresh_label(b1) {
                    if let Some((c, b3)) = tr_rvalue(*cond, env, ntm, emit(b2, InstrV::Label { label: name(lc) })) {
                        lemma_tr_stmt_len(
                            *body,
                            env.push(Map::empty()),
                            jumps.push((lx, lc)),
                            ntm,
                            emit(b3, InstrV::GotoIfFalse { cond: reg(c), dest: name(lx) }),
                        );
                    }
                }
            }
        },
        StmtV::Block { stmts, .. } => {
            lemma_tr_stmts_len(stmts, env.push(Map::empty()), jumps, ntm, b);
        },
        StmtV::FnDecl { args, body, .. } => {
            let bb = BuilderV { instrs: Seq::empty(), regs: b.regs, labels: b.labels };
            lemma_tr_params_len(args, env.push(Map::empty()), bb);
            if let Some((env1, bb1)) = tr_params(args, env.push(Map::empty()), bb) {
                lemma_tr_stmt_len(*body, env1.push(Map::empty()), Seq::empty(), ntm, bb1);
            }
        },
        _ => {},
    }
}

proof fn lemma_tr_stmts_len(
    ss: Seq<StmtV>,
    env: Seq<Map<Seq<char>, Seq<char>>>,
    jumps: Seq<(Seq<char>, Seq<char>)>,
    ntm: Map<usize, TypeV>,
    b: BuilderV,
)
    requires
        env.len() > 0,
    ensures
        tr_stmts(ss, env, jumps, ntm, b) matches Some((Ok(()), env1, _)) ==> env1.len() == env.len(),
    decreases ss,
{
    if ss.len() > 0 {
        lemma_tr_stmts_len(ss.drop_last(), env, jumps, ntm, b);
        if let Some((Ok(()), env1, b1)) = tr_stmts(ss.drop_last(), env, jumps, ntm, b) {
            lemma_tr_stmt_len(ss.last(), env1, jumps, ntm, b1);
        }
    }
}

/// Once a statement fails or cannot be translated, so does the sequence, with the same
/// outcome.
proof fn lemma_tr_stmts_stop(
    ss: Seq<StmtV>,
    env: Seq<Map<Seq<char>, Seq<char>>>,
    jumps: Seq<(Seq<char>, Seq<char>)>,
    ntm: Map<usize, TypeV>,
    b: BuilderV,
    i: int,
    k: int,
)
    requires
        0 <= i < k <= ss.len(),
        !(tr_stmts(ss.take(i + 1), env, jumps, ntm, b) matches Some((Ok(()), _, _))),
    ensures
        tr_stmts(ss.take(k), env, jumps, ntm, b) == tr_stmts(ss.take(i + 1), env, jumps, ntm, b),
    decreases k,
{
    if k > i + 1 {
        lemma_tr_stmts_stop(ss, env, jumps, ntm, b, i, k - 1);
        assert(ss.take(k).drop_last() == ss.take(k - 1));
    }
}

/// Translates a statement; `None` when translation cannot go on.
fn translate_stmt(
    stmt: &Stmt,
    b: &mut IRBuilder,
    sym_tab: &mut SymbolTable<String>,
    jmp_ctx: &mut JumpContext,
    ntm: &HashMap<usize, Type>,
) -> (r: Option<Result<(), Error>>)
    requires
        old(sym_tab).scopes().len() > 0,
    ensures
        stmt_result(
            r,
            final(b)@,
            reg_env(final(sym_tab).scopes()),
            final(jmp_ctx).labels() == old(jmp_ctx).labels(),
            tr_stmt(stmt@, reg_env(old(sym_tab).scopes()), old(jmp_ctx).labels(), type_check::ntm_model(ntm@), old(b)@),
        ),
    decreases ast::stmt_size(stmt@), 1nat,
{
    match stmt {
        Stmt::Declare { .. } | Stmt::Define { .. } => translate_decl(stmt, b, sym_tab, ntm),
        Stmt::Assign { .. } => translate_assign(stmt, b, sym_tab, ntm),
        Stmt::If { .. } => translate_if(stmt, b, sym_tab, jmp_ctx, ntm),
        Stmt::While { .. } => translate_while(stmt, b, sym_tab, jmp_ctx, ntm),
        Stmt::Break { .. } | Stmt::Continue { .. } => translate_jump(stmt, b, sym_tab, jmp_ctx),
        Stmt::Block { .. } => translate_block(stmt, b, sym_tab, jmp_ctx, ntm),
        Stmt::Return { .. } | Stmt::PrintByte { .. } | Stmt::PrintInt { .. } | Stmt::PrintString { .. }
        | Stmt::Expr { .. } => translate_value_stmt(stmt, b, sym_tab, ntm),
        Stmt::FnDecl { .. } => translate_fndecl(stmt, b, sym_tab, ntm),
    }
}

/// Translates an assignment.
fn translate_assign(stmt: &Stmt, b: &mut IRBuilder, sym_tab: &SymbolTable<String>, ntm: &HashMap<usize, Type>) -> (r: Option<Result<(), Error>>)
    requires
        stmt@ is Assign,
    ensures
        stmt_result(r, final(b)@, reg_env(sym_tab.scopes()), true, tr_assign(stmt@, reg_env(sym_tab.scopes()), type_check::ntm_model(ntm@), old(b)@)),
{
    match stmt {
        Stmt::Assign { id: _, loc: _, lhs, rhs } => {
            let dest_reg = match translate_lvalue(lhs, b, sym_tab, ntm) {
                Some(r) => r,
                None => return None,
            };
            let val_reg = match translate_rvalue(rhs, b, sym_tab, ntm) {
                Some(r) => r,
                None => return None,
            };
            let lhs_type = match node_type(ntm, lhs.id()) {
                Some(t) => t,
                None => return None,
            };
            let size = match width_of(lhs_type) {
                Some(s) => s,
                None => return None,
            };
            b.emit(Instr::Store { size, src: Operand::Reg(val_reg), dest: dest_reg });
            Some(Ok(()))
        },
        _ => None,
    }
}

/// Translates a `break` or a `continue`.
fn translate_jump(stmt: &Stmt, b: &mut IRBuilder, sym_tab: &SymbolTable<String>, jmp_ctx: &JumpContext) -> (r: Option<Result<(), Error>>)
    requires
        stmt@ is Break || stmt@ is Continue,
    ensures
        stmt_result(r, final(b)@, reg_env(sym_tab.scopes()), true, tr_jump(stmt@, reg_env(sym_tab.scopes()), jmp_ctx.labels(), old(b)@)),
{
    match stmt {
        Stmt::Break { id: _, loc } => {
            match jmp_ctx.lookup_break() {
                Some(x) => {
                    b.emit(Instr::Goto { dest: Lbl::Name(x.to_owned()) });
                    Some(Ok(()))
                },
                None => Some(Err(Error::new(*loc, crate::text::text_of("Statement break outside any loop")))),
            }
        },
        Stmt::Continue { id: _, loc } => {
            match jmp_ctx.lookup_continue() {
                Some(x) => {
                    b.emit(Instr::Goto { dest: Lbl::Name(x.to_owned()) });
                    Some(Ok(()))
                },
                None => Some(Err(Error::new(*loc, crate::text::text_of("Statement continue outside any loop")))),
            }
        },
        _ => None,
    }
}

/// Translates a statement that holds one expression: `return`, a print, or an
/// expression statement.
fn translate_value_stmt(stmt: &Stmt, b: &mut IRBuilder, sym_tab: &SymbolTable<String>, ntm: &HashMap<usize, Type>) -> (r: Option<Result<(), Error>>)
    requires
        stmt@ is Return || stmt@ is PrintByte || stmt@ is PrintInt || stmt@ is PrintString || stmt@ is Expr,
    ensures
        stmt_result(r, final(b)@, reg_env(sym_tab.scopes()), true, tr_value_stmt(stmt@, reg_env(sym_tab.scopes()), type_check::ntm_model(ntm@), old(b)@)),
{
    let expr = match stmt {
        Stmt::Return { id: _, loc: _, expr } => expr,
        Stmt::PrintByte { id: _, loc: _, expr } => expr,
        Stmt::PrintInt { id: _, loc: _, expr } => expr,
        Stmt::PrintString { id: _, loc: _, expr } => expr,
        Stmt::Expr { id: _, loc: _, expr } => expr,
        _ => return None,
    };
    let r = match translate_rvalue(expr, b, sym_tab, ntm) {
        Some(r) => r,
        None => return None,
    };
    match stmt {
        Stmt::Return { .. } => b.emit(Instr::Ret { operand: Operand::Reg(r) }),
        Stmt::PrintByte { .. } => b.emit(Instr::PrintByte { operand: Operand::Reg(r) }),
        Stmt::PrintInt { .. } => b.emit(Instr::PrintInt { operand: Operand::Reg(r) }),
        Stmt::PrintString { .. } => b.emit(Instr::PrintString { src: Operand::Reg(r) }),
        _ => {},
    }
    Some(Ok(()))
}

/// Translates a declaration or a definition: a slot for the variable, its address in a
/// fresh register, and the store of the initial value, if any.
fn translate_decl(stmt: &Stmt, b: &mut IRBuilder, sym_tab: &mut SymbolTable<String>, ntm: &HashMap<usize, Type>) -> (r: Option<Result<(), Error>>)
    requires
        stmt@ is Declare || stmt@ is Define,
        old(sym_tab).scopes().len() > 0,
    ensures
        stmt_result(r, final(b)@, reg_env(final(sym_tab).scopes()), true, tr_decl(stmt@, reg_env(old(sym_tab).scopes()), type_check::ntm_model(ntm@), old(b)@)),
{
    let (typ, name) = match stmt {
        Stmt::Declare { id: _, loc: _, typ, name } => (typ, name),
        Stmt::Define { id: _, loc: _, typ, name, rhs: _ } => (typ, name),
        _ => return None,
    };
    let addr_reg = match fresh_reg_of(b) {
        Some(r) => r,
        None => return None,
    };
    let size = match checked_size_of(typ) {
        Some(s) => s,
        None => return None,
    };
    b.emit(Instr::Alloc { dest: addr_reg.clone(), size: size as usize });
    if let Stmt::Define { id: _, loc: _, typ: _, name: _, rhs } = stmt {
        let val_reg = match translate_rvalue(rhs, b, sym_tab, ntm) {
            Some(r) => r,
            None => return None,
        };
        let kind = match width_of(typ) {
            Some(k) => k,
            None => return None,
        };
        b.emit(Instr::Store { size: kind, src: Operand::Reg(val_reg), dest: addr_reg.clone() });
    }
    proof {
        lemma_reg_env_define(sym_tab.scopes(), name@, addr_reg);
    }
    sym_tab.define(name.as_str(), addr_reg);
    Some(Ok(()))
}

/// Translates `if (cond) t else f`.
fn translate_if(
    stmt: &Stmt,
    b: &mut IRBuilder,
    sym_tab: &mut SymbolTable<String>,
    jmp_ctx: &mut JumpContext,
    ntm: &HashMap<usize, Type>,
) -> (r: Option<Result<(), Error>>)
    requires
        stmt@ is If,
        old(sym_tab).scopes().len() > 0,
    ensures
        stmt_result(
            r,
            final(b)@,
            reg_env(final(sym_tab).scopes()),
            final(jmp_ctx).labels() == old(jmp_ctx).labels(),
            tr_if(stmt@, reg_env(old(sym_tab).scopes()), old(jmp_ctx).labels(), type_check::ntm_model(ntm@), old(b)@),
        ),
    decreases ast::stmt_size(stmt@), 0nat,
{
    match stmt {
        Stmt::If { id: _, loc: _, cond, true_arm, false_arm } => {
            let lx = match fresh_label_of(b) {
                Some(l) => l,
                None => return None,
            };
            let lf = match fresh_label_of(b) {
                Some(l) => l,
                None => return None,
            };
            let cond_reg = match translate_rvalue(cond, b, sym_tab, ntm) {
                Some(r) => r,
                None => return None,
            };
            b.emit(Instr::GotoIfFalse { cond: Operand::Reg(cond_reg), dest: Lbl::Name(lf.clone()) });
            proof {
                lemma_reg_env_push(sym_tab.scopes());
            }
            sym_tab.push();
            let ghost e1 = reg_env(sym_tab.scopes());
            let ghost b1 = b@;
            match translate_stmt(true_arm, b, sym_tab, jmp_ctx, ntm) {
                None => return None,
                Some(Err(e)) => return Some(Err(e)),
                Some(Ok(())) => {},
            }
            proof {
                lemma_tr_stmt_len(true_arm@, e1, old(jmp_ctx).labels(), type_check::ntm_model(ntm@), b1);
                lemma_reg_env_pop(sym_tab.scopes());
            }
            sym_tab.pop();
            b.emit(Instr::Goto { dest: Lbl::Name(lx.clone()) });
            b.emit(Instr::Label { label: Lbl::Name(lf) });
            proof {
                lemma_reg_env_push(sym_tab.scopes());
            }
            sym_tab.push();
            let ghost e2 = reg_env(sym_tab.scopes());
            let ghost b2 = b@;
            match translate_stmt(false_arm, b, sym_tab, jmp_ctx, ntm) {
                None => return None,
                Some(Err(e)) => return Some(Err(e)),
                Some(Ok(())) => {},
            }
            proof {
                lemma_tr_stmt_len(false_arm@, e2, old(jmp_ctx).labels(), type_check::ntm_model(ntm@), b2);
                lemma_reg_env_pop(sym_tab.scopes());
            }
            sym_tab.pop();
            b.emit(Instr::Label { label: Lbl::Name(lx) });
            Some(Ok(()))
        },
        _ => None,
    }
}

/// Translates `while (cond) body`.
fn translate_while(
    stmt: &Stmt,
    b: &mut IRBuilder,
    sym_tab: &mut SymbolTable<String>,
    jmp_ctx: &mut JumpContext,
    ntm: &HashMap<usize, Type>,
) -> (r: Option<Result<(), Error>>)
    requires
        stmt@ is While,
        old(sym_tab).scopes().len() > 0,
    ensures
        stmt_result(
            r,
            final(b)@,
            reg_env(final(sym_tab).scopes()),
            final(jmp_ctx).labels() == old(jmp_ctx).labels(),
            tr_while(stmt@, reg_env(old(sym_tab).scopes()), old(jmp_ctx).labels(), type_check::ntm_model(ntm@), old(b)@),
        ),
    decreases ast::stmt_size(stmt@), 0nat,
{
    match stmt {
        Stmt::While { id: _, loc: _, cond, body } => {
            let lx = match fresh_label_of(b) {
                Some(l) => l,
                None => return None,
            };
            let lc = match fresh_label_of(b) {
                Some(l) => l,
                None => return None,
            };
            b.emit(Instr::Label { label: Lbl::Name(lc.clone()) });
            let cond_reg = match translate_rvalue(cond, b, sym_tab, ntm) {
                Some(r) => r,
                None => return None,
            };
            b.emit(Instr::GotoIfFalse { cond: Operand::Reg(cond_reg), dest: Lbl::Name(lx.clone()) });
            jmp_ctx.push(lx.as_str(), lc.as_str());
            proof {
                lemma_reg_env_push(sym_tab.scopes());
            }
            sym_tab.push();
            let ghost e1 = reg_env(sym_tab.scopes());
            let ghost b1 = b@;
            let ghost j1 = jmp_ctx.labels();
            match translate_stmt(body, b, sym_tab, jmp_ctx, ntm) {
                None => return None,
                Some(Err(e)) => return Some(Err(e)),
                Some(Ok(())) => {},
            }
            proof {
                lemma_tr_stmt_len(body@, e1, j1, type_check::ntm_model(ntm@), b1);
                lemma_reg_env_pop(sym_tab.scopes());
            }
            sym_tab.pop();
            jmp_ctx.pop();
            assert(jmp_ctx.labels() =~= old(jmp_ctx).labels());
            b.emit(Instr::Goto { dest: Lbl::Name(lc) });
            b.emit(Instr::Label { label: Lbl::Name(lx) });
            Some(Ok(()))
        },
        _ => None,
    }
}

/// Translates a block, in a scope of its own.
#[verifier::rlimit(40)]
fn translate_block(
    stmt: &Stmt,
    b: &mut IRBuilder,
    sym_tab: &mut SymbolTable<String>,
    jmp_ctx: &mut JumpContext,
    ntm: &HashMap<usize, Type>,
) -> (r: Option<Result<(), Error>>)
    requires
        stmt@ is Block,
        old(sym_tab).scopes().len() > 0,
    ensures
        stmt_result(
            r,
            final(b)@,
            reg_env(final(sym_tab).scopes()),
            final(jmp_ctx).labels() == old(jmp_ctx).labels(),
            tr_block(stmt@, reg_env(old(sym_tab).scopes()), old(jmp_ctx).labels(), type_check::ntm_model(ntm@), old(b)@),
        ),
    decreases ast::stmt_size(stmt@), 0nat,
{
    match stmt {
        Stmt::Block { id: _, loc: _, stmts } => {
            proof {
                lemma_reg_env_push(sym_tab.scopes());
            }
            sym_tab.push();
            let ghost ss = ast::stmts_view(stmts@);
            let ghost env1 = reg_env(sym_tab.scopes());
            let ghost jumps = jmp_ctx.labels();
            let ghost m = type_check::ntm_model(ntm@);
            let ghost b0 = b@;
            proof {
                ast::lemma_stmts_view(stmts@);
                assert(ss.take(0) == Seq::<StmtV>::empty());
            }
            let mut i: usize = 0;
            while i < stmts.len()
                invariant
                    ss == ast::stmts_view(stmts@),
                    ast::stmt_size(stmt@) == 1 + ast::stmts_size(ss),
                    tr_block(stmt@, reg_env(old(sym_tab).scopes()), jumps, m, b0) == match tr_stmts(ss, env1, jumps, m, b0) {
                        None => None,
                        Some((Err(e), env2, b2)) => Some((Err(e), env2, b2)),
                        Some((Ok(()), env2, b2)) => Some((Ok::<(), (usize, Seq<char>)>(()), env2.drop_last(), b2)),
                    },
                    env1 == reg_env(old(sym_tab).scopes()).push(Map::empty()),
                    jumps == old(jmp_ctx).labels(),
                    m == type_check::ntm_model(ntm@),
                    b0 == old(b)@,
                    ss.len() == stmts.len(),
                    forall|j: int| 0 <= j < stmts.len() ==> #[trigger] ss[j] == ast::stmt_view(*stmts@[j]),
                    i <= stmts.len(),
                    sym_tab.scopes().len() == env1.len(),
                    jmp_ctx.labels() == jumps,
                    tr_stmts(ss.take(i as int), env1, jumps, m, b0) == Some((
                        Ok::<(), (usize, Seq<char>)>(()),
                        reg_env(sym_tab.scopes()),
                        b@,
                    )),
                decreases stmts.len() - i,
            {
                proof {
                    ast::lemma_stmts_size(ss, i as int);
                    assert(ss.take(i + 1).drop_last() == ss.take(i as int));
                    assert(ss.take(i + 1).last() == ss[i as int]);
                    lemma_tr_stmt_len(ss[i as int], reg_env(sym_tab.scopes()), jumps, m, b@);
                }
                let r = translate_stmt(&stmts[i], b, sym_tab, jmp_ctx, ntm);
                match r {
                    Some(Ok(())) => {},
                    _ => {
                        proof {
                            lemma_tr_stmts_stop(ss, env1, jumps, m, b0, i as int, ss.len() as int);
                            assert(ss.take(ss.len() as int) == ss);
                        }
                        return r;
                    },
                }
                i += 1;
            }
            proof {
                assert(ss.take(stmts.len() as int) == ss);
                lemma_reg_env_pop(sym_tab.scopes());
            }
            sym_tab.pop();
            Some(Ok(()))
        },
        _ => None,
    }
}

/// Translates a function declaration: its body goes into a builder of its own, which
/// continues the counters of `b`, and becomes one `FnDecl` instruction of `b`.
#[verifier::loop_isolation(false)]
fn translate_fndecl(stmt: &Stmt, b: &mut IRBuilder, sym_tab: &mut SymbolTable<String>, ntm: &HashMap<usize, Type>) -> (r: Option<Result<(), Error>>)
    requires
        stmt@ is FnDecl,
        old(sym_tab).scopes().len() > 0,
    ensures
        stmt_result(r, final(b)@, reg_env(final(sym_tab).scopes()), true, tr_fn(stmt@, reg_env(old(sym_tab).scopes()), type_check::ntm_model(ntm@), old(b)@)),
    decreases ast::stmt_size(stmt@), 0nat,
{
    match stmt {
        Stmt::FnDecl { id: _, loc: _, name, args, ret_type: _, body } => {
            let mut body_b = IRBuilder::new();
            body_b.set_counters(b.get_counters());
            let mut body_jmp = JumpContext::new();
            let ghost pv = ast::params_view(args@);
            let ghost bb0 = body_b@;
            proof {
                lemma_reg_env_push(sym_tab.scopes());
            }
            sym_tab.push();
            let ghost env0 = reg_env(sym_tab.scopes());
            proof {
                assert(pv.take(0) == Seq::<(Seq<char>, TypeV)>::empty());
            }
            let mut i: usize = 0;
            while i < args.len()
                invariant
                    pv == ast::params_view(args@),
                    pv.len() == args.len(),
                    i <= args.len(),
                    env0.len() > 0,
                    sym_tab.scopes().len() == env0.len(),
                    tr_params(pv.take(i as int), env0, bb0) == Some((reg_env(sym_tab.scopes()), body_b@)),
                decreases args.len() - i,
            {
                proof {
                    assert(pv.take(i + 1).drop_last() == pv.take(i as int));
                    assert(pv.take(i + 1).last() == pv[i as int]);
                    lemma_tr_params_len(pv.take(i as int), env0, bb0);
                }
                let (arg_name, arg_type) = &args[i];
                let addr_reg = match fresh_reg_of(&mut body_b) {
                    Some(r) => r,
                    None => {
                        proof {
                            lemma_tr_params_none(pv, env0, bb0, i as int, pv.len() as int);
                            assert(pv.take(pv.len() as int) == pv);
                        }
                        return None;
                    },
                };
                let size = match checked_size_of(arg_type) {
                    Some(s) => s,
                    None => {
                        proof {
                            lemma_tr_params_none(pv, env0, bb0, i as int, pv.len() as int);
                            assert(pv.take(pv.len() as int) == pv);
                        }
                        return None;
                    },
                };
                body_b.emit(Instr::Alloc { dest: addr_reg.clone(), size: size as usize });
                let kind = match width_of(arg_type) {
                    Some(k) => k,
                    None => {
                        proof {
                            lemma_tr_params_none(pv, env0, bb0, i as int, pv.len() as int);
                            assert(pv.take(pv.len() as int) == pv);
                        }
                        return None;
                    },
                };
                body_b.emit(Instr::Store { size: kind, src: Operand::Reg(arg_name.clone()), dest: addr_reg.clone() });
                proof {
                    lemma_reg_env_define(sym_tab.scopes(), arg_name@, addr_reg);
                }
                sym_tab.define(arg_name.as_str(), addr_reg);
                i += 1;
            }
            proof {
                assert(pv.take(args.len() as int) == pv);
                lemma_tr_params_len(pv, env0, bb0);
                lemma_reg_env_push(sym_tab.scopes());
            }
            sym_tab.push();
            let ghost env1 = reg_env(sym_tab.scopes());
            let ghost bb1 = body_b@;
            match translate_stmt(body, &mut body_b, sym_tab, &mut body_jmp, ntm) {
                None => return None,
                Some(Err(e)) => return Some(Err(e)),
                Some(Ok(())) => {},
            }
            proof {
                lemma_tr_stmt_len(body@, env1, Seq::empty(), type_check::ntm_model(ntm@), bb1);
                lemma_reg_env_pop(sym_tab.scopes());
            }
            sym_tab.pop();
            proof {
                lemma_reg_env_pop(sym_tab.scopes());
            }
            sym_tab.pop();
            b.set_counters(body_b.get_counters());
            let mut params: Vec<String> = Vec::new();
            let mut j: usize = 0;
            while j < args.len()
                invariant
                    j <= args.len(),
                    params.len() == j,
                    forall|k: int| 0 <= k < j ==> #[trigger] params@[k]@ == args@[k].0@,
                decreases args.len() - j,
            {
                params.push(args[j].0.clone());
                j += 1;
            }
            assert(ir::strings_view(params@) =~= ast::params_view(args@).map_values(|a: (Seq<char>, TypeV)| a.0));
            b.emit(Instr::FnDecl { name: name.clone(), params, body: body_b.into_instrs() });
            Some(Ok(()))
        },
        _ => None,
    }
}

/// Translates a program into `ir_builder`, on the inputs on which translation can go
/// on (`tr_program` is not `None`): the result and the instructions are those that the
/// spec gives; a `break` or a `continue` outside any loop is an error.
pub fn translate_stmts(stmts: &Vec<Box<Stmt>>, ir_builder: &mut IRBuilder, ntm: &HashMap<usize, Type>) -> (r: Result<(), Error>)
    requires
        tr_program(ast::stmts_view(stmts@), type_check::ntm_model(ntm@), old(ir_builder)@) is Some,
    ensures
        tr_program(ast::stmts_view(stmts@), type_check::ntm_model(ntm@), old(ir_builder)@) matches Some((res, b2))
            && type_check::unit_result_model(r) == res && final(ir_builder)@ == b2,
{
    match try_translate_stmts(stmts, ir_builder, ntm) {
        Some(r) => r,
        None => Ok(()),
    }
}

/// Translates a program into `ir_builder`: `None` on exactly the inputs on which
/// translation cannot go on, else the result of `translate_stmts`.
#[verifier::rlimit(40)]
pub fn try_translate_stmts(stmts: &Vec<Box<Stmt>>, ir_builder: &mut IRBuilder, ntm: &HashMap<usize, Type>) -> (r: Option<Result<(), Error>>)
    ensures
        match tr_program(ast::stmts_view(stmts@), type_check::ntm_model(ntm@), old(ir_builder)@) {
            None => r is None,
            Some((res, b2)) => r matches Some(x) && type_check::unit_result_model(x) == res && final(ir_builder)@ == b2,
        },
{
    let mut sym_tab: SymbolTable<String> = SymbolTable::new();
    proof {
        lemma_reg_env_push(sym_tab.scopes());
        assert(reg_env(sym_tab.scopes()) =~= Seq::<Map<Seq<char>, Seq<char>>>::empty());
    }
    sym_tab.push();
    let mut jmp_ctx: JumpContext = JumpContext::new();
    let ghost ss = ast::stmts_view(stmts@);
    let ghost env0 = reg_env(sym_tab.scopes());
    let ghost m = type_check::ntm_model(ntm@);
    let ghost b0 = ir_builder@;
    proof {
        ast::lemma_stmts_view(stmts@);
        assert(ss.take(0) == Seq::<StmtV>::empty());
        assert(env0 =~= seq![Map::<Seq<char>, Seq<char>>::empty()]);
    }
    let mut i: usize = 0;
    while i < stmts.len()
        invariant
            ss == ast::stmts_view(stmts@),
            env0 == seq![Map::<Seq<char>, Seq<char>>::empty()],
            m == type_check::ntm_model(ntm@),
            b0 == old(ir_builder)@,
            ss.len() == stmts.len(),
            forall|j: int| 0 <= j < stmts.len() ==> #[trigger] ss[j] == ast::stmt_view(*stmts@[j]),
            i <= stmts.len(),
            sym_tab.scopes().len() == 1,
            jmp_ctx.labels() == Seq::<(Seq<char>, Seq<char>)>::empty(),
            tr_stmts(ss.take(i as int), env0, Seq::empty(), m, b0) == Some((
                Ok::<(), (usize, Seq<char>)>(()),
                reg_env(sym_tab.scopes()),
                ir_builder@,
            )),
        decreases stmts.len() - i,
    {
        proof {
            assert(ss.take(i + 1).drop_last() == ss.take(i as int));
            assert(ss.take(i + 1).last() == ss[i as int]);
            lemma_tr_stmt_len(ss[i as int], reg_env(sym_tab.scopes()), Seq::empty(), m, ir_builder@);
        }
        let r = translate_stmt(&stmts[i], ir_builder, &mut sym_tab, &mut jmp_ctx, ntm);
        match r {
            Some(Ok(())) => {},
            _ => {
                proof {
                    lemma_tr_stmts_stop(ss, env0, Seq::empty(), m, b0, i as int, ss.len() as int);
                    assert(ss.take(ss.len() as int) == ss);
                }
                return r;
            },
        }
        i += 1;
    }
    proof {
        assert(ss.take(stmts.len() as int) == ss);
    }
    Some(Ok(()))
}


/// The IR operator that computes a source operator on two integers: `+` adds, `-`
/// subtracts, `*` multiplies, `/` divides, and each comparison compares the same way.
pub open spec fn int_counterpart(op: BinaryOperator) -> BinaryOp {
    match op {
        BinaryOperator::Add => BinaryOp::Add,
        BinaryOperator::Sub => BinaryOp::Sub,
        BinaryOperator::Mul => BinaryOp::Mul,
        BinaryOperator::Div => BinaryOp::Div,
        BinaryOperator::Lt => BinaryOp::Lt,
        BinaryOperator::Leq => BinaryOp::Leq,
        BinaryOperator::Gt => BinaryOp::Gt,
        BinaryOperator::Geq => BinaryOp::Geq,
        BinaryOperator::Eq => BinaryOp::Eq,
        BinaryOperator::Neq => BinaryOp::Neq,
        BinaryOperator::And | BinaryOperator::Or => BinaryOp::Add,
    }
}

/// An arithmetic or comparison expression on two integers is computed by one IR
/// instruction of the same operator, last: it puts into the result register the left
/// operand's register `op` the right operand's register, each operand computed first,
/// left before right.
pub proof fn law_int_operation(
    id: usize,
    loc: usize,
    left: ExprV,
    op: BinaryOperator,
    right: ExprV,
    env: Seq<Map<Seq<char>, Seq<char>>>,
    ntm: Map<usize, TypeV>,
    b: BuilderV,
)
    requires
        !(op is And || op is Or),
        ntm.contains_key(left.node_id()),
        ntm.contains_key(right.node_id()),
        ntm[left.node_id()] == TypeV::Int,
        ntm[right.node_id()] == TypeV::Int,
    ensures
        tr_rvalue(ExprV::BinOp { id, loc, left: Box::new(left), operator: op, right: Box::new(right) }, env, ntm, b) matches Some(
            (r, b2),
        ) ==> ({
            let (r1, b1) = tr_rvalue(left, env, ntm, b)->0;
            let (r2, _) = tr_rvalue(right, env, ntm, b1)->0;
            b2.instrs.last() == InstrV::BinOp { dest: r, left: OperandV::Reg(r1), operator: int_counterpart(op), right: OperandV::Reg(r2) }
        }),
{
}

} // verus!
