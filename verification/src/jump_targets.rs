//! Every jump of the translated program lands on a label of the same function body, and
//! the passes after translation keep it so.
use vstd::prelude::*;
use crate::ast::{ExprV, StmtV};
use crate::ir;
use crate::ir::{BinaryOp, BuilderV, InstrV, LblV};
use crate::translate::{
    emit, fresh_label, fresh_reg, tr_args, tr_arith, tr_block, tr_decl, tr_fn, tr_if, tr_lvalue, tr_params,
    tr_plain, tr_program, tr_ptr_diff, tr_rvalue, tr_scaled, tr_stmt, tr_stmts, tr_while,
};
use crate::typ::TypeV;

verus! {

/// The label that an instruction defines, if it defines one by name.
pub open spec fn defined_label(i: InstrV) -> Set<Seq<char>> {
    match i {
        InstrV::Label { label: LblV::Name(l) } => set![l],
        _ => Set::empty(),
    }
}

/// The label that an instruction jumps to, if it jumps to one by name.
pub open spec fn jump_target(i: InstrV) -> Set<Seq<char>> {
    match i {
        InstrV::Goto { dest: LblV::Name(l) } => set![l],
        InstrV::GotoIf { dest: LblV::Name(l), .. } => set![l],
        InstrV::GotoIfFalse { dest: LblV::Name(l), .. } => set![l],
        _ => Set::empty(),
    }
}

/// The labels that the instructions define, function bodies left out.
pub open spec fn labels(s: Seq<InstrV>) -> Set<Seq<char>>
    decreases s.len(),
{
    if s.len() == 0 {
        Set::empty()
    } else {
        labels(s.drop_last()).union(defined_label(s.last()))
    }
}

/// The labels that the instructions jump to, function bodies left out.
pub open spec fn targets(s: Seq<InstrV>) -> Set<Seq<char>>
    decreases s.len(),
{
    if s.len() == 0 {
        Set::empty()
    } else {
        targets(s.drop_last()).union(jump_target(s.last()))
    }
}

/// Whether every function body among the instructions has its jumps on its own labels.
pub open spec fn bodies_ok(s: Seq<InstrV>) -> bool
    decreases ir::instrs_size(s), 0nat,
{
    if s.len() == 0 {
        true
    } else {
        proof {
            ir::lemma_size_parts(s);
        }
        bodies_ok(s.drop_last()) && match s.last() {
            InstrV::FnDecl { body, .. } => jumps_ok(body, Set::empty()),
            _ => true,
        }
    }
}

/// Whether each jump of the instructions goes to a label that they define or to one of
/// `pending`, and the same holds, with nothing pending, in every function body.
pub open spec fn jumps_ok(s: Seq<InstrV>, pending: Set<Seq<char>>) -> bool
    decreases ir::instrs_size(s), 1nat,
{
    targets(s).subset_of(labels(s).union(pending)) && bodies_ok(s)
}

/// Whether `b2` extends what holds of `b`: the jumps of `b2` are fine given `pending`,
/// and `b2` keeps the labels of `b`.
pub open spec fn grows(b: BuilderV, b2: BuilderV, pending: Set<Seq<char>>) -> bool {
    jumps_ok(b2.instrs, pending) && labels(b.instrs).subset_of(labels(b2.instrs))
}

proof fn lemma_push(s: Seq<InstrV>, i: InstrV, p: Set<Seq<char>>)
    requires
        jumps_ok(s, p),
        jump_target(i).subset_of(labels(s).union(defined_label(i)).union(p)),
        i is FnDecl ==> jumps_ok(i->FnDecl_body, Set::empty()),
    ensures
        jumps_ok(s.push(i), p),
        labels(s.push(i)) == labels(s).union(defined_label(i)),
{
    assert(s.push(i).drop_last() == s);
    assert(s.push(i).last() == i);
}

/// Emitting an instruction that neither jumps nor defines a label nor declares a
/// function keeps what holds.
proof fn lemma_emit_plain(b: BuilderV, i: InstrV, p: Set<Seq<char>>)
    requires
        jumps_ok(b.instrs, p),
        jump_target(i) == Set::<Seq<char>>::empty(),
        defined_label(i) == Set::<Seq<char>>::empty(),
        !(i is FnDecl),
    ensures
        grows(b, emit(b, i), p),
{
    lemma_push(b.instrs, i, p);
    assert(labels(b.instrs).union(defined_label(i)) =~= labels(b.instrs));
}

proof fn lemma_emit(b: BuilderV, i: InstrV, p: Set<Seq<char>>)
    requires
        jumps_ok(b.instrs, p),
        jump_target(i).subset_of(labels(b.instrs).union(defined_label(i)).union(p)),
        i is FnDecl ==> jumps_ok(i->FnDecl_body, Set::empty()),
    ensures
        grows(b, emit(b, i), p),
        labels(emit(b, i).instrs) == labels(b.instrs).union(defined_label(i)),
{
    lemma_push(b.instrs, i, p);
}

proof fn lemma_grows_trans(b1: BuilderV, b2: BuilderV, b3: BuilderV, p: Set<Seq<char>>)
    requires
        grows(b1, b2, p),
        grows(b2, b3, p),
    ensures
        grows(b1, b3, p),
{
}

proof fn lemma_ok_wider(s: Seq<InstrV>, p: Set<Seq<char>>, q: Set<Seq<char>>)
    requires
        jumps_ok(s, p),
        p.subset_of(q),
    ensures
        jumps_ok(s, q),
{
}

proof fn lemma_tr_scaled(base: Seq<char>, idx: Seq<char>, inner: TypeV, op: BinaryOp, b: BuilderV, p: Set<Seq<char>>)
    requires
        jumps_ok(b.instrs, p),
    ensures
        tr_scaled(base, idx, inner, op, b) matches Some((_, b2)) ==> grows(b, b2, p),
{
    if let Some((_, b2)) = tr_scaled(base, idx, inner, op, b) {
        let f = crate::translate::byte_size(inner)->0;
        let (scaled, b1) = fresh_reg(b)->0;
        let (r, bb) = fresh_reg(b1)->0;
        let i1 = InstrV::BinOp { dest: scaled, left: crate::translate::reg(idx), operator: BinaryOp::Mul, right: ir::OperandV::Imm(f) };
        let i2 = InstrV::BinOp { dest: r, left: crate::translate::reg(base), operator: op, right: crate::translate::reg(scaled) };
        lemma_emit_plain(bb, i1, p);
        lemma_emit_plain(emit(bb, i1), i2, p);
    }
}

proof fn lemma_tr_plain(op: BinaryOp, r1: Seq<char>, r2: Seq<char>, b: BuilderV, p: Set<Seq<char>>)
    requires
        jumps_ok(b.instrs, p),
    ensures
        tr_plain(op, r1, r2, b) matches Some((_, b2)) ==> grows(b, b2, p),
{
    if let Some((r3, b1)) = fresh_reg(b) {
        lemma_emit_plain(b1, InstrV::BinOp { dest: r3, left: crate::translate::reg(r1), operator: op, right: crate::translate::reg(r2) }, p);
    }
}

proof fn lemma_tr_ptr_diff(r1: Seq<char>, r2: Seq<char>, inner: TypeV, b: BuilderV, p: Set<Seq<char>>)
    requires
        jumps_ok(b.instrs, p),
    ensures
        tr_ptr_diff(r1, r2, inner, b) matches Some((_, b2)) ==> grows(b, b2, p),
{
    if let Some((r3, b1)) = fresh_reg(b) {
        let i1 = InstrV::BinOp { dest: r3, left: crate::translate::reg(r1), operator: BinaryOp::Sub, right: crate::translate::reg(r2) };
        lemma_emit_plain(b1, i1, p);
        let b2 = emit(b1, i1);
        if let Some(f) = crate::translate::byte_size(inner) {
            if let Some((r4, b3)) = fresh_reg(b2) {
                let i2 = InstrV::BinOp { dest: r4, left: crate::translate::reg(r3), operator: BinaryOp::Div, right: ir::OperandV::Imm(f) };
                lemma_emit_plain(b3, i2, p);
            }
        }
    }
}

proof fn lemma_tr_arith(
    op: crate::ast::BinaryOperator,
    r1: Seq<char>,
    r2: Seq<char>,
    lid: usize,
    rid: usize,
    ntm: Map<usize, TypeV>,
    b: BuilderV,
    p: Set<Seq<char>>,
)
    requires
        jumps_ok(b.instrs, p),
    ensures
        tr_arith(op, r1, r2, lid, rid, ntm, b) matches Some((_, b2)) ==> grows(b, b2, p),
{
    lemma_tr_plain(BinaryOp::Add, r1, r2, b, p);
    lemma_tr_plain(BinaryOp::Sub, r1, r2, b, p);
    if let Some(o) = crate::translate::binop_ir(op) {
        lemma_tr_plain(o, r1, r2, b, p);
    }
    if ntm.contains_key(lid) && ntm.contains_key(rid) {
        if let Some(inner) = crate::translate::pointee(ntm[lid]) {
            lemma_tr_scaled(r1, r2, inner, BinaryOp::Add, b, p);
            lemma_tr_scaled(r1, r2, inner, BinaryOp::Sub, b, p);
            lemma_tr_ptr_diff(r1, r2, inner, b, p);
        }
        if let Some(inner) = crate::translate::pointee(ntm[rid]) {
            lemma_tr_scaled(r2, r1, inner, BinaryOp::Add, b, p);
        }
    }
}


/// Labels that the instructions define need not be pending.
proof fn lemma_ok_narrow(s: Seq<InstrV>, p: Set<Seq<char>>, q: Set<Seq<char>>)
    requires
        jumps_ok(s, p.union(q)),
        q.subset_of(labels(s)),
    ensures
        jumps_ok(s, p),
{
}

proof fn lemma_rv(e: ExprV, env: Seq<Map<Seq<char>, Seq<char>>>, ntm: Map<usize, TypeV>, b: BuilderV, p: Set<Seq<char>>)
    requires
        jumps_ok(b.instrs, p),
    ensures
        tr_rvalue(e, env, ntm, b) matches Some((_, b2)) ==> grows(b, b2, p),
    decreases e, 1nat,
{
    match e {
        ExprV::Var { id, .. } | ExprV::Deref { id, .. } | ExprV::Subscr { id, .. } => {
            lemma_lv(e, env, ntm, b, p);
            if ntm.contains_key(id) {
                if let Some((addr, b1)) = tr_lvalue(e, env, ntm, b) {
                    if let Some(sz) = crate::translate::size_kind(ntm[id]) {
                        if let Some((r, bb)) = fresh_reg(b1) {
                            lemma_emit_plain(bb, InstrV::Load { size: sz, dest: r, src: addr }, p);
                        }
                    }
                }
            }
        },
        ExprV::Const { val, .. } => {
            if let Some((r, b1)) = fresh_reg(b) {
                lemma_emit_plain(b1, InstrV::Move { dest: r, src: ir::OperandV::Imm(crate::translate::val_i32(val)) }, p);
            }
        },
        ExprV::AddrOf { operand, .. } => {
            lemma_lv(*operand, env, ntm, b, p);
        },
        ExprV::BinOp { left, operator, right, .. } => {
            if operator is And || operator is Or {
                if let Some((l_short, b1)) = fresh_label(b) {
                    if let Some((l_end, b2)) = fresh_label(b1) {
                        if let Some((r3, b3)) = fresh_reg(b2) {
                            let q = set![l_short, l_end];
                            let pq = p.union(q);
                            lemma_ok_wider(b3.instrs, p, pq);
                            lemma_rv(*left, env, ntm, b3, pq);
                            if let Some((r1, b4)) = tr_rvalue(*left, env, ntm, b3) {
                                let i1 = crate::translate::short_circuit(operator, r1, l_short);
                                lemma_emit(b4, i1, pq);
                                let b4e = emit(b4, i1);
                                lemma_rv(*right, env, ntm, b4e, pq);
                                if let Some((r2, b5)) = tr_rvalue(*right, env, ntm, b4e) {
                                    let j1 = InstrV::Move { dest: r3, src: crate::translate::reg(r2) };
                                    let j2 = InstrV::Goto { dest: crate::translate::name(l_end) };
                                    let j3 = InstrV::Label { label: crate::translate::name(l_short) };
                                    let j4 = InstrV::Move {
                                        dest: r3,
                                        src: ir::OperandV::Imm(if operator is And { 0 } else { 1 }),
                                    };
                                    let j5 = InstrV::Label { label: crate::translate::name(l_end) };
                                    let c1 = emit(b5, j1);
                                    let c2 = emit(c1, j2);
                                    let c3 = emit(c2, j3);
                                    let c4 = emit(c3, j4);
                                    let c5 = emit(c4, j5);
                                    lemma_emit_plain(b5, j1, pq);
                                    lemma_emit(c1, j2, pq);
                                    lemma_emit(c2, j3, pq);
                                    lemma_emit_plain(c3, j4, pq);
                                    lemma_emit(c4, j5, pq);
                                    assert(q.subset_of(labels(c5.instrs)));
                                    lemma_ok_narrow(c5.instrs, p, q);
                                }
                            }
                        }
                    }
                }
            } else {
                lemma_rv(*left, env, ntm, b, p);
                if let Some((r1, b1)) = tr_rvalue(*left, env, ntm, b) {
                    lemma_rv(*right, env, ntm, b1, p);
                    if let Some((r2, b2)) = tr_rvalue(*right, env, ntm, b1) {
                        lemma_tr_arith(operator, r1, r2, left.node_id(), right.node_id(), ntm, b2, p);
                    }
                }
            }
        },
        ExprV::UnOp { operator, operand, .. } => {
            lemma_rv(*operand, env, ntm, b, p);
            if let Some((r1, b1)) = tr_rvalue(*operand, env, ntm, b) {
                if let Some((r2, b2)) = fresh_reg(b1) {
                    lemma_emit_plain(b2, InstrV::UnOp { dest: r2, operator: crate::translate::unop_ir(operator), operand: crate::translate::reg(r1) }, p);
                }
            }
        },
        ExprV::Cast { operand, .. } => {
            lemma_rv(*operand, env, ntm, b, p);
        },
        ExprV::Call { name, args, .. } => {
            lemma_args(args, env, ntm, b, p);
            if let Some((regs, b1)) = tr_args(args, env, ntm, b) {
                if let Some((rd, b2)) = fresh_reg(b1) {
                    lemma_emit_plain(b2, InstrV::Call { dest: rd, name, args: regs.map_values(|r: Seq<char>| crate::translate::reg(r)) }, p);
                }
            }
        },
    }
}

proof fn lemma_lv(e: ExprV, env: Seq<Map<Seq<char>, Seq<char>>>, ntm: Map<usize, TypeV>, b: BuilderV, p: Set<Seq<char>>)
    requires
        jumps_ok(b.instrs, p),
    ensures
        tr_lvalue(e, env, ntm, b) matches Some((_, b2)) ==> grows(b, b2, p),
    decreases e, 0nat,
{
    match e {
        ExprV::Deref { operand, .. } => {
            lemma_rv(*operand, env, ntm, b, p);
        },
        ExprV::Subscr { operand, index, .. } => {
            lemma_rv(*operand, env, ntm, b, p);
            if let Some((base, b1)) = tr_rvalue(*operand, env, ntm, b) {
                lemma_rv(*index, env, ntm, b1, p);
                if let Some((idx, b2)) = tr_rvalue(*index, env, ntm, b1) {
                    if ntm.contains_key(operand.node_id()) {
                        if let Some(inner) = crate::translate::pointee(ntm[operand.node_id()]) {
                            lemma_tr_scaled(base, idx, inner, BinaryOp::Add, b2, p);
                        }
                    }
                }
            }
        },
        _ => {},
    }
}

proof fn lemma_args(s: Seq<ExprV>, env: Seq<Map<Seq<char>, Seq<char>>>, ntm: Map<usize, TypeV>, b: BuilderV, p: Set<Seq<char>>)
    requires
        jumps_ok(b.instrs, p),
    ensures
        tr_args(s, env, ntm, b) matches Some((_, b2)) ==> grows(b, b2, p),
    decreases s, 2nat,
{
    if s.len() > 0 {
        lemma_args(s.drop_last(), env, ntm, b, p);
        if let Some((regs, b1)) = tr_args(s.drop_last(), env, ntm, b) {
            lemma_rv(s.last(), env, ntm, b1, p);
        }
    }
}


/// The labels of the enclosing loops, for `break` and for `continue`.
pub open spec fn loop_labels(jumps: Seq<(Seq<char>, Seq<char>)>) -> Set<Seq<char>> {
    Set::new(|l: Seq<char>| exists|k: int| 0 <= k < jumps.len() && (jumps[k].0 == l || jumps[k].1 == l))
}

proof fn lemma_params(args: Seq<(Seq<char>, TypeV)>, env: Seq<Map<Seq<char>, Seq<char>>>, b: BuilderV, p: Set<Seq<char>>)
    requires
        jumps_ok(b.instrs, p),
    ensures
        tr_params(args, env, b) matches Some((_, b2)) ==> grows(b, b2, p),
    decreases args.len(),
{
    if args.len() > 0 {
        lemma_params(args.drop_last(), env, b, p);
        if let Some((env1, b1)) = tr_params(args.drop_last(), env, b) {
            let (n, t) = args.last();
            if let Some((addr, b2)) = fresh_reg(b1) {
                if let Some(sz) = crate::translate::byte_size(t) {
                    if let Some(k) = crate::translate::size_kind(t) {
                        let i1 = InstrV::Alloc { dest: addr, size: sz as usize };
                        lemma_emit_plain(b2, i1, p);
                        lemma_emit_plain(emit(b2, i1), InstrV::Store { size: k, src: crate::translate::reg(n), dest: addr }, p);
                    }
                }
            }
        }
    }
}

proof fn lemma_st(
    s: StmtV,
    env: Seq<Map<Seq<char>, Seq<char>>>,
    jumps: Seq<(Seq<char>, Seq<char>)>,
    ntm: Map<usize, TypeV>,
    b: BuilderV,
    p: Set<Seq<char>>,
)
    requires
        jumps_ok(b.instrs, p),
        loop_labels(jumps).subset_of(p),
    ensures
        tr_stmt(s, env, jumps, ntm, b) matches Some((Ok(()), _, b2)) ==> grows(b, b2, p),
    decreases s, 1nat,
{
    match s {
        StmtV::Declare { typ, .. } => {
            if let Some((addr, b1)) = fresh_reg(b) {
                if let Some(sz) = crate::translate::byte_size(typ) {
                    lemma_emit_plain(b1, InstrV::Alloc { dest: addr, size: sz as usize }, p);
                }
            }
        },
        StmtV::Define { typ, rhs, .. } => {
            if let Some((addr, b1)) = fresh_reg(b) {
                if let Some(sz) = crate::translate::byte_size(typ) {
                    let i1 = InstrV::Alloc { dest: addr, size: sz as usize };
                    lemma_emit_plain(b1, i1, p);
                    let b1e = emit(b1, i1);
                    lemma_rv(*rhs, env, ntm, b1e, p);
                    if let Some((val, b2)) = tr_rvalue(*rhs, env, ntm, b1e) {
                        if let Some(k) = crate::translate::size_kind(typ) {
                            lemma_emit_plain(b2, InstrV::Store { size: k, src: crate::translate::reg(val), dest: addr }, p);
                        }
                    }
                }
            }
        },
        StmtV::Assign { lhs, rhs, .. } => {
            lemma_lv(*lhs, env, ntm, b, p);
            if let Some((dest, b1)) = tr_lvalue(*lhs, env, ntm, b) {
                lemma_rv(*rhs, env, ntm, b1, p);
                if let Some((val, b2)) = tr_rvalue(*rhs, env, ntm, b1) {
                    if ntm.contains_key(lhs.node_id()) {
                        if let Some(k) = crate::translate::size_kind(ntm[lhs.node_id()]) {
                            lemma_emit_plain(b2, InstrV::Store { size: k, src: crate::translate::reg(val), dest }, p);
                        }
                    }
                }
            }
        },
        StmtV::Break { .. } => {
            if jumps.len() > 0 {
                assert(loop_labels(jumps).contains(jumps.last().0));
                lemma_emit(b, InstrV::Goto { dest: crate::translate::name(jumps.last().0) }, p);
            }
        },
        StmtV::Continue { .. } => {
            if jumps.len() > 0 {
                assert(loop_labels(jumps).contains(jumps.last().1));
                lemma_emit(b, InstrV::Goto { dest: crate::translate::name(jumps.last().1) }, p);
            }
        },
        StmtV::Return { expr, .. } | StmtV::PrintByte { expr, .. } | StmtV::PrintInt { expr, .. }
        | StmtV::PrintString { expr, .. } | StmtV::Expr { expr, .. } => {
            lemma_rv(*expr, env, ntm, b, p);
            if let Some((r, b1)) = tr_rvalue(*expr, env, ntm, b) {
                if let Some(i) = crate::translate::value_instr(s, r) {
                    lemma_emit_plain(b1, i, p);
                }
            }
        },
        StmtV::If { cond, true_arm, false_arm, .. } => {
            lemma_if(s, env, jumps, ntm, b, p);
        },
        StmtV::While { cond, body, .. } => {
            lemma_while(s, env, jumps, ntm, b, p);
        },
        StmtV::Block { stmts, .. } => {
            lemma_sts(stmts, env.push(Map::empty()), jumps, ntm, b, p);
        },
        StmtV::FnDecl { .. } => {
            lemma_fn(s, env, ntm, b, p);
        },
    }
}

proof fn lemma_if(
    s: StmtV,
    env: Seq<Map<Seq<char>, Seq<char>>>,
    jumps: Seq<(Seq<char>, Seq<char>)>,
    ntm: Map<usize, TypeV>,
    b: BuilderV,
    p: Set<Seq<char>>,
)
    requires
        s is If,
        jumps_ok(b.instrs, p),
        loop_labels(jumps).subset_of(p),
    ensures
        tr_if(s, env, jumps, ntm, b) matches Some((Ok(()), _, b2)) ==> grows(b, b2, p),
    decreases s, 0nat,
{
    if let StmtV::If { cond, true_arm, false_arm, .. } = s {
        if let Some((lx, b1)) = fresh_label(b) {
            if let Some((lf, b2)) = fresh_label(b1) {
                let q = set![lx, lf];
                let pq = p.union(q);
                lemma_ok_wider(b2.instrs, p, pq);
                lemma_rv(*cond, env, ntm, b2, pq);
                if let Some((c, b3)) = tr_rvalue(*cond, env, ntm, b2) {
                    let g = InstrV::GotoIfFalse { cond: crate::translate::reg(c), dest: crate::translate::name(lf) };
                    lemma_emit(b3, g, pq);
                    let b3e = emit(b3, g);
                    lemma_st(*true_arm, env.push(Map::empty()), jumps, ntm, b3e, pq);
                    if let Some((Ok(()), env1, b4)) = tr_stmt(*true_arm, env.push(Map::empty()), jumps, ntm, b3e) {
                        let j1 = InstrV::Goto { dest: crate::translate::name(lx) };
                        let j2 = InstrV::Label { label: crate::translate::name(lf) };
                        let c1 = emit(b4, j1);
                        let c2 = emit(c1, j2);
                        lemma_emit(b4, j1, pq);
                        lemma_emit(c1, j2, pq);
                        lemma_st(*false_arm, env1.drop_last().push(Map::empty()), jumps, ntm, c2, pq);
                        if let Some((Ok(()), env2, b5)) = tr_stmt(*false_arm, env1.drop_last().push(Map::empty()), jumps, ntm, c2) {
                            let j3 = InstrV::Label { label: crate::translate::name(lx) };
                            lemma_emit(b5, j3, pq);
                            let c3 = emit(b5, j3);
                            assert(q.subset_of(labels(c3.instrs)));
                            lemma_ok_narrow(c3.instrs, p, q);
                        }
                    }
                }
            }
        }
    }
}

proof fn lemma_while(
    s: StmtV,
    env: Seq<Map<Seq<char>, Seq<char>>>,
    jumps: Seq<(Seq<char>, Seq<char>)>,
    ntm: Map<usize, TypeV>,
    b: BuilderV,
    p: Set<Seq<char>>,
)
    requires
        s is While,
        jumps_ok(b.instrs, p),
        loop_labels(jumps).subset_of(p),
    ensures
        tr_while(s, env, jumps, ntm, b) matches Some((Ok(()), _, b2)) ==> grows(b, b2, p),
    decreases s, 0nat,
{
    if let StmtV::While { cond, body, .. } = s {
        if let Some((lx, b1)) = fresh_label(b) {
            if let Some((lc, b2)) = fresh_label(b1) {
                let q = set![lx, lc];
                let pq = p.union(q);
                lemma_ok_wider(b2.instrs, p, pq);
                let l0 = InstrV::Label { label: crate::translate::name(lc) };
                lemma_emit(b2, l0, pq);
                let b2e = emit(b2, l0);
                lemma_rv(*cond, env, ntm, b2e, pq);
                if let Some((c, b3)) = tr_rvalue(*cond, env, ntm, b2e) {
                    let g = InstrV::GotoIfFalse { cond: crate::translate::reg(c), dest: crate::translate::name(lx) };
                    lemma_emit(b3, g, pq);
                    let b3e = emit(b3, g);
                    let jumps2 = jumps.push((lx, lc));
                    assert forall|l: Seq<char>| loop_labels(jumps2).contains(l) implies pq.contains(l) by {
                        let k = choose|k: int| 0 <= k < jumps2.len() && (jumps2[k].0 == l || jumps2[k].1 == l);
                        if k < jumps.len() {
                            assert(jumps2[k] == jumps[k]);
                            assert(loop_labels(jumps).contains(l));
                        }
                    }
                    lemma_st(*body, env.push(Map::empty()), jumps2, ntm, b3e, pq);
                    if let Some((Ok(()), env1, b4)) = tr_stmt(*body, env.push(Map::empty()), jumps2, ntm, b3e) {
                        let j1 = InstrV::Goto { dest: crate::translate::name(lc) };
                        let j2 = InstrV::Label { label: crate::translate::name(lx) };
                        let c1 = emit(b4, j1);
                        let c2 = emit(c1, j2);
                        lemma_emit(b4, j1, pq);
                        lemma_emit(c1, j2, pq);
                        assert(q.subset_of(labels(c2.instrs)));
                        lemma_ok_narrow(c2.instrs, p, q);
                    }
                }
            }
        }
    }
}

proof fn lemma_fn(s: StmtV, env: Seq<Map<Seq<char>, Seq<char>>>, ntm: Map<usize, TypeV>, b: BuilderV, p: Set<Seq<char>>)
    requires
        s is FnDecl,
        jumps_ok(b.instrs, p),
    ensures
        tr_fn(s, env, ntm, b) matches Some((Ok(()), _, b2)) ==> grows(b, b2, p),
    decreases s, 0nat,
{
    if let StmtV::FnDecl { name, args, body, .. } = s {
        let e0 = Set::<Seq<char>>::empty();
        let bb0 = BuilderV { instrs: Seq::empty(), regs: b.regs, labels: b.labels };
        assert(jumps_ok(bb0.instrs, e0));
        lemma_params(args, env.push(Map::empty()), bb0, e0);
        if let Some((env1, bb1)) = tr_params(args, env.push(Map::empty()), bb0) {
            assert(loop_labels(Seq::<(Seq<char>, Seq<char>)>::empty()) =~= e0);
            lemma_st(*body, env1.push(Map::empty()), Seq::empty(), ntm, bb1, e0);
            if let Some((Ok(()), env2, bb2)) = tr_stmt(*body, env1.push(Map::empty()), Seq::empty(), ntm, bb1) {
                let outer = BuilderV { instrs: b.instrs, regs: bb2.regs, labels: bb2.labels };
                let f = InstrV::FnDecl { name, params: args.map_values(|a: (Seq<char>, TypeV)| a.0), body: bb2.instrs };
                lemma_emit(outer, f, p);
            }
        }
    }
}

proof fn lemma_sts(
    ss: Seq<StmtV>,
    env: Seq<Map<Seq<char>, Seq<char>>>,
    jumps: Seq<(Seq<char>, Seq<char>)>,
    ntm: Map<usize, TypeV>,
    b: BuilderV,
    p: Set<Seq<char>>,
)
    requires
        jumps_ok(b.instrs, p),
        loop_labels(jumps).subset_of(p),
    ensures
        tr_stmts(ss, env, jumps, ntm, b) matches Some((Ok(()), _, b2)) ==> grows(b, b2, p),
    decreases ss, 2nat,
{
    if ss.len() > 0 {
        lemma_sts(ss.drop_last(), env, jumps, ntm, b, p);
        if let Some((Ok(()), env1, b1)) = tr_stmts(ss.drop_last(), env, jumps, ntm, b) {
            lemma_st(ss.last(), env1, jumps, ntm, b1, p);
        }
    }
}

/// Every jump of a translated program goes to a label of the same function body: in the
/// global code to a global label, in each function body, at any depth, to a label of that
/// body. (A `goto` by number, which translation never emits, is left out.)
pub proof fn law_jumps_land_on_labels(ss: Seq<StmtV>, ntm: Map<usize, TypeV>, b: BuilderV)
    requires
        jumps_ok(b.instrs, Set::empty()),
    ensures
        tr_program(ss, ntm, b) matches Some((Ok(()), b2)) ==> jumps_ok(b2.instrs, Set::empty()),
{
    let e0 = Set::<Seq<char>>::empty();
    assert(loop_labels(Seq::<(Seq<char>, Seq<char>)>::empty()) =~= e0);
    lemma_sts(ss, seq![Map::empty()], Seq::empty(), ntm, b, e0);
}


/// Labels, jumps and function bodies of a concatenation.
proof fn lemma_concat(a: Seq<InstrV>, b: Seq<InstrV>)
    ensures
        labels(a + b) == labels(a).union(labels(b)),
        targets(a + b) == targets(a).union(targets(b)),
        bodies_ok(a + b) == (bodies_ok(a) && bodies_ok(b)),
    decreases b.len(),
{
    if b.len() == 0 {
        assert(a + b =~= a);
        assert(labels(a).union(labels(b)) =~= labels(a));
        assert(targets(a).union(targets(b)) =~= targets(a));
    } else {
        lemma_concat(a, b.drop_last());
        assert((a + b).drop_last() =~= a + b.drop_last());
        assert((a + b).last() == b.last());
        assert(labels(a + b) =~= labels(a).union(labels(b)));
        assert(targets(a + b) =~= targets(a).union(targets(b)));
    }
}

/// Two programs whose instructions define and jump to the same labels, one by one, have
/// the same labels and jumps; and the second has its function bodies fine where the
/// first has.
proof fn lemma_same_shape(a: Seq<InstrV>, b: Seq<InstrV>)
    requires
        a.len() == b.len(),
        forall|i: int| 0 <= i < a.len() ==> defined_label(#[trigger] a[i]) == defined_label(b[i]) && jump_target(a[i]) == jump_target(b[i]),
        forall|i: int| 0 <= i < a.len() && (#[trigger] b[i]) is FnDecl ==> a[i] is FnDecl && (jumps_ok(a[i]->FnDecl_body, Set::empty())
            ==> jumps_ok(b[i]->FnDecl_body, Set::empty())),
    ensures
        labels(a) == labels(b),
        targets(a) == targets(b),
        bodies_ok(a) ==> bodies_ok(b),
    decreases a.len(),
{
    if a.len() > 0 {
        let n = a.len() - 1;
        assert forall|i: int| 0 <= i < a.drop_last().len() implies defined_label(#[trigger] a.drop_last()[i]) == defined_label(
            b.drop_last()[i],
        ) && jump_target(a.drop_last()[i]) == jump_target(b.drop_last()[i]) by {
            assert(a.drop_last()[i] == a[i] && b.drop_last()[i] == b[i]);
        }
        assert forall|i: int| 0 <= i < a.drop_last().len() && (#[trigger] b.drop_last()[i]) is FnDecl implies a.drop_last()[i] is FnDecl
            && (jumps_ok(a.drop_last()[i]->FnDecl_body, Set::empty()) ==> jumps_ok(b.drop_last()[i]->FnDecl_body, Set::empty())) by {
            assert(a.drop_last()[i] == a[i] && b.drop_last()[i] == b[i]);
        }
        lemma_same_shape(a.drop_last(), b.drop_last());
        assert(defined_label(a[n]) == defined_label(b[n]));
        assert(jump_target(a[n]) == jump_target(b[n]));
        if b[n] is FnDecl {
            assert(a[n] is FnDecl);
        }
    }
}

/// The cleanup keeps the labels, drops only jumps, and keeps function bodies fine.
proof fn lemma_gc_shape(met: bool, s: Seq<InstrV>)
    ensures
        labels(crate::goto_cleanup::gc_instrs(met, s).0) == labels(s),
        targets(crate::goto_cleanup::gc_instrs(met, s).0).subset_of(targets(s)),
        bodies_ok(s) ==> bodies_ok(crate::goto_cleanup::gc_instrs(met, s).0),
    decreases ir::instrs_size(s),
{
    if s.len() > 0 {
        ir::lemma_size_parts(s);
        lemma_gc_shape(met, s.drop_last());
        let (out, m1) = crate::goto_cleanup::gc_instrs(met, s.drop_last());
        let out2 = crate::goto_cleanup::gc_instrs(met, s).0;
        match s.last() {
            InstrV::FnDecl { name, params, body } => {
                lemma_gc_shape(false, body);
                let nb = crate::goto_cleanup::gc_instrs(false, body).0;
                assert(out2.drop_last() == out);
                assert(out2.last() == InstrV::FnDecl { name, params, body: nb });
                assert(defined_label(out2.last()) =~= defined_label(s.last()));
                ir::lemma_size_parts(out2);
                if bodies_ok(s) {
                    assert(jumps_ok(body, Set::empty()));
                    assert(jumps_ok(nb, Set::empty()));
                    assert(bodies_ok(out));
                }
            },
            InstrV::Goto { .. } => {
                if m1 {
                    assert(out2 == out);
                    assert(labels(s) =~= labels(s.drop_last()));
                } else {
                    assert(out2.drop_last() == out);
                }
            },
            _ => {
                assert(out2.drop_last() == out);
            },
        }
    }
}

/// The cleanup keeps every jump on its label: what holds of the jumps of a program holds
/// of the program without its redundant jumps.
pub proof fn law_cleanup_keeps_jumps(met: bool, s: Seq<InstrV>, p: Set<Seq<char>>)
    requires
        jumps_ok(s, p),
    ensures
        jumps_ok(crate::goto_cleanup::gc_instrs(met, s).0, p),
{
    lemma_gc_shape(met, s);
}

proof fn lemma_without_fns_shape(s: Seq<InstrV>)
    ensures
        labels(crate::flatten::without_fns(s)) == labels(s),
        targets(crate::flatten::without_fns(s)) == targets(s),
        bodies_ok(crate::flatten::without_fns(s)),
    decreases s.len(),
{
    if s.len() > 0 {
        lemma_without_fns_shape(s.drop_last());
        let w = crate::flatten::without_fns(s.drop_last());
        if s.last() is FnDecl {
            assert(labels(s) =~= labels(s.drop_last()));
            assert(targets(s) =~= targets(s.drop_last()));
        } else {
            assert(w.push(s.last()).drop_last() == w);
            ir::lemma_size_parts(w.push(s.last()));
        }
    }
}

proof fn lemma_hoisted_shape(s: Seq<InstrV>)
    ensures
        labels(crate::flatten::hoisted(s)) == Set::<Seq<char>>::empty(),
        targets(crate::flatten::hoisted(s)) == Set::<Seq<char>>::empty(),
        bodies_ok(s) ==> bodies_ok(crate::flatten::hoisted(s)),
    decreases ir::instrs_size(s),
{
    if s.len() > 0 {
        ir::lemma_size_parts(s);
        lemma_hoisted_shape(s.drop_last());
        if let InstrV::FnDecl { body, .. } = s.last() {
            lemma_hoisted_shape(body);
            let a = crate::flatten::hoisted(s.drop_last());
            let h = crate::flatten::hoisted(body);
            let one = seq![s.last()];
            lemma_concat(a, h);
            lemma_concat(a + h, one);
            assert(one.drop_last() =~= Seq::<InstrV>::empty());
            assert(one.last() == s.last());
            assert(labels(Seq::<InstrV>::empty()) == Set::<Seq<char>>::empty());
            assert(targets(Seq::<InstrV>::empty()) == Set::<Seq<char>>::empty());
            assert(defined_label(s.last()) =~= Set::<Seq<char>>::empty());
            assert(jump_target(s.last()) =~= Set::<Seq<char>>::empty());
            assert(labels(one) =~= Set::<Seq<char>>::empty());
            assert(targets(one) =~= Set::<Seq<char>>::empty());
            assert(labels(crate::flatten::hoisted(s)) =~= Set::<Seq<char>>::empty());
            assert(targets(crate::flatten::hoisted(s)) =~= Set::<Seq<char>>::empty());
            if bodies_ok(s) {
                assert(bodies_ok(s.drop_last()));
                assert(jumps_ok(body, Set::empty()));
                ir::lemma_size_parts(one);
                assert(bodies_ok(Seq::<InstrV>::empty()));
                assert(bodies_ok(one.drop_last()));
                assert(one.last()->FnDecl_body == body);
                assert(bodies_ok(one));
            }
        } else {
            if bodies_ok(s) {
                assert(bodies_ok(s.drop_last()));
            }
        }
    }
}

proof fn lemma_strip_shape(s: Seq<InstrV>)
    ensures
        labels(crate::flatten::strip_bodies(s)) == labels(s),
        targets(crate::flatten::strip_bodies(s)) == targets(s),
        bodies_ok(s) ==> bodies_ok(crate::flatten::strip_bodies(s)),
{
    let t = crate::flatten::strip_bodies(s);
    assert forall|i: int| 0 <= i < t.len() && (#[trigger] t[i]) is FnDecl implies s[i] is FnDecl && (jumps_ok(s[i]->FnDecl_body, Set::empty())
        ==> jumps_ok(t[i]->FnDecl_body, Set::empty())) by {
        lemma_without_fns_shape(s[i]->FnDecl_body);
    }
    lemma_same_shape(s, t);
}

/// Flattening keeps every jump on its label: where the jumps of the code before and of
/// the program land on labels of their own bodies, so do those of the flat program.
pub proof fn law_flatten_keeps_jumps(prev: Seq<InstrV>, s: Seq<InstrV>)
    requires
        jumps_ok(prev, Set::empty()),
        jumps_ok(s, Set::empty()),
    ensures
        jumps_ok(crate::flatten::strip_bodies(prev + crate::flatten::without_fns(s) + crate::flatten::hoisted(s)), Set::empty()),
{
    let w = crate::flatten::without_fns(s);
    let h = crate::flatten::hoisted(s);
    lemma_without_fns_shape(s);
    lemma_hoisted_shape(s);
    lemma_concat(prev, w);
    lemma_concat(prev + w, h);
    lemma_strip_shape(prev + w + h);
}

/// Passing the captures keeps every jump on its label.
pub proof fn law_capture_keeps_jumps(s: Seq<InstrV>, p: Set<Seq<char>>)
    requires
        jumps_ok(s, p),
    ensures
        jumps_ok(crate::capture::captured(s), p),
{
    let c = crate::capture::captured(s);
    let t = crate::capture::fn_entries(s);
    let r = crate::capture::closure(t);
    assert forall|i: int| 0 <= i < c.len() && (#[trigger] c[i]) is FnDecl implies s[i] is FnDecl && (jumps_ok(s[i]->FnDecl_body, Set::empty())
        ==> jumps_ok(c[i]->FnDecl_body, Set::empty())) by {
        let body = s[i]->FnDecl_body;
        let nb = body.map_values(|b: InstrV| crate::capture::call_with_caps(b, t, r));
        assert(c[i]->FnDecl_body == nb);
        assert forall|k: int| 0 <= k < nb.len() && (#[trigger] nb[k]) is FnDecl implies body[k] is FnDecl && (jumps_ok(body[k]->FnDecl_body, Set::empty())
            ==> jumps_ok(nb[k]->FnDecl_body, Set::empty())) by {
            assert(nb[k] == crate::capture::call_with_caps(body[k], t, r));
        }
        assert forall|k: int| 0 <= k < body.len() implies defined_label(#[trigger] body[k]) == defined_label(nb[k]) && jump_target(body[k])
            == jump_target(nb[k]) by {
            assert(nb[k] == crate::capture::call_with_caps(body[k], t, r));
        }
        lemma_same_shape(body, nb);
    }
    assert forall|i: int| 0 <= i < s.len() implies defined_label(#[trigger] s[i]) == defined_label(c[i]) && jump_target(s[i]) == jump_target(c[i]) by {
        assert(c[i] == crate::capture::with_caps(s[i], t, r));
    }
    lemma_same_shape(s, c);
}

proof fn lemma_collect_shape(s: Seq<InstrV>, id: nat, env: Seq<Map<Seq<char>, Seq<char>>>)
    ensures
        labels(crate::function_renamer::rn_collect(s, id, env).0) == labels(s),
        targets(crate::function_renamer::rn_collect(s, id, env).0) == targets(s),
        bodies_ok(s) ==> bodies_ok(crate::function_renamer::rn_collect(s, id, env).0),
    decreases s.len(),
{
    if s.len() > 0 {
        lemma_collect_shape(s.drop_last(), id, env);
        let out = crate::function_renamer::rn_collect(s.drop_last(), id, env).0;
        let out2 = crate::function_renamer::rn_collect(s, id, env).0;
        assert(out2.drop_last() == out);
        ir::lemma_size_parts(s);
        ir::lemma_size_parts(out2);
    }
}

proof fn lemma_rest_shape(s: Seq<InstrV>, id: nat, env: Seq<Map<Seq<char>, Seq<char>>>)
    ensures
        labels(crate::function_renamer::rn_rest(s, id, env).0) == labels(s),
        targets(crate::function_renamer::rn_rest(s, id, env).0) == targets(s),
        bodies_ok(s) ==> bodies_ok(crate::function_renamer::rn_rest(s, id, env).0),
    decreases ir::instrs_size(s), 0nat,
{
    if s.len() > 0 {
        ir::lemma_size_parts(s);
        lemma_rest_shape(s.drop_last(), id, env);
        let (out, id1, env1) = crate::function_renamer::rn_rest(s.drop_last(), id, env);
        let out2 = crate::function_renamer::rn_rest(s, id, env).0;
        assert(out2.drop_last() == out);
        if let InstrV::FnDecl { body, .. } = s.last() {
            lemma_traverse_shape(body, id1, env1.push(Map::empty()));
        }
        ir::lemma_size_parts(out2);
    }
}

proof fn lemma_traverse_shape(s: Seq<InstrV>, id: nat, env: Seq<Map<Seq<char>, Seq<char>>>)
    ensures
        jumps_ok(s, Set::empty()) ==> jumps_ok(crate::function_renamer::rn_traverse(s, id, env).0, Set::empty()),
    decreases ir::instrs_size(s), 1nat,
{
    crate::function_renamer::lemma_rn_collect(s, id, env);
    lemma_collect_shape(s, id, env);
    let (s1, id1, env1) = crate::function_renamer::rn_collect(s, id, env);
    lemma_rest_shape(s1, id1, env1);
}

/// Renaming keeps every jump on its label.
pub proof fn law_renamer_keeps_jumps(s: Seq<InstrV>, id: nat, env: Seq<Map<Seq<char>, Seq<char>>>, p: Set<Seq<char>>)
    requires
        jumps_ok(s, p),
    ensures
        jumps_ok(crate::function_renamer::rn_traverse(s, id, env).0, p),
{
    crate::function_renamer::lemma_rn_collect(s, id, env);
    lemma_collect_shape(s, id, env);
    let (s1, id1, env1) = crate::function_renamer::rn_collect(s, id, env);
    lemma_rest_shape(s1, id1, env1);
}


/// Wrapping the global code into the function `main` keeps every jump on its label.
pub proof fn law_epilogue_keeps_jumps(s: Seq<InstrV>)
    requires
        jumps_ok(s, Set::empty()),
    ensures
        jumps_ok(seq![InstrV::FnDecl { name: "main"@, params: Seq::empty(), body: s }], Set::empty()),
{
    let one = seq![InstrV::FnDecl { name: "main"@, params: Seq::empty(), body: s }];
    assert(one.drop_last() =~= Seq::<InstrV>::empty());
    assert(labels(Seq::<InstrV>::empty()) == Set::<Seq<char>>::empty());
    assert(targets(Seq::<InstrV>::empty()) == Set::<Seq<char>>::empty());
    assert(bodies_ok(Seq::<InstrV>::empty()));
    ir::lemma_size_parts(one);
    assert(targets(one) =~= Set::<Seq<char>>::empty());
}

} // verus!
