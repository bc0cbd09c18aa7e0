//! Flattening: every function, however deeply nested, becomes a function of the top
//! level, after the global instructions.
use vstd::prelude::*;
use crate::function_renamer;
use crate::ir;
use crate::ir::{BuilderV, IRBuilder, Instr, InstrV};

verus! {

/// The instructions that are not function declarations, in order.
pub open spec fn without_fns(s: Seq<InstrV>) -> Seq<InstrV>
    decreases s.len(),
{
    if s.len() == 0 {
        seq![]
    } else if s.last() is FnDecl {
        without_fns(s.drop_last())
    } else {
        without_fns(s.drop_last()).push(s.last())
    }
}

/// Every function declaration, at any depth, each after the functions nested in it,
/// in order; each keeps its body as it is.
pub open spec fn hoisted(s: Seq<InstrV>) -> Seq<InstrV>
    decreases ir::instrs_size(s),
{
    if s.len() == 0 {
        seq![]
    } else {
        proof {
            ir::lemma_size_parts(s);
        }
        match s.last() {
            InstrV::FnDecl { body, .. } => hoisted(s.drop_last()) + hoisted(body) + seq![s.last()],
            _ => hoisted(s.drop_last()),
        }
    }
}

/// A function without the function declarations of its body; other instructions as
/// they are.
pub open spec fn strip_body(i: InstrV) -> InstrV {
    match i {
        InstrV::FnDecl { name, params, body } => InstrV::FnDecl { name, params, body: without_fns(body) },
        _ => i,
    }
}

pub open spec fn strip_bodies(s: Seq<InstrV>) -> Seq<InstrV> {
    s.map_values(|i: InstrV| strip_body(i))
}

/// Appends to `ir_builder` every function declaration of `instrs`, at any depth, each
/// after the functions nested in it.
fn hoist_functions(instrs: &[Instr], ir_builder: &mut IRBuilder)
    ensures
        final(ir_builder)@ == (BuilderV { instrs: old(ir_builder)@.instrs + hoisted(ir::instrs_view(instrs@)), ..old(ir_builder)@ }),
    decreases ir::instrs_size(ir::instrs_view(instrs@)),
{
    let ghost vv = ir::instrs_view(instrs@);
    let ghost b0 = ir_builder@;
    proof {
        ir::lemma_instrs_view(instrs@);
        assert(vv.take(0) == Seq::<InstrV>::empty());
        assert(b0.instrs + Seq::<InstrV>::empty() =~= b0.instrs);
    }
    let mut i: usize = 0;
    while i < instrs.len()
        invariant
            vv == ir::instrs_view(instrs@),
            vv.len() == instrs.len(),
            forall|j: int| 0 <= j < instrs.len() ==> #[trigger] vv[j] == ir::instr_view(instrs@[j]),
            i <= instrs.len(),
            ir_builder@ == (BuilderV { instrs: b0.instrs + hoisted(vv.take(i as int)), ..b0 }),
        decreases instrs.len() - i,
    {
        proof {
            ir::lemma_instrs_size(vv, i as int);
            assert(vv.take(i + 1).drop_last() == vv.take(i as int));
            assert(vv.take(i + 1).last() == vv[i as int]);
        }
        match &instrs[i] {
            Instr::FnDecl { body, .. } => {
                proof {
                    assert(ir::instr_size(vv[i as int]) == 1 + ir::instrs_size(ir::instrs_view(body@)));
                }
                hoist_functions(body.as_slice(), ir_builder);
                ir_builder.emit(instrs[i].deep_copy());
            },
            _ => {},
        }
        proof {
            assert(ir_builder@.instrs =~= b0.instrs + hoisted(vv.take(i + 1)));
        }
        i += 1;
    }
    assert(vv.take(instrs.len() as int) == vv);
}

/// Appends to `ir_builder` the instructions of `instrs` that are not function
/// declarations.
fn remove_fndecls(instrs: &[Instr], ir_builder: &mut IRBuilder)
    ensures
        final(ir_builder)@ == (BuilderV { instrs: old(ir_builder)@.instrs + without_fns(ir::instrs_view(instrs@)), ..old(ir_builder)@ }),
{
    let ghost vv = ir::instrs_view(instrs@);
    let ghost b0 = ir_builder@;
    proof {
        ir::lemma_instrs_view(instrs@);
        assert(vv.take(0) == Seq::<InstrV>::empty());
        assert(b0.instrs + Seq::<InstrV>::empty() =~= b0.instrs);
    }
    let mut i: usize = 0;
    while i < instrs.len()
        invariant
            vv == ir::instrs_view(instrs@),
            vv.len() == instrs.len(),
            forall|j: int| 0 <= j < instrs.len() ==> #[trigger] vv[j] == ir::instr_view(instrs@[j]),
            i <= instrs.len(),
            ir_builder@ == (BuilderV { instrs: b0.instrs + without_fns(vv.take(i as int)), ..b0 }),
        decreases instrs.len() - i,
    {
        proof {
            assert(vv.take(i + 1).drop_last() == vv.take(i as int));
            assert(vv.take(i + 1).last() == vv[i as int]);
        }
        match &instrs[i] {
            Instr::FnDecl { .. } => {},
            _ => ir_builder.emit(instrs[i].deep_copy()),
        }
        proof {
            assert(ir_builder@.instrs =~= b0.instrs + without_fns(vv.take(i + 1)));
        }
        i += 1;
    }
    assert(vv.take(instrs.len() as int) == vv);
}

/// Appends to `ir_builder` each instruction of `instrs`, with the function
/// declarations taken out of the bodies of functions.
fn cleanup(instrs: &[Instr], ir_builder: &mut IRBuilder)
    ensures
        final(ir_builder)@ == (BuilderV { instrs: old(ir_builder)@.instrs + strip_bodies(ir::instrs_view(instrs@)), ..old(ir_builder)@ }),
{
    let ghost vv = ir::instrs_view(instrs@);
    let ghost b0 = ir_builder@;
    proof {
        ir::lemma_instrs_view(instrs@);
    }
    let mut i: usize = 0;
    while i < instrs.len()
        invariant
            vv == ir::instrs_view(instrs@),
            vv.len() == instrs.len(),
            forall|j: int| 0 <= j < instrs.len() ==> #[trigger] vv[j] == ir::instr_view(instrs@[j]),
            i <= instrs.len(),
            ir_builder@ == (BuilderV { instrs: b0.instrs + strip_bodies(vv.take(i as int)), ..b0 }),
        decreases instrs.len() - i,
    {
        match &instrs[i] {
            Instr::FnDecl { name, params, body } => {
                let mut body_builder = IRBuilder::new();
                remove_fndecls(body.as_slice(), &mut body_builder);
                proof {
                    assert(body_builder@.instrs =~= without_fns(ir::instrs_view(body@)));
                }
                ir_builder.emit(Instr::FnDecl { name: name.clone(), params: ir::copy_strings(params), body: body_builder.into_instrs() });
            },
            _ => ir_builder.emit(instrs[i].deep_copy()),
        }
        proof {
            assert(ir_builder@.instrs =~= b0.instrs + strip_bodies(vv.take(i + 1)));
        }
        i += 1;
    }
    assert(vv.take(instrs.len() as int) == vv);
}

/// Appends to `ir_builder` the global instructions of `instrs`: those that are not
/// function declarations.
fn collect_global(instrs: &[Instr], ir_builder: &mut IRBuilder)
    ensures
        final(ir_builder)@ == (BuilderV { instrs: old(ir_builder)@.instrs + without_fns(ir::instrs_view(instrs@)), ..old(ir_builder)@ }),
{
    let ghost vv = ir::instrs_view(instrs@);
    let ghost b0 = ir_builder@;
    proof {
        ir::lemma_instrs_view(instrs@);
        assert(vv.take(0) == Seq::<InstrV>::empty());
        assert(b0.instrs + Seq::<InstrV>::empty() =~= b0.instrs);
    }
    let mut i: usize = 0;
    while i < instrs.len()
        invariant
            vv == ir::instrs_view(instrs@),
            vv.len() == instrs.len(),
            forall|j: int| 0 <= j < instrs.len() ==> #[trigger] vv[j] == ir::instr_view(instrs@[j]),
            i <= instrs.len(),
            ir_builder@ == (BuilderV { instrs: b0.instrs + without_fns(vv.take(i as int)), ..b0 }),
        decreases instrs.len() - i,
    {
        proof {
            assert(vv.take(i + 1).drop_last() == vv.take(i as int));
            assert(vv.take(i + 1).last() == vv[i as int]);
        }
        let is_fn = match &instrs[i] {
            Instr::FnDecl { .. } => true,
            _ => false,
        };
        if !is_fn {
            ir_builder.emit(instrs[i].deep_copy());
        }
        proof {
            assert(ir_builder@.instrs =~= b0.instrs + without_fns(vv.take(i + 1)));
        }
        i += 1;
    }
    assert(vv.take(instrs.len() as int) == vv);
}

/// Flattens `instrs` into `ir_builder`: after what it holds, the global instructions,
/// then every function of any depth, each after the functions nested in it; then the
/// bodies lose their nested declarations. The counters stay.
pub fn flatten(instrs: &[Instr], ir_builder: &mut IRBuilder)
    ensures
        final(ir_builder)@ == (BuilderV {
            instrs: strip_bodies(old(ir_builder)@.instrs + without_fns(ir::instrs_view(instrs@)) + hoisted(ir::instrs_view(instrs@))),
            ..old(ir_builder)@
        }),
{
    collect_global(instrs, ir_builder);
    hoist_functions(instrs, ir_builder);
    let mut cleanup_ir_builder = IRBuilder::new();
    cleanup(ir_builder.instrs_ref().as_slice(), &mut cleanup_ir_builder);
    proof {
        assert(cleanup_ir_builder@.instrs =~= strip_bodies(ir_builder@.instrs));
    }
    ir_builder.set_instrs(cleanup_ir_builder.into_instrs());
}

/// `without_fns` leaves no function declaration.
pub proof fn lemma_without_fns(s: Seq<InstrV>)
    ensures
        forall|j: int| 0 <= j < without_fns(s).len() ==> !(#[trigger] without_fns(s)[j] is FnDecl),
    decreases s.len(),
{
    if s.len() > 0 {
        lemma_without_fns(s.drop_last());
    }
}

/// After flattening, no function body declares a function.
pub proof fn law_flat(prev: Seq<InstrV>, s: Seq<InstrV>)
    ensures
        forall|i: int, j: int| #![trigger strip_bodies(prev + without_fns(s) + hoisted(s))[i]->body[j]]
            0 <= i < strip_bodies(prev + without_fns(s) + hoisted(s)).len()
            && strip_bodies(prev + without_fns(s) + hoisted(s))[i] is FnDecl
            && 0 <= j < strip_bodies(prev + without_fns(s) + hoisted(s))[i]->body.len()
            ==> !(strip_bodies(prev + without_fns(s) + hoisted(s))[i]->body[j] is FnDecl),
{
    let all = prev + without_fns(s) + hoisted(s);
    assert forall|i: int, j: int|
        0 <= i < strip_bodies(all).len() && strip_bodies(all)[i] is FnDecl && 0 <= j < strip_bodies(all)[i]->body.len()
        implies !(#[trigger] strip_bodies(all)[i]->body[j] is FnDecl) by {
        let body = all[i]->body;
        lemma_without_fns(body);
        assert(strip_bodies(all)[i]->body == without_fns(body));
    }
}


/// Flattening loses no function: it hoists one function declaration for each one of the
/// program, at any depth, and nothing else.
pub proof fn law_flatten_keeps_functions(s: Seq<InstrV>)
    ensures
        hoisted(s).len() == function_renamer::count_fns(s),
        forall|i: int| 0 <= i < hoisted(s).len() ==> (#[trigger] hoisted(s)[i]) is FnDecl,
    decreases ir::instrs_size(s),
{
    if s.len() > 0 {
        ir::lemma_size_parts(s);
        law_flatten_keeps_functions(s.drop_last());
        if let InstrV::FnDecl { body, .. } = s.last() {
            law_flatten_keeps_functions(body);
            let a = hoisted(s.drop_last());
            let b = hoisted(body);
            assert forall|i: int| 0 <= i < hoisted(s).len() implies (#[trigger] hoisted(s)[i]) is FnDecl by {
                if i < a.len() {
                    assert(hoisted(s)[i] == a[i]);
                } else if i < a.len() + b.len() {
                    assert(hoisted(s)[i] == b[i - a.len()]);
                }
            }
        }
    }
}

} // verus!
