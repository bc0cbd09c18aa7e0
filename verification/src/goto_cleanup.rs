//! Removal of jumps that directly follow a jump: such a jump can never be reached.
use vstd::prelude::*;
use crate::ir;
use crate::ir::{BuilderV, IRBuilder, Instr, InstrV};

verus! {

/// Drops each `goto` that follows a `goto`, in each function body too; `met` tells
/// whether the last instruction kept before `s` was a `goto`. A function declaration
/// does not change `met`. The result is the instructions kept and `met` afterwards.
pub open spec fn gc_instrs(met: bool, s: Seq<InstrV>) -> (Seq<InstrV>, bool)
    decreases ir::instrs_size(s),
{
    if s.len() == 0 {
        (seq![], met)
    } else {
        proof {
            ir::lemma_size_parts(s);
        }
        let (out, m1) = gc_instrs(met, s.drop_last());
        match s.last() {
            InstrV::FnDecl { name, params, body } => (
                out.push(InstrV::FnDecl { name, params, body: gc_instrs(false, body).0 }),
                m1,
            ),
            InstrV::Goto { .. } => if m1 {
                (out, m1)
            } else {
                (out.push(s.last()), true)
            },
            _ => (out.push(s.last()), false),
        }
    }
}

/// Drops jumps that directly follow a jump.
pub struct GotoCleanup {
    met_goto: bool,
}

impl View for GotoCleanup {
    type V = bool;

    /// Whether the last instruction kept was a `goto`.
    closed spec fn view(&self) -> bool {
        self.met_goto
    }
}

impl GotoCleanup {
    pub fn new() -> (r: Self)
        ensures
            r@ == false,
    {
        Self { met_goto: false }
    }

    /// Appends to `ir_builder` the instructions of `instrs` without the jumps that
    /// directly follow a jump.
    pub fn cleanup(&mut self, instrs: &[Instr], ir_builder: &mut IRBuilder)
        ensures
            final(ir_builder)@ == (BuilderV {
                instrs: old(ir_builder)@.instrs + gc_instrs(old(self)@, ir::instrs_view(instrs@)).0,
                ..old(ir_builder)@
            }),
            final(self)@ == gc_instrs(old(self)@, ir::instrs_view(instrs@)).1,
        decreases ir::instrs_size(ir::instrs_view(instrs@)),
    {
        let ghost vv = ir::instrs_view(instrs@);
        let ghost m0 = self@;
        let ghost b0 = ir_builder@;
        proof {
            ir::lemma_instrs_view(instrs@);
            assert(vv.take(0) == Seq::<InstrV>::empty());
            assert(b0.instrs + Seq::<InstrV>::empty() =~= b0.instrs);
        }
        let mut i: usize = 0;
        while i < instrs.len()
            invariant
                vv == ir::instrs_view(instrs@),
                vv.len() == instrs.len(),
                forall|j: int| 0 <= j < instrs.len() ==> #[trigger] vv[j] == ir::instr_view(instrs@[j]),
                i <= instrs.len(),
                ir_builder@ == (BuilderV { instrs: b0.instrs + gc_instrs(m0, vv.take(i as int)).0, ..b0 }),
                self@ == gc_instrs(m0, vv.take(i as int)).1,
            decreases instrs.len() - i,
        {
            proof {
                ir::lemma_instrs_size(vv, i as int);
                assert(vv.take(i + 1).drop_last() == vv.take(i as int));
                assert(vv.take(i + 1).last() == vv[i as int]);
            }
            let ghost before = ir_builder@.instrs;
            match &instrs[i] {
                Instr::FnDecl { name, params, body } => {
                    proof {
                        assert(ir::instr_size(vv[i as int]) == 1 + ir::instrs_size(ir::instrs_view(body@)));
                    }
                    let mut body_builder = IRBuilder::new();
                    let saved_state = self.met_goto;
                    self.met_goto = false;
                    self.cleanup(body.as_slice(), &mut body_builder);
                    self.met_goto = saved_state;
                    proof {
                        assert(body_builder@.instrs =~= gc_instrs(false, ir::instrs_view(body@)).0);
                    }
                    ir_builder.emit(Instr::FnDecl { name: name.clone(), params: ir::copy_strings(params), body: body_builder.into_instrs() });
                },
                Instr::Goto { .. } => {
                    if !self.met_goto {
                        self.met_goto = true;
                        ir_builder.emit(instrs[i].deep_copy());
                    }
                },
                _ => {
                    self.met_goto = false;
                    ir_builder.emit(instrs[i].deep_copy());
                },
            }
            proof {
                assert(ir_builder@.instrs =~= b0.instrs + gc_instrs(m0, vv.take(i + 1)).0);
            }
            i += 1;
        }
        assert(vv.take(instrs.len() as int) == vv);
    }
}

/// What `met` tells: when the last instruction kept is a `goto`, `met` is set.
proof fn lemma_gc_met(met: bool, s: Seq<InstrV>)
    ensures
        ({
            let (out, m) = gc_instrs(met, s);
            (out.len() > 0 && out.last() is Goto) ==> m
        }),
    decreases s.len(),
{
    if s.len() > 0 {
        lemma_gc_met(met, s.drop_last());
    }
}

/// After the cleanup, no `goto` directly follows a `goto`, when the cleanup starts
/// after something other than a `goto`; this holds of the cleaned body of each function
/// as well, which starts that way.
pub proof fn law_no_double_goto(s: Seq<InstrV>)
    ensures
        forall|i: int| 0 <= i < gc_instrs(false, s).0.len() - 1 ==> !(#[trigger] gc_instrs(false, s).0[i] is Goto
            && gc_instrs(false, s).0[i + 1] is Goto),
{
    lemma_no_double_goto(false, s);
}

proof fn lemma_no_double_goto(met: bool, s: Seq<InstrV>)
    ensures
        forall|i: int| 0 <= i < gc_instrs(met, s).0.len() - 1 ==> !(#[trigger] gc_instrs(met, s).0[i] is Goto
            && gc_instrs(met, s).0[i + 1] is Goto),
    decreases s.len(),
{
    if s.len() > 0 {
        lemma_no_double_goto(met, s.drop_last());
        lemma_gc_met(met, s.drop_last());
        let (out, m1) = gc_instrs(met, s.drop_last());
        let out2 = gc_instrs(met, s).0;
        assert forall|i: int| 0 <= i < out2.len() - 1 implies !(#[trigger] out2[i] is Goto && out2[i + 1] is Goto) by {
            if out2.len() > out.len() {
                assert(out2 == out.push(out2.last()));
                if i < out.len() - 1 {
                    assert(out2[i] == out[i]);
                    assert(out2[i + 1] == out[i + 1]);
                } else {
                    assert(i == out.len() - 1);
                    assert(out2[i] == out.last());
                }
            } else {
                assert(out2 == out);
            }
        }
    }
}


/// The instructions with every `goto` left out, function bodies included.
pub open spec fn without_gotos(s: Seq<InstrV>) -> Seq<InstrV>
    decreases ir::instrs_size(s),
{
    if s.len() == 0 {
        seq![]
    } else {
        proof {
            ir::lemma_size_parts(s);
        }
        without_gotos(s.drop_last()) + match s.last() {
            InstrV::Goto { .. } => seq![],
            InstrV::FnDecl { name, params, body } => seq![InstrV::FnDecl { name, params, body: without_gotos(body) }],
            i => seq![i],
        }
    }
}

/// The cleanup drops jumps and nothing else: with every `goto` left out, what it gives
/// is the program it was given.
pub proof fn law_cleanup_drops_only_gotos(met: bool, s: Seq<InstrV>)
    ensures
        without_gotos(gc_instrs(met, s).0) == without_gotos(s),
    decreases ir::instrs_size(s),
{
    if s.len() > 0 {
        ir::lemma_size_parts(s);
        law_cleanup_drops_only_gotos(met, s.drop_last());
        let (out, m1) = gc_instrs(met, s.drop_last());
        let out2 = gc_instrs(met, s).0;
        match s.last() {
            InstrV::FnDecl { name, params, body } => {
                law_cleanup_drops_only_gotos(false, body);
                assert(out2.drop_last() == out);
            },
            InstrV::Goto { .. } => {
                if m1 {
                    assert(out2 == out);
                } else {
                    assert(out2.drop_last() == out);
                    assert(without_gotos(out2) =~= without_gotos(out));
                }
            },
            _ => {
                assert(out2.drop_last() == out);
            },
        }
    }
}


/// Cleaning code that the cleanup gave changes nothing, from the same starting state.
proof fn lemma_cleanup_idempotent(met: bool, s: Seq<InstrV>)
    ensures
        gc_instrs(met, gc_instrs(met, s).0) == gc_instrs(met, s),
    decreases ir::instrs_size(s),
{
    if s.len() > 0 {
        ir::lemma_size_parts(s);
        lemma_cleanup_idempotent(met, s.drop_last());
        let (out, m1) = gc_instrs(met, s.drop_last());
        let out2 = gc_instrs(met, s).0;
        match s.last() {
            InstrV::FnDecl { name, params, body } => {
                lemma_cleanup_idempotent(false, body);
                assert(out2.drop_last() == out);
                ir::lemma_size_parts(out2);
            },
            InstrV::Goto { .. } => {
                if !m1 {
                    assert(out2.drop_last() == out);
                    ir::lemma_size_parts(out2);
                }
            },
            _ => {
                assert(out2.drop_last() == out);
                ir::lemma_size_parts(out2);
            },
        }
    }
}

/// The cleanup is idempotent: cleaning again what it gave changes nothing.
pub proof fn law_cleanup_idempotent(s: Seq<InstrV>)
    ensures
        gc_instrs(false, gc_instrs(false, s).0).0 == gc_instrs(false, s).0,
{
    lemma_cleanup_idempotent(false, s);
}

} // verus!
