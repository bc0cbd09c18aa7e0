//! The whole compiler on a parsed program: numbering, the checks, translation, the IR
//! passes and QBE generation, up to the first error.
use vstd::prelude::*;
use std::collections::HashMap;
use crate::Error;
use crate::ast;
use crate::ast::{Stmt, StmtV};
use crate::capture;
use crate::capture::capture;
use crate::flatten;
use crate::flatten::flatten;
use crate::function_renamer;
use crate::function_renamer::FunctionRenamer;
use crate::goto_cleanup;
use crate::goto_cleanup::GotoCleanup;
use crate::ir;
use crate::ir::{BuilderV, IRBuilder, Instr, InstrV};
use crate::node_id_assigner;
use crate::node_id_assigner::{assign_id, can_assign_ids, IdBuilder};
use crate::qbe;
use crate::qbe::{QbeGenerator, QbeV};
use crate::return_check;
use crate::return_check::return_check;
use crate::translate;
use crate::translate::try_translate_stmts;
use crate::typ::Type;
use crate::type_check;
use crate::type_check::type_check;

verus! {

/// The stage of the compiler that reported an error.
#[derive(Clone, Copy, Debug, PartialEq, Eq, Structural)]
pub enum Stage {
    TypeCheck,
    ReturnCheck,
    Translate,
}

/// The global code of a program wrapped into the function `main`.
pub open spec fn with_main(body: Seq<InstrV>) -> Seq<InstrV> {
    seq![InstrV::FnDecl { name: "main"@, params: Seq::empty(), body }]
}

/// The IR passes on the translated global code: wrapping into `main`, renaming,
/// flattening, passing the captures and dropping redundant jumps.
pub open spec fn ir_passes(translated: Seq<InstrV>) -> Seq<InstrV> {
    let rn = function_renamer::rn_traverse(with_main(translated), 0, seq![Map::empty()]).0;
    let flat = flatten::strip_bodies(flatten::without_fns(rn) + flatten::hoisted(rn));
    goto_cleanup::gc_instrs(false, capture::captured(flat)).0
}

/// The state of a fresh QBE generator.
pub open spec fn qbe_start() -> QbeV {
    QbeV { out: Seq::empty(), ft: 0, term: false }
}

/// What compiling a parsed program gives: `None` where the compiler cannot go on (ids,
/// function numbers or fall-through labels beyond the machine's counters, or a
/// translation that cannot go on); else the error of the first stage that fails, or
/// the final IR and the QBE text.
pub open spec fn compile_model(s: Seq<StmtV>) -> Option<Result<(Seq<InstrV>, Seq<char>), (Stage, (usize, Seq<char>))>> {
    let numbered = node_id_assigner::number_stmts(s, 0);
    if numbered.1 > usize::MAX {
        None
    } else {
        let (tc, checked, ntm) = type_check::tc_program(numbered.0, Map::empty());
        match tc {
            Err(e) => Some(Err((Stage::TypeCheck, e))),
            Ok(()) => match return_check::rc_stmts(checked) {
                Err(e) => Some(Err((Stage::ReturnCheck, e))),
                Ok(_) => match translate::tr_program(checked, ntm, BuilderV { instrs: Seq::empty(), regs: 0, labels: 0 }) {
                    None => None,
                    Some((Err(e), _)) => Some(Err((Stage::Translate, e))),
                    Some((Ok(()), b)) => if function_renamer::count_fns(with_main(b.instrs)) > u32::MAX {
                        None
                    } else {
                        let out = ir_passes(b.instrs);
                        if qbe::cond_jumps_seq(out) > usize::MAX {
                            None
                        } else {
                            Some(Ok((out, qbe::qbe_instrs(qbe_start(), out).out)))
                        }
                    },
                },
            },
        }
    }
}

/// The model of the result of [`compile`].
pub open spec fn compile_view(r: Option<Result<(Vec<Instr>, String), (Stage, Error)>>) -> Option<
    Result<(Seq<InstrV>, Seq<char>), (Stage, (usize, Seq<char>))>,
> {
    match r {
        None => None,
        Some(Ok((ir, q))) => Some(Ok((ir::instrs_view(ir@), q@))),
        Some(Err((stage, e))) => Some(Err((stage, e@))),
    }
}

/// Compiles a parsed program: numbers its nodes, checks it, translates it, runs the IR
/// passes and generates QBE. Gives the final IR and the QBE text, or the first error
/// with its stage, or `None` where the compiler cannot go on.
pub fn compile(ast: Vec<Box<Stmt>>) -> (r: Option<Result<(Vec<Instr>, String), (Stage, Error)>>)
    ensures
        compile_view(r) == compile_model(ast::stmts_view(ast@)),
{
    let ghost s0 = ast::stmts_view(ast@);
    let mut ast = ast;
    let mut id_builder = IdBuilder::new();
    if !can_assign_ids(&ast, &id_builder) {
        return None;
    }
    assign_id(&mut ast, &mut id_builder);

    let mut node_type_map: HashMap<usize, Type> = HashMap::new();
    proof {
        assert(type_check::ntm_model(node_type_map@) =~= Map::<usize, crate::typ::TypeV>::empty());
    }
    match type_check(&mut ast, &mut node_type_map) {
        Ok(()) => {},
        Err(e) => {
            return Some(Err((Stage::TypeCheck, e)));
        },
    }

    match return_check(&ast) {
        Ok(_) => {},
        Err(e) => {
            return Some(Err((Stage::ReturnCheck, e)));
        },
    }

    let mut ir_builder = IRBuilder::new();
    match try_translate_stmts(&ast, &mut ir_builder, &node_type_map) {
        None => {
            return None;
        },
        Some(Err(e)) => {
            return Some(Err((Stage::Translate, e)));
        },
        Some(Ok(())) => {},
    }
    let ghost translated = ir_builder@.instrs;
    let mut instrs = ir_builder.epilogue().into_instrs();

    let mut renamer = FunctionRenamer::new();
    if !renamer.can_traverse(&instrs) {
        return None;
    }
    renamer.traverse(&mut instrs);

    let mut flat_builder = IRBuilder::new();
    flatten(instrs.as_slice(), &mut flat_builder);
    let mut flat = flat_builder.into_instrs();
    proof {
        let rn = function_renamer::rn_traverse(with_main(translated), 0, seq![Map::empty()]).0;
        assert(Seq::<InstrV>::empty() + flatten::without_fns(rn) + flatten::hoisted(rn) =~= flatten::without_fns(rn)
            + flatten::hoisted(rn));
    }

    capture(flat.as_mut_slice());

    let mut clean_builder = IRBuilder::new();
    let mut cleanup = GotoCleanup::new();
    cleanup.cleanup(flat.as_slice(), &mut clean_builder);
    let out = clean_builder.into_instrs();
    proof {
        assert(ir::instrs_view(out@) =~= ir_passes(translated));
    }

    let mut generator = QbeGenerator::new();
    if !generator.can_generate(out.as_slice()) {
        return None;
    }
    let text = generator.generate(out.as_slice());
    Some(Ok((out, text)))
}

} // verus!
