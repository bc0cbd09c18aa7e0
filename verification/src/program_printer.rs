//! The printed form of a whole program.
use vstd::prelude::*;
use crate::ir;
use crate::ir::Instr;

verus! {

/// A program to print: each instruction on lines of its own.
pub struct ProgramPrinter<'a>(pub &'a [Instr]);

impl<'a> ProgramPrinter<'a> {
    /// The printed form of the program: each instruction, followed by a newline.
    pub fn to_text(&self) -> (r: String)
        ensures
            r@ == ir::body_text(ir::instrs_view(self.0@), Seq::empty()),
    {
        let mut s = String::new();
        let pad = String::new();
        ir::push_body_text(self.0, &mut s, pad.as_str());
        assert(s@ =~= ir::body_text(ir::instrs_view(self.0@), Seq::empty()));
        s
    }
}

} // verus!
