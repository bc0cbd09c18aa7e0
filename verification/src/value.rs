//! Literal values of the language.
use vstd::prelude::*;

verus! {

/// A literal value: an integer, a byte or a boolean.
#[derive(Clone, Copy, Debug, PartialEq, Eq, Structural)]
pub enum Val {
    Int(i32),
    Byte(u8),
    Bool(bool),
}

} // verus!
