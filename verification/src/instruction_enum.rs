//! The three instruction kinds a statement can be classified into.

use vstd::prelude::*;

verus! {

/// The kind of a statement: an address instruction, a label declaration,
/// or a compute instruction.
#[derive(Clone, Copy, Debug, PartialEq, Eq, Structural)]
pub enum Instruction {
    A,
    L,
    C,
}

} // verus!
