//! The error taxonomy of the assembler.

use vstd::prelude::*;

verus! {

/// Everything that can go wrong while assembling a source program.
///
/// Mnemonic errors carry the offending field string; structural and stream
/// errors carry a message and the raw line number where they arose; a
/// combined error collects every field failure of one compute instruction.
#[derive(Debug)]
pub enum AssemblyError {
    InvalidCompMnemonic(String),
    InvalidDestMnemonic(String),
    InvalidJumpMnemonic(String),
    AdvanceError(String, u32),
    SymbolError(String, u32),
    CodeError(String, u32),
    CombinedErrors(Vec<AssemblyError>),
}

/// The message of the structural error raised when a field of a
/// non-compute instruction is requested.
pub open spec fn not_c_msg(s: Seq<char>) -> Seq<char> {
    s + " is not a C instruction"@
}

/// The message of the structural error raised when `symbol` is asked of a
/// compute instruction.
pub open spec fn not_al_msg(s: Seq<char>) -> Seq<char> {
    s + " is not an A or L instruction"@
}

/// The message reported for an unrecognized destination field.
pub open spec fn bad_dest_msg(s: Seq<char>) -> Seq<char> {
    s + " does not contain a valid dest mnemonic"@
}

/// The message reported for an unrecognized computation field.
pub open spec fn bad_comp_msg(s: Seq<char>) -> Seq<char> {
    s + " does not contain a valid comp mnemonic"@
}

/// The message reported for an unrecognized jump field.
pub open spec fn bad_jump_msg(s: Seq<char>) -> Seq<char> {
    s + " does not contain a valid jump mnemonic"@
}

/// `e` is the structural error with message `msg` on raw line `n`.
pub open spec fn is_code_err(e: AssemblyError, msg: Seq<char>, n: int) -> bool {
    e matches AssemblyError::CodeError(m, ln) && m@ == msg && ln == n
}

} // verus!
