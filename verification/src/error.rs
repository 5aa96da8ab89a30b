//! The ways a run can fail.
use vstd::prelude::*;

verus! {

/// Why a run stopped without a value.  None of them is recovered from.
#[derive(Debug, Clone, Copy, PartialEq, Eq, Structural)]
pub enum ExecError {
    /// A word was asked for at or past the end of the tape.
    OutOfRange,
    /// An operator met an operand that is no number.
    TypeMismatch,
    /// A checked block or a loop met a word of the marker range that marks
    /// neither a `Return` nor a `While`.
    UnknownHint,
    /// The end offset of a block, a loop or a branch is still zero.
    UnresolvedJump,
    /// A word that should start an operation stands for none, or for one
    /// that hands back something else than what is awaited.
    InvalidOpcode,
    /// A variable slot lies outside the storage of the run.
    InvalidSlot,
}

} // verus!
