//! Why an instruction is refused.

use vstd::prelude::*;

verus! {

/// What a refused instruction is answered.
#[derive(Copy, Clone, PartialEq, Eq, Debug, Structural)]
pub enum ProgramError {
    /// The instruction data is too short or names no instruction.
    InvalidInstructionData,
    /// The instruction needs more accounts.
    NotEnoughAccountKeys,
    /// One of the codes below.
    Custom(u32),
}

/// A deposit found no slot for the user, or its sum does not fit.
pub const DEPOSIT_FAILED: u32 = 0x10;

/// A withdrawal is not covered by the balance.
pub const WITHDRAW_FAILED: u32 = 0x11;

/// The queue is full.
pub const QUEUE_FULL: u32 = 0x20;

} // verus!
