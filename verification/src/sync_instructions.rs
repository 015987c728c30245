//! The instructions that run at once: deposits, withdrawals, oracle prices and funding.

use vstd::prelude::*;

use crate::async_instructions::with_margins;
use crate::error::{ProgramError, DEPOSIT_FAILED, WITHDRAW_FAILED};
use crate::positions::{can_credit, can_debit, credited, debited};
use crate::record::{le_word, read_word};
use crate::state::{Market, PerpsState};

verus! {

/// The largest number of an instruction.
pub const MAX_SYNC_VARIANT: u64 = 3;

/// The instructions.
#[derive(Debug, Clone, Copy, PartialEq, Eq, Structural)]
pub enum PerpsSyncIx {
    Deposit,
    Withdraw,
    UpdateOracle,
    ApplyFunding,
}

/// The instruction that starts instruction data: its number in the first eight bytes.
pub open spec fn sync_ix(data: Seq<u8>) -> Option<PerpsSyncIx> {
    if data.len() >= 8 && le_word(data, 0) <= MAX_SYNC_VARIANT {
        Some(
            if le_word(data, 0) == 0 {
                PerpsSyncIx::Deposit
            } else if le_word(data, 0) == 1 {
                PerpsSyncIx::Withdraw
            } else if le_word(data, 0) == 2 {
                PerpsSyncIx::UpdateOracle
            } else {
                PerpsSyncIx::ApplyFunding
            },
        )
    } else {
        None
    }
}

/// Why an instruction is refused before it does anything: all but ApplyFunding need a second word
/// of data, and deposits and withdrawals need the user's account, which is the second one.
pub open spec fn sync_refusal(
    ix: PerpsSyncIx,
    data: Seq<u8>,
    accounts: Seq<[u8; 32]>,
) -> Option<ProgramError> {
    if ix != PerpsSyncIx::ApplyFunding && data.len() < 16 {
        Some(ProgramError::InvalidInstructionData)
    } else if (ix == PerpsSyncIx::Deposit || ix == PerpsSyncIx::Withdraw) && accounts.len() < 2 {
        Some(ProgramError::NotEnoughAccountKeys)
    } else {
        None
    }
}

/// The market after an instruction. `clock` is the current slot, where it is known.
pub open spec fn sync_applied(
    m: Market,
    ix: PerpsSyncIx,
    data: Seq<u8>,
    accounts: Seq<[u8; 32]>,
    clock: Option<u64>,
) -> Market {
    let word = le_word(data, 8);
    if sync_refusal(ix, data, accounts) is Some {
        m
    } else {
        match ix {
            PerpsSyncIx::Deposit => with_margins(m, credited(m.accounts.margins, accounts[1], word)),
            PerpsSyncIx::Withdraw => with_margins(m, debited(m.accounts.margins, accounts[1], word)),
            PerpsSyncIx::UpdateOracle => Market { oracle_price: word, ..m },
            PerpsSyncIx::ApplyFunding => Market {
                last_funding_slot: match clock {
                    Some(slot) => slot,
                    None => 0,
                },
                ..m
            },
        }
    }
}

/// What an instruction is answered.
pub open spec fn sync_answer(
    m: Market,
    ix: PerpsSyncIx,
    data: Seq<u8>,
    accounts: Seq<[u8; 32]>,
) -> Result<(), ProgramError> {
    let word = le_word(data, 8);
    match sync_refusal(ix, data, accounts) {
        Some(error) => Err(error),
        None => if ix == PerpsSyncIx::Deposit && !can_credit(
            m.accounts.margins,
            accounts[1],
            word,
        ) {
            Err(ProgramError::Custom(DEPOSIT_FAILED))
        } else if ix == PerpsSyncIx::Withdraw && !can_debit(
            m.accounts.margins,
            accounts[1],
            word,
        ) {
            Err(ProgramError::Custom(WITHDRAW_FAILED))
        } else {
            Ok(())
        },
    }
}

impl PerpsSyncIx {
    /// Reads the instruction that starts instruction data.
    pub fn from_bytes(bytes: &[u8]) -> (ix: Result<PerpsSyncIx, ProgramError>)
        ensures
            ix == match sync_ix(bytes@) {
                Some(ix) => Ok::<PerpsSyncIx, ProgramError>(ix),
                None => Err(ProgramError::InvalidInstructionData),
            },
    {
        if bytes.len() < 8 {
            return Err(ProgramError::InvalidInstructionData);
        }
        let val: u64 = read_word(bytes, 0);
        if val > MAX_SYNC_VARIANT {
            return Err(ProgramError::InvalidInstructionData);
        }
        if val == 0 {
            Ok(PerpsSyncIx::Deposit)
        } else if val == 1 {
            Ok(PerpsSyncIx::Withdraw)
        } else if val == 2 {
            Ok(PerpsSyncIx::UpdateOracle)
        } else {
            Ok(PerpsSyncIx::ApplyFunding)
        }
    }

    /// Executes the instruction. `accounts` are the keys of the accounts, the user's second;
    /// `clock` is the current slot, where it is known.
    pub fn process(
        &self,
        data: &[u8],
        accounts: &[[u8; 32]],
        clock: Option<u64>,
        state: &mut PerpsState,
    ) -> (result: Result<(), ProgramError>)
        ensures
            final(state)@ == sync_applied(old(state)@, *self, data@, accounts@, clock),
            result == sync_answer(old(state)@, *self, data@, accounts@),
            final(state).orderbook == old(state).orderbook,
            final(state).async_queue == old(state).async_queue,
    {
        match self {
            PerpsSyncIx::Deposit => {
                if data.len() < 16 {
                    return Err(ProgramError::InvalidInstructionData);
                }
                let amount: u64 = read_word(data, 8);
                if accounts.len() < 2 {
                    return Err(ProgramError::NotEnoughAccountKeys);
                }
                match state.margins.credit(&accounts[1], amount) {
                    Some(()) => Ok(()),
                    None => Err(ProgramError::Custom(DEPOSIT_FAILED)),
                }
            },
            PerpsSyncIx::Withdraw => {
                if data.len() < 16 {
                    return Err(ProgramError::InvalidInstructionData);
                }
                let amount: u64 = read_word(data, 8);
                if accounts.len() < 2 {
                    return Err(ProgramError::NotEnoughAccountKeys);
                }
                match state.margins.debit(&accounts[1], amount) {
                    Some(()) => Ok(()),
                    None => Err(ProgramError::Custom(WITHDRAW_FAILED)),
                }
            },
            PerpsSyncIx::UpdateOracle => {
                if data.len() < 16 {
                    return Err(ProgramError::InvalidInstructionData);
                }
                state.oracle_price = read_word(data, 8);
                Ok(())
            },
            PerpsSyncIx::ApplyFunding => {
                let slot: u64 = match clock {
                    Some(slot) => slot,
                    None => 0,
                };
                state.last_funding_slot = slot;
                Ok(())
            },
        }
    }
}

} // verus!
