//! The program: one instruction in, the state changed, an answer out.

use vstd::prelude::*;

use crate::async_instructions::{async_ix, Outcome, PerpsAsyncIx};
use crate::error::{ProgramError, QUEUE_FULL};
use crate::positions::blank_key;
use crate::queue::{can_enqueue, crank_fits, crank_outcomes, cranked, enqueued, QueueAsyncArgs};
use crate::record::{key_at, le_word, read_key, read_word};
use crate::state::{initialize_state, initialized, Market, PerpsAsyncIxType, PerpsState};
use crate::sync_instructions::{sync_answer, sync_applied, sync_ix, PerpsSyncIx};

verus! {

/// The type of an instruction.
pub open spec fn type_of(ix: PerpsAsyncIx) -> PerpsAsyncIxType {
    match ix {
        PerpsAsyncIx::Liquidate => PerpsAsyncIxType::Liquidate,
        PerpsAsyncIx::Cancel => PerpsAsyncIxType::Cancel,
        PerpsAsyncIx::PlaceOrder => PerpsAsyncIxType::PlaceOrder,
        PerpsAsyncIx::Take => PerpsAsyncIxType::Take,
    }
}

/// The word at byte `at`: 0 where the data ends before it does.
pub open spec fn word_or_zero(data: Seq<u8>, at: int) -> u64 {
    if data.len() >= at + 8 {
        le_word(data, at)
    } else {
        0
    }
}

/// The user key at byte `at`: zeros where the data ends before it does.
pub open spec fn key_or_blank(data: Seq<u8>, at: int) -> [u8; 32] {
    if data.len() >= at + 32 {
        key_at(data, at)
    } else {
        blank_key()
    }
}

/// The arguments that instruction data gives to a queued instruction of `user`: after its number,
/// price, size, side and order number, a word each, then the extra user's key.
pub open spec fn args_from(ix: PerpsAsyncIx, data: Seq<u8>, user: [u8; 32]) -> QueueAsyncArgs {
    QueueAsyncArgs {
        user,
        ix_type: type_of(ix),
        price: word_or_zero(data, 8),
        size: word_or_zero(data, 16),
        side: word_or_zero(data, 24),
        order_seq: word_or_zero(data, 32),
        extra_user: key_or_blank(data, 40),
    }
}

/// Reads the word at byte `at`: 0 where the data ends before it does.
fn read_word_or_zero(data: &[u8], at: usize) -> (w: u64)
    requires
        at <= 32,
    ensures
        w == word_or_zero(data@, at as int),
{
    if data.len() >= at + 8 {
        read_word(data, at)
    } else {
        0
    }
}

impl QueueAsyncArgs {
    /// Reads the arguments of a queued instruction of `user` from instruction data.
    pub fn from_data(ix: &PerpsAsyncIx, data: &[u8], user: &[u8; 32]) -> (args: QueueAsyncArgs)
        ensures
            args == args_from(*ix, data@, *user),
    {
        let ix_type = match ix {
            PerpsAsyncIx::Liquidate => PerpsAsyncIxType::Liquidate,
            PerpsAsyncIx::Cancel => PerpsAsyncIxType::Cancel,
            PerpsAsyncIx::PlaceOrder => PerpsAsyncIxType::PlaceOrder,
            PerpsAsyncIx::Take => PerpsAsyncIxType::Take,
        };
        let extra_user: [u8; 32] = if data.len() >= 72 {
            read_key(data, 40)
        } else {
            [0u8; 32]
        };
        QueueAsyncArgs {
            user: *user,
            ix_type,
            price: read_word_or_zero(data, 8),
            size: read_word_or_zero(data, 16),
            side: read_word_or_zero(data, 24),
            order_seq: read_word_or_zero(data, 32),
            extra_user,
        }
    }
}

/// The state is in order: initialized, or still to be initialized where no number was given out.
pub open spec fn usable(state: PerpsState) -> bool {
    if state.seq == 0 {
        state.blank()
    } else {
        state.runnable()
    }
}

/// The market that an instruction meets.
pub open spec fn started(state: PerpsState) -> Market {
    if state.seq == 0 {
        initialized(state@)
    } else {
        state@
    }
}

/// The market after an instruction. The first byte of the data routes it: 0 runs it at once, 1
/// queues it, 2 runs what was queued in earlier slots. `accounts` are the keys of the accounts,
/// the user's second; `clock` is the current slot, where it is known.
pub open spec fn handled(
    m: Market,
    accounts: Seq<[u8; 32]>,
    data: Seq<u8>,
    clock: Option<u64>,
) -> Market {
    let rest = data.skip(1);
    if data[0] == 0 {
        match sync_ix(rest) {
            Some(ix) => sync_applied(m, ix, rest, accounts, clock),
            None => m,
        }
    } else if data[0] == 1 {
        match async_ix(rest) {
            Some(ix) => enqueued(m, ix, args_from(ix, rest, accounts[1]), clock->Some_0),
            None => m,
        }
    } else if data[0] == 2 {
        cranked(m, clock->Some_0)
    } else {
        m
    }
}

/// What an instruction is answered.
pub open spec fn answer(
    m: Market,
    accounts: Seq<[u8; 32]>,
    data: Seq<u8>,
    clock: Option<u64>,
) -> Result<(), ProgramError> {
    let rest = data.skip(1);
    if data[0] == 0 {
        match sync_ix(rest) {
            Some(ix) => sync_answer(m, ix, rest, accounts),
            None => Err(ProgramError::InvalidInstructionData),
        }
    } else if data[0] == 1 {
        match async_ix(rest) {
            Some(ix) => if can_enqueue(m, ix, clock->Some_0) {
                Ok(())
            } else {
                Err(ProgramError::Custom(QUEUE_FULL))
            },
            None => Err(ProgramError::InvalidInstructionData),
        }
    } else if data[0] == 2 {
        Ok(())
    } else {
        Err(ProgramError::InvalidInstructionData)
    }
}

/// The instruction can be carried out: there is a first byte, the slot is known where it is
/// needed, and the numbers stay within 64 bits.
pub open spec fn handle_fits(m: Market, data: Seq<u8>, clock: Option<u64>) -> bool {
    &&& data.len() > 0
    &&& data[0] == 1 && async_ix(data.skip(1)) is Some ==> clock is Some && m.seq < u64::MAX
    &&& data[0] == 2 ==> clock is Some && crank_fits(m, clock->Some_0)
}

/// What an instruction runs of the queue, and what that does.
pub open spec fn run_by(m: Market, data: Seq<u8>, clock: Option<u64>) -> Seq<Outcome> {
    if data[0] == 2 {
        crank_outcomes(m, clock->Some_0)
    } else {
        Seq::empty()
    }
}

/// What comes of an instruction: its answer, and what it ran of the queue did.
pub struct Reply {
    pub answer: Result<(), ProgramError>,
    pub ran: Vec<Outcome>,
}

/// The program.
pub struct PerpsProgram;

impl PerpsProgram {
    /// Carries out one instruction. `accounts` are the keys of the accounts, the state's first and
    /// the user's second; `clock` is the current slot, where it is known. Gives `None` where the
    /// instruction cannot be carried out; the state is then in order, but of no further use.
    pub fn checked_process(
        _program_id: &[u8; 32],
        accounts: &[[u8; 32]],
        instruction_data: &[u8],
        clock: Option<u64>,
        state: &mut PerpsState,
    ) -> (reply: Option<Reply>)
        requires
            usable(*old(state)),
        ensures
            accounts@.len() < 2 ==> {
                &&& reply matches Some(r)
                &&& r.answer == Err::<(), ProgramError>(ProgramError::NotEnoughAccountKeys)
                &&& r.ran@ == Seq::<Outcome>::empty()
                &&& *final(state) == *old(state)
            },
            accounts@.len() >= 2 ==> {
                &&& final(state).runnable()
                &&& old(state).seq == 0 || old(state).wf() ==> final(state).wf()
                &&& reply is Some <==> handle_fits(started(*old(state)), instruction_data@, clock)
                &&& reply matches Some(r) ==> {
                    &&& r.answer == answer(started(*old(state)), accounts@, instruction_data@, clock)
                    &&& r.ran@ == run_by(started(*old(state)), instruction_data@, clock)
                    &&& final(state)@ == handled(
                        started(*old(state)),
                        accounts@,
                        instruction_data@,
                        clock,
                    )
                }
            },
    {
        if accounts.len() < 2 {
            return Some(
                Reply { answer: Err(ProgramError::NotEnoughAccountKeys), ran: Vec::new() },
            );
        }
        if state.seq == 0 {
            initialize_state(state);
        }
        if instruction_data.len() == 0 {
            return None;
        }
        let ix_type: u8 = instruction_data[0];
        let (_, ix_data) = instruction_data.split_at(1);
        assert(ix_data@ =~= instruction_data@.skip(1));
        if ix_type == 0 {
            match PerpsSyncIx::from_bytes(ix_data) {
                Ok(ix) => Some(
                    Reply {
                        answer: ix.process(ix_data, accounts, clock, state),
                        ran: Vec::new(),
                    },
                ),
                Err(error) => Some(Reply { answer: Err(error), ran: Vec::new() }),
            }
        } else if ix_type == 1 {
            let ix = match PerpsAsyncIx::from_bytes(ix_data) {
                Ok(ix) => ix,
                Err(error) => {
                    return Some(Reply { answer: Err(error), ran: Vec::new() });
                },
            };
            let args = QueueAsyncArgs::from_data(&ix, ix_data, &accounts[1]);
            match clock {
                Some(slot) => {
                    if state.seq == u64::MAX {
                        return None;
                    }
                    Some(Reply { answer: state.queue_async(&ix, &args, slot), ran: Vec::new() })
                },
                None => None,
            }
        } else if ix_type == 2 {
            match clock {
                Some(slot) => {
                    match state.checked_crank(slot) {
                        Some(ran) => Some(Reply { answer: Ok(()), ran }),
                        None => None,
                    }
                },
                None => None,
            }
        } else {
            Some(Reply { answer: Err(ProgramError::InvalidInstructionData), ran: Vec::new() })
        }
    }

    /// Carries out one instruction that can be carried out.
    pub fn process(
        program_id: &[u8; 32],
        accounts: &[[u8; 32]],
        instruction_data: &[u8],
        clock: Option<u64>,
        state: &mut PerpsState,
    ) -> (result: Result<(), ProgramError>)
        requires
            usable(*old(state)),
            accounts@.len() >= 2 ==> handle_fits(started(*old(state)), instruction_data@, clock),
        ensures
            accounts@.len() < 2 ==> result == Err::<(), ProgramError>(
                ProgramError::NotEnoughAccountKeys,
            ) && *final(state) == *old(state),
            accounts@.len() >= 2 ==> {
                &&& final(state).runnable()
                &&& old(state).seq == 0 || old(state).wf() ==> final(state).wf()
                &&& result == answer(started(*old(state)), accounts@, instruction_data@, clock)
                &&& final(state)@ == handled(
                    started(*old(state)),
                    accounts@,
                    instruction_data@,
                    clock,
                )
            },
    {
        match Self::checked_process(program_id, accounts, instruction_data, clock, state) {
            Some(reply) => reply.answer,
            None => Ok(()),
        }
    }
}

} // verus!
