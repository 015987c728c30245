//! What the bytes of an instruction mean and what the program makes of them.

use vstd::prelude::*;

use crate::async_instructions::{async_ix, Outcome, PerpsAsyncIx};
use crate::error::ProgramError;
use crate::positions::{blank_key, can_credit, can_debit, credited, debited};
use crate::program::{answer, args_from, handle_fits, handled, run_by, started};
use crate::queue::{can_enqueue, crank_fits, crank_outcomes, cranked, enqueued};
use crate::record::{key_at, le_word, lemma_key_at};
use crate::state::{initialized, new_market, Market, PerpsAsyncIxType, PerpsState};
use crate::sync_instructions::{sync_answer, sync_applied, sync_ix, PerpsSyncIx};

verus! {

/// A word has its bytes as digits in base 256, the first byte lowest.
pub proof fn law_word_digits(b: Seq<u8>, at: int)
    ensures
        ({
            let w0 = le_word(b, at) as int;
            let w1 = w0 / 256;
            let w2 = w1 / 256;
            let w3 = w2 / 256;
            let w4 = w3 / 256;
            let w5 = w4 / 256;
            let w6 = w5 / 256;
            let w7 = w6 / 256;
            &&& w0 % 256 == b[at]
            &&& w1 % 256 == b[at + 1]
            &&& w2 % 256 == b[at + 2]
            &&& w3 % 256 == b[at + 3]
            &&& w4 % 256 == b[at + 4]
            &&& w5 % 256 == b[at + 5]
            &&& w6 % 256 == b[at + 6]
            &&& w7 == b[at + 7]
        }),
{
    let h7 = b[at + 7] as int;
    let h6 = b[at + 6] + 256 * h7;
    let h5 = b[at + 5] + 256 * h6;
    let h4 = b[at + 4] + 256 * h5;
    let h3 = b[at + 3] + 256 * h4;
    let h2 = b[at + 2] + 256 * h3;
    let h1 = b[at + 1] + 256 * h2;
    let h0 = b[at] + 256 * h1;
    assert(le_word(b, at) == h0);
    assert(h0 / 256 == h1 && h0 % 256 == b[at]);
    assert(h1 / 256 == h2 && h1 % 256 == b[at + 1]);
    assert(h2 / 256 == h3 && h2 % 256 == b[at + 2]);
    assert(h3 / 256 == h4 && h3 % 256 == b[at + 3]);
    assert(h4 / 256 == h5 && h4 % 256 == b[at + 4]);
    assert(h5 / 256 == h6 && h5 % 256 == b[at + 5]);
    assert(h6 / 256 == h7 && h6 % 256 == b[at + 6]);
}

/// Instructions are numbered 0 to 3 in the first word of their data; anything shorter, and any other
/// number, is no instruction.
pub proof fn law_numbers_name_instructions(data: Seq<u8>)
    ensures
        data.len() < 8 || le_word(data, 0) > 3 ==> sync_ix(data) is None && async_ix(data) is None,
        data.len() >= 8 && le_word(data, 0) == 0 ==> sync_ix(data) == Some(PerpsSyncIx::Deposit)
            && async_ix(data) == Some(PerpsAsyncIx::Liquidate),
        data.len() >= 8 && le_word(data, 0) == 1 ==> sync_ix(data) == Some(PerpsSyncIx::Withdraw)
            && async_ix(data) == Some(PerpsAsyncIx::Cancel),
        data.len() >= 8 && le_word(data, 0) == 2 ==> sync_ix(data) == Some(
            PerpsSyncIx::UpdateOracle,
        ) && async_ix(data) == Some(PerpsAsyncIx::PlaceOrder),
        data.len() >= 8 && le_word(data, 0) == 3 ==> sync_ix(data) == Some(
            PerpsSyncIx::ApplyFunding,
        ) && async_ix(data) == Some(PerpsAsyncIx::Take),
{
}

/// The arguments of a queued instruction are its user, the words of its data in turn, from the
/// second on, and the 32 bytes after the fifth word. What the data is too short for is zero.
pub proof fn law_arguments(ix: PerpsAsyncIx, data: Seq<u8>, user: [u8; 32])
    ensures
        ({
            let args = args_from(ix, data, user);
            &&& args.user == user
            &&& args.ix_type == match ix {
                PerpsAsyncIx::Liquidate => PerpsAsyncIxType::Liquidate,
                PerpsAsyncIx::Cancel => PerpsAsyncIxType::Cancel,
                PerpsAsyncIx::PlaceOrder => PerpsAsyncIxType::PlaceOrder,
                PerpsAsyncIx::Take => PerpsAsyncIxType::Take,
            }
            &&& data.len() >= 16 ==> args.price == le_word(data, 8)
            &&& data.len() >= 24 ==> args.size == le_word(data, 16)
            &&& data.len() >= 32 ==> args.side == le_word(data, 24)
            &&& data.len() >= 40 ==> args.order_seq == le_word(data, 32)
            &&& data.len() >= 72 ==> forall|i: int|
                0 <= i < 32 ==> #[trigger] args.extra_user[i] == data[40 + i]
            &&& data.len() < 16 ==> args.price == 0
            &&& data.len() < 24 ==> args.size == 0
            &&& data.len() < 32 ==> args.side == 0
            &&& data.len() < 40 ==> args.order_seq == 0
            &&& data.len() < 72 ==> forall|i: int|
                0 <= i < 32 ==> #[trigger] args.extra_user[i] == 0
        }),
{
    if data.len() >= 72 {
        lemma_key_at(data, 40);
        assert forall|i: int| 0 <= i < 32 implies #[trigger] key_at(data, 40)[i] == data[40
            + i] by {
            assert(key_at(data, 40)@[i] == data.subrange(40, 72)[i]);
        }
    }
}

/// The balances are all that may differ between two markets.
pub open spec fn same_but_margins(m: Market, after: Market) -> bool {
    &&& after.seq == m.seq
    &&& after.oracle_price == m.oracle_price
    &&& after.funding_rate == m.funding_rate
    &&& after.last_funding_slot == m.last_funding_slot
    &&& after.accounts.positions == m.accounts.positions
    &&& after.bids == m.bids
    &&& after.asks == m.asks
    &&& after.queue == m.queue
}

/// A deposit credits, and a withdrawal debits, the second account by the second word of the data,
/// and is answered `Ok` just where that can be done. Neither runs on data without a second word, nor
/// without a second account.
pub proof fn law_deposit_and_withdraw(
    m: Market,
    data: Seq<u8>,
    accounts: Seq<[u8; 32]>,
    clock: Option<u64>,
)
    ensures
        ({
            let deposited = sync_applied(m, PerpsSyncIx::Deposit, data, accounts, clock);
            let withdrawn = sync_applied(m, PerpsSyncIx::Withdraw, data, accounts, clock);
            let deposit_answer = sync_answer(m, PerpsSyncIx::Deposit, data, accounts);
            let withdraw_answer = sync_answer(m, PerpsSyncIx::Withdraw, data, accounts);
            &&& same_but_margins(m, deposited)
            &&& same_but_margins(m, withdrawn)
            &&& data.len() < 16 ==> {
                &&& deposited == m
                &&& withdrawn == m
                &&& deposit_answer == Err::<(), ProgramError>(ProgramError::InvalidInstructionData)
                &&& withdraw_answer == Err::<(), ProgramError>(ProgramError::InvalidInstructionData)
            }
            &&& data.len() >= 16 && accounts.len() < 2 ==> {
                &&& deposited == m
                &&& withdrawn == m
                &&& deposit_answer == Err::<(), ProgramError>(ProgramError::NotEnoughAccountKeys)
                &&& withdraw_answer == Err::<(), ProgramError>(ProgramError::NotEnoughAccountKeys)
            }
            &&& data.len() >= 16 && accounts.len() >= 2 ==> {
                let (user, amount) = (accounts[1], le_word(data, 8));
                let margins = m.accounts.margins;
                &&& deposited.accounts.margins == credited(margins, user, amount)
                &&& withdrawn.accounts.margins == debited(margins, user, amount)
                &&& can_credit(margins, user, amount) ==> deposit_answer is Ok
                &&& !can_credit(margins, user, amount) ==> deposit_answer == Err::<
                    (),
                    ProgramError,
                >(ProgramError::Custom(0x10))
                &&& can_debit(margins, user, amount) ==> withdraw_answer is Ok
                &&& !can_debit(margins, user, amount) ==> withdraw_answer == Err::<
                    (),
                    ProgramError,
                >(ProgramError::Custom(0x11))
            }
        }),
{
}

/// UpdateOracle sets the oracle price to the second word of the data, without which it is refused;
/// ApplyFunding sets the slot of the last funding to the current one, or to 0 where that is not
/// known. Neither changes anything else.
pub proof fn law_oracle_and_funding(
    m: Market,
    data: Seq<u8>,
    accounts: Seq<[u8; 32]>,
    clock: Option<u64>,
)
    ensures
        ({
            let priced = sync_applied(m, PerpsSyncIx::UpdateOracle, data, accounts, clock);
            let funded = sync_applied(m, PerpsSyncIx::ApplyFunding, data, accounts, clock);
            let price_answer = sync_answer(m, PerpsSyncIx::UpdateOracle, data, accounts);
            &&& data.len() >= 16 ==> {
                &&& priced.oracle_price == le_word(data, 8)
                &&& same_but_margins(Market { oracle_price: priced.oracle_price, ..m }, priced)
                &&& priced.accounts == m.accounts
                &&& price_answer is Ok
            }
            &&& data.len() < 16 ==> priced == m && price_answer == Err::<(), ProgramError>(
                ProgramError::InvalidInstructionData,
            )
            &&& clock matches Some(slot) ==> funded.last_funding_slot == slot
            &&& clock is None ==> funded.last_funding_slot == 0
            &&& same_but_margins(
                Market { last_funding_slot: funded.last_funding_slot, ..m },
                funded,
            )
            &&& funded.accounts == m.accounts
            &&& sync_answer(m, PerpsSyncIx::ApplyFunding, data, accounts) is Ok
        }),
{
}

/// The first byte decides: 0 runs the rest as an instruction at once, 1 queues it for the second
/// account in the current slot, 2 cranks the queue in the current slot. Data that names no
/// instruction, and any other first byte, is refused and changes nothing. Only a crank runs what
/// was queued.
pub proof fn law_routes(
    m: Market,
    accounts: Seq<[u8; 32]>,
    data: Seq<u8>,
    slot: u64,
    rest: Seq<u8>,
)
    requires
        data.len() > 0,
        rest == data.skip(1),
    ensures
        ({
            let clock = Some(slot);
            let after = handled(m, accounts, data, clock);
            let reply = answer(m, accounts, data, clock);
            let ran = run_by(m, data, clock);
            let invalid = Err::<(), ProgramError>(ProgramError::InvalidInstructionData);
            &&& data[0] != 2 ==> ran == Seq::<Outcome>::empty()
            &&& data[0] == 0 ==> {
                &&& sync_ix(rest) matches Some(ix) ==> {
                    &&& after == sync_applied(m, ix, rest, accounts, clock)
                    &&& reply == sync_answer(m, ix, rest, accounts)
                }
                &&& sync_ix(rest) is None ==> after == m && reply == invalid
                &&& handle_fits(m, data, clock)
            }
            &&& data[0] == 1 ==> {
                &&& async_ix(rest) matches Some(ix) ==> {
                    &&& after == enqueued(m, ix, args_from(ix, rest, accounts[1]), slot)
                    &&& can_enqueue(m, ix, slot) ==> reply is Ok
                    &&& !can_enqueue(m, ix, slot) ==> reply == Err::<(), ProgramError>(
                        ProgramError::Custom(0x20),
                    )
                    &&& handle_fits(m, data, clock) == (m.seq < u64::MAX)
                }
                &&& async_ix(rest) is None ==> after == m && reply == invalid && handle_fits(
                    m,
                    data,
                    clock,
                )
            }
            &&& data[0] == 2 ==> {
                &&& after == cranked(m, slot)
                &&& reply is Ok
                &&& ran == crank_outcomes(m, slot)
                &&& handle_fits(m, data, clock) == crank_fits(m, slot)
            }
            &&& data[0] > 2 ==> after == m && reply == invalid && handle_fits(m, data, clock)
        }),
{
}

/// Without the current slot an instruction that runs at once can still be carried out, and what is
/// refused is still refused; nothing can be queued or cranked. Without a first byte nothing can be
/// carried out.
pub proof fn law_without_a_clock(m: Market, accounts: Seq<[u8; 32]>, data: Seq<u8>, slot: u64)
    ensures
        data.len() == 0 ==> !handle_fits(m, data, None) && !handle_fits(m, data, Some(slot)),
        data.len() > 0 ==> {
            let rest = data.skip(1);
            &&& !handle_fits(m, data, None) <==> data[0] == 2 || (data[0] == 1 && async_ix(
                rest,
            ) is Some)
            &&& data[0] == 0 ==> {
                &&& answer(m, accounts, data, None) == answer(m, accounts, data, Some(slot))
                &&& sync_ix(rest) matches Some(ix) ==> handled(m, accounts, data, None)
                    == sync_applied(m, ix, rest, accounts, None)
                &&& sync_ix(rest) is None ==> handled(m, accounts, data, None) == m
            }
            &&& data[0] == 1 && async_ix(rest) is None || data[0] > 2 ==> {
                &&& handled(m, accounts, data, None) == m
                &&& answer(m, accounts, data, None) == Err::<(), ProgramError>(
                    ProgramError::InvalidInstructionData,
                )
            }
            &&& data[0] != 2 ==> run_by(m, data, None) == Seq::<Outcome>::empty()
        },
{
}

/// The first instruction of a state without a number meets its market initialized; any other meets
/// the market as it is.
pub proof fn law_first_instruction_initializes(state: PerpsState)
    ensures
        state.seq == 0 ==> started(state) == initialized(state@),
        state.seq != 0 ==> started(state) == state@,
{
}

/// A market is initialized with an empty book, an empty queue and the number 1, and is otherwise
/// what it was; a new one has 256 balances and 256 positions, all of them empty slots of nobody with
/// nothing in them, and no price, rate or slot.
pub proof fn law_start(m: Market)
    ensures
        ({
            let after = initialized(m);
            let fresh = new_market();
            &&& after.seq == 1
            &&& after.bids.dom().is_empty() && after.asks.dom().is_empty()
                && after.queue.dom().is_empty()
            &&& after.accounts == m.accounts
            &&& after.oracle_price == m.oracle_price
            &&& after.funding_rate == m.funding_rate
            &&& after.last_funding_slot == m.last_funding_slot
            &&& fresh.seq == 1
            &&& fresh.bids.dom().is_empty() && fresh.asks.dom().is_empty()
                && fresh.queue.dom().is_empty()
            &&& fresh.oracle_price == 0 && fresh.funding_rate == 0 && fresh.last_funding_slot == 0
            &&& fresh.accounts.margins.len() == 256
            &&& fresh.accounts.positions.len() == 256
            &&& forall|i: int|
                0 <= i < 256 ==> (#[trigger] fresh.accounts.margins[i]).is_active == 0
                    && fresh.accounts.margins[i].balance == 0
                    && fresh.accounts.margins[i].owner == blank_key()
            &&& forall|i: int|
                0 <= i < 256 ==> (#[trigger] fresh.accounts.positions[i]).is_active == 0
                    && fresh.accounts.positions[i].size == 0
                    && fresh.accounts.positions[i].entry_price == 0
                    && fresh.accounts.positions[i].side == 0
                    && fresh.accounts.positions[i].owner == blank_key()
            &&& forall|i: int| 0 <= i < 32 ==> #[trigger] blank_key()[i] == 0
        }),
{
}

} // verus!
