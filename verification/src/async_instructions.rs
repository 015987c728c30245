//! The instructions that wait in the queue, and what they do when their turn comes.

use vstd::prelude::*;

use crate::error::ProgramError;
use crate::margin_laws::law_withdraw_then_deposit;
use crate::orderbook::{ask_id, bid_id, Order, OrderId, MAX_ORDERS};
use crate::positions::{can_debit, credited, debited, notional, UserMargin};
use crate::record::{le_word, read_word};
use crate::settlement::{
    can_liquidate, checked_execute_take, execute_liquidation, fills_of, liquidated, margin_for,
    same_but_trading, take_fits, taken, units,
};
use crate::state::{Accounts, Market, PerpsAsyncIxType, PerpsState, QueuedInstruction};

verus! {

/// The largest number of an instruction.
pub const MAX_ASYNC_VARIANT: u64 = 3;

/// The instructions, first to be executed first: their order is their priority.
#[derive(Debug, Clone, Copy, PartialEq, Eq, Ord, Structural)]
pub enum PerpsAsyncIx {
    Liquidate,
    Cancel,
    PlaceOrder,
    Take,
}

impl PartialOrd for PerpsAsyncIx {
    fn partial_cmp(&self, other: &Self) -> (order: Option<core::cmp::Ordering>) {
        let a: u64 = self.priority();
        let b: u64 = other.priority();
        if a < b {
            Some(core::cmp::Ordering::Less)
        } else if a > b {
            Some(core::cmp::Ordering::Greater)
        } else {
            Some(core::cmp::Ordering::Equal)
        }
    }
}

impl vstd::std_specs::cmp::PartialOrdSpecImpl for PerpsAsyncIx {
    open spec fn obeys_partial_cmp_spec() -> bool {
        true
    }

    open spec fn partial_cmp_spec(&self, other: &Self) -> Option<core::cmp::Ordering> {
        if priority_of(*self) < priority_of(*other) {
            Some(core::cmp::Ordering::Less)
        } else if priority_of(*self) > priority_of(*other) {
            Some(core::cmp::Ordering::Greater)
        } else {
            Some(core::cmp::Ordering::Equal)
        }
    }
}

/// The number of a type, which is the priority of its instruction.
pub open spec fn type_number(t: PerpsAsyncIxType) -> u64 {
    match t {
        PerpsAsyncIxType::Liquidate => 0,
        PerpsAsyncIxType::Cancel => 1,
        PerpsAsyncIxType::PlaceOrder => 2,
        PerpsAsyncIxType::Take => 3,
    }
}

/// The number of an instruction, which is its priority: a lower one executes first in a slot.
pub open spec fn priority_of(ix: PerpsAsyncIx) -> u64 {
    match ix {
        PerpsAsyncIx::Liquidate => 0,
        PerpsAsyncIx::Cancel => 1,
        PerpsAsyncIx::PlaceOrder => 2,
        PerpsAsyncIx::Take => 3,
    }
}

/// The instruction with a number.
pub open spec fn ix_numbered(n: u64) -> PerpsAsyncIx {
    if n == 0 {
        PerpsAsyncIx::Liquidate
    } else if n == 1 {
        PerpsAsyncIx::Cancel
    } else if n == 2 {
        PerpsAsyncIx::PlaceOrder
    } else {
        PerpsAsyncIx::Take
    }
}

/// Args passed when processing a queued instruction.
pub struct PerpsAsyncIxArgs {
    pub queued: QueuedInstruction,
}

/// The id of an order on `side` of the book.
pub open spec fn id_on(side: u64, price: u64, seq: u64) -> OrderId {
    if side == 0 {
        bid_id(price, seq)
    } else {
        ask_id(price, seq)
    }
}

/// The orders on `side` of the book.
pub open spec fn orders_on(m: Market, side: u64) -> Map<OrderId, Order> {
    if side == 0 {
        m.bids
    } else {
        m.asks
    }
}

/// The market with other orders on `side` of the book.
pub open spec fn with_orders(m: Market, side: u64, orders: Map<OrderId, Order>) -> Market {
    if side == 0 {
        Market { bids: orders, ..m }
    } else {
        Market { asks: orders, ..m }
    }
}

/// The market with other margin balances.
pub open spec fn with_margins(m: Market, margins: Seq<UserMargin>) -> Market {
    Market { accounts: Accounts { margins, ..m.accounts }, ..m }
}

/// The market after a cancel: the order leaves the book and the user is credited the margin behind
/// it. Without such an order nothing changes.
pub open spec fn cancelled(m: Market, q: QueuedInstruction) -> Market {
    let id = id_on(q.side, q.price, q.order_seq);
    let orders = orders_on(m, q.side);
    if orders.contains_key(id) {
        let margin = margin_for(orders[id].price, orders[id].size);
        with_margins(
            with_orders(m, q.side, orders.remove(id)),
            credited(m.accounts.margins, q.user, margin),
        )
    } else {
        m
    }
}

/// The order that a PlaceOrder describes.
pub open spec fn resting_order(q: QueuedInstruction) -> Order {
    Order {
        owner: q.user,
        size: q.size,
        price: q.price,
        side: if q.side == 0 {
            0
        } else {
            1
        },
    }
}

/// A PlaceOrder succeeds: the user can put up the margin, and the book has room for the order.
pub open spec fn can_place(m: Market, q: QueuedInstruction) -> bool {
    let orders = orders_on(m, q.side);
    &&& can_debit(m.accounts.margins, q.user, margin_for(q.price, q.size))
    &&& orders.contains_key(id_on(q.side, q.price, q.order_seq)) || orders.len() < MAX_ORDERS
}

/// The market after a PlaceOrder: the margin is reserved and the order rests in the book, in place
/// of one with the same id. Where that cannot be done, nothing changes.
pub open spec fn placed(m: Market, q: QueuedInstruction) -> Market {
    let id = id_on(q.side, q.price, q.order_seq);
    if can_place(m, q) {
        with_margins(
            with_orders(m, q.side, orders_on(m, q.side).insert(id, resting_order(q))),
            debited(m.accounts.margins, q.user, margin_for(q.price, q.size)),
        )
    } else {
        m
    }
}

/// The market after an instruction.
pub open spec fn applied(m: Market, ix: PerpsAsyncIx, q: QueuedInstruction) -> Market {
    match ix {
        PerpsAsyncIx::Liquidate => liquidated(m, q.user, q.extra_user),
        PerpsAsyncIx::Cancel => cancelled(m, q),
        PerpsAsyncIx::PlaceOrder => placed(m, q),
        PerpsAsyncIx::Take => taken(m, q.user, q.price, q.size, q.side),
    }
}

/// What an instruction did.
#[derive(Copy, Clone, Debug, PartialEq, Eq, Structural)]
pub enum Outcome {
    Liquidated,
    NotLiquidatable,
    Cancelled,
    OrderNotFound,
    Placed { price: u64, size: u64, side: u64 },
    InsufficientMargin,
    BookFull,
    /// The units filled.
    Taken(u64),
}

/// What an instruction does to a market.
pub open spec fn outcome_of(m: Market, ix: PerpsAsyncIx, q: QueuedInstruction) -> Outcome {
    match ix {
        PerpsAsyncIx::Liquidate => if can_liquidate(m, q.user) {
            Outcome::Liquidated
        } else {
            Outcome::NotLiquidatable
        },
        PerpsAsyncIx::Cancel => if orders_on(m, q.side).contains_key(
            id_on(q.side, q.price, q.order_seq),
        ) {
            Outcome::Cancelled
        } else {
            Outcome::OrderNotFound
        },
        PerpsAsyncIx::PlaceOrder => if can_place(m, q) {
            Outcome::Placed { price: q.price, size: q.size, side: q.side }
        } else if !can_debit(m.accounts.margins, q.user, margin_for(q.price, q.size)) {
            Outcome::InsufficientMargin
        } else {
            Outcome::BookFull
        },
        PerpsAsyncIx::Take => Outcome::Taken(units(fills_of(m, q.price, q.size, q.side)) as u64),
    }
}

/// The numbers of an instruction stay within 64 bits.
pub open spec fn ix_fits(m: Market, ix: PerpsAsyncIx, q: QueuedInstruction) -> bool {
    ix == PerpsAsyncIx::Take ==> take_fits(m, q.user, q.price, q.size, q.side)
}

/// The instruction that starts instruction data: its number in the first eight bytes.
pub open spec fn async_ix(data: Seq<u8>) -> Option<PerpsAsyncIx> {
    if data.len() >= 8 && le_word(data, 0) <= MAX_ASYNC_VARIANT {
        Some(ix_numbered(le_word(data, 0)))
    } else {
        None
    }
}

impl PerpsAsyncIx {
    /// The instruction of a type.
    pub fn from_type(t: PerpsAsyncIxType) -> (ix: PerpsAsyncIx)
        ensures
            ix == match t {
                PerpsAsyncIxType::Liquidate => PerpsAsyncIx::Liquidate,
                PerpsAsyncIxType::Cancel => PerpsAsyncIx::Cancel,
                PerpsAsyncIxType::PlaceOrder => PerpsAsyncIx::PlaceOrder,
                PerpsAsyncIxType::Take => PerpsAsyncIx::Take,
            },
            priority_of(ix) == type_number(t),
    {
        match t {
            PerpsAsyncIxType::Liquidate => PerpsAsyncIx::Liquidate,
            PerpsAsyncIxType::Cancel => PerpsAsyncIx::Cancel,
            PerpsAsyncIxType::PlaceOrder => PerpsAsyncIx::PlaceOrder,
            PerpsAsyncIxType::Take => PerpsAsyncIx::Take,
        }
    }

    /// The priority of the instruction.
    pub fn priority(&self) -> (n: u64)
        ensures
            n == priority_of(*self),
    {
        match self {
            PerpsAsyncIx::Liquidate => 0,
            PerpsAsyncIx::Cancel => 1,
            PerpsAsyncIx::PlaceOrder => 2,
            PerpsAsyncIx::Take => 3,
        }
    }

    /// The instruction with a number.
    pub fn from_number(n: u64) -> (ix: PerpsAsyncIx)
        requires
            n <= MAX_ASYNC_VARIANT,
        ensures
            ix == ix_numbered(n),
            priority_of(ix) == n,
    {
        if n == 0 {
            PerpsAsyncIx::Liquidate
        } else if n == 1 {
            PerpsAsyncIx::Cancel
        } else if n == 2 {
            PerpsAsyncIx::PlaceOrder
        } else {
            PerpsAsyncIx::Take
        }
    }

    /// Reads the instruction that starts instruction data.
    pub fn from_bytes(bytes: &[u8]) -> (ix: Result<PerpsAsyncIx, ProgramError>)
        ensures
            ix == match async_ix(bytes@) {
                Some(ix) => Ok::<PerpsAsyncIx, ProgramError>(ix),
                None => Err(ProgramError::InvalidInstructionData),
            },
    {
        if bytes.len() < 8 {
            return Err(ProgramError::InvalidInstructionData);
        }
        let val: u64 = read_word(bytes, 0);
        if val > MAX_ASYNC_VARIANT {
            return Err(ProgramError::InvalidInstructionData);
        }
        Ok(PerpsAsyncIx::from_number(val))
    }

    /// Executes a cancel.
    fn process_cancel(q: &QueuedInstruction, state: &mut PerpsState) -> (outcome: Outcome)
        requires
            old(state).orderbook.ready(),
        ensures
            same_but_trading(*old(state), *final(state)),
            final(state)@ == cancelled(old(state)@, *q),
            outcome == outcome_of(old(state)@, PerpsAsyncIx::Cancel, *q),
    {
        let found = if q.side == 0 {
            let order_id = OrderId { price_key: u64::MAX - q.price, seq: q.order_seq };
            state.orderbook.cancel_bid(&order_id)
        } else {
            let order_id = OrderId { price_key: q.price, seq: q.order_seq };
            state.orderbook.cancel_ask(&order_id)
        };
        match found {
            Some(order) => {
                let margin_reserved: u64 = notional(order.price, order.size) / 10;
                let _ = state.margins.credit(&q.user, margin_reserved);
                Outcome::Cancelled
            },
            None => {
                assert(state@ =~= old(state)@);
                Outcome::OrderNotFound
            },
        }
    }

    /// Executes a PlaceOrder.
    fn process_place(q: &QueuedInstruction, state: &mut PerpsState) -> (outcome: Outcome)
        requires
            old(state).orderbook.ready(),
        ensures
            same_but_trading(*old(state), *final(state)),
            final(state)@ == placed(old(state)@, *q),
            outcome == outcome_of(old(state)@, PerpsAsyncIx::PlaceOrder, *q),
    {
        let margin_required: u64 = notional(q.price, q.size) / 10;
        if state.margins.debit(&q.user, margin_required).is_none() {
            return Outcome::InsufficientMargin;
        }
        let done: bool = if q.side == 0 {
            state.orderbook.place_bid(q.price, q.size, q.user, q.order_seq)
        } else {
            state.orderbook.place_ask(q.price, q.size, q.user, q.order_seq)
        };
        if !done {
            proof {
                law_withdraw_then_deposit(old(state)@.accounts.margins, q.user, margin_required);
            }
            let _ = state.margins.credit(&q.user, margin_required);
            return Outcome::BookFull;
        }
        Outcome::Placed { price: q.price, size: q.size, side: q.side }
    }

    /// Executes the instruction. Gives what it did, or `None` where the numbers do not fit.
    pub fn checked_process(&self, args: &PerpsAsyncIxArgs, state: &mut PerpsState) -> (outcome:
        Option<Outcome>)
        requires
            old(state).orderbook.ready(),
        ensures
            same_but_trading(*old(state), *final(state)),
            outcome is Some <==> ix_fits(old(state)@, *self, args.queued),
            outcome matches Some(o) ==> o == outcome_of(old(state)@, *self, args.queued)
                && final(state)@ == applied(old(state)@, *self, args.queued),
    {
        let q = &args.queued;
        match self {
            PerpsAsyncIx::Liquidate => {
                if execute_liquidation(state, &q.user, &q.extra_user) {
                    Some(Outcome::Liquidated)
                } else {
                    Some(Outcome::NotLiquidatable)
                }
            },
            PerpsAsyncIx::Cancel => Some(Self::process_cancel(q, state)),
            PerpsAsyncIx::PlaceOrder => Some(Self::process_place(q, state)),
            PerpsAsyncIx::Take => {
                match checked_execute_take(state, &q.user, q.price, q.size, q.side) {
                    Some(filled) => Some(Outcome::Taken(filled)),
                    None => None,
                }
            },
        }
    }

    /// Executes the instruction. It is never refused: what cannot be done is left undone.
    pub fn process(&self, args: &PerpsAsyncIxArgs, state: &mut PerpsState) -> (result: Result<
        (),
        ProgramError,
    >)
        requires
            old(state).orderbook.ready(),
            ix_fits(old(state)@, *self, args.queued),
        ensures
            same_but_trading(*old(state), *final(state)),
            final(state)@ == applied(old(state)@, *self, args.queued),
            *self == PerpsAsyncIx::Liquidate ==> final(state)@ == liquidated(
                old(state)@,
                args.queued.user,
                args.queued.extra_user,
            ),
            *self == PerpsAsyncIx::Take ==> final(state)@ == taken(
                old(state)@,
                args.queued.user,
                args.queued.price,
                args.queued.size,
                args.queued.side,
            ),
            result == Ok::<(), ProgramError>(()),
    {
        self.checked_process(args, state);
        Ok(())
    }
}

} // verus!
