//! What the program keeps: the queue's keys and instructions, and the state as a whole.

use vstd::prelude::*;

use crate::market_laws::law_new_accounts_are_in_order;
use crate::orderbook::{Order, OrderId, Orderbook};
use crate::position_laws::accounts_ok;
use crate::positions::{
    blank_margin, blank_position, MarginMap, Position, PositionMap, UserMargin, MAX_POSITIONS,
    MAX_USERS,
};
use crate::queue_tree::{queue_blank, QueueTree};

verus! {

/// The number of instructions that may wait.
pub const MAX_QUEUE: usize = 4096;

/// Maintenance margin: 5% (500 bps).
pub const MAINTENANCE_MARGIN_BPS: u64 = 500;

/// Price scale factor (prices are price * PRICE_SCALE).
pub const PRICE_SCALE: u64 = 1_000_000;

/// Sort key for the queue: (slot, priority, seq).
/// A lower priority value is executed first.
#[derive(Copy, Clone, PartialEq, Eq, PartialOrd, Ord, Default, Debug, Structural)]
pub struct AsyncIxKey {
    pub slot: u64,
    pub priority: u64,
    pub seq: u64,
}

/// What kind of instruction is queued.
#[derive(Copy, Clone, Debug, PartialEq, Eq, Structural)]
pub enum PerpsAsyncIxType {
    Liquidate,
    Cancel,
    PlaceOrder,
    Take,
}

/// The parameters of a queued instruction. Each type of instruction uses some of the fields:
///
/// - Cancel: `side`, `price` and `order_seq` identify the order to cancel.
/// - PlaceOrder: `price` is the limit price, `side` is 0 for a bid and else an ask.
/// - Take: `price` is the limit price, `size` the maximum, `side` is 0 to buy and else to sell.
/// - Liquidate: `user` is the target, `extra_user` the liquidator.
#[derive(Copy, Clone, Default, PartialEq, Eq, Debug)]
pub struct QueuedInstruction {
    pub user: [u8; 32],
    pub ix_type: u64,
    pub price: u64,
    pub size: u64,
    pub side: u64,
    pub order_seq: u64,
    pub extra_user: [u8; 32],
}

/// What the users own.
#[verifier::ext_equal]
pub struct Accounts {
    pub margins: Seq<UserMargin>,
    pub positions: Seq<Position>,
}

/// The state as mathematics: what the instructions mean is said of this.
#[verifier::ext_equal]
pub struct Market {
    pub seq: u64,
    pub oracle_price: u64,
    pub funding_rate: i64,
    pub last_funding_slot: u64,
    pub accounts: Accounts,
    pub bids: Map<OrderId, Order>,
    pub asks: Map<OrderId, Order>,
    pub queue: Map<AsyncIxKey, QueuedInstruction>,
}

/// Every queued instruction stands under a key with its own priority and a number that was given
/// out already.
pub open spec fn all_queued(queue: Map<AsyncIxKey, QueuedInstruction>, seq: u64) -> bool {
    forall|key: AsyncIxKey| #[trigger]
        queue.contains_key(key) ==> {
            &&& queue[key].ix_type == key.priority
            &&& key.priority <= 3
            &&& key.seq < seq
        }
}

/// Every queued instruction is of one of the four types.
pub open spec fn all_typed(queue: Map<AsyncIxKey, QueuedInstruction>) -> bool {
    forall|key: AsyncIxKey| #[trigger] queue.contains_key(key) ==> queue[key].ix_type <= 3
}

/// Everything that the program keeps.
pub struct PerpsState {
    pub seq: u64,
    pub oracle_price: u64,
    pub funding_rate: i64,
    pub last_funding_slot: u64,
    pub margins: MarginMap,
    pub positions: PositionMap,
    pub orderbook: Orderbook,
    pub async_queue: QueueTree,
}

/// Nobody owns anything.
pub open spec fn no_accounts() -> Accounts {
    Accounts {
        margins: Seq::new(MAX_USERS as nat, |i: int| blank_margin()),
        positions: Seq::new(MAX_POSITIONS as nat, |i: int| blank_position()),
    }
}

/// The market with an empty book and an empty queue, ready to number its first instruction.
pub open spec fn initialized(m: Market) -> Market {
    Market { seq: 1, bids: Map::empty(), asks: Map::empty(), queue: Map::empty(), ..m }
}

/// The market in which nothing has happened yet.
pub open spec fn new_market() -> Market {
    Market {
        seq: 1,
        oracle_price: 0,
        funding_rate: 0,
        last_funding_slot: 0,
        accounts: no_accounts(),
        bids: Map::empty(),
        asks: Map::empty(),
        queue: Map::empty(),
    }
}

/// Makes a zeroed book and queue empty ones, and numbers start from 1.
pub fn initialize_state(state: &mut PerpsState)
    requires
        old(state).blank(),
    ensures
        final(state).wf(),
        final(state)@ == initialized(old(state)@),
{
    state.seq = 1;
    state.async_queue.initialize();
    state.orderbook.initialize();
}

impl View for PerpsState {
    type V = Market;

    open spec fn view(&self) -> Market {
        Market {
            seq: self.seq,
            oracle_price: self.oracle_price,
            funding_rate: self.funding_rate,
            last_funding_slot: self.last_funding_slot,
            accounts: Accounts { margins: self.margins.users@, positions: self.positions.positions@ },
            bids: self.orderbook.bids@,
            asks: self.orderbook.asks@,
            queue: self.async_queue@,
        }
    }
}

impl PerpsState {
    /// The book and the queue are in order.
    pub open spec fn wf(&self) -> bool {
        &&& self.orderbook.wf()
        &&& self.async_queue.wf()
        &&& all_queued(self.async_queue@, self.seq)
    }

    /// The book and the queue are ready for use, and every queued instruction has a type.
    pub open spec fn runnable(&self) -> bool {
        &&& self.orderbook.ready()
        &&& self.async_queue.wf()
        &&& all_typed(self.async_queue@)
    }

    /// The book and the queue are not initialized yet.
    pub open spec fn blank(&self) -> bool {
        self.orderbook.blank() && queue_blank(self.async_queue)
    }

    /// A state with every field zero.
    pub fn zeroed() -> (state: PerpsState)
        ensures
            state.blank(),
            state.seq == 0,
            state.oracle_price == 0,
            state.funding_rate == 0,
            state.last_funding_slot == 0,
            state@.accounts == no_accounts(),
    {
        PerpsState {
            seq: 0,
            oracle_price: 0,
            funding_rate: 0,
            last_funding_slot: 0,
            margins: MarginMap::zeroed(),
            positions: PositionMap::zeroed(),
            orderbook: Orderbook::zeroed(),
            async_queue: QueueTree::zeroed(),
        }
    }

    /// A new state on the heap: nobody owns anything, and the book and the queue are empty.
    pub fn new_boxed() -> (state: Box<PerpsState>)
        ensures
            state.wf(),
            state@ == new_market(),
            accounts_ok(state@.accounts),
    {
        proof {
            law_new_accounts_are_in_order();
        }
        let mut state = Box::new(PerpsState::zeroed());
        initialize_state(&mut state);
        state
    }
}

} // verus!
