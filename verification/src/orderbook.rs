//! The book: resting bids and asks, each side sorted so that its first order is its best.

use vstd::prelude::*;

use crate::order_tree::{id_before, is_first_id, order_blank, OrderTree};

verus! {

/// The number of orders that a side of the book holds.
pub const MAX_ORDERS: usize = 1024;

/// The id of an order, which is its place in line.
#[derive(Copy, Clone, Default, PartialEq, Eq, Ord, Debug, Structural)]
pub struct OrderId {
    /// The price for an ask; for a bid its complement, so that the highest bid comes first.
    pub price_key: u64,
    /// Sequence number: first come, first served at one price.
    pub seq: u64,
}

impl PartialOrd for OrderId {
    fn partial_cmp(&self, other: &Self) -> (order: Option<core::cmp::Ordering>) {
        if self.price_key < other.price_key {
            Some(core::cmp::Ordering::Less)
        } else if self.price_key > other.price_key {
            Some(core::cmp::Ordering::Greater)
        } else if self.seq < other.seq {
            Some(core::cmp::Ordering::Less)
        } else if self.seq > other.seq {
            Some(core::cmp::Ordering::Greater)
        } else {
            Some(core::cmp::Ordering::Equal)
        }
    }
}

impl vstd::std_specs::cmp::PartialOrdSpecImpl for OrderId {
    open spec fn obeys_partial_cmp_spec() -> bool {
        true
    }

    open spec fn partial_cmp_spec(&self, other: &Self) -> Option<core::cmp::Ordering> {
        if id_before(*self, *other) {
            Some(core::cmp::Ordering::Less)
        } else if id_before(*other, *self) {
            Some(core::cmp::Ordering::Greater)
        } else {
            Some(core::cmp::Ordering::Equal)
        }
    }
}

/// A resting order.
#[derive(Copy, Clone, Default, PartialEq, Eq, Debug)]
pub struct Order {
    pub owner: [u8; 32],
    pub size: u64,
    pub price: u64,
    /// 0 = bid, 1 = ask.
    pub side: u64,
}

impl Order {
    /// Whether the order is a bid.
    pub fn is_bid(&self) -> (bid: bool)
        ensures
            bid == (self.side == 0),
    {
        self.side == 0
    }
}

/// The id of a bid.
pub open spec fn bid_id(price: u64, seq: u64) -> OrderId {
    OrderId { price_key: (u64::MAX - price) as u64, seq }
}

/// The id of an ask.
pub open spec fn ask_id(price: u64, seq: u64) -> OrderId {
    OrderId { price_key: price, seq }
}

/// Every order is a bid under a bid's id.
pub open spec fn all_bids(orders: Map<OrderId, Order>) -> bool {
    forall|id: OrderId| #[trigger]
        orders.contains_key(id) ==> orders[id].side == 0 && id == bid_id(orders[id].price, id.seq)
}

/// Every order is an ask under an ask's id.
pub open spec fn all_asks(orders: Map<OrderId, Order>) -> bool {
    forall|id: OrderId| #[trigger]
        orders.contains_key(id) ==> orders[id].side == 1 && id == ask_id(orders[id].price, id.seq)
}

/// The first of the ids.
pub open spec fn first_id(orders: Map<OrderId, Order>) -> Option<OrderId> {
    if exists|id: OrderId| is_first_id(orders, id) {
        Some(choose|id: OrderId| is_first_id(orders, id))
    } else {
        None
    }
}

/// There is only one first id.
pub proof fn lemma_first_id(orders: Map<OrderId, Order>, id: OrderId)
    requires
        is_first_id(orders, id),
    ensures
        first_id(orders) == Some(id),
{
    let other = choose|other: OrderId| is_first_id(orders, other);
    assert(is_first_id(orders, other));
    assert(orders.contains_key(id) && orders.contains_key(other));
}

/// The two sides of the book.
pub struct Orderbook {
    pub bids: OrderTree,
    pub asks: OrderTree,
}

impl Orderbook {
    /// Both sides are ready for use and hold only orders of their own kind.
    pub open spec fn wf(&self) -> bool {
        &&& self.bids.wf()
        &&& self.asks.wf()
        &&& all_bids(self.bids@)
        &&& all_asks(self.asks@)
    }

    /// Both sides are ready for use.
    pub open spec fn ready(&self) -> bool {
        self.bids.wf() && self.asks.wf()
    }

    /// Neither side is initialized yet.
    pub open spec fn blank(&self) -> bool {
        order_blank(self.bids) && order_blank(self.asks)
    }

    /// A book that is not initialized yet.
    pub fn zeroed() -> (book: Orderbook)
        ensures
            book.blank(),
    {
        Orderbook { bids: OrderTree::zeroed(), asks: OrderTree::zeroed() }
    }

    /// Makes a zeroed book an empty one.
    pub fn initialize(&mut self)
        requires
            old(self).blank(),
        ensures
            final(self).wf(),
            final(self).bids@ == Map::<OrderId, Order>::empty(),
            final(self).asks@ == Map::<OrderId, Order>::empty(),
    {
        self.bids.initialize();
        self.asks.initialize();
    }

    /// Inserts a bid, in place of one with the same id. Gives whether there was room.
    pub fn place_bid(&mut self, price: u64, size: u64, owner: [u8; 32], seq: u64) -> (placed: bool)
        requires
            old(self).bids.wf(),
        ensures
            final(self).bids.wf(),
            all_bids(old(self).bids@) ==> all_bids(final(self).bids@),
            placed == (old(self).bids@.contains_key(bid_id(price, seq)) || old(self).bids@.len()
                < MAX_ORDERS),
            final(self).bids@ == if placed {
                old(self).bids@.insert(bid_id(price, seq), (Order { owner, size, price, side: 0 }))
            } else {
                old(self).bids@
            },
            final(self).asks == old(self).asks,
    {
        let key = OrderId { price_key: u64::MAX - price, seq };
        let order = Order { owner, size, price, side: 0 };
        self.bids.insert(key, order).is_some()
    }

    /// Inserts an ask, in place of one with the same id. Gives whether there was room.
    pub fn place_ask(&mut self, price: u64, size: u64, owner: [u8; 32], seq: u64) -> (placed: bool)
        requires
            old(self).asks.wf(),
        ensures
            final(self).asks.wf(),
            all_asks(old(self).asks@) ==> all_asks(final(self).asks@),
            placed == (old(self).asks@.contains_key(ask_id(price, seq)) || old(self).asks@.len()
                < MAX_ORDERS),
            final(self).asks@ == if placed {
                old(self).asks@.insert(ask_id(price, seq), (Order { owner, size, price, side: 1 }))
            } else {
                old(self).asks@
            },
            final(self).bids == old(self).bids,
    {
        let key = OrderId { price_key: price, seq };
        let order = Order { owner, size, price, side: 1 };
        self.asks.insert(key, order).is_some()
    }

    /// Removes a bid by id.
    pub fn cancel_bid(&mut self, order_id: &OrderId) -> (cancelled: Option<Order>)
        requires
            old(self).bids.wf(),
        ensures
            final(self).bids.wf(),
            all_bids(old(self).bids@) ==> all_bids(final(self).bids@),
            cancelled == if old(self).bids@.contains_key(*order_id) {
                Some(old(self).bids@[*order_id])
            } else {
                None
            },
            final(self).bids@ == old(self).bids@.remove(*order_id),
            final(self).asks == old(self).asks,
    {
        match self.bids.get(order_id) {
            Some(order) => {
                self.bids.remove(order_id);
                Some(order)
            },
            None => {
                assert(self.bids@ =~= self.bids@.remove(*order_id));
                None
            },
        }
    }

    /// Removes an ask by id.
    pub fn cancel_ask(&mut self, order_id: &OrderId) -> (cancelled: Option<Order>)
        requires
            old(self).asks.wf(),
        ensures
            final(self).asks.wf(),
            all_asks(old(self).asks@) ==> all_asks(final(self).asks@),
            cancelled == if old(self).asks@.contains_key(*order_id) {
                Some(old(self).asks@[*order_id])
            } else {
                None
            },
            final(self).asks@ == old(self).asks@.remove(*order_id),
            final(self).bids == old(self).bids,
    {
        match self.asks.get(order_id) {
            Some(order) => {
                self.asks.remove(order_id);
                Some(order)
            },
            None => {
                assert(self.asks@ =~= self.asks@.remove(*order_id));
                None
            },
        }
    }

    /// Peeks at the best ask: the lowest price, and the first in line at that price.
    pub fn best_ask(&self) -> (best: Option<(OrderId, Order)>)
        requires
            self.asks.wf(),
        ensures
            match best {
                Some((id, order)) => {
                    &&& first_id(self.asks@) == Some(id)
                    &&& is_first_id(self.asks@, id)
                    &&& order == self.asks@[id]
                    &&& all_asks(self.asks@) ==> forall|other: OrderId| #[trigger]
                        self.asks@.contains_key(other) ==> order.price <= self.asks@[other].price
                },
                None => self.asks@.dom().is_empty() && first_id(self.asks@) is None,
            },
    {
        match self.asks.first() {
            Some((_, id, order)) => {
                proof {
                    lemma_first_id(self.asks@, id);
                }
                Some((id, order))
            },
            None => None,
        }
    }

    /// Peeks at the best bid: the highest price, and the first in line at that price.
    pub fn best_bid(&self) -> (best: Option<(OrderId, Order)>)
        requires
            self.bids.wf(),
        ensures
            match best {
                Some((id, order)) => {
                    &&& first_id(self.bids@) == Some(id)
                    &&& is_first_id(self.bids@, id)
                    &&& order == self.bids@[id]
                    &&& all_bids(self.bids@) ==> forall|other: OrderId| #[trigger]
                        self.bids@.contains_key(other) ==> order.price >= self.bids@[other].price
                },
                None => self.bids@.dom().is_empty() && first_id(self.bids@) is None,
            },
    {
        match self.bids.first() {
            Some((_, id, order)) => {
                proof {
                    lemma_first_id(self.bids@, id);
                }
                Some((id, order))
            },
            None => None,
        }
    }

    /// Removes the best ask from the book.
    pub fn pop_best_ask(&mut self) -> (best: Option<(OrderId, Order)>)
        requires
            old(self).asks.wf(),
        ensures
            final(self).asks.wf(),
            all_asks(old(self).asks@) ==> all_asks(final(self).asks@),
            match best {
                Some((id, order)) => {
                    &&& first_id(old(self).asks@) == Some(id)
                    &&& is_first_id(old(self).asks@, id)
                    &&& order == old(self).asks@[id]
                    &&& final(self).asks@ == old(self).asks@.remove(id)
                },
                None => old(self).asks@.dom().is_empty() && final(self).asks == old(self).asks,
            },
            final(self).bids == old(self).bids,
    {
        match self.best_ask() {
            Some((key, order)) => {
                self.asks.remove(&key);
                Some((key, order))
            },
            None => None,
        }
    }

    /// Removes the best bid from the book.
    pub fn pop_best_bid(&mut self) -> (best: Option<(OrderId, Order)>)
        requires
            old(self).bids.wf(),
        ensures
            final(self).bids.wf(),
            all_bids(old(self).bids@) ==> all_bids(final(self).bids@),
            match best {
                Some((id, order)) => {
                    &&& first_id(old(self).bids@) == Some(id)
                    &&& is_first_id(old(self).bids@, id)
                    &&& order == old(self).bids@[id]
                    &&& final(self).bids@ == old(self).bids@.remove(id)
                },
                None => old(self).bids@.dom().is_empty() && final(self).bids == old(self).bids,
            },
            final(self).asks == old(self).asks,
    {
        match self.best_bid() {
            Some((key, order)) => {
                self.bids.remove(&key);
                Some((key, order))
            },
            None => None,
        }
    }
}

} // verus!
