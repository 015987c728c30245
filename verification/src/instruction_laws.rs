//! What the instructions of the queue do when they are queued and when their turn comes.

use vstd::prelude::*;
use vstd::std_specs::cmp::PartialOrdSpec;

use crate::async_instructions::{
    applied, can_place, cancelled, ix_fits, ix_numbered, outcome_of, placed, priority_of,
    type_number, Outcome, PerpsAsyncIx,
};
use crate::orderbook::{ask_id, bid_id, Order, OrderId};
use crate::positions::{can_debit, credited, debited};
use crate::queue::{
    can_enqueue, crank_fits, crank_outcomes, cranked, enqueued, first_key, has_pending, key_for,
    lemma_first_key, pending_fits, step_fits, step_outcome, stepped, QueueAsyncArgs,
};
use crate::queue_laws::lemma_first_key_exists;
use crate::queue_tree::is_first_key;
use crate::settlement::{
    can_liquidate, fills_of, liquidated, margin_for, take_fits, taken, units,
};
use crate::state::{AsyncIxKey, Market, PerpsAsyncIxType, QueuedInstruction};

verus! {

/// The id of an order with this price and number: an ask stands under its price, a bid under what
/// the price lacks to the largest number.
pub open spec fn identifies(id: OrderId, side: u64, price: u64, seq: u64) -> bool {
    &&& id.seq == seq
    &&& side == 0 ==> id.price_key + price == u64::MAX
    &&& side != 0 ==> id.price_key == price
}

/// An order under this id is all that may differ between two sides of a book.
pub open spec fn same_but_id(
    before: Map<OrderId, Order>,
    after: Map<OrderId, Order>,
    id: OrderId,
) -> bool {
    forall|other: OrderId|
        other != id ==> #[trigger] after.contains_key(other) == before.contains_key(other) && (
        before.contains_key(other) ==> after[other] == before[other])
}

/// The queue, the numbering, the oracle and the positions are the same.
pub open spec fn same_but_book_and_margins(m: Market, after: Market) -> bool {
    &&& after.seq == m.seq
    &&& after.oracle_price == m.oracle_price
    &&& after.funding_rate == m.funding_rate
    &&& after.last_funding_slot == m.last_funding_slot
    &&& after.accounts.positions == m.accounts.positions
    &&& after.queue == m.queue
}

/// A PlaceOrder succeeds where its user can be debited the margin and the side has an order with its
/// id or fewer than 1024 orders. Then an order of that user, with the price and size of the
/// instruction, stands under its id, and that user is debited the margin; no other order, balance
/// or position moves. Where it does not succeed, nothing changes.
pub proof fn law_place(m: Market, q: QueuedInstruction, id: OrderId)
    requires
        identifies(id, q.side, q.price, q.order_seq),
    ensures
        ({
            let after = placed(m, q);
            let (before_side, after_side, before_other, after_other) = if q.side == 0 {
                (m.bids, after.bids, m.asks, after.asks)
            } else {
                (m.asks, after.asks, m.bids, after.bids)
            };
            let margin = margin_for(q.price, q.size);
            let succeeds = can_debit(m.accounts.margins, q.user, margin) && (
            before_side.contains_key(id) || before_side.len() < 1024);
            &&& can_place(m, q) == succeeds
            &&& same_but_book_and_margins(m, after)
            &&& after_other == before_other
            &&& succeeds ==> {
                &&& after_side.contains_key(id)
                &&& after_side[id].owner == q.user
                &&& after_side[id].price == q.price
                &&& after_side[id].size == q.size
                &&& after_side[id].side == 0 <==> q.side == 0
                &&& after_side[id].side <= 1
                &&& same_but_id(before_side, after_side, id)
                &&& after.accounts.margins == debited(m.accounts.margins, q.user, margin)
            }
            &&& !succeeds ==> after_side == before_side && after.accounts == m.accounts
        }),
{
    assert(id == if q.side == 0 {
        bid_id(q.price, q.order_seq)
    } else {
        ask_id(q.price, q.order_seq)
    });
}

/// A Cancel takes the order with its id out of the book and credits its own user the margin behind
/// what is left of that order; no other order, balance or position moves. Without such an order
/// nothing changes.
pub proof fn law_cancel(m: Market, q: QueuedInstruction, id: OrderId)
    requires
        identifies(id, q.side, q.price, q.order_seq),
    ensures
        ({
            let after = cancelled(m, q);
            let (before_side, after_side, before_other, after_other) = if q.side == 0 {
                (m.bids, after.bids, m.asks, after.asks)
            } else {
                (m.asks, after.asks, m.bids, after.bids)
            };
            &&& same_but_book_and_margins(m, after)
            &&& after_other == before_other
            &&& !after_side.contains_key(id)
            &&& same_but_id(before_side, after_side, id)
            &&& before_side.contains_key(id) ==> after.accounts.margins == credited(
                m.accounts.margins,
                q.user,
                margin_for(before_side[id].price, before_side[id].size),
            )
            &&& !before_side.contains_key(id) ==> after.accounts == m.accounts
        }),
{
    assert(id == if q.side == 0 {
        bid_id(q.price, q.order_seq)
    } else {
        ask_id(q.price, q.order_seq)
    });
}

/// Liquidations have priority 0, cancels 1, orders 2 and takes 3; types and instructions of one
/// name have one number, and the number gives the instruction.
pub proof fn law_priorities(ix: PerpsAsyncIx, t: PerpsAsyncIxType)
    ensures
        priority_of(PerpsAsyncIx::Liquidate) == 0,
        priority_of(PerpsAsyncIx::Cancel) == 1,
        priority_of(PerpsAsyncIx::PlaceOrder) == 2,
        priority_of(PerpsAsyncIx::Take) == 3,
        ix_numbered(priority_of(ix)) == ix,
        type_number(PerpsAsyncIxType::Liquidate) == 0,
        type_number(PerpsAsyncIxType::Cancel) == 1,
        type_number(PerpsAsyncIxType::PlaceOrder) == 2,
        type_number(PerpsAsyncIxType::Take) == 3,
{
}

/// Ids compare by price key and then by number.
pub proof fn law_ids_compare(a: OrderId, b: OrderId)
    ensures
        a.partial_cmp_spec(&b) == Some(core::cmp::Ordering::Equal) <==> a == b,
        a.partial_cmp_spec(&b) == Some(core::cmp::Ordering::Less) <==> a.price_key < b.price_key || (
        a.price_key == b.price_key && a.seq < b.seq),
        a.partial_cmp_spec(&b) == Some(core::cmp::Ordering::Greater) <==> b.partial_cmp_spec(&a)
            == Some(core::cmp::Ordering::Less),
{
}

/// Instructions compare by priority: a liquidation comes before a cancel, a cancel before an order,
/// and an order before a take.
pub proof fn law_instructions_compare(a: PerpsAsyncIx, b: PerpsAsyncIx)
    ensures
        a.partial_cmp_spec(&b) == Some(core::cmp::Ordering::Equal) <==> a == b,
        a.partial_cmp_spec(&b) == Some(core::cmp::Ordering::Less) <==> match a {
            PerpsAsyncIx::Liquidate => b != PerpsAsyncIx::Liquidate,
            PerpsAsyncIx::Cancel => b == PerpsAsyncIx::PlaceOrder || b == PerpsAsyncIx::Take,
            PerpsAsyncIx::PlaceOrder => b == PerpsAsyncIx::Take,
            PerpsAsyncIx::Take => false,
        },
        a.partial_cmp_spec(&b) == Some(core::cmp::Ordering::Greater) <==> b.partial_cmp_spec(&a)
            == Some(core::cmp::Ordering::Less),
{
}

/// What is queued is what was asked for. The entry stands under the slot, the priority of the
/// instruction and the next number, and carries every argument unchanged; no other entry moves. A
/// queue of 4096 entries without that key takes nothing. Either way the number is used up, and
/// nothing else in the market changes.
pub proof fn law_queue(
    m: Market,
    ix: PerpsAsyncIx,
    args: QueueAsyncArgs,
    slot: u64,
    key: AsyncIxKey,
)
    requires
        m.seq < u64::MAX,
        key.slot == slot,
        key.seq == m.seq,
        match ix {
            PerpsAsyncIx::Liquidate => key.priority == 0,
            PerpsAsyncIx::Cancel => key.priority == 1,
            PerpsAsyncIx::PlaceOrder => key.priority == 2,
            PerpsAsyncIx::Take => key.priority == 3,
        },
    ensures
        ({
            let after = enqueued(m, ix, args, slot);
            let taken_in = m.queue.contains_key(key) || m.queue.len() < 4096;
            let entry = after.queue[key];
            &&& can_enqueue(m, ix, slot) == taken_in
            &&& after.seq == m.seq + 1
            &&& after.oracle_price == m.oracle_price
            &&& after.funding_rate == m.funding_rate
            &&& after.last_funding_slot == m.last_funding_slot
            &&& after.accounts == m.accounts
            &&& after.bids == m.bids
            &&& after.asks == m.asks
            &&& taken_in ==> {
                &&& after.queue.contains_key(key)
                &&& entry.user == args.user
                &&& entry.ix_type == key.priority
                &&& entry.price == args.price
                &&& entry.size == args.size
                &&& entry.side == args.side
                &&& entry.order_seq == args.order_seq
                &&& entry.extra_user == args.extra_user
            }
            &&& !taken_in ==> !after.queue.contains_key(key)
            &&& forall|other: AsyncIxKey|
                other != key ==> #[trigger] after.queue.contains_key(other)
                    == m.queue.contains_key(other) && (m.queue.contains_key(other)
                    ==> after.queue[other] == m.queue[other])
        }),
{
    assert(key == key_for(m, ix, slot));
}

/// What an instruction does, and what it says of it. A Liquidate liquidates its user for its extra
/// user; a Take trades for its user with its price as the limit, its size and its side.
pub proof fn law_run(m: Market, ix: PerpsAsyncIx, q: QueuedInstruction, id: OrderId)
    requires
        identifies(id, q.side, q.price, q.order_seq),
    ensures
        ({
            let after = applied(m, ix, q);
            let outcome = outcome_of(m, ix, q);
            let side = if q.side == 0 {
                m.bids
            } else {
                m.asks
            };
            match ix {
                PerpsAsyncIx::Liquidate => {
                    &&& after == liquidated(m, q.user, q.extra_user)
                    &&& outcome == if can_liquidate(m, q.user) {
                        Outcome::Liquidated
                    } else {
                        Outcome::NotLiquidatable
                    }
                    &&& ix_fits(m, ix, q)
                },
                PerpsAsyncIx::Cancel => {
                    &&& after == cancelled(m, q)
                    &&& outcome == if side.contains_key(id) {
                        Outcome::Cancelled
                    } else {
                        Outcome::OrderNotFound
                    }
                    &&& ix_fits(m, ix, q)
                },
                PerpsAsyncIx::PlaceOrder => {
                    let paid = can_debit(
                        m.accounts.margins,
                        q.user,
                        margin_for(q.price, q.size),
                    );
                    let room = side.contains_key(id) || side.len() < 1024;
                    &&& after == placed(m, q)
                    &&& outcome == if !paid {
                        Outcome::InsufficientMargin
                    } else if !room {
                        Outcome::BookFull
                    } else {
                        Outcome::Placed { price: q.price, size: q.size, side: q.side }
                    }
                    &&& ix_fits(m, ix, q)
                },
                PerpsAsyncIx::Take => {
                    &&& after == taken(m, q.user, q.price, q.size, q.side)
                    &&& outcome == Outcome::Taken(
                        units(fills_of(m, q.price, q.size, q.side)) as u64,
                    )
                    &&& ix_fits(m, ix, q) == take_fits(m, q.user, q.price, q.size, q.side)
                },
            }
        }),
{
    assert(id == if q.side == 0 {
        bid_id(q.price, q.order_seq)
    } else {
        ask_id(q.price, q.order_seq)
    });
}

/// `key` is the smallest of the queue: by slot, then by priority, then by number.
pub open spec fn is_smallest(queue: Map<AsyncIxKey, QueuedInstruction>, key: AsyncIxKey) -> bool {
    &&& queue.contains_key(key)
    &&& forall|other: AsyncIxKey| #[trigger]
        queue.contains_key(other) && other != key ==> key.slot < other.slot || (key.slot
            == other.slot && (key.priority < other.priority || (key.priority == other.priority
            && key.seq < other.seq)))
}

/// A finite queue with an entry has a smallest one, which is the first to run.
pub proof fn law_smallest_is_first(queue: Map<AsyncIxKey, QueuedInstruction>)
    requires
        queue.dom().finite(),
    ensures
        (exists|key: AsyncIxKey| #[trigger] queue.contains_key(key)) <==> first_key(queue) is Some,
        first_key(queue) matches Some(key) ==> is_smallest(queue, key),
        forall|key: AsyncIxKey| #[trigger]
            is_smallest(queue, key) ==> first_key(queue) == Some(key),
{
    if exists|key: AsyncIxKey| #[trigger] queue.contains_key(key) {
        let some = choose|key: AsyncIxKey| #[trigger] queue.contains_key(key);
        assert(queue.dom().contains(some));
        lemma_first_key_exists(queue);
    }
    if let Some(key) = first_key(queue) {
        assert(is_first_key(queue, key));
    }
    assert forall|key: AsyncIxKey| #[trigger] is_smallest(queue, key) implies first_key(queue)
        == Some(key) by {
        assert(is_first_key(queue, key));
        lemma_first_key(queue, key);
    }
}

/// One step takes the smallest entry out of the queue and runs it on what is left, as the
/// instruction with the number in it. An empty queue stays as it is.
pub proof fn law_step(m: Market, key: AsyncIxKey, rest: Market)
    requires
        rest == (Market { queue: m.queue.remove(key), ..m }),
    ensures
        is_smallest(m.queue, key) && m.queue[key].ix_type <= 3 ==> {
            let q = m.queue[key];
            let ix = if q.ix_type == 0 {
                PerpsAsyncIx::Liquidate
            } else if q.ix_type == 1 {
                PerpsAsyncIx::Cancel
            } else if q.ix_type == 2 {
                PerpsAsyncIx::PlaceOrder
            } else {
                PerpsAsyncIx::Take
            };
            &&& stepped(m) == applied(rest, ix, q)
            &&& step_outcome(m) == Some(outcome_of(rest, ix, q))
            &&& step_fits(m) == ix_fits(rest, ix, q)
        },
        (forall|other: AsyncIxKey| !#[trigger] m.queue.contains_key(other)) ==> stepped(m) == m
            && step_outcome(m) is None && step_fits(m),
{
    if is_smallest(m.queue, key) {
        assert(is_first_key(m.queue, key));
        lemma_first_key(m.queue, key);
    }
    if forall|other: AsyncIxKey| !#[trigger] m.queue.contains_key(other) {
        if let Some(other) = first_key(m.queue) {
            assert(is_first_key(m.queue, other));
        }
    }
}

/// A crank in `slot` goes on as long as an entry of an earlier slot waits: one step, and then the
/// crank of what the step leaves. When none waits it leaves everything as it is.
pub proof fn law_crank(m: Market, slot: u64)
    requires
        m.queue.dom().finite(),
    ensures
        ({
            let waits = exists|key: AsyncIxKey| #[trigger]
                m.queue.contains_key(key) && key.slot < slot;
            &&& has_pending(m, slot) == waits
            &&& waits ==> {
                &&& cranked(m, slot) == cranked(stepped(m), slot)
                &&& step_outcome(m) matches Some(outcome) && crank_outcomes(m, slot) == seq![
                    outcome,
                ] + crank_outcomes(stepped(m), slot)
                &&& crank_fits(m, slot) == (step_fits(m) && crank_fits(stepped(m), slot))
            }
            &&& !waits ==> {
                &&& cranked(m, slot) == m
                &&& crank_outcomes(m, slot) == Seq::<Outcome>::empty()
                &&& crank_fits(m, slot) == pending_fits(m)
            }
        }),
{
    law_smallest_is_first(m.queue);
}

/// Whether something is pending can be asked unless all that waits is of the very last slot.
pub proof fn law_pending_fits(m: Market)
    requires
        m.queue.dom().finite(),
    ensures
        pending_fits(m) <==> (forall|key: AsyncIxKey| !#[trigger] m.queue.contains_key(key)) || (
        exists|key: AsyncIxKey| #[trigger] m.queue.contains_key(key) && key.slot < u64::MAX),
{
    law_smallest_is_first(m.queue);
    if let Some(key) = first_key(m.queue) {
        assert(m.queue.contains_key(key));
    }
}

} // verus!
