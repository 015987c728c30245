//! What holds of the market as a whole, whatever instruction comes.

use vstd::prelude::*;

use crate::async_instructions::{
    applied, cancelled, id_on, ix_numbered, orders_on, priority_of, PerpsAsyncIx,
};
use crate::book_laws::{
    law_cancelled_order_is_gone, law_take_after_cancel_finds_nothing, law_take_keeps_the_line,
};
use crate::margin_laws::{empty_margins_blank, law_credit, law_debit};
use crate::orderbook::OrderId;
use crate::position_laws::{
    accounts_ok, law_liquidation_keeps_accounts, law_settling_keeps_accounts,
};
use crate::positions::{balance_of, blank_margin, blank_position};
use crate::program::{answer, handled};
use crate::queue::{cranked, first_key, has_pending, stepped};
use crate::queue_laws::{
    crank_order, law_cancel_runs_before_take, law_crank_order, law_running_leaves_the_queue, ran,
};
use crate::queue_tree::{is_first_key, key_before};
use crate::record::le_word;
use crate::settlement::{crosses, facing, fills_of, liquidated, margin_for, sweep, taken};
use crate::state::{new_market, AsyncIxKey, Market, QueuedInstruction};

verus! {

/// In a new market the accounts are in order.
pub proof fn law_new_accounts_are_in_order()
    ensures
        accounts_ok(new_market().accounts),
{
    let m = new_market();
    assert forall|i: int| 0 <= i < m.accounts.margins.len() implies #[trigger] m.accounts.margins[i]
        == blank_margin() by {}
    assert forall|i: int|
        0 <= i < m.accounts.positions.len() implies #[trigger] m.accounts.positions[i]
        == blank_position() by {}
}

/// An instruction that runs keeps the accounts in order.
pub proof fn law_running_keeps_accounts(m: Market, ix: PerpsAsyncIx, q: QueuedInstruction)
    requires
        accounts_ok(m.accounts),
    ensures
        accounts_ok(applied(m, ix, q).accounts),
{
    match ix {
        PerpsAsyncIx::Liquidate => {
            law_liquidation_keeps_accounts(m, q.user, q.extra_user);
        },
        PerpsAsyncIx::Cancel => {
            let orders = orders_on(m, q.side);
            let order = orders[id_on(q.side, q.price, q.order_seq)];
            law_credit(m.accounts.margins, q.user, margin_for(order.price, order.size));
        },
        PerpsAsyncIx::PlaceOrder => {
            law_debit(m.accounts.margins, q.user, margin_for(q.price, q.size));
        },
        PerpsAsyncIx::Take => {
            law_settling_keeps_accounts(
                m.accounts,
                q.user,
                fills_of(m, q.price, q.size, q.side),
                q.side,
            );
        },
    }
}

/// A crank keeps the accounts in order.
pub proof fn law_crank_keeps_accounts(m: Market, slot: u64)
    requires
        accounts_ok(m.accounts),
    ensures
        accounts_ok(cranked(m, slot).accounts),
    decreases m.queue.len(),
{
    if has_pending(m, slot) && m.queue.dom().finite() {
        let key = first_key(m.queue)->Some_0;
        assert(is_first_key(m.queue, key));
        let q = m.queue[key];
        let popped = Market { queue: m.queue.remove(key), ..m };
        law_running_leaves_the_queue(popped, ix_numbered(q.ix_type), q);
        law_running_keeps_accounts(popped, ix_numbered(q.ix_type), q);
        law_crank_keeps_accounts(stepped(m), slot);
    }
}

/// Whatever instruction the program is given, the accounts stay in order: a user has one balance
/// and one position at most.
pub proof fn law_program_keeps_accounts(
    m: Market,
    accounts: Seq<[u8; 32]>,
    data: Seq<u8>,
    clock: Option<u64>,
)
    requires
        accounts_ok(m.accounts),
    ensures
        accounts_ok(handled(m, accounts, data, clock).accounts),
{
    let word = le_word(data.skip(1), 8);
    law_credit(m.accounts.margins, accounts[1], word);
    law_debit(m.accounts.margins, accounts[1], word);
    law_crank_keeps_accounts(m, clock->Some_0);
}

/// What a queued liquidation and a queued take do is what a liquidation of `user` by `extra_user`
/// and a take by `user` do; the other two leave every position alone.
pub proof fn law_running_is_the_call(m: Market, q: QueuedInstruction)
    ensures
        applied(m, PerpsAsyncIx::Liquidate, q) == liquidated(m, q.user, q.extra_user),
        applied(m, PerpsAsyncIx::Take, q) == taken(m, q.user, q.price, q.size, q.side),
        applied(m, PerpsAsyncIx::Cancel, q).accounts.positions == m.accounts.positions,
        applied(m, PerpsAsyncIx::PlaceOrder, q).accounts.positions == m.accounts.positions,
{
}

/// A refused instruction moves no balance, no position, no order and no waiting instruction.
pub proof fn law_refusal_moves_nothing(
    m: Market,
    accounts: Seq<[u8; 32]>,
    data: Seq<u8>,
    clock: Option<u64>,
)
    requires
        empty_margins_blank(m.accounts.margins),
        answer(m, accounts, data, clock) is Err,
    ensures
        ({
            let after = handled(m, accounts, data, clock);
            &&& after.accounts.positions == m.accounts.positions
            &&& after.bids == m.bids
            &&& after.asks == m.asks
            &&& after.queue == m.queue
            &&& after.oracle_price == m.oracle_price
            &&& after.funding_rate == m.funding_rate
            &&& after.last_funding_slot == m.last_funding_slot
            &&& forall|owner: [u8; 32]| #[trigger]
                balance_of(after.accounts.margins, owner) == balance_of(m.accounts.margins, owner)
        }),
{
    let word = le_word(data.skip(1), 8);
    law_credit(m.accounts.margins, accounts[1], word);
}

/// Only a crank trades: an instruction that runs at once or is queued moves no order and no
/// position, one that runs at once leaves the queue alone, and a queued one leaves the balances
/// alone.
pub proof fn law_only_the_crank_trades(
    m: Market,
    accounts: Seq<[u8; 32]>,
    data: Seq<u8>,
    clock: Option<u64>,
)
    requires
        data[0] != 2,
    ensures
        ({
            let after = handled(m, accounts, data, clock);
            &&& after.bids == m.bids
            &&& after.asks == m.asks
            &&& after.accounts.positions == m.accounts.positions
            &&& data[0] != 1 ==> after.queue == m.queue && after.seq == m.seq
            &&& data[0] == 1 ==> after.accounts == m.accounts
        }),
{
}

/// A maker who cancels in the slot in which a taker goes for the order is protected: the crank
/// cancels the order, and the take, which finds no other order within its limit, does nothing.
pub proof fn law_maker_is_protected(
    m: Market,
    cancel_key: AsyncIxKey,
    cancel: QueuedInstruction,
    take_key: AsyncIxKey,
    take: QueuedInstruction,
    slot: u64,
)
    requires
        m.queue == Map::<AsyncIxKey, QueuedInstruction>::empty().insert(take_key, take).insert(
            cancel_key,
            cancel,
        ),
        cancel_key.slot == take_key.slot,
        cancel_key.slot < slot,
        cancel_key.priority == cancel.ix_type == priority_of(PerpsAsyncIx::Cancel),
        take_key.priority == take.ix_type == priority_of(PerpsAsyncIx::Take),
        cancel.side == 0 <==> take.side != 0,
        forall|id: OrderId| #[trigger]
            facing(m, take.side).contains_key(id) && id != id_on(
                cancel.side,
                cancel.price,
                cancel.order_seq,
            ) ==> !crosses(facing(m, take.side)[id], take.price, take.side),
    ensures
        cranked(m, slot) == cancelled(Market { queue: Map::empty(), ..m }, cancel),
{
    law_cancel_runs_before_take(m, cancel_key, cancel, take_key, take, slot);
    let idle = Market { queue: Map::empty(), ..m };
    assert(facing(idle, take.side) == facing(m, take.side));
    law_take_after_cancel_finds_nothing(
        idle,
        cancel,
        take.user,
        take.price,
        take.size,
        take.side,
    );
}

/// The market as the instruction with number `i` in `keys` finds it, itself out of the queue.
pub open spec fn found_by(m: Market, keys: Seq<AsyncIxKey>, i: int) -> Market {
    let before = ran(m, keys.take(i));
    Market { queue: before.queue.remove(keys[i]), ..before }
}

/// An instruction places an order with this id on this side of the book.
pub open spec fn places(q: QueuedInstruction, side: u64, id: OrderId) -> bool {
    &&& ix_numbered(q.ix_type) == PerpsAsyncIx::PlaceOrder
    &&& (q.side == 0) == (side == 0)
    &&& id_on(q.side, q.price, q.order_seq) == id
}

/// An instruction that runs puts no order into the book but the one that it places.
proof fn lemma_no_new_order(
    m: Market,
    q: QueuedInstruction,
    side: u64,
    id: OrderId,
)
    requires
        !orders_on(m, side).contains_key(id),
        !places(q, side, id),
    ensures
        !orders_on(applied(m, ix_numbered(q.ix_type), q), side).contains_key(id),
{
    if ix_numbered(q.ix_type) == PerpsAsyncIx::Take {
        law_take_keeps_the_line(facing(m, q.side), q.price, q.size, q.side);
        let left = sweep(facing(m, q.side), q.price, q.size, q.side).left;
        assert(left.contains_key(id) ==> facing(m, q.side).contains_key(id));
    }
}

/// Running one more instruction.
proof fn lemma_ran_one_more(m: Market, keys: Seq<AsyncIxKey>, i: int)
    requires
        0 <= i < keys.len(),
    ensures
        ran(m, keys.take(i + 1)) == ({
            let q = ran(m, keys.take(i)).queue[keys[i]];
            applied(found_by(m, keys, i), ix_numbered(q.ix_type), q)
        }),
    decreases i,
{
    let q = m.queue[keys[0]];
    let popped = Market { queue: m.queue.remove(keys[0]), ..m };
    let next = applied(popped, ix_numbered(q.ix_type), q);
    let rest = keys.skip(1);
    assert(keys.take(i + 1).skip(1) =~= rest.take(i));
    assert(ran(m, keys.take(i + 1)) == ran(next, rest.take(i)));
    if i == 0 {
        assert(ran(next, rest.take(0)) == next);
        assert(ran(m, keys.take(0)) == m);
    } else {
        lemma_ran_one_more(next, rest, i - 1);
        assert(keys.take(i).skip(1) =~= rest.take(i - 1));
        assert(ran(m, keys.take(i)) == ran(next, rest.take(i - 1)));
    }
}

/// Running instructions takes them out of the queue, and leaves the others in it as they are.
proof fn lemma_ran_queue(m: Market, keys: Seq<AsyncIxKey>, key: AsyncIxKey)
    requires
        !keys.contains(key),
    ensures
        ran(m, keys).queue.contains_key(key) == m.queue.contains_key(key),
        ran(m, keys).queue[key] == m.queue[key],
    decreases keys.len(),
{
    if keys.len() > 0 {
        let q = m.queue[keys[0]];
        let popped = Market { queue: m.queue.remove(keys[0]), ..m };
        law_running_leaves_the_queue(popped, ix_numbered(q.ix_type), q);
        assert(keys[0] != key);
        assert forall|i: int| 0 <= i < keys.skip(1).len() implies keys.skip(1)[i] != key by {
            assert(keys[i + 1] != key);
        }
        lemma_ran_queue(applied(popped, ix_numbered(q.ix_type), q), keys.skip(1), key);
    }
}

/// From the turn of a cancel on, its order is not in the book when another instruction's turn comes,
/// unless one in between places it anew: whatever comes after the cancel cannot be filled from it.
pub proof fn law_cancelled_order_is_not_filled(m: Market, slot: u64, j: int, i: int)
    requires
        m.queue.dom().finite(),
        0 <= j < i < crank_order(m.queue, slot).len(),
        m.queue[crank_order(m.queue, slot)[j]].ix_type == priority_of(PerpsAsyncIx::Cancel),
        ({
            let keys = crank_order(m.queue, slot);
            let cancel = m.queue[keys[j]];
            forall|k: int|
                j < k < i ==> !places(
                    m.queue[#[trigger] keys[k]],
                    cancel.side,
                    id_on(cancel.side, cancel.price, cancel.order_seq),
                )
        }),
    ensures
        ({
            let keys = crank_order(m.queue, slot);
            let cancel = m.queue[keys[j]];
            !orders_on(found_by(m, keys, i), cancel.side).contains_key(
                id_on(cancel.side, cancel.price, cancel.order_seq),
            )
        }),
    decreases i - j,
{
    let keys = crank_order(m.queue, slot);
    let cancel = m.queue[keys[j]];
    let id = id_on(cancel.side, cancel.price, cancel.order_seq);
    law_crank_order(m.queue, slot);
    let last = i - 1;
    assert(!keys.take(last).contains(keys[last])) by {
        assert forall|k: int| 0 <= k < last implies keys.take(last)[k] != keys[last] by {
            assert(key_before(keys[k], keys[last]));
        }
    }
    lemma_ran_queue(m, keys.take(last), keys[last]);
    lemma_ran_one_more(m, keys, last);
    let q = m.queue[keys[last]];
    if last == j {
        law_cancelled_order_is_gone(found_by(m, keys, last), cancel);
    } else {
        law_cancelled_order_is_not_filled(m, slot, j, last);
        lemma_no_new_order(found_by(m, keys, last), q, cancel.side, id);
    }
}

} // verus!
