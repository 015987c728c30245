//! What holds of the queue: what runs when, and in which order.

use vstd::prelude::*;
use vstd::std_specs::cmp::PartialOrdSpec;

use crate::async_instructions::{applied, cancelled, ix_numbered, priority_of, PerpsAsyncIx};
use crate::queue::{
    cranked, enqueued, entry_for, first_key, has_pending, key_for, lemma_first_key, stepped,
    QueueAsyncArgs,
};
use crate::queue_tree::{is_first_key, key_before};
use crate::settlement::taken;
use crate::state::{all_queued, AsyncIxKey, Market, QueuedInstruction, MAX_QUEUE};

verus! {

/// A queue with an instruction in it has a first one.
pub proof fn lemma_first_key_exists(queue: Map<AsyncIxKey, QueuedInstruction>)
    requires
        queue.dom().finite(),
        !queue.dom().is_empty(),
    ensures
        first_key(queue) matches Some(key) && is_first_key(queue, key),
    decreases queue.len(),
{
    let some = queue.dom().choose();
    let rest = queue.remove(some);
    if rest.dom().is_empty() {
        assert forall|other: AsyncIxKey| #[trigger] queue.contains_key(other) && other
            != some implies key_before(some, other) by {
            assert(rest.dom().contains(other));
        }
        assert(is_first_key(queue, some));
        lemma_first_key(queue, some);
    } else {
        lemma_first_key_exists(rest);
        let first = first_key(rest)->Some_0;
        let key = if key_before(some, first) {
            some
        } else {
            first
        };
        assert forall|other: AsyncIxKey| #[trigger] queue.contains_key(other) && other
            != key implies key_before(key, other) by {
            if other != some {
                assert(rest.contains_key(other));
            }
        }
        assert(is_first_key(queue, key));
        lemma_first_key(queue, key);
    }
}

/// An instruction that runs leaves the queue, the numbering and the oracle alone.
pub proof fn law_running_leaves_the_queue(m: Market, ix: PerpsAsyncIx, q: QueuedInstruction)
    ensures
        applied(m, ix, q).queue == m.queue,
        applied(m, ix, q).seq == m.seq,
        applied(m, ix, q).oracle_price == m.oracle_price,
        applied(m, ix, q).funding_rate == m.funding_rate,
        applied(m, ix, q).last_funding_slot == m.last_funding_slot,
{
}

/// A waiting instruction has a number of its own, so that a new one replaces none.
pub proof fn law_queueing_replaces_nothing(
    m: Market,
    ix: PerpsAsyncIx,
    args: QueueAsyncArgs,
    slot: u64,
)
    requires
        all_queued(m.queue, m.seq),
        m.seq < u64::MAX,
        m.queue.len() < MAX_QUEUE,
        m.queue.dom().finite(),
    ensures
        ({
            let after = enqueued(m, ix, args, slot);
            let key = key_for(m, ix, slot);
            &&& !m.queue.contains_key(key)
            &&& after.queue.len() == m.queue.len() + 1
            &&& after.queue.contains_key(key)
            &&& after.queue[key] == entry_for(ix, args)
            &&& forall|other: AsyncIxKey| #[trigger]
                m.queue.contains_key(other) ==> after.queue.contains_key(other)
                    && after.queue[other] == m.queue[other]
            &&& all_queued(after.queue, after.seq)
        }),
{
    let key = key_for(m, ix, slot);
    if m.queue.contains_key(key) {
        assert(key.seq < m.seq);
    }
}

/// The order of the instructions is the order of their priorities: the more urgent one is smaller.
pub proof fn law_order_is_priority(a: PerpsAsyncIx, b: PerpsAsyncIx)
    ensures
        a.partial_cmp_spec(&b) == Some(core::cmp::Ordering::Less) <==> priority_of(a) < priority_of(b),
        a.partial_cmp_spec(&b) == Some(core::cmp::Ordering::Equal) <==> a == b,
        a.partial_cmp_spec(&b) == Some(core::cmp::Ordering::Greater) <==> priority_of(a) > priority_of(
            b,
        ),
{
}

/// Within a slot the priority decides, whatever the order of arrival.
pub proof fn law_priority_decides(
    m: Market,
    ix: PerpsAsyncIx,
    n: Market,
    iy: PerpsAsyncIx,
    slot: u64,
)
    requires
        priority_of(ix) < priority_of(iy),
    ensures
        key_before(key_for(m, ix, slot), key_for(n, iy, slot)),
{
}

/// Within a slot and a priority the one that was queued first comes first: whatever waits already
/// is before what is queued now.
pub proof fn law_first_in_first_out(m: Market, key: AsyncIxKey, ix: PerpsAsyncIx, slot: u64)
    requires
        all_queued(m.queue, m.seq),
        m.queue.contains_key(key),
        key.slot == slot,
        key.priority == priority_of(ix),
    ensures
        key_before(key, key_for(m, ix, slot)),
{
}

/// What was queued in an earlier slot comes first, whatever its priority.
pub proof fn law_earlier_slot_first(
    m: Market,
    ix: PerpsAsyncIx,
    slot: u64,
    n: Market,
    iy: PerpsAsyncIx,
    later: u64,
)
    requires
        slot < later,
    ensures
        key_before(key_for(m, ix, slot), key_for(n, iy, later)),
{
}

/// The keys of the instructions that run when the queue is cranked in `slot`, in turn.
pub open spec fn crank_order(queue: Map<AsyncIxKey, QueuedInstruction>, slot: u64) -> Seq<
    AsyncIxKey,
>
    decreases queue.len(),
{
    match first_key(queue) {
        Some(key) => if key.slot < slot && queue.dom().finite() {
            proof {
                assert(is_first_key(queue, key));
            }
            seq![key] + crank_order(queue.remove(key), slot)
        } else {
            Seq::empty()
        },
        None => Seq::empty(),
    }
}

/// The market once the instructions under `keys` have left the queue and run, in turn.
pub open spec fn ran(m: Market, keys: Seq<AsyncIxKey>) -> Market
    decreases keys.len(),
{
    if keys.len() == 0 {
        m
    } else {
        let q = m.queue[keys[0]];
        ran(
            applied(
                Market { queue: m.queue.remove(keys[0]), ..m },
                ix_numbered(q.ix_type),
                q,
            ),
            keys.skip(1),
        )
    }
}

/// Cranking runs the instructions in the order of their keys, each on what the one before it left.
pub proof fn law_crank_runs_in_order(m: Market, slot: u64)
    ensures
        cranked(m, slot) == ran(m, crank_order(m.queue, slot)),
    decreases m.queue.len(),
{
    if has_pending(m, slot) && m.queue.dom().finite() {
        let key = first_key(m.queue)->Some_0;
        assert(is_first_key(m.queue, key));
        let q = m.queue[key];
        law_running_leaves_the_queue(
            Market { queue: m.queue.remove(key), ..m },
            ix_numbered(q.ix_type),
            q,
        );
        law_crank_runs_in_order(stepped(m), slot);
        let keys = crank_order(m.queue, slot);
        assert(keys.skip(1) =~= crank_order(m.queue.remove(key), slot));
    }
}

/// Cranking in a slot runs each instruction of the earlier slots once, in the order of the keys,
/// and no other.
pub proof fn law_crank_order(queue: Map<AsyncIxKey, QueuedInstruction>, slot: u64)
    requires
        queue.dom().finite(),
    ensures
        forall|key: AsyncIxKey| #[trigger]
            crank_order(queue, slot).contains(key) <==> queue.contains_key(key) && key.slot < slot,
        forall|i: int, j: int|
            0 <= i < j < crank_order(queue, slot).len() ==> key_before(
                #[trigger] crank_order(queue, slot)[i],
                #[trigger] crank_order(queue, slot)[j],
            ),
    decreases queue.len(),
{
    let order = crank_order(queue, slot);
    if queue.dom().is_empty() {
        if let Some(key) = first_key(queue) {
            assert(is_first_key(queue, key));
            assert(queue.dom().contains(key));
        }
        assert forall|key: AsyncIxKey| #[trigger] order.contains(key) <==> queue.contains_key(key)
            && key.slot < slot by {
            assert(!queue.dom().contains(key));
        }
    } else {
        lemma_first_key_exists(queue);
        let first = first_key(queue)->Some_0;
        if first.slot < slot {
            let rest = queue.remove(first);
            let others = crank_order(rest, slot);
            law_crank_order(rest, slot);
            assert(order =~= seq![first] + others);
            assert forall|key: AsyncIxKey| #[trigger] order.contains(key) <==> queue.contains_key(
                key,
            ) && key.slot < slot by {
                if order.contains(key) {
                    let i = order.index_of(key);
                    if i > 0 {
                        assert(others[i - 1] == key);
                        assert(others.contains(key));
                    }
                }
                if queue.contains_key(key) && key.slot < slot {
                    if key == first {
                        assert(order[0] == key);
                    } else {
                        assert(others.contains(key));
                        let i = others.index_of(key);
                        assert(order[i + 1] == key);
                    }
                }
            }
            assert forall|i: int, j: int| 0 <= i < j < order.len() implies key_before(
                #[trigger] order[i],
                #[trigger] order[j],
            ) by {
                assert(order[j] == others[j - 1]);
                assert(others.contains(others[j - 1]));
                if i > 0 {
                    assert(order[i] == others[i - 1]);
                } else {
                    assert(queue.contains_key(order[j]) && order[j] != first);
                }
            }
        } else {
            assert forall|key: AsyncIxKey| queue.contains_key(key) implies key.slot >= slot by {}
        }
    }
}

/// Of two instructions of earlier slots the one with the smaller key runs first: a cancel before a
/// take of its slot, an earlier cancel before a later one.
pub proof fn law_smaller_key_runs_first(
    queue: Map<AsyncIxKey, QueuedInstruction>,
    slot: u64,
    a: AsyncIxKey,
    b: AsyncIxKey,
)
    requires
        queue.dom().finite(),
        queue.contains_key(a),
        queue.contains_key(b),
        a.slot < slot,
        b.slot < slot,
        key_before(a, b),
    ensures
        exists|i: int, j: int|
            0 <= i < j < crank_order(queue, slot).len() && #[trigger] crank_order(queue, slot)[i]
                == a && #[trigger] crank_order(queue, slot)[j] == b,
{
    law_crank_order(queue, slot);
    let order = crank_order(queue, slot);
    assert(order.contains(a) && order.contains(b));
    let i = order.index_of(a);
    let j = order.index_of(b);
    assert(order[i] == a && order[j] == b);
}

/// What a crank leaves in the queue are the instructions of its own slot and later ones, all of
/// them and unchanged.
pub proof fn law_crank_leaves_later_slots(m: Market, slot: u64)
    requires
        m.queue.dom().finite(),
    ensures
        forall|key: AsyncIxKey| #[trigger]
            cranked(m, slot).queue.contains_key(key) <==> m.queue.contains_key(key) && key.slot
                >= slot,
        forall|key: AsyncIxKey| #[trigger]
            cranked(m, slot).queue.contains_key(key) ==> cranked(m, slot).queue[key]
                == m.queue[key],
        !has_pending(cranked(m, slot), slot),
    decreases m.queue.len(),
{
    if has_pending(m, slot) {
        let key = first_key(m.queue)->Some_0;
        assert(is_first_key(m.queue, key));
        let q = m.queue[key];
        law_running_leaves_the_queue(
            Market { queue: m.queue.remove(key), ..m },
            ix_numbered(q.ix_type),
            q,
        );
        law_crank_leaves_later_slots(stepped(m), slot);
    } else if !m.queue.dom().is_empty() {
        lemma_first_key_exists(m.queue);
    } else {
        assert forall|key: AsyncIxKey| !(#[trigger] m.queue.contains_key(key)) by {
            assert(!m.queue.dom().contains(key));
        }
    }
}

/// An instruction does not run in the slot in which it is queued, and does in the next crank of a
/// later slot.
pub proof fn law_runs_in_a_later_slot(
    m: Market,
    ix: PerpsAsyncIx,
    args: QueueAsyncArgs,
    slot: u64,
    later: u64,
)
    requires
        m.queue.dom().finite(),
        m.queue.len() < MAX_QUEUE,
        slot < later,
    ensures
        ({
            let after = enqueued(m, ix, args, slot);
            let key = key_for(m, ix, slot);
            &&& cranked(after, slot).queue.contains_key(key)
            &&& !crank_order(after.queue, slot).contains(key)
            &&& !cranked(after, later).queue.contains_key(key)
            &&& crank_order(after.queue, later).contains(key)
        }),
{
    let after = enqueued(m, ix, args, slot);
    law_crank_leaves_later_slots(after, slot);
    law_crank_leaves_later_slots(after, later);
    law_crank_order(after.queue, slot);
    law_crank_order(after.queue, later);
}

/// A cancel and a take wait in one slot, in whatever order they came: the crank of a later slot
/// runs the cancel first, and the take on what the cancel leaves.
pub proof fn law_cancel_runs_before_take(
    m: Market,
    cancel_key: AsyncIxKey,
    cancel: QueuedInstruction,
    take_key: AsyncIxKey,
    take: QueuedInstruction,
    slot: u64,
)
    requires
        m.queue == Map::<AsyncIxKey, QueuedInstruction>::empty().insert(take_key, take).insert(
            cancel_key,
            cancel,
        ),
        cancel_key.slot == take_key.slot,
        cancel_key.slot < slot,
        cancel_key.priority == cancel.ix_type == priority_of(PerpsAsyncIx::Cancel),
        take_key.priority == take.ix_type == priority_of(PerpsAsyncIx::Take),
    ensures
        cranked(m, slot) == taken(
            cancelled(Market { queue: Map::empty(), ..m }, cancel),
            take.user,
            take.price,
            take.size,
            take.side,
        ),
{
    let one = Map::<AsyncIxKey, QueuedInstruction>::empty().insert(take_key, take);
    assert(is_first_key(m.queue, cancel_key));
    lemma_first_key(m.queue, cancel_key);
    assert(m.queue.remove(cancel_key) =~= one);
    let after = stepped(m);
    assert(after == cancelled(Market { queue: one, ..m }, cancel));
    assert(is_first_key(one, take_key));
    lemma_first_key(one, take_key);
    assert(one.remove(take_key) =~= Map::<AsyncIxKey, QueuedInstruction>::empty());
    let last = stepped(after);
    assert(Market { queue: Map::empty(), ..after } =~= cancelled(
        Market { queue: Map::empty(), ..m },
        cancel,
    ));
    assert(first_key(last.queue) is None) by {
        if let Some(key) = first_key(last.queue) {
            assert(is_first_key(last.queue, key));
        }
    }
    assert(cranked(last, slot) == last);
    assert(cranked(after, slot) == last);
}

} // verus!
