//! The queue at work: instructions wait for a later slot and then run in the order of their keys.

use vstd::prelude::*;

use crate::async_instructions::{
    applied, ix_fits, ix_numbered, outcome_of, priority_of, Outcome, PerpsAsyncIx, PerpsAsyncIxArgs,
};
use crate::error::{ProgramError, QUEUE_FULL};
use crate::order_tree::SENTINEL;
use crate::queue_tree::{is_first_key, queue_at};
use crate::state::{
    AsyncIxKey, Market, PerpsAsyncIxType, PerpsState, QueuedInstruction, MAX_QUEUE,
};

verus! {

/// Args passed to queue_async: the user's key and the instruction's parameters.
pub struct QueueAsyncArgs {
    pub user: [u8; 32],
    pub ix_type: PerpsAsyncIxType,
    pub price: u64,
    pub size: u64,
    pub side: u64,
    pub order_seq: u64,
    pub extra_user: [u8; 32],
}

/// An entry of the queue.
#[derive(Copy, Clone, PartialEq, Eq, Debug)]
pub struct QueueNode {
    pub key: AsyncIxKey,
    pub value: QueuedInstruction,
}

/// The first of the keys.
pub open spec fn first_key(queue: Map<AsyncIxKey, QueuedInstruction>) -> Option<AsyncIxKey> {
    if exists|key: AsyncIxKey| is_first_key(queue, key) {
        Some(choose|key: AsyncIxKey| is_first_key(queue, key))
    } else {
        None
    }
}

/// There is only one first key.
pub proof fn lemma_first_key(queue: Map<AsyncIxKey, QueuedInstruction>, key: AsyncIxKey)
    requires
        is_first_key(queue, key),
    ensures
        first_key(queue) == Some(key),
{
    let other = choose|other: AsyncIxKey| is_first_key(queue, other);
    assert(is_first_key(queue, other));
    assert(queue.contains_key(key) && queue.contains_key(other));
}

/// The key under which an instruction is queued.
pub open spec fn key_for(m: Market, ix: PerpsAsyncIx, slot: u64) -> AsyncIxKey {
    AsyncIxKey { slot, priority: priority_of(ix), seq: m.seq }
}

/// What is stored of an instruction.
pub open spec fn entry_for(ix: PerpsAsyncIx, args: QueueAsyncArgs) -> QueuedInstruction {
    QueuedInstruction {
        user: args.user,
        ix_type: priority_of(ix),
        price: args.price,
        size: args.size,
        side: args.side,
        order_seq: args.order_seq,
        extra_user: args.extra_user,
    }
}

/// The queue takes an instruction: it has room, or an entry to replace.
pub open spec fn can_enqueue(m: Market, ix: PerpsAsyncIx, slot: u64) -> bool {
    m.queue.contains_key(key_for(m, ix, slot)) || m.queue.len() < MAX_QUEUE
}

/// The market after an instruction is queued in `slot`. A full queue uses up the number, but does
/// not take the instruction.
pub open spec fn enqueued(m: Market, ix: PerpsAsyncIx, args: QueueAsyncArgs, slot: u64) -> Market {
    Market {
        seq: (m.seq + 1) as u64,
        queue: if can_enqueue(m, ix, slot) {
            m.queue.insert(key_for(m, ix, slot), entry_for(ix, args))
        } else {
            m.queue
        },
        ..m
    }
}

/// The market once the first instruction has left the queue and run.
pub open spec fn stepped(m: Market) -> Market {
    match first_key(m.queue) {
        Some(key) => {
            let q = m.queue[key];
            applied(Market { queue: m.queue.remove(key), ..m }, ix_numbered(q.ix_type), q)
        },
        None => m,
    }
}

/// The numbers of the first instruction stay within 64 bits.
pub open spec fn step_fits(m: Market) -> bool {
    match first_key(m.queue) {
        Some(key) => {
            let q = m.queue[key];
            ix_fits(Market { queue: m.queue.remove(key), ..m }, ix_numbered(q.ix_type), q)
        },
        None => true,
    }
}

/// What the first instruction does.
pub open spec fn step_outcome(m: Market) -> Option<Outcome> {
    match first_key(m.queue) {
        Some(key) => {
            let q = m.queue[key];
            Some(
                outcome_of(Market { queue: m.queue.remove(key), ..m }, ix_numbered(q.ix_type), q),
            )
        },
        None => None,
    }
}

/// The first instruction was queued in an earlier slot than `slot`.
pub open spec fn has_pending(m: Market, slot: u64) -> bool {
    match first_key(m.queue) {
        Some(key) => key.slot < slot,
        None => false,
    }
}

/// The slot of the first instruction is not the very last one.
pub open spec fn pending_fits(m: Market) -> bool {
    match first_key(m.queue) {
        Some(key) => key.slot < u64::MAX,
        None => true,
    }
}

/// The market once every instruction of an earlier slot has run, one by one from the first on.
pub open spec fn cranked(m: Market, slot: u64) -> Market
    decreases m.queue.len(),
{
    if has_pending(m, slot) && m.queue.dom().finite() {
        proof {
            assert(is_first_key(m.queue, first_key(m.queue)->Some_0));
        }
        cranked(stepped(m), slot)
    } else {
        m
    }
}

/// The numbers of every instruction that runs stay within 64 bits.
pub open spec fn crank_fits(m: Market, slot: u64) -> bool
    decreases m.queue.len(),
{
    if has_pending(m, slot) && m.queue.dom().finite() {
        proof {
            assert(is_first_key(m.queue, first_key(m.queue)->Some_0));
        }
        step_fits(m) && crank_fits(stepped(m), slot)
    } else {
        pending_fits(m)
    }
}

/// What the instructions that run do, in turn.
pub open spec fn crank_outcomes(m: Market, slot: u64) -> Seq<Outcome>
    decreases m.queue.len(),
{
    if has_pending(m, slot) && m.queue.dom().finite() {
        proof {
            assert(is_first_key(m.queue, first_key(m.queue)->Some_0));
        }
        seq![step_outcome(m)->Some_0] + crank_outcomes(stepped(m), slot)
    } else {
        Seq::empty()
    }
}

impl PerpsState {
    /// Peeks at the first instruction. Gives the address of its node too.
    pub fn peek_async(&self) -> (first: Option<(u32, QueueNode)>)
        requires
            self.async_queue.wf(),
        ensures
            match first {
                Some((address, node)) => {
                    &&& first_key(self@.queue) == Some(node.key)
                    &&& is_first_key(self@.queue, node.key)
                    &&& node.value == self@.queue[node.key]
                    &&& address != SENTINEL
                    &&& queue_at(self.async_queue, address) == node.key
                },
                None => self@.queue.dom().is_empty() && first_key(self@.queue) is None,
            },
    {
        match self.async_queue.first() {
            Some((address, key, value)) => {
                proof {
                    lemma_first_key(self.async_queue@, key);
                }
                Some((address, QueueNode { key, value }))
            },
            None => None,
        }
    }

    /// Takes the first instruction out of the queue.
    pub fn pop_async(&mut self) -> (first: Option<QueueNode>)
        requires
            old(self).async_queue.wf(),
        ensures
            final(self).async_queue.wf(),
            old(self).wf() ==> final(self).wf(),
            old(self).runnable() ==> final(self).runnable(),
            final(self).orderbook == old(self).orderbook,
            match first {
                Some(node) => {
                    &&& first_key(old(self)@.queue) == Some(node.key)
                    &&& is_first_key(old(self)@.queue, node.key)
                    &&& node.value == old(self)@.queue[node.key]
                    &&& final(self)@ == Market {
                        queue: old(self)@.queue.remove(node.key),
                        ..old(self)@
                    }
                },
                None => old(self)@.queue.dom().is_empty() && first_key(old(self)@.queue) is None
                    && *final(self) == *old(self),
            },
    {
        match self.peek_async() {
            Some((_, node)) => {
                self.async_queue.remove(&node.key);
                Some(node)
            },
            None => None,
        }
    }

    /// Queues an instruction in `slot`. It is refused where the queue is full.
    pub fn queue_async(&mut self, ixn: &PerpsAsyncIx, args: &QueueAsyncArgs, slot: u64) -> (result:
        Result<(), ProgramError>)
        requires
            old(self).async_queue.wf(),
            old(self).seq < u64::MAX,
        ensures
            final(self).async_queue.wf(),
            old(self).wf() ==> final(self).wf() && !old(self)@.queue.contains_key(
                key_for(old(self)@, *ixn, slot),
            ),
            old(self).runnable() ==> final(self).runnable(),
            final(self).orderbook == old(self).orderbook,
            final(self)@ == enqueued(old(self)@, *ixn, *args, slot),
            result == if can_enqueue(old(self)@, *ixn, slot) {
                Ok::<(), ProgramError>(())
            } else {
                Err(ProgramError::Custom(QUEUE_FULL))
            },
    {
        let priority: u64 = ixn.priority();
        let key = AsyncIxKey { slot, priority, seq: self.seq };
        self.seq = self.seq + 1;
        let queued = QueuedInstruction {
            user: args.user,
            ix_type: priority,
            price: args.price,
            size: args.size,
            side: args.side,
            order_seq: args.order_seq,
            extra_user: args.extra_user,
        };
        match self.async_queue.insert(key, queued) {
            Some(_) => Ok(()),
            None => Err(ProgramError::Custom(QUEUE_FULL)),
        }
    }

    /// Runs the first instruction of the queue. Gives what it did, if there was one, or `None` where
    /// the numbers do not fit.
    pub fn checked_process_next_async(&mut self) -> (outcome: Option<Option<Outcome>>)
        requires
            old(self).runnable(),
        ensures
            final(self).runnable(),
            old(self).wf() ==> final(self).wf(),
            outcome is Some <==> step_fits(old(self)@),
            outcome matches Some(o) ==> o == step_outcome(old(self)@) && final(self)@ == stepped(
                old(self)@,
            ),
    {
        match self.pop_async() {
            Some(next) => {
                let ix = PerpsAsyncIx::from_number(next.value.ix_type);
                let args = PerpsAsyncIxArgs { queued: next.value };
                match ix.checked_process(&args, self) {
                    Some(outcome) => Some(Some(outcome)),
                    None => None,
                }
            },
            None => Some(None),
        }
    }

    /// Runs the first instruction of the queue.
    pub fn process_next_async(&mut self) -> (result: Result<(), ProgramError>)
        requires
            old(self).runnable(),
            step_fits(old(self)@),
        ensures
            final(self).runnable(),
            old(self).wf() ==> final(self).wf(),
            final(self)@ == stepped(old(self)@),
            result is Ok,
    {
        self.checked_process_next_async();
        Ok(())
    }

    /// Whether an instruction waits that was queued before `slot`.
    pub fn has_pending_async(&self, slot: u64) -> (pending: bool)
        requires
            self.async_queue.wf(),
            pending_fits(self@),
        ensures
            pending == has_pending(self@, slot),
    {
        match self.peek_async() {
            Some((_, node)) => node.key.slot + 1 <= slot,
            None => false,
        }
    }

    /// Runs every instruction that was queued before `slot`. Gives what they did, in turn, or `None`
    /// where the numbers do not fit.
    pub fn checked_crank(&mut self, slot: u64) -> (outcomes: Option<Vec<Outcome>>)
        requires
            old(self).runnable(),
        ensures
            final(self).runnable(),
            old(self).wf() ==> final(self).wf(),
            outcomes is Some <==> crank_fits(old(self)@, slot),
            outcomes matches Some(o) ==> o@ == crank_outcomes(old(self)@, slot) && final(self)@
                == cranked(old(self)@, slot),
    {
        let mut outcomes: Vec<Outcome> = Vec::new();
        loop
            invariant
                self.runnable(),
                old(self).wf() ==> self.wf(),
                crank_fits(self@, slot) == crank_fits(old(self)@, slot),
                cranked(self@, slot) == cranked(old(self)@, slot),
                outcomes@ + crank_outcomes(self@, slot) =~= crank_outcomes(old(self)@, slot),
            decreases self@.queue.len(),
        {
            match self.peek_async() {
                Some((_, node)) => {
                    if node.key.slot == u64::MAX {
                        return None;
                    }
                },
                None => {},
            }
            if !self.has_pending_async(slot) {
                return Some(outcomes);
            }
            match self.checked_process_next_async() {
                Some(Some(outcome)) => {
                    outcomes.push(outcome);
                },
                Some(None) => {},
                None => {
                    return None;
                },
            }
        }
    }
}

} // verus!
