//! The queue: a `sokoban` red-black tree from sort keys to waiting instructions.
//!
//! The tree stores plain integers. A key is `[slot, priority, seq]`, which `std` orders
//! lexicographically; a record is the four words of the user's key, then type, price, size, side
//! and order number, then the four words of the extra user's key.

use sokoban::{NodeAllocatorMap, RedBlackTree};
use vstd::prelude::*;
use vstd::set_lib::*;

use crate::order_tree::SENTINEL;
use crate::record::{key_from_words, key_of, key_to_words};
use crate::state::{AsyncIxKey, QueuedInstruction, MAX_QUEUE};

verus! {

/// A `sokoban::RedBlackTree` that holds up to `MAX_QUEUE` instructions.
#[verifier::external_body]
pub struct QueueTree {
    tree: Box<RedBlackTree<[u64; 3], [u64; 13], MAX_QUEUE>>,
}

/// What the tree holds: the record stored under each key.
pub uninterp spec fn queue_records(t: QueueTree) -> Map<AsyncIxKey, Seq<u64>>;

/// The key in the node at an address.
pub uninterp spec fn queue_at(t: QueueTree, address: u32) -> AsyncIxKey;

/// The keys in the subtree whose root is at an address.
pub uninterp spec fn queue_below(t: QueueTree, address: u32) -> Set<AsyncIxKey>;

/// The tree is initialized and its links form a search tree.
pub uninterp spec fn queue_ready(t: QueueTree) -> bool;

/// Every byte of the tree is zero: it is not initialized yet.
pub uninterp spec fn queue_blank(t: QueueTree) -> bool;

/// `a` comes before `b`: by slot, then by priority, then by sequence number.
pub open spec fn key_before(a: AsyncIxKey, b: AsyncIxKey) -> bool {
    ||| a.slot < b.slot
    ||| a.slot == b.slot && a.priority < b.priority
    ||| a.slot == b.slot && a.priority == b.priority && a.seq < b.seq
}

/// `key` is the first of the keys in `queue`.
pub open spec fn is_first_key(queue: Map<AsyncIxKey, QueuedInstruction>, key: AsyncIxKey) -> bool {
    &&& queue.contains_key(key)
    &&& forall|other: AsyncIxKey| #[trigger]
        queue.contains_key(other) && other != key ==> key_before(key, other)
}

/// A node at this address is part of the tree.
pub open spec fn queue_linked(t: QueueTree, address: u32) -> bool {
    address != SENTINEL && queue_below(t, address).contains(queue_at(t, address))
}

/// The instruction that a record spells.
pub open spec fn queued_of(w: Seq<u64>) -> QueuedInstruction {
    QueuedInstruction {
        user: key_of(w[0], w[1], w[2], w[3]),
        ix_type: w[4],
        price: w[5],
        size: w[6],
        side: w[7],
        order_seq: w[8],
        extra_user: key_of(w[9], w[10], w[11], w[12]),
    }
}

impl View for QueueTree {
    type V = Map<AsyncIxKey, QueuedInstruction>;

    /// The waiting instructions, by key.
    open spec fn view(&self) -> Map<AsyncIxKey, QueuedInstruction> {
        Map::new(
            |key: AsyncIxKey| queue_records(*self).contains_key(key),
            |key: AsyncIxKey| queued_of(queue_records(*self)[key]),
        )
    }
}

/// `bytemuck::zeroed_box`: a tree on the heap with every byte zero.
#[verifier::external_body]
fn zeroed_tree() -> (t: QueueTree)
    ensures
        queue_blank(t),
{
    QueueTree { tree: bytemuck::zeroed_box() }
}

/// `RedBlackTree::initialize`: makes an empty tree of a zeroed one. It panics where the allocator's
/// header is not zero.
#[verifier::external_body]
fn tree_initialize(t: &mut QueueTree)
    requires
        queue_blank(*old(t)),
    ensures
        queue_ready(*final(t)),
        queue_records(*final(t)).dom().is_empty(),
{
    t.tree.initialize()
}

/// `RedBlackTree::insert`: stores a record under a key, in place of the record that was there.
/// It gives the address of the node, or `None`, changing nothing, where the key is new and the
/// tree is full.
#[verifier::external_body]
fn tree_insert(t: &mut QueueTree, key: AsyncIxKey, record: [u64; 13]) -> (address: Option<u32>)
    requires
        queue_ready(*old(t)),
    ensures
        queue_ready(*final(t)),
        address is None <==> !queue_records(*old(t)).contains_key(key) && queue_records(
            *old(t),
        ).len() >= MAX_QUEUE,
        address is None ==> *final(t) == *old(t),
        address matches Some(a) ==> queue_at(*final(t), a) == key && queue_records(*final(t))
            == queue_records(*old(t)).insert(key, record@),
{
    t.tree.insert([key.slot, key.priority, key.seq], record)
}

/// `RedBlackTree::remove`: takes the record under a key out of the tree.
#[verifier::external_body]
fn tree_remove(t: &mut QueueTree, key: AsyncIxKey) -> (record: Option<[u64; 13]>)
    requires
        queue_ready(*old(t)),
    ensures
        queue_ready(*final(t)),
        record is Some <==> queue_records(*old(t)).contains_key(key),
        record is None ==> *final(t) == *old(t),
        record matches Some(r) ==> r@ == queue_records(*old(t))[key] && queue_records(*final(t))
            == queue_records(*old(t)).remove(key),
{
    t.tree.remove(&[key.slot, key.priority, key.seq])
}

/// The field `RedBlackTree::root`: the address of the node above all others.
#[verifier::external_body]
fn tree_root(t: &QueueTree) -> (address: u32)
    requires
        queue_ready(*t),
    ensures
        queue_below(*t, address) == queue_records(*t).dom(),
        queue_below(*t, address).finite(),
        queue_records(*t).dom().is_empty() ==> address == SENTINEL,
        !queue_records(*t).dom().is_empty() ==> queue_linked(*t, address),
{
    t.tree.root
}

/// `RedBlackTree::get_left`: the address of a node's left child, under which stand just those
/// keys of the node's subtree that come before the node's own.
#[verifier::external_body]
fn tree_left(t: &QueueTree, address: u32) -> (left: u32)
    requires
        queue_ready(*t),
        queue_linked(*t, address),
    ensures
        queue_below(*t, left) == queue_below(*t, address).filter(
            |key: AsyncIxKey| key_before(key, queue_at(*t, address)),
        ),
        queue_below(*t, left).is_empty() ==> left == SENTINEL,
        !queue_below(*t, left).is_empty() ==> queue_linked(*t, left),
{
    t.tree.get_left(address)
}

/// `RedBlackTree::get_node`: the key and the record in the node at an address.
#[verifier::external_body]
fn tree_node(t: &QueueTree, address: u32) -> (node: (AsyncIxKey, [u64; 13]))
    requires
        queue_ready(*t),
        queue_linked(*t, address),
    ensures
        node.0 == queue_at(*t, address),
        node.1@ == queue_records(*t)[node.0],
{
    let node = t.tree.get_node(address);
    (AsyncIxKey { slot: node.key[0], priority: node.key[1], seq: node.key[2] }, node.value)
}

/// `RedBlackTree::len`: the number of instructions.
#[verifier::external_body]
fn tree_len(t: &QueueTree) -> (n: usize)
    requires
        queue_ready(*t),
    ensures
        n == queue_records(*t).len(),
{
    t.tree.len()
}

/// The record of an instruction.
fn record_of(queued: &QueuedInstruction) -> (record: [u64; 13])
    ensures
        queued_of(record@) == *queued,
{
    let w = key_to_words(&queued.user);
    let x = key_to_words(&queued.extra_user);
    [
        w[0],
        w[1],
        w[2],
        w[3],
        queued.ix_type,
        queued.price,
        queued.size,
        queued.side,
        queued.order_seq,
        x[0],
        x[1],
        x[2],
        x[3],
    ]
}

/// The instruction in a record.
fn queued_from(record: &[u64; 13]) -> (queued: QueuedInstruction)
    ensures
        queued == queued_of(record@),
{
    QueuedInstruction {
        user: key_from_words(record[0], record[1], record[2], record[3]),
        ix_type: record[4],
        price: record[5],
        size: record[6],
        side: record[7],
        order_seq: record[8],
        extra_user: key_from_words(record[9], record[10], record[11], record[12]),
    }
}

impl QueueTree {
    /// The tree is ready for use and within its capacity.
    pub open spec fn wf(&self) -> bool {
        &&& queue_ready(*self)
        &&& self@.dom().finite()
        &&& self@.len() <= MAX_QUEUE
    }

    /// The view has the domain of the records.
    proof fn lemma_domain(&self)
        ensures
            self@.dom() == queue_records(*self).dom(),
            self@.len() == queue_records(*self).len(),
    {
        assert(self@.dom() =~= queue_records(*self).dom());
    }

    /// A tree that is not initialized yet.
    pub fn zeroed() -> (tree: QueueTree)
        ensures
            queue_blank(tree),
    {
        zeroed_tree()
    }

    /// Makes a zeroed tree an empty one.
    pub fn initialize(&mut self)
        requires
            queue_blank(*old(self)),
        ensures
            final(self).wf(),
            final(self)@ == Map::<AsyncIxKey, QueuedInstruction>::empty(),
    {
        tree_initialize(self);
        assert(self@ =~= Map::<AsyncIxKey, QueuedInstruction>::empty());
    }

    /// The number of waiting instructions.
    pub fn len(&self) -> (n: usize)
        requires
            self.wf(),
        ensures
            n == self@.len(),
    {
        proof {
            self.lemma_domain();
        }
        tree_len(self)
    }

    /// Stores an instruction, in place of one with the same key. Gives the address of its node, or
    /// `None` where the key is new and the tree is full.
    pub fn insert(&mut self, key: AsyncIxKey, queued: QueuedInstruction) -> (address: Option<u32>)
        requires
            old(self).wf(),
        ensures
            final(self).wf(),
            address is Some <==> old(self)@.contains_key(key) || old(self)@.len() < MAX_QUEUE,
            address is None ==> *final(self) == *old(self),
            address matches Some(a) ==> queue_at(*final(self), a) == key && final(self)@ == old(
                self,
            )@.insert(key, queued),
    {
        proof {
            self.lemma_domain();
        }
        let record = record_of(&queued);
        let address = tree_insert(self, key, record);
        proof {
            if address is Some {
                assert(self@ =~= old(self)@.insert(key, queued));
            }
        }
        address
    }

    /// Takes an instruction out.
    pub fn remove(&mut self, key: &AsyncIxKey) -> (queued: Option<QueuedInstruction>)
        requires
            old(self).wf(),
        ensures
            final(self).wf(),
            queued is Some <==> old(self)@.contains_key(*key),
            queued is None ==> *final(self) == *old(self),
            queued matches Some(o) ==> o == old(self)@[*key] && final(self)@ == old(self)@.remove(
                *key,
            ),
    {
        match tree_remove(self, *key) {
            Some(record) => {
                assert(self@ =~= old(self)@.remove(*key));
                Some(queued_from(&record))
            },
            None => None,
        }
    }

    /// The instruction with the first key, and the address of its node: the leftmost one.
    pub fn first(&self) -> (first: Option<(u32, AsyncIxKey, QueuedInstruction)>)
        requires
            self.wf(),
        ensures
            first is None <==> self@.dom().is_empty(),
            first matches Some((address, key, queued)) ==> is_first_key(self@, key) && queued
                == self@[key] && address != SENTINEL && queue_at(*self, address) == key,
    {
        proof {
            self.lemma_domain();
        }
        let mut address: u32 = tree_root(self);
        if address == SENTINEL {
            return None;
        }
        let mut left: u32 = tree_left(self, address);
        while left != SENTINEL
            invariant
                queue_ready(*self),
                queue_linked(*self, address),
                queue_below(*self, address).finite(),
                queue_below(*self, address).subset_of(queue_records(*self).dom()),
                forall|key: AsyncIxKey, other: AsyncIxKey|
                    (#[trigger] queue_below(*self, address).contains(key)) && (
                    #[trigger] queue_records(*self).dom().contains(other)) && !queue_below(
                        *self,
                        address,
                    ).contains(other)
                        ==> key_before(key, other),
                queue_below(*self, left) == queue_below(*self, address).filter(
                    |key: AsyncIxKey| key_before(key, queue_at(*self, address)),
                ),
                queue_below(*self, left).is_empty() ==> left == SENTINEL,
                !queue_below(*self, left).is_empty() ==> queue_linked(*self, left),
            decreases queue_below(*self, address).len(),
        {
            proof {
                let keys = queue_below(*self, address);
                lemma_len_subset(queue_below(*self, left), keys.remove(queue_at(*self, address)));
            }
            address = left;
            left = tree_left(self, address);
        }
        let (key, record) = tree_node(self, address);
        assert forall|other: AsyncIxKey| #[trigger] self@.contains_key(other) && other != key implies key_before(
            key,
            other,
        ) by {
            assert(queue_records(*self).dom().contains(other));
            assert(!queue_below(*self, left).contains(other));
        }
        Some((address, key, queued_from(&record)))
    }
}

} // verus!
