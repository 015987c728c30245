//! One side of the book: a `sokoban` red-black tree from order ids to orders.
//!
//! The tree stores plain integers. A key is `[price_key, seq]`, which `std` orders
//! lexicographically; a record is the four words of the owner's key, then size, price and side.

use sokoban::{NodeAllocatorMap, RedBlackTree};
use vstd::prelude::*;
use vstd::set_lib::*;

use crate::orderbook::{Order, OrderId, MAX_ORDERS};
use crate::record::{key_from_words, key_of, key_to_words};

verus! {

/// The address that stands for "no node" (`sokoban::SENTINEL`).
pub const SENTINEL: u32 = 0;

/// A `sokoban::RedBlackTree` that holds up to `MAX_ORDERS` orders.
#[verifier::external_body]
pub struct OrderTree {
    tree: Box<RedBlackTree<[u64; 2], [u64; 7], MAX_ORDERS>>,
}

/// What the tree holds: the record stored under each id.
pub uninterp spec fn order_records(t: OrderTree) -> Map<OrderId, Seq<u64>>;

/// The id in the node at an address.
pub uninterp spec fn order_at(t: OrderTree, address: u32) -> OrderId;

/// The ids in the subtree whose root is at an address.
pub uninterp spec fn order_below(t: OrderTree, address: u32) -> Set<OrderId>;

/// The tree is initialized and its links form a search tree.
pub uninterp spec fn order_ready(t: OrderTree) -> bool;

/// Every byte of the tree is zero: it is not initialized yet.
pub uninterp spec fn order_blank(t: OrderTree) -> bool;

/// `a` comes before `b`: by price key, then by sequence number.
pub open spec fn id_before(a: OrderId, b: OrderId) -> bool {
    a.price_key < b.price_key || (a.price_key == b.price_key && a.seq < b.seq)
}

/// `id` is the first of the ids in `orders`.
pub open spec fn is_first_id(orders: Map<OrderId, Order>, id: OrderId) -> bool {
    &&& orders.contains_key(id)
    &&& forall|other: OrderId| #[trigger]
        orders.contains_key(other) && other != id ==> id_before(id, other)
}

/// A node at this address is part of the tree.
pub open spec fn order_linked(t: OrderTree, address: u32) -> bool {
    address != SENTINEL && order_below(t, address).contains(order_at(t, address))
}

/// The order that a record spells.
pub open spec fn order_of(w: Seq<u64>) -> Order {
    Order { owner: key_of(w[0], w[1], w[2], w[3]), size: w[4], price: w[5], side: w[6] }
}

impl View for OrderTree {
    type V = Map<OrderId, Order>;

    /// The orders in the tree, by id.
    open spec fn view(&self) -> Map<OrderId, Order> {
        Map::new(
            |id: OrderId| order_records(*self).contains_key(id),
            |id: OrderId| order_of(order_records(*self)[id]),
        )
    }
}

/// `bytemuck::zeroed_box`: a tree on the heap with every byte zero.
#[verifier::external_body]
fn zeroed_tree() -> (t: OrderTree)
    ensures
        order_blank(t),
{
    OrderTree { tree: bytemuck::zeroed_box() }
}

/// `RedBlackTree::initialize`: makes an empty tree of a zeroed one. It panics where the allocator's
/// header is not zero.
#[verifier::external_body]
fn tree_initialize(t: &mut OrderTree)
    requires
        order_blank(*old(t)),
    ensures
        order_ready(*final(t)),
        order_records(*final(t)).dom().is_empty(),
{
    t.tree.initialize()
}

/// `RedBlackTree::insert`: stores a record under an id, in place of the record that was there.
/// It gives the address of the node, or `None`, changing nothing, where the id is new and the
/// tree is full.
#[verifier::external_body]
fn tree_insert(t: &mut OrderTree, id: OrderId, record: [u64; 7]) -> (address: Option<u32>)
    requires
        order_ready(*old(t)),
    ensures
        order_ready(*final(t)),
        address is None <==> !order_records(*old(t)).contains_key(id) && order_records(
            *old(t),
        ).len() >= MAX_ORDERS,
        address is None ==> *final(t) == *old(t),
        address matches Some(a) ==> order_at(*final(t), a) == id && order_records(*final(t))
            == order_records(*old(t)).insert(id, record@),
{
    t.tree.insert([id.price_key, id.seq], record)
}

/// `RedBlackTree::remove`: takes the record under an id out of the tree.
#[verifier::external_body]
fn tree_remove(t: &mut OrderTree, id: OrderId) -> (record: Option<[u64; 7]>)
    requires
        order_ready(*old(t)),
    ensures
        order_ready(*final(t)),
        record is Some <==> order_records(*old(t)).contains_key(id),
        record is None ==> *final(t) == *old(t),
        record matches Some(r) ==> r@ == order_records(*old(t))[id] && order_records(*final(t))
            == order_records(*old(t)).remove(id),
{
    t.tree.remove(&[id.price_key, id.seq])
}

/// `RedBlackTree::get`: the record under an id.
#[verifier::external_body]
fn tree_get(t: &OrderTree, id: OrderId) -> (record: Option<&[u64; 7]>)
    requires
        order_ready(*t),
    ensures
        record is Some <==> order_records(*t).contains_key(id),
        record matches Some(r) ==> r@ == order_records(*t)[id],
{
    t.tree.get(&[id.price_key, id.seq])
}

/// `RedBlackTree::get_mut`: the record under an id, to be changed in place.
#[verifier::external_body]
fn tree_get_mut(t: &mut OrderTree, id: OrderId) -> (record: Option<&mut [u64; 7]>)
    requires
        order_ready(*old(t)),
    ensures
        order_ready(*final(t)),
        record is Some <==> order_records(*old(t)).contains_key(id),
        record is None ==> *final(t) == *old(t),
        record matches Some(r) ==> r@ == order_records(*old(t))[id] && order_records(*final(t))
            == order_records(*old(t)).insert(id, final(r)@),
{
    t.tree.get_mut(&[id.price_key, id.seq])
}

/// The field `RedBlackTree::root`: the address of the node above all others.
#[verifier::external_body]
fn tree_root(t: &OrderTree) -> (address: u32)
    requires
        order_ready(*t),
    ensures
        order_below(*t, address) == order_records(*t).dom(),
        order_below(*t, address).finite(),
        order_records(*t).dom().is_empty() ==> address == SENTINEL,
        !order_records(*t).dom().is_empty() ==> order_linked(*t, address),
{
    t.tree.root
}

/// `RedBlackTree::get_left`: the address of a node's left child, under which stand just those
/// ids of the node's subtree that come before the node's own.
#[verifier::external_body]
fn tree_left(t: &OrderTree, address: u32) -> (left: u32)
    requires
        order_ready(*t),
        order_linked(*t, address),
    ensures
        order_below(*t, left) == order_below(*t, address).filter(
            |id: OrderId| id_before(id, order_at(*t, address)),
        ),
        order_below(*t, left).is_empty() ==> left == SENTINEL,
        !order_below(*t, left).is_empty() ==> order_linked(*t, left),
{
    t.tree.get_left(address)
}

/// `RedBlackTree::get_node`: the id and the record in the node at an address.
#[verifier::external_body]
fn tree_node(t: &OrderTree, address: u32) -> (node: (OrderId, [u64; 7]))
    requires
        order_ready(*t),
        order_linked(*t, address),
    ensures
        node.0 == order_at(*t, address),
        node.1@ == order_records(*t)[node.0],
{
    let node = t.tree.get_node(address);
    (OrderId { price_key: node.key[0], seq: node.key[1] }, node.value)
}

/// `RedBlackTree::len`: the number of orders.
#[verifier::external_body]
fn tree_len(t: &OrderTree) -> (n: usize)
    requires
        order_ready(*t),
    ensures
        n == order_records(*t).len(),
{
    t.tree.len()
}

/// The record of an order.
fn record_of(order: &Order) -> (record: [u64; 7])
    ensures
        order_of(record@) == *order,
{
    let w = key_to_words(&order.owner);
    [w[0], w[1], w[2], w[3], order.size, order.price, order.side]
}

/// The order in a record.
fn order_from(record: &[u64; 7]) -> (order: Order)
    ensures
        order == order_of(record@),
{
    let owner = key_from_words(record[0], record[1], record[2], record[3]);
    Order { owner, size: record[4], price: record[5], side: record[6] }
}

impl OrderTree {
    /// The tree is ready for use and within its capacity.
    pub open spec fn wf(&self) -> bool {
        &&& order_ready(*self)
        &&& self@.dom().finite()
        &&& self@.len() <= MAX_ORDERS
    }

    /// The view has the domain of the records.
    proof fn lemma_domain(&self)
        ensures
            self@.dom() == order_records(*self).dom(),
            self@.len() == order_records(*self).len(),
    {
        assert(self@.dom() =~= order_records(*self).dom());
    }

    /// A tree that is not initialized yet.
    pub fn zeroed() -> (tree: OrderTree)
        ensures
            order_blank(tree),
    {
        zeroed_tree()
    }

    /// Makes a zeroed tree an empty one.
    pub fn initialize(&mut self)
        requires
            order_blank(*old(self)),
        ensures
            final(self).wf(),
            final(self)@ == Map::<OrderId, Order>::empty(),
    {
        tree_initialize(self);
        assert(self@ =~= Map::<OrderId, Order>::empty());
    }

    /// The number of orders.
    pub fn len(&self) -> (n: usize)
        requires
            self.wf(),
        ensures
            n == self@.len(),
    {
        proof {
            self.lemma_domain();
        }
        tree_len(self)
    }

    /// Stores an order, in place of one with the same id. Gives the address of its node, or
    /// `None` where the id is new and the tree is full.
    pub fn insert(&mut self, id: OrderId, order: Order) -> (address: Option<u32>)
        requires
            old(self).wf(),
        ensures
            final(self).wf(),
            address is Some <==> old(self)@.contains_key(id) || old(self)@.len() < MAX_ORDERS,
            address is None ==> *final(self) == *old(self),
            address matches Some(a) ==> order_at(*final(self), a) == id && final(self)@ == old(
                self,
            )@.insert(id, order),
    {
        proof {
            self.lemma_domain();
        }
        let record = record_of(&order);
        let address = tree_insert(self, id, record);
        proof {
            if address is Some {
                assert(self@ =~= old(self)@.insert(id, order));
            }
        }
        address
    }

    /// Takes an order out.
    pub fn remove(&mut self, id: &OrderId) -> (order: Option<Order>)
        requires
            old(self).wf(),
        ensures
            final(self).wf(),
            order is Some <==> old(self)@.contains_key(*id),
            order is None ==> *final(self) == *old(self),
            order matches Some(o) ==> o == old(self)@[*id] && final(self)@ == old(self)@.remove(
                *id,
            ),
    {
        match tree_remove(self, *id) {
            Some(record) => {
                assert(self@ =~= old(self)@.remove(*id));
                Some(order_from(&record))
            },
            None => None,
        }
    }

    /// Looks an order up.
    pub fn get(&self, id: &OrderId) -> (order: Option<Order>)
        requires
            self.wf(),
        ensures
            order is Some <==> self@.contains_key(*id),
            order matches Some(o) ==> o == self@[*id],
    {
        match tree_get(self, *id) {
            Some(record) => Some(order_from(record)),
            None => None,
        }
    }

    /// Changes the size of an order. Gives whether there is such an order.
    pub fn set_size(&mut self, id: &OrderId, size: u64) -> (found: bool)
        requires
            old(self).wf(),
        ensures
            final(self).wf(),
            found == old(self)@.contains_key(*id),
            !found ==> *final(self) == *old(self),
            found ==> final(self)@ == old(self)@.insert(
                *id,
                (Order { size, ..old(self)@[*id] }),
            ),
    {
        match tree_get_mut(self, *id) {
            Some(record) => {
                record[4] = size;
                assert(self@ =~= old(self)@.insert(*id, (Order { size, ..old(self)@[*id] })));
                true
            },
            None => false,
        }
    }

    /// The order with the first id, and the address of its node: the leftmost one.
    pub fn first(&self) -> (first: Option<(u32, OrderId, Order)>)
        requires
            self.wf(),
        ensures
            first is None <==> self@.dom().is_empty(),
            first matches Some((address, id, order)) ==> is_first_id(self@, id) && order
                == self@[id] && address != SENTINEL && order_at(*self, address) == id,
    {
        proof {
            self.lemma_domain();
        }
        let mut address: u32 = tree_root(self);
        if address == SENTINEL {
            return None;
        }
        let mut left: u32 = tree_left(self, address);
        while left != SENTINEL
            invariant
                order_ready(*self),
                order_linked(*self, address),
                order_below(*self, address).finite(),
                order_below(*self, address).subset_of(order_records(*self).dom()),
                forall|id: OrderId, other: OrderId|
                    (#[trigger] order_below(*self, address).contains(id)) && (
                    #[trigger] order_records(*self).dom().contains(other)) && !order_below(
                        *self,
                        address,
                    ).contains(other)
                        ==> id_before(id, other),
                order_below(*self, left) == order_below(*self, address).filter(
                    |id: OrderId| id_before(id, order_at(*self, address)),
                ),
                order_below(*self, left).is_empty() ==> left == SENTINEL,
                !order_below(*self, left).is_empty() ==> order_linked(*self, left),
            decreases order_below(*self, address).len(),
        {
            proof {
                let ids = order_below(*self, address);
                lemma_len_subset(order_below(*self, left), ids.remove(order_at(*self, address)));
            }
            address = left;
            left = tree_left(self, address);
        }
        let (id, record) = tree_node(self, address);
        assert forall|other: OrderId| #[trigger] self@.contains_key(other) && other != id implies id_before(
            id,
            other,
        ) by {
            assert(order_records(*self).dom().contains(other));
            assert(!order_below(*self, left).contains(other));
        }
        Some((address, id, order_from(&record)))
    }
}

} // verus!
