//! What holds of the book whatever is placed, cancelled or taken.

use vstd::prelude::*;

use crate::async_instructions::{can_place, cancelled, id_on, orders_on, placed};
use crate::margin_laws::law_withdraw_then_deposit;
use crate::order_tree::{id_before, is_first_id};
use crate::orderbook::{
    all_asks, all_bids, ask_id, bid_id, first_id, lemma_first_id, Order, OrderId,
};
use crate::settlement::{crosses, facing, fills_of, margin_for, opposite, sweep, taken, units, Fill};
use crate::state::{Market, QueuedInstruction};

verus! {

/// Every order is of the kind that a taker on `side` trades with.
pub open spec fn faces(orders: Map<OrderId, Order>, side: u64) -> bool {
    if side == 0 {
        all_asks(orders)
    } else {
        all_bids(orders)
    }
}

/// The price `a` is at least as good as `b` for a taker on `side`.
pub open spec fn as_good(a: u64, b: u64, side: u64) -> bool {
    if side == 0 {
        a <= b
    } else {
        a >= b
    }
}

/// Bids are in line by price, highest first, and then by number.
pub proof fn law_bids_in_line(p: u64, s: u64, q: u64, t: u64)
    ensures
        id_before(bid_id(p, s), bid_id(q, t)) <==> p > q || (p == q && s < t),
{
}

/// Asks are in line by price, lowest first, and then by number.
pub proof fn law_asks_in_line(p: u64, s: u64, q: u64, t: u64)
    ensures
        id_before(ask_id(p, s), ask_id(q, t)) <==> p < q || (p == q && s < t),
{
}

/// A side of the book with an order on it has a first order.
pub proof fn lemma_first_id_exists(orders: Map<OrderId, Order>)
    requires
        orders.dom().finite(),
        !orders.dom().is_empty(),
    ensures
        first_id(orders) matches Some(id) && is_first_id(orders, id),
    decreases orders.len(),
{
    let some = orders.dom().choose();
    let rest = orders.remove(some);
    if rest.dom().is_empty() {
        assert forall|other: OrderId| #[trigger] orders.contains_key(other) && other
            != some implies id_before(some, other) by {
            assert(rest.dom().contains(other));
        }
        assert(is_first_id(orders, some));
        lemma_first_id(orders, some);
    } else {
        lemma_first_id_exists(rest);
        let first = first_id(rest)->Some_0;
        let id = if id_before(some, first) {
            some
        } else {
            first
        };
        assert forall|other: OrderId| #[trigger] orders.contains_key(other) && other
            != id implies id_before(id, other) by {
            if other != some {
                assert(rest.contains_key(other));
            }
        }
        assert(is_first_id(orders, id));
        lemma_first_id(orders, id);
    }
}

/// The first order has the best price for whoever trades with it.
proof fn lemma_first_is_best(orders: Map<OrderId, Order>, side: u64, id: OrderId)
    requires
        faces(orders, side),
        is_first_id(orders, id),
    ensures
        forall|other: OrderId| #[trigger]
            orders.contains_key(other) ==> as_good(orders[id].price, orders[other].price, side),
{
    assert forall|other: OrderId| #[trigger] orders.contains_key(other) implies as_good(
        orders[id].price,
        orders[other].price,
        side,
    ) by {
        assert(orders.contains_key(id));
    }
}

/// What a take gets: every fill is within the limit, from an order that was in the book, at that
/// order's price and to no more than its size; and, where every order stands under its own id, no
/// later fill has a better price than an earlier one.
pub proof fn law_fills_are_best_first(
    orders: Map<OrderId, Order>,
    limit: u64,
    size: u64,
    side: u64,
)
    ensures
        ({
            let fills = sweep(orders, limit, size, side).fills;
            &&& forall|i: int|
                0 <= i < fills.len() ==> as_good((#[trigger] fills[i]).price, limit, side)
                    && exists|id: OrderId| #[trigger]
                    orders.contains_key(id) && orders[id].owner == fills[i].maker
                        && orders[id].price == fills[i].price && fills[i].size <= orders[id].size
            &&& faces(orders, side) ==> forall|i: int, j: int|
                0 <= i < j < fills.len() ==> as_good(
                    (#[trigger] fills[i]).price,
                    (#[trigger] fills[j]).price,
                    side,
                )
        }),
    decreases orders.len(),
{
    if let Some(id) = first_id(orders) {
        assert(is_first_id(orders, id));
        let order = orders[id];
        let fills = sweep(orders, limit, size, side).fills;
        if size != 0 && crosses(order, limit, side) && orders.dom().finite() && order.size <= size {
            let rest_orders = orders.remove(id);
            let rest = sweep(rest_orders, limit, (size - order.size) as u64, side).fills;
            law_fills_are_best_first(rest_orders, limit, (size - order.size) as u64, side);
            assert forall|i: int| 1 <= i < fills.len() implies #[trigger] fills[i]
                == rest[i - 1] by {}
            assert forall|i: int| 0 <= i < fills.len() implies as_good(
                (#[trigger] fills[i]).price,
                limit,
                side,
            ) && exists|other: OrderId| #[trigger]
                orders.contains_key(other) && orders[other].owner == fills[i].maker
                    && orders[other].price == fills[i].price && fills[i].size
                    <= orders[other].size by {
                if i > 0 {
                    assert(fills[i] == rest[i - 1]);
                    let other = choose|other: OrderId| #[trigger]
                        rest_orders.contains_key(other) && rest_orders[other].owner
                            == rest[i - 1].maker && rest_orders[other].price == rest[i - 1].price
                            && rest[i - 1].size <= rest_orders[other].size;
                    assert(orders.contains_key(other));
                } else {
                    assert(orders.contains_key(id));
                }
            }
            if faces(orders, side) {
                lemma_first_is_best(orders, side, id);
                assert forall|i: int, j: int| 0 <= i < j < fills.len() implies as_good(
                    (#[trigger] fills[i]).price,
                    (#[trigger] fills[j]).price,
                    side,
                ) by {
                    assert(fills[j] == rest[j - 1]);
                    if i > 0 {
                        assert(fills[i] == rest[i - 1]);
                    }
                }
            }
        } else {
            assert(orders.contains_key(id));
        }
    }
}

/// The units in all orders of a side, counted from the first on.
pub open spec fn book_size(orders: Map<OrderId, Order>) -> int
    decreases orders.len(),
{
    match first_id(orders) {
        Some(id) => if orders.dom().finite() {
            proof {
                assert(is_first_id(orders, id));
            }
            orders[id].size + book_size(orders.remove(id))
        } else {
            0
        },
        None => 0,
    }
}

/// The units of the first fill and of the others.
proof fn lemma_units_first(fills: Seq<Fill>)
    requires
        fills.len() > 0,
    ensures
        units(fills) == fills[0].size + units(fills.skip(1)),
        fills.len() == 1 ==> units(fills) == fills[0].size,
{
    if fills.len() == 1 {
        assert(units(fills.skip(1)) == 0);
    }
}

/// A take gets no more than it asks for, and what it gets leaves the book.
pub proof fn law_take_conserves_units(
    orders: Map<OrderId, Order>,
    limit: u64,
    size: u64,
    side: u64,
)
    ensures
        units(sweep(orders, limit, size, side).fills) <= size,
        book_size(sweep(orders, limit, size, side).left) + units(
            sweep(orders, limit, size, side).fills,
        ) == book_size(orders),
    decreases orders.len(),
{
    if let Some(id) = first_id(orders) {
        assert(is_first_id(orders, id));
        let order = orders[id];
        let swept = sweep(orders, limit, size, side);
        if size != 0 && crosses(order, limit, side) && orders.dom().finite() {
            lemma_units_first(swept.fills);
            if order.size <= size {
                let rest = sweep(orders.remove(id), limit, (size - order.size) as u64, side);
                law_take_conserves_units(
                    orders.remove(id),
                    limit,
                    (size - order.size) as u64,
                    side,
                );
                assert(swept.fills.skip(1) =~= rest.fills);
            } else {
                assert(swept.fills.skip(1) =~= Seq::<Fill>::empty());
                assert forall|other: OrderId| #[trigger] swept.left.contains_key(other) && other
                    != id implies id_before(id, other) by {
                    assert(orders.contains_key(other));
                }
                assert(is_first_id(swept.left, id));
                lemma_first_id(swept.left, id);
                assert(swept.left.remove(id) =~= orders.remove(id));
            }
        }
    }
}

/// Nothing is filled where no order is within the limit.
pub proof fn law_nothing_crosses_nothing_fills(
    orders: Map<OrderId, Order>,
    limit: u64,
    size: u64,
    side: u64,
)
    requires
        forall|id: OrderId| #[trigger]
            orders.contains_key(id) ==> !crosses(orders[id], limit, side),
    ensures
        sweep(orders, limit, size, side).fills == Seq::<Fill>::empty(),
        sweep(orders, limit, size, side).left == orders,
{
    if let Some(id) = first_id(orders) {
        assert(is_first_id(orders, id));
        assert(orders.contains_key(id));
    }
}

/// A take that gets less than it asks for leaves no order within the limit.
pub proof fn law_take_goes_to_the_limit(
    orders: Map<OrderId, Order>,
    limit: u64,
    size: u64,
    side: u64,
)
    requires
        faces(orders, side),
        orders.dom().finite(),
        units(sweep(orders, limit, size, side).fills) < size,
    ensures
        forall|id: OrderId| #[trigger]
            sweep(orders, limit, size, side).left.contains_key(id) ==> !crosses(
                sweep(orders, limit, size, side).left[id],
                limit,
                side,
            ),
    decreases orders.len(),
{
    let swept = sweep(orders, limit, size, side);
    if !orders.dom().is_empty() {
        lemma_first_id_exists(orders);
        let id = first_id(orders)->Some_0;
        let order = orders[id];
        lemma_first_is_best(orders, side, id);
        if crosses(order, limit, side) {
            lemma_units_first(swept.fills);
            if order.size <= size {
                let rest = sweep(orders.remove(id), limit, (size - order.size) as u64, side);
                assert(swept.fills.skip(1) =~= rest.fills);
                law_take_goes_to_the_limit(
                    orders.remove(id),
                    limit,
                    (size - order.size) as u64,
                    side,
                );
            } else {
                assert(swept.fills.skip(1) =~= Seq::<Fill>::empty());
            }
        }
    } else {
        if let Some(id) = first_id(orders) {
            assert(is_first_id(orders, id));
            assert(orders.dom().contains(id));
        }
        assert forall|id: OrderId| #[trigger] swept.left.contains_key(id) implies !crosses(
            swept.left[id],
            limit,
            side,
        ) by {
            assert(orders.dom().contains(id));
        }
    }
}

/// What a take leaves was in the book before, the same but perhaps smaller; and an order is
/// touched only when every order before it in line is gone: while `a` is left, no `b` after it is
/// touched.
pub proof fn law_take_keeps_the_line(
    orders: Map<OrderId, Order>,
    limit: u64,
    size: u64,
    side: u64,
)
    ensures
        ({
            let left = sweep(orders, limit, size, side).left;
            &&& forall|id: OrderId| #[trigger]
                left.contains_key(id) ==> orders.contains_key(id) && left[id].size
                    <= orders[id].size && left[id] == (Order { size: left[id].size, ..orders[id] })
            &&& forall|a: OrderId, b: OrderId| #[trigger]
                left.contains_key(a) && #[trigger] orders.contains_key(b) && id_before(a, b)
                    ==> left.contains_key(b) && left[b] == orders[b]
        }),
    decreases orders.len(),
{
    if let Some(id) = first_id(orders) {
        assert(is_first_id(orders, id));
        let order = orders[id];
        let left = sweep(orders, limit, size, side).left;
        if size != 0 && crosses(order, limit, side) && orders.dom().finite() && order.size <= size {
            let rest = orders.remove(id);
            law_take_keeps_the_line(rest, limit, (size - order.size) as u64, side);
            assert(left == sweep(rest, limit, (size - order.size) as u64, side).left);
            assert forall|a: OrderId, b: OrderId| #[trigger]
                left.contains_key(a) && #[trigger] orders.contains_key(b) && id_before(
                    a,
                    b,
                ) implies left.contains_key(b) && left[b] == orders[b] by {
                assert(rest.contains_key(a) && orders.contains_key(a));
                assert(rest.contains_key(b));
            }
        }
    }
}

/// A take leaves the taker's own side of the book alone: what is not filled does not rest there.
pub proof fn law_take_rests_nothing(
    m: Market,
    taker: [u8; 32],
    limit: u64,
    size: u64,
    side: u64,
)
    ensures
        orders_on(taken(m, taker, limit, size, side), side) == orders_on(m, side),
        taken(m, taker, limit, size, side).queue == m.queue,
{
}

/// The market with an order on one side of the book cancelled is otherwise as it was, and the
/// order is gone.
pub proof fn law_cancelled_order_is_gone(m: Market, q: QueuedInstruction)
    ensures
        orders_on(cancelled(m, q), q.side) == orders_on(m, q.side).remove(
            id_on(q.side, q.price, q.order_seq),
        ),
        orders_on(cancelled(m, q), opposite(q.side)) == orders_on(m, opposite(q.side)),
        cancelled(m, q).accounts.positions == m.accounts.positions,
        cancelled(m, q).queue == m.queue,
{
    assert(orders_on(cancelled(m, q), q.side) =~= orders_on(m, q.side).remove(
        id_on(q.side, q.price, q.order_seq),
    ));
}

/// A take that comes after the cancel of the only order within its limit finds nothing to fill and
/// changes nothing.
pub proof fn law_take_after_cancel_finds_nothing(
    m: Market,
    cancel: QueuedInstruction,
    taker: [u8; 32],
    limit: u64,
    size: u64,
    side: u64,
)
    requires
        cancel.side == 0 <==> side != 0,
        forall|id: OrderId| #[trigger]
            facing(m, side).contains_key(id) && id != id_on(
                cancel.side,
                cancel.price,
                cancel.order_seq,
            ) ==> !crosses(facing(m, side)[id], limit, side),
    ensures
        fills_of(cancelled(m, cancel), limit, size, side) == Seq::<Fill>::empty(),
        taken(cancelled(m, cancel), taker, limit, size, side) == cancelled(m, cancel),
{
    let after = cancelled(m, cancel);
    law_cancelled_order_is_gone(m, cancel);
    assert(facing(after, side) == orders_on(after, cancel.side));
    assert forall|id: OrderId| #[trigger] facing(after, side).contains_key(id) implies !crosses(
        facing(after, side)[id],
        limit,
        side,
    ) by {
        assert(facing(m, side).contains_key(id));
    }
    law_nothing_crosses_nothing_fills(facing(after, side), limit, size, side);
    assert(taken(after, taker, limit, size, side) =~= after);
}

/// The margin that is reserved for an order comes back as its parts are filled or cancelled: for two
/// parts the whole of it, or one less where a tenth of each is rounded down.
pub proof fn law_reserved_margin_comes_back(price: u64, part: u64, rest: u64)
    requires
        price * (part + rest) <= u64::MAX,
        part + rest <= u64::MAX,
    ensures
        margin_for(price, part) + margin_for(price, rest) <= margin_for(
            price,
            (part + rest) as u64,
        ) <= margin_for(price, part) + margin_for(price, rest) + 1,
{
    let (p, a, b) = (price as int, part as int, rest as int);
    assert(p * (a + b) == p * a + p * b && p * a >= 0 && p * b >= 0) by (nonlinear_arith)
        requires
            p >= 0,
            a >= 0,
            b >= 0,
    ;
}

/// A new order that is placed and then cancelled by its owner leaves the market as it was: the
/// margin that was reserved is returned.
pub proof fn law_place_then_cancel(m: Market, place: QueuedInstruction, cancel: QueuedInstruction)
    requires
        can_place(m, place),
        !orders_on(m, place.side).contains_key(
            id_on(place.side, place.price, place.order_seq),
        ),
        cancel.user == place.user,
        cancel.side == place.side,
        cancel.price == place.price,
        cancel.order_seq == place.order_seq,
    ensures
        cancelled(placed(m, place), cancel) == m,
{
    law_withdraw_then_deposit(
        m.accounts.margins,
        place.user,
        margin_for(place.price, place.size),
    );
    let after = cancelled(placed(m, place), cancel);
    assert(orders_on(after, place.side) =~= orders_on(m, place.side));
    assert(after =~= m);
}

} // verus!
