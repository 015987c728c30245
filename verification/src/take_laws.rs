//! What a take does to the orders in line and to their makers.

use vstd::prelude::*;
use vstd::seq_lib::*;

use crate::book_laws::{as_good, lemma_first_id_exists};
use crate::orderbook::{first_id, lemma_first_id, Order, OrderId};
use crate::order_tree::{id_before, is_first_id};
use crate::settlement::{all_fit, all_settled, fills_of, sweep, take_fits, taken, units, Fill};
use crate::state::Market;

verus! {

/// `line` holds the ids of the orders, each once, by price key and then by number.
pub open spec fn lines_up(orders: Map<OrderId, Order>, line: Seq<OrderId>) -> bool {
    &&& forall|id: OrderId| #[trigger] orders.contains_key(id) <==> line.contains(id)
    &&& forall|i: int, j: int|
        0 <= i < j < line.len() ==> (#[trigger] line[i]).price_key < (#[trigger] line[j]).price_key
            || (line[i].price_key == line[j].price_key && line[i].seq < line[j].seq)
}

/// The units that `owner` has in the orders with these ids.
pub open spec fn resting(orders: Map<OrderId, Order>, ids: Seq<OrderId>, owner: [u8; 32]) -> int
    decreases ids.len(),
{
    if ids.len() == 0 {
        0
    } else {
        resting(orders, ids.skip(1), owner) + if orders.contains_key(ids[0])
            && orders[ids[0]].owner == owner {
            orders[ids[0]].size as int
        } else {
            0
        }
    }
}

/// The units of the fills with `maker`.
pub open spec fn filled_from(fills: Seq<Fill>, maker: [u8; 32]) -> int
    decreases fills.len(),
{
    if fills.len() == 0 {
        0
    } else {
        filled_from(fills.skip(1), maker) + if fills[0].maker == maker {
            fills[0].size as int
        } else {
            0
        }
    }
}

/// Orders that line up are finitely many.
proof fn lemma_line_is_finite(orders: Map<OrderId, Order>, line: Seq<OrderId>)
    requires
        lines_up(orders, line),
    ensures
        orders.dom().finite(),
{
    assert(orders.dom() =~= line.to_set()) by {
        assert forall|id: OrderId| orders.dom().contains(id) <==> line.to_set().contains(id) by {
            assert(orders.contains_key(id) <==> line.contains(id));
        }
    }
    seq_to_set_is_finite(line);
}

/// The first in line is the first order, and the others line up behind it.
pub proof fn law_head_of_the_line(orders: Map<OrderId, Order>, line: Seq<OrderId>)
    requires
        lines_up(orders, line),
    ensures
        line.len() == 0 ==> first_id(orders) is None,
        line.len() > 0 ==> {
            &&& first_id(orders) == Some(line[0])
            &&& orders.contains_key(line[0])
            &&& !line.skip(1).contains(line[0])
            &&& lines_up(orders.remove(line[0]), line.skip(1))
        },
{
    if line.len() == 0 {
        if let Some(id) = first_id(orders) {
            assert(is_first_id(orders, id));
            assert(orders.contains_key(id));
        }
    } else {
        let id = line[0];
        let rest = line.skip(1);
        assert(line.contains(id));
        assert forall|other: OrderId| #[trigger]
            orders.contains_key(other) && other != id implies id_before(
            id,
            other,
        ) by {
            let j = line.index_of(other);
            assert(line[j] == other);
        }
        assert(is_first_id(orders, id));
        lemma_first_id(orders, id);
        assert forall|j: int| 0 <= j < rest.len() implies rest[j] != id by {
            assert(rest[j] == line[j + 1]);
        }
        assert forall|other: OrderId| #[trigger]
            orders.remove(id).contains_key(other) <==> rest.contains(other) by {
            if orders.remove(id).contains_key(other) {
                assert(orders.contains_key(other));
                let j = line.index_of(other);
                assert(rest[j - 1] == other);
            }
            if rest.contains(other) {
                let j = rest.index_of(other);
                assert(line[j + 1] == other);
                assert(line.contains(other));
                assert(orders.contains_key(other));
            }
        }
        assert forall|i: int, j: int|
            0 <= i < j < rest.len() implies (#[trigger] rest[i]).price_key < (
        #[trigger] rest[j]).price_key || (rest[i].price_key == rest[j].price_key && rest[i].seq
            < rest[j].seq) by {
            assert(rest[i] == line[i + 1] && rest[j] == line[j + 1]);
        }
    }
}

/// The orders of a side line up, since they are finitely many.
pub proof fn law_orders_line_up(orders: Map<OrderId, Order>) -> (line: Seq<OrderId>)
    requires
        orders.dom().finite(),
    ensures
        lines_up(orders, line),
    decreases orders.len(),
{
    if orders.dom().is_empty() {
        let line = Seq::<OrderId>::empty();
        assert forall|id: OrderId| #[trigger] orders.contains_key(id) <==> line.contains(id) by {
            assert(!orders.dom().contains(id));
        }
        line
    } else {
        lemma_first_id_exists(orders);
        let id = first_id(orders)->Some_0;
        let others = orders.remove(id);
        let rest = law_orders_line_up(others);
        let line = seq![id] + rest;
        assert forall|other: OrderId| #[trigger] orders.contains_key(other) <==> line.contains(
            other,
        ) by {
            if orders.contains_key(other) {
                if other == id {
                    assert(line[0] == other);
                } else {
                    assert(others.contains_key(other));
                    let j = rest.index_of(other);
                    assert(line[j + 1] == other);
                }
            }
            if line.contains(other) {
                let j = line.index_of(other);
                if j > 0 {
                    assert(rest[j - 1] == other);
                    assert(rest.contains(other));
                    assert(others.contains_key(other));
                }
            }
        }
        assert forall|i: int, j: int|
            0 <= i < j < line.len() implies (#[trigger] line[i]).price_key < (
        #[trigger] line[j]).price_key || (line[i].price_key == line[j].price_key && line[i].seq
            < line[j].seq) by {
            assert(line[j] == rest[j - 1]);
            assert(rest.contains(rest[j - 1]));
            assert(others.contains_key(line[j]));
            if i > 0 {
                assert(line[i] == rest[i - 1]);
            } else {
                assert(orders.contains_key(line[j]) && line[j] != id);
            }
        }
        line
    }
}

/// Fill number `k` is with order number `k` in line: its maker is the order's owner, its price the
/// order's price. Unless it is the last, it takes the whole order. An order that is filled whole is
/// not left; another is left with the units that it has over, and otherwise the same.
pub open spec fn fill_is_of(
    orders: Map<OrderId, Order>,
    left: Map<OrderId, Order>,
    line: Seq<OrderId>,
    fills: Seq<Fill>,
    k: int,
) -> bool {
    let order = orders[line[k]];
    &&& fills[k].maker == order.owner
    &&& fills[k].price == order.price
    &&& fills[k].size <= order.size
    &&& k + 1 < fills.len() ==> fills[k].size == order.size
    &&& fills[k].size == order.size <==> !left.contains_key(line[k])
    &&& left.contains_key(line[k]) ==> {
        let over = left[line[k]];
        &&& over.owner == order.owner
        &&& over.price == order.price
        &&& over.side == order.side
        &&& over.size + fills[k].size == order.size
    }
}

/// `fills` and `left` are what comes of a take that goes down the line.
pub open spec fn goes_down_the_line(
    orders: Map<OrderId, Order>,
    line: Seq<OrderId>,
    limit: u64,
    size: u64,
    side: u64,
    fills: Seq<Fill>,
    left: Map<OrderId, Order>,
) -> bool {
    let n = fills.len() as int;
    &&& n <= line.len()
    &&& units(fills) <= size
    &&& forall|k: int| 0 <= k < n ==> #[trigger] fill_is_of(orders, left, line, fills, k)
    &&& forall|k: int| 0 <= k < n ==> as_good((#[trigger] fills[k]).price, limit, side)
    &&& forall|k: int| 0 <= k < n ==> units(#[trigger] fills.take(k)) < size
    &&& forall|k: int|
        n <= k < line.len() ==> left.contains_key(#[trigger] line[k]) && left[line[k]]
            == orders[line[k]]
    &&& forall|id: OrderId| #[trigger] left.contains_key(id) ==> orders.contains_key(id)
    &&& n == line.len() || units(fills) == size || !as_good(orders[line[n]].price, limit, side)
}

/// A take goes down the line. Fill number `k` is with the order number `k` in line: its maker is
/// that order's owner, its price that order's price, within the limit. Every order but the last is
/// filled whole. What is filled whole leaves the book, the last order stays with the units that are
/// left of it, and the orders after it stay as they are. The take ends when it has its size, when
/// the line ends, or at the first order beyond the limit.
pub proof fn law_take_goes_down_the_line(
    orders: Map<OrderId, Order>,
    line: Seq<OrderId>,
    limit: u64,
    size: u64,
    side: u64,
)
    requires
        lines_up(orders, line),
    ensures
        goes_down_the_line(
            orders,
            line,
            limit,
            size,
            side,
            sweep(orders, limit, size, side).fills,
            sweep(orders, limit, size, side).left,
        ),
    decreases line.len(),
{
    lemma_line_is_finite(orders, line);
    law_head_of_the_line(orders, line);
    let fills = sweep(orders, limit, size, side).fills;
    let left = sweep(orders, limit, size, side).left;
    if line.len() > 0 {
        assert forall|k: int| 0 <= k < line.len() implies orders.contains_key(
            #[trigger] line[k],
        ) by {
            assert(line.contains(line[k]));
        }
        let id = line[0];
        let order = orders[id];
        if size != 0 && as_good(order.price, limit, side) {
            if order.size <= size {
                let rest_orders = orders.remove(id);
                let rest_line = line.skip(1);
                let less = (size - order.size) as u64;
                let rest = sweep(rest_orders, limit, less, side);
                let fill = Fill { maker: order.owner, price: order.price, size: order.size };
                law_take_goes_down_the_line(rest_orders, rest_line, limit, less, side);
                assert(fills =~= seq![fill] + rest.fills);
                assert(left == rest.left);
                assert(fills.skip(1) =~= rest.fills);
                assert forall|k: int| 1 <= k < line.len() implies #[trigger] line[k]
                    == rest_line[k - 1] && line[k] != id by {
                    assert(rest_line.contains(rest_line[k - 1]));
                }
                assert(!left.contains_key(id)) by {
                    assert(!rest_orders.contains_key(id));
                }
                assert(units(fills.take(0)) == 0);
                assert forall|k: int| 1 <= k < fills.len() implies #[trigger] fills[k]
                    == rest.fills[k - 1] && units(fills.take(k)) == order.size + units(
                    rest.fills.take(k - 1),
                ) by {
                    assert(fills.take(k).skip(1) =~= rest.fills.take(k - 1));
                }
                assert forall|k: int| 0 <= k < fills.len() implies #[trigger] fill_is_of(
                    orders,
                    left,
                    line,
                    fills,
                    k,
                ) by {
                    if k > 0 {
                        assert(fills[k] == rest.fills[k - 1]);
                        assert(line[k] == rest_line[k - 1]);
                        assert(rest_orders[line[k]] == orders[line[k]]);
                        assert(fill_is_of(rest_orders, left, rest_line, rest.fills, k - 1));
                    }
                }
                assert forall|k: int| fills.len() <= k < line.len() implies left.contains_key(
                    #[trigger] line[k],
                ) && left[line[k]] == orders[line[k]] by {
                    assert(line[k] == rest_line[k - 1]);
                }
                assert forall|k: int| 0 <= k < fills.len() implies units(#[trigger] fills.take(k))
                    < size by {
                    if k > 0 {
                        assert(fills[k] == rest.fills[k - 1]);
                        assert(units(rest.fills.take(k - 1)) < less);
                    }
                }
                let n = fills.len() as int;
                if n < line.len() {
                    assert(line[n] == rest_line[n - 1]);
                    assert(rest_orders[line[n]] == orders[line[n]]);
                }
                assert(units(fills) == order.size + units(rest.fills));
                assert forall|k: int| 0 <= k < n implies as_good(
                    (#[trigger] fills[k]).price,
                    limit,
                    side,
                ) by {
                    if k > 0 {
                        assert(fills[k] == rest.fills[k - 1]);
                    }
                }
            } else {
                assert(fills.take(0) =~= Seq::<Fill>::empty());
                assert(fills.skip(1) =~= Seq::<Fill>::empty());
                assert(units(fills.skip(1)) == 0);
                assert(units(fills.take(0)) == 0);
                assert(fill_is_of(orders, left, line, fills, 0));
                assert forall|k: int| 1 <= k < line.len() implies left.contains_key(
                    #[trigger] line[k],
                ) && left[line[k]] == orders[line[k]] by {
                    assert(line.skip(1)[k - 1] == line[k]);
                    assert(line.skip(1).contains(line[k]));
                }
            }
        }
    }
}

/// Two maps that agree on the ids have the same units resting there.
proof fn lemma_resting_same(
    a: Map<OrderId, Order>,
    b: Map<OrderId, Order>,
    ids: Seq<OrderId>,
    owner: [u8; 32],
)
    requires
        forall|k: int|
            0 <= k < ids.len() ==> a.contains_key(#[trigger] ids[k]) == b.contains_key(ids[k]) && (
            a.contains_key(ids[k]) ==> a[ids[k]] == b[ids[k]]),
    ensures
        resting(a, ids, owner) == resting(b, ids, owner),
    decreases ids.len(),
{
    if ids.len() > 0 {
        let rest = ids.skip(1);
        assert forall|k: int| 0 <= k < rest.len() implies a.contains_key(#[trigger] rest[k])
            == b.contains_key(rest[k]) && (a.contains_key(rest[k]) ==> a[rest[k]] == b[rest[k]]) by {
            assert(rest[k] == ids[k + 1]);
        }
        lemma_resting_same(a, b, rest, owner);
    }
}

/// Every maker is filled just what leaves their own orders: for every owner, the units that rest in
/// the book before a take less those that rest after it are the units of the fills with that maker.
pub proof fn law_makers_are_filled_from_their_orders(
    orders: Map<OrderId, Order>,
    line: Seq<OrderId>,
    limit: u64,
    size: u64,
    side: u64,
    owner: [u8; 32],
)
    requires
        lines_up(orders, line),
    ensures
        resting(orders, line, owner) - resting(
            sweep(orders, limit, size, side).left,
            line,
            owner,
        ) == filled_from(sweep(orders, limit, size, side).fills, owner),
    decreases line.len(),
{
    law_take_goes_down_the_line(orders, line, limit, size, side);
    lemma_line_is_finite(orders, line);
    law_head_of_the_line(orders, line);
    let swept = sweep(orders, limit, size, side);
    if line.len() > 0 {
        let id = line[0];
        let order = orders[id];
        let rest_line = line.skip(1);
        assert forall|k: int| 0 <= k < rest_line.len() implies #[trigger] rest_line[k] != id by {
            assert(rest_line.contains(rest_line[k]));
        }
        if size != 0 && as_good(order.price, limit, side) {
            assert(fill_is_of(orders, swept.left, line, swept.fills, 0));
            if order.size <= size {
                let rest_orders = orders.remove(id);
                let less = (size - order.size) as u64;
                law_makers_are_filled_from_their_orders(
                    rest_orders,
                    rest_line,
                    limit,
                    less,
                    side,
                    owner,
                );
                lemma_resting_same(orders, rest_orders, rest_line, owner);
                assert(swept.fills.skip(1) =~= sweep(rest_orders, limit, less, side).fills);
            } else {
                lemma_resting_same(orders, swept.left, rest_line, owner);
                assert(swept.fills.skip(1) =~= Seq::<Fill>::empty());
                assert(filled_from(swept.fills.skip(1), owner) == 0);
            }
        }
    }
}

/// A purchase meets the asks and a sale the bids. The book loses what is filled on that side and
/// keeps the other; the accounts are those after the fills, settled in turn between the taker and
/// the makers; and nothing else changes. It fits where its settlement does.
pub proof fn law_take(m: Market, taker: [u8; 32], limit: u64, size: u64, side: u64)
    ensures
        ({
            let after = taken(m, taker, limit, size, side);
            let swept = if side == 0 {
                sweep(m.asks, limit, size, side)
            } else {
                sweep(m.bids, limit, size, side)
            };
            &&& after.seq == m.seq
            &&& after.oracle_price == m.oracle_price
            &&& after.funding_rate == m.funding_rate
            &&& after.last_funding_slot == m.last_funding_slot
            &&& after.queue == m.queue
            &&& after.accounts == all_settled(m.accounts, taker, swept.fills, side)
            &&& side == 0 ==> after.asks == swept.left && after.bids == m.bids
            &&& side != 0 ==> after.bids == swept.left && after.asks == m.asks
            &&& fills_of(m, limit, size, side) == swept.fills
            &&& take_fits(m, taker, limit, size, side) == all_fit(
                m.accounts,
                taker,
                swept.fills,
                side,
            )
        }),
{
}

/// A take of the sum of two sizes trades as many units, and leaves the same orders, as a take of the
/// first size followed by one of the second.
pub proof fn law_take_in_two_parts(
    orders: Map<OrderId, Order>,
    line: Seq<OrderId>,
    limit: u64,
    first: u64,
    second: u64,
    side: u64,
)
    requires
        lines_up(orders, line),
        first + second <= u64::MAX,
    ensures
        ({
            let whole = sweep(orders, limit, (first + second) as u64, side);
            let part = sweep(orders, limit, first, side);
            let rest = sweep(part.left, limit, second, side);
            &&& units(whole.fills) == units(part.fills) + units(rest.fills)
            &&& whole.left == rest.left
        }),
    decreases line.len(),
{
    lemma_line_is_finite(orders, line);
    law_head_of_the_line(orders, line);
    let both = (first + second) as u64;
    let whole = sweep(orders, limit, both, side);
    let part = sweep(orders, limit, first, side);
    let rest = sweep(part.left, limit, second, side);
    assert(units(Seq::<Fill>::empty()) == 0);
    if line.len() > 0 {
        let id = line[0];
        let order = orders[id];
        let others = orders.remove(id);
        if as_good(order.price, limit, side) && both != 0 {
            if first == 0 {
                assert(part.left == orders);
            } else if order.size <= first {
                law_take_in_two_parts(
                    others,
                    line.skip(1),
                    limit,
                    (first - order.size) as u64,
                    second,
                    side,
                );
                assert(whole.fills.skip(1) =~= sweep(
                    others,
                    limit,
                    (both - order.size) as u64,
                    side,
                ).fills);
                assert(part.fills.skip(1) =~= sweep(
                    others,
                    limit,
                    (first - order.size) as u64,
                    side,
                ).fills);
            } else {
                let smaller = Order { size: (order.size - first) as u64, ..order };
                assert(part.left == orders.insert(id, smaller));
                assert(part.fills.skip(1) =~= Seq::<Fill>::empty());
                assert forall|other: OrderId| #[trigger]
                    part.left.contains_key(other) && other
                        != id implies id_before(id, other) by {
                    assert(orders.contains_key(other));
                    assert(is_first_id(orders, id));
                }
                assert(is_first_id(part.left, id));
                lemma_first_id(part.left, id);
                assert(part.left.remove(id) =~= others);
                if second == 0 {
                } else if order.size <= both {
                    assert((second - smaller.size) as u64 == (both - order.size) as u64);
                    assert(whole.fills.skip(1) =~= sweep(
                        others,
                        limit,
                        (both - order.size) as u64,
                        side,
                    ).fills);
                    assert(rest.fills.skip(1) =~= sweep(
                        others,
                        limit,
                        (both - order.size) as u64,
                        side,
                    ).fills);
                } else {
                    assert(whole.fills.skip(1) =~= Seq::<Fill>::empty());
                    assert(rest.fills.skip(1) =~= Seq::<Fill>::empty());
                }
            }
        }
    }
}

} // verus!
