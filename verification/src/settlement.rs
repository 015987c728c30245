//! Fills, gains and losses, and liquidations.

use vstd::prelude::*;

use crate::orderbook::{first_id, Order, OrderId};
use crate::order_tree::is_first_id;
use crate::positions::{
    balance_of, blank_position, can_debit, counted, credited, debited, effective_margin, gain_at,
    not_against, notional, notional_of, position_claim, position_claimed, position_slot,
    required_margin, Position, UserMargin,
};
use crate::state::{Accounts, Market, PerpsState, MAINTENANCE_MARGIN_BPS};

verus! {

/// The balances after `user` closes a position at `price`: the gain is credited or the loss
/// debited, where that can be done.
pub open spec fn realized(
    margins: Seq<UserMargin>,
    user: [u8; 32],
    closed: Position,
    price: u64,
) -> Seq<UserMargin> {
    let pnl = counted(gain_at(closed, price));
    if not_against(closed, price) {
        credited(margins, user, pnl)
    } else {
        debited(margins, user, pnl)
    }
}

/// Adding `size` units at `price` to the position that `user` has stays within 64 bits.
pub open spec fn fill_fits(
    a: Accounts,
    user: [u8; 32],
    price: u64,
    size: u64,
    side: u64,
) -> bool {
    match position_claim(a.positions, user) {
        Some(i) => {
            let p = a.positions[i];
            p.size != 0 && p.side == side ==> p.entry_price * p.size + price * size <= u64::MAX
                && p.size + size <= u64::MAX
        },
        None => true,
    }
}

/// The position `p` after `size` units at `price` on `side`.
pub open spec fn position_after(p: Position, price: u64, size: u64, side: u64) -> Position {
    if p.size == 0 {
        Position { entry_price: price, size, side, ..p }
    } else if p.side == side {
        Position {
            size: (p.size + size) as u64,
            entry_price: ((p.entry_price * p.size + price * size) / (p.size + size)) as u64,
            ..p
        }
    } else if size > p.size {
        Position { entry_price: price, size: (size - p.size) as u64, side, ..p }
    } else if size == p.size {
        blank_position()
    } else {
        Position { size: (p.size - size) as u64, ..p }
    }
}

/// The balances after `size` units at `price` on `side` reach the position `p` of `user`: what the
/// fill closes of it is realized.
pub open spec fn margins_after(
    margins: Seq<UserMargin>,
    user: [u8; 32],
    p: Position,
    price: u64,
    size: u64,
    side: u64,
) -> Seq<UserMargin> {
    if p.size == 0 || p.side == side {
        margins
    } else if size >= p.size {
        realized(margins, user, p, price)
    } else {
        realized(margins, user, Position { size, ..p }, price)
    }
}

/// The accounts after `user` receives `size` units at `price` on `side`. Without a slot for
/// `user` nothing changes.
pub open spec fn filled(
    a: Accounts,
    user: [u8; 32],
    price: u64,
    size: u64,
    side: u64,
) -> Accounts {
    match position_claim(a.positions, user) {
        Some(i) => {
            let positions = position_claimed(a.positions, user);
            Accounts {
                margins: margins_after(a.margins, user, positions[i], price, size, side),
                positions: positions.update(i, position_after(positions[i], price, size, side)),
            }
        },
        None => a,
    }
}

/// The margin behind `size` units at `price`: 10% of their value.
pub open spec fn margin_for(price: u64, size: u64) -> u64 {
    notional_of(price, size) / 10
}

/// The side that trades with `side`.
pub open spec fn opposite(side: u64) -> u64 {
    if side == 0 {
        1
    } else {
        0
    }
}

/// A trade with a resting order.
pub struct Fill {
    pub maker: [u8; 32],
    pub price: u64,
    pub size: u64,
}

/// The accounts once the taker has put up the margin and received the units.
pub open spec fn taker_settled(a: Accounts, taker: [u8; 32], fill: Fill, side: u64) -> Accounts {
    let paid = Accounts {
        margins: debited(a.margins, taker, margin_for(fill.price, fill.size)),
        ..a
    };
    filled(paid, taker, fill.price, fill.size, side)
}

/// The accounts after a fill. A taker who cannot put up the margin gets nothing, and nobody else
/// does. Otherwise the maker takes the opposite side and is credited the margin.
pub open spec fn settled(a: Accounts, taker: [u8; 32], fill: Fill, side: u64) -> Accounts {
    let margin = margin_for(fill.price, fill.size);
    if can_debit(a.margins, taker, margin) {
        let traded = filled(
            taker_settled(a, taker, fill, side),
            fill.maker,
            fill.price,
            fill.size,
            opposite(side),
        );
        Accounts { margins: credited(traded.margins, fill.maker, margin), ..traded }
    } else {
        a
    }
}

/// Settling a fill stays within 64 bits.
pub open spec fn settle_fits(a: Accounts, taker: [u8; 32], fill: Fill, side: u64) -> bool {
    let margin = margin_for(fill.price, fill.size);
    let paid = Accounts { margins: debited(a.margins, taker, margin), ..a };
    can_debit(a.margins, taker, margin) ==> {
        &&& fill_fits(paid, taker, fill.price, fill.size, side)
        &&& fill_fits(
            taker_settled(a, taker, fill, side),
            fill.maker,
            fill.price,
            fill.size,
            opposite(side),
        )
    }
}

/// The accounts are all that differs between two states.
pub open spec fn same_but_accounts(a: PerpsState, b: PerpsState) -> bool {
    &&& a.seq == b.seq
    &&& a.oracle_price == b.oracle_price
    &&& a.funding_rate == b.funding_rate
    &&& a.last_funding_slot == b.last_funding_slot
    &&& a.orderbook == b.orderbook
    &&& a.async_queue == b.async_queue
}

/// The accounts and the book are all that differs between two states, and the book is as well in
/// order in `b` as in `a`.
pub open spec fn same_but_trading(a: PerpsState, b: PerpsState) -> bool {
    &&& a.seq == b.seq
    &&& a.oracle_price == b.oracle_price
    &&& a.funding_rate == b.funding_rate
    &&& a.last_funding_slot == b.last_funding_slot
    &&& a.async_queue == b.async_queue
    &&& b.orderbook.ready()
    &&& a.orderbook.wf() ==> b.orderbook.wf()
}

/// Realizes a gain or a loss: credits or debits the user's margin.
pub fn realize_pnl(
    state: &mut PerpsState,
    user: &[u8; 32],
    entry_price: u64,
    exit_price: u64,
    size: u64,
    side: u64,
)
    ensures
        same_but_accounts(*old(state), *final(state)),
        final(state).positions == old(state).positions,
        final(state).margins.users@ == realized(
            old(state).margins.users@,
            *user,
            (Position { owner: *user, size, entry_price, side, is_active: 1 }),
            exit_price,
        ),
{
    let pos = Position { owner: *user, size, entry_price, side, is_active: 1 };
    let (pnl, is_positive) = pos.unrealized_pnl(exit_price);
    if is_positive {
        let _ = state.margins.credit(user, pnl);
    } else {
        let _ = state.margins.debit(user, pnl);
    }
}

/// Updates a user's position after a fill: a new one, an addition, a reduction or a flip. Gives
/// whether the numbers fit.
pub fn update_position(
    state: &mut PerpsState,
    user: &[u8; 32],
    fill_price: u64,
    fill_size: u64,
    fill_side: u64,
) -> (fits: bool)
    ensures
        fits == fill_fits(old(state)@.accounts, *user, fill_price, fill_size, fill_side),
        same_but_accounts(*old(state), *final(state)),
        fits ==> final(state)@.accounts == filled(
            old(state)@.accounts,
            *user,
            fill_price,
            fill_size,
            fill_side,
        ),
{
    let idx: usize = match state.positions.find_or_alloc(user) {
        Some(idx) => idx,
        None => {
            return true;
        },
    };
    let pos = state.positions.positions[idx];
    if pos.size == 0 {
        state.positions.positions[idx] =
        Position { entry_price: fill_price, size: fill_size, side: fill_side, ..pos };
    } else if pos.side == fill_side {
        let ghost held = pos.entry_price * pos.size;
        let ghost added = fill_price * fill_size;
        assert(held >= 0 && added >= 0) by (nonlinear_arith)
            requires
                held == pos.entry_price * pos.size,
                added == fill_price * fill_size,
        ;
        let held_notional: u64 = match pos.entry_price.checked_mul(pos.size) {
            Some(n) => n,
            None => {
                return false;
            },
        };
        let fill_notional: u64 = match fill_price.checked_mul(fill_size) {
            Some(n) => n,
            None => {
                return false;
            },
        };
        let total_notional: u64 = match held_notional.checked_add(fill_notional) {
            Some(n) => n,
            None => {
                return false;
            },
        };
        let new_size: u64 = match pos.size.checked_add(fill_size) {
            Some(n) => n,
            None => {
                return false;
            },
        };
        state.positions.positions[idx] =
        Position { size: new_size, entry_price: total_notional / new_size, ..pos };
    } else if fill_size >= pos.size {
        let close_size: u64 = pos.size;
        realize_pnl(state, user, pos.entry_price, fill_price, close_size, pos.side);
        let remaining: u64 = fill_size - close_size;
        if remaining > 0 {
            state.positions.positions[idx] =
            Position { entry_price: fill_price, size: remaining, side: fill_side, ..pos };
        } else {
            state.positions.close(idx);
        }
    } else {
        realize_pnl(state, user, pos.entry_price, fill_price, fill_size, pos.side);
        state.positions.positions[idx] = Position { size: pos.size - fill_size, ..pos };
    }
    proof {
        let after = filled(old(state)@.accounts, *user, fill_price, fill_size, fill_side);
        assert(state@.accounts.margins =~= after.margins);
        assert(state@.accounts.positions =~= after.positions);
    }
    true
}

/// Settles a single fill: margin, then the positions of taker and maker. Gives whether the
/// numbers fit.
pub fn settle_fill(
    state: &mut PerpsState,
    maker: &[u8; 32],
    taker: &[u8; 32],
    fill_price: u64,
    fill_size: u64,
    taker_side: u64,
) -> (fits: bool)
    ensures
        fits == settle_fits(
            old(state)@.accounts,
            *taker,
            (Fill { maker: *maker, price: fill_price, size: fill_size }),
            taker_side,
        ),
        same_but_accounts(*old(state), *final(state)),
        fits ==> final(state)@.accounts == settled(
            old(state)@.accounts,
            *taker,
            (Fill { maker: *maker, price: fill_price, size: fill_size }),
            taker_side,
        ),
{
    let margin_required: u64 = notional(fill_price, fill_size) / 10;
    if state.margins.debit(taker, margin_required).is_none() {
        return true;
    }
    if !update_position(state, taker, fill_price, fill_size, taker_side) {
        return false;
    }
    let maker_side: u64 = if taker_side == 0 {
        1
    } else {
        0
    };
    if !update_position(state, maker, fill_price, fill_size, maker_side) {
        return false;
    }
    let _ = state.margins.credit(maker, margin_required);
    true
}

/// The order may trade with a taker on `side` whose limit is `limit`.
pub open spec fn crosses(order: Order, limit: u64, side: u64) -> bool {
    if side == 0 {
        order.price <= limit
    } else {
        order.price >= limit
    }
}

/// What a taker's order does to one side of the book.
#[verifier::ext_equal]
pub struct Sweep {
    pub fills: Seq<Fill>,
    pub left: Map<OrderId, Order>,
}

/// Trades up to `size` units with the orders in line, from the first on, as long as the price is
/// within the limit. An order that is used up leaves the book.
pub open spec fn sweep(orders: Map<OrderId, Order>, limit: u64, size: u64, side: u64) -> Sweep
    decreases orders.len(),
{
    match first_id(orders) {
        Some(id) => {
            let order = orders[id];
            if size == 0 || !crosses(order, limit, side) || !orders.dom().finite() {
                Sweep { fills: Seq::empty(), left: orders }
            } else if order.size <= size {
                proof {
                    assert(is_first_id(orders, id));
                }
                let rest = sweep(orders.remove(id), limit, (size - order.size) as u64, side);
                let fill = Fill { maker: order.owner, price: order.price, size: order.size };
                Sweep { fills: seq![fill] + rest.fills, left: rest.left }
            } else {
                Sweep {
                    fills: seq![Fill { maker: order.owner, price: order.price, size }],
                    left: orders.insert(
                        id,
                        Order { size: (order.size - size) as u64, ..order },
                    ),
                }
            }
        },
        None => Sweep { fills: Seq::empty(), left: orders },
    }
}

/// The units in a sequence of fills.
pub open spec fn units(fills: Seq<Fill>) -> int
    decreases fills.len(),
{
    if fills.len() == 0 {
        0
    } else {
        fills[0].size + units(fills.skip(1))
    }
}

/// The accounts after a sequence of fills, settled one by one.
pub open spec fn all_settled(
    a: Accounts,
    taker: [u8; 32],
    fills: Seq<Fill>,
    side: u64,
) -> Accounts
    decreases fills.len(),
{
    if fills.len() == 0 {
        a
    } else {
        all_settled(settled(a, taker, fills[0], side), taker, fills.skip(1), side)
    }
}

/// Settling a sequence of fills stays within 64 bits.
pub open spec fn all_fit(a: Accounts, taker: [u8; 32], fills: Seq<Fill>, side: u64) -> bool
    decreases fills.len(),
{
    fills.len() > 0 ==> settle_fits(a, taker, fills[0], side) && all_fit(
        settled(a, taker, fills[0], side),
        taker,
        fills.skip(1),
        side,
    )
}

/// The side of the book that a taker on `side` trades with.
pub open spec fn facing(m: Market, side: u64) -> Map<OrderId, Order> {
    if side == 0 {
        m.asks
    } else {
        m.bids
    }
}

/// The fills that a taker gets.
pub open spec fn fills_of(m: Market, limit: u64, size: u64, side: u64) -> Seq<Fill> {
    sweep(facing(m, side), limit, size, side).fills
}

/// The market after a take.
pub open spec fn taken(m: Market, taker: [u8; 32], limit: u64, size: u64, side: u64) -> Market {
    let swept = sweep(facing(m, side), limit, size, side);
    Market {
        accounts: all_settled(m.accounts, taker, swept.fills, side),
        bids: if side == 0 {
            m.bids
        } else {
            swept.left
        },
        asks: if side == 0 {
            swept.left
        } else {
            m.asks
        },
        ..m
    }
}

/// A take stays within 64 bits.
pub open spec fn take_fits(m: Market, taker: [u8; 32], limit: u64, size: u64, side: u64) -> bool {
    all_fit(m.accounts, taker, fills_of(m, limit, size, side), side)
}

/// One more fill in front of a sequence of fills.
proof fn lemma_fill_first(a: Accounts, taker: [u8; 32], fill: Fill, rest: Seq<Fill>, side: u64)
    ensures
        units(seq![fill] + rest) == fill.size + units(rest),
        all_settled(a, taker, seq![fill] + rest, side) == all_settled(
            settled(a, taker, fill, side),
            taker,
            rest,
            side,
        ),
        all_fit(a, taker, seq![fill] + rest, side) == (settle_fits(a, taker, fill, side)
            && all_fit(settled(a, taker, fill, side), taker, rest, side)),
{
    assert((seq![fill] + rest).skip(1) =~= rest);
}

/// Two ways to go on that end alike: the same orders left, the same accounts.
spec fn same_outcome(
    a: Accounts,
    a_sweep: Sweep,
    b: Accounts,
    b_sweep: Sweep,
    taker: [u8; 32],
    side: u64,
) -> bool {
    &&& a_sweep.left == b_sweep.left
    &&& all_settled(a, taker, a_sweep.fills, side) == all_settled(b, taker, b_sweep.fills, side)
    &&& all_fit(a, taker, a_sweep.fills, side) == all_fit(b, taker, b_sweep.fills, side)
}

/// Executes a take against the book: side 0 buys from the asks, any other sells to the bids.
/// Gives the number of units filled, or `None` where the numbers of a position do not fit.
pub fn checked_execute_take(
    state: &mut PerpsState,
    taker: &[u8; 32],
    limit_price: u64,
    size: u64,
    side: u64,
) -> (filled: Option<u64>)
    requires
        old(state).orderbook.ready(),
    ensures
        same_but_trading(*old(state), *final(state)),
        filled is Some <==> take_fits(old(state)@, *taker, limit_price, size, side),
        filled matches Some(n) ==> n == units(fills_of(old(state)@, limit_price, size, side))
            && final(state)@ == taken(old(state)@, *taker, limit_price, size, side),
{
    let mut size_left: u64 = size;
    let mut total_filled: u64 = 0;
    let ghost before = state@;
    let ghost all = sweep(facing(before, side), limit_price, size, side);
    if side == 0 {
        while size_left > 0
            invariant
                side == 0,
                same_but_trading(*old(state), *state),
                before == old(state)@,
                all == sweep(before.asks, limit_price, size, side),
                total_filled + size_left == size,
                state@ == (Market { accounts: state@.accounts, asks: state@.asks, ..before }),
                same_outcome(
                    before.accounts,
                    all,
                    state@.accounts,
                    sweep(state@.asks, limit_price, size_left, side),
                    *taker,
                    side,
                ),
                total_filled + units(sweep(state@.asks, limit_price, size_left, side).fills) == units(
                    all.fills,
                ),
            ensures
                sweep(state@.asks, limit_price, size_left, side).fills =~= Seq::<Fill>::empty(),
                sweep(state@.asks, limit_price, size_left, side).left == state@.asks,
            decreases state@.asks.len(), size_left,
        {
            let (best_key, best_order) = match state.orderbook.best_ask() {
                Some(best) => best,
                None => {
                    break ;
                },
            };
            if best_order.price > limit_price {
                break ;
            }
            let fill_size: u64 = if size_left < best_order.size {
                size_left
            } else {
                best_order.size
            };
            proof {
                lemma_fill_first(
                    state@.accounts,
                    *taker,
                    Fill { maker: best_order.owner, price: best_order.price, size: fill_size },
                    if best_order.size <= size_left {
                        sweep(
                            state@.asks.remove(best_key),
                            limit_price,
                            (size_left - best_order.size) as u64,
                            side,
                        ).fills
                    } else {
                        Seq::empty()
                    },
                    side,
                );
            }
            if fill_size == best_order.size {
                state.orderbook.asks.remove(&best_key);
            } else {
                state.orderbook.asks.set_size(&best_key, best_order.size - fill_size);
            }
            if !settle_fill(state, &best_order.owner, taker, best_order.price, fill_size, side) {
                return None;
            }
            size_left = size_left - fill_size;
            total_filled = total_filled + fill_size;
        }
    } else {
        while size_left > 0
            invariant
                side != 0,
                same_but_trading(*old(state), *state),
                before == old(state)@,
                all == sweep(before.bids, limit_price, size, side),
                total_filled + size_left == size,
                state@ == (Market { accounts: state@.accounts, bids: state@.bids, ..before }),
                same_outcome(
                    before.accounts,
                    all,
                    state@.accounts,
                    sweep(state@.bids, limit_price, size_left, side),
                    *taker,
                    side,
                ),
                total_filled + units(sweep(state@.bids, limit_price, size_left, side).fills) == units(
                    all.fills,
                ),
            ensures
                sweep(state@.bids, limit_price, size_left, side).fills =~= Seq::<Fill>::empty(),
                sweep(state@.bids, limit_price, size_left, side).left == state@.bids,
            decreases state@.bids.len(), size_left,
        {
            let (best_key, best_order) = match state.orderbook.best_bid() {
                Some(best) => best,
                None => {
                    break ;
                },
            };
            if best_order.price < limit_price {
                break ;
            }
            let fill_size: u64 = if size_left < best_order.size {
                size_left
            } else {
                best_order.size
            };
            proof {
                lemma_fill_first(
                    state@.accounts,
                    *taker,
                    Fill { maker: best_order.owner, price: best_order.price, size: fill_size },
                    if best_order.size <= size_left {
                        sweep(
                            state@.bids.remove(best_key),
                            limit_price,
                            (size_left - best_order.size) as u64,
                            side,
                        ).fills
                    } else {
                        Seq::empty()
                    },
                    side,
                );
            }
            if fill_size == best_order.size {
                state.orderbook.bids.remove(&best_key);
            } else {
                state.orderbook.bids.set_size(&best_key, best_order.size - fill_size);
            }
            if !settle_fill(state, &best_order.owner, taker, best_order.price, fill_size, side) {
                return None;
            }
            size_left = size_left - fill_size;
            total_filled = total_filled + fill_size;
        }
    }
    Some(total_filled)
}

/// Executes a take against the book: side 0 buys from the asks, any other sells to the bids.
/// Gives the number of units filled.
pub fn execute_take(
    state: &mut PerpsState,
    taker: &[u8; 32],
    limit_price: u64,
    size: u64,
    side: u64,
) -> (filled: u64)
    requires
        old(state).orderbook.ready(),
        take_fits(old(state)@, *taker, limit_price, size, side),
    ensures
        same_but_trading(*old(state), *final(state)),
        filled == units(fills_of(old(state)@, limit_price, size, side)),
        final(state)@ == taken(old(state)@, *taker, limit_price, size, side),
{
    match checked_execute_take(state, taker, limit_price, size, side) {
        Some(filled) => filled,
        None => 0,
    }
}

/// The position of `target` may be liquidated: it is open, and the margin behind it is under what
/// it must keep at the oracle price.
pub open spec fn can_liquidate(m: Market, target: [u8; 32]) -> bool {
    match position_slot(m.accounts.positions, target) {
        Some(i) => {
            let p = m.accounts.positions[i];
            p.size != 0 && effective_margin(
                p,
                m.oracle_price,
                balance_of(m.accounts.margins, target),
            ) < required_margin(p, m.oracle_price, MAINTENANCE_MARGIN_BPS)
        },
        None => false,
    }
}

/// The balances after half of what `target` has left goes to `liquidator`.
pub open spec fn rewarded(
    margins: Seq<UserMargin>,
    target: [u8; 32],
    liquidator: [u8; 32],
) -> Seq<UserMargin> {
    let reward = balance_of(margins, target) / 2;
    if reward > 0 {
        credited(debited(margins, target, reward), liquidator, reward)
    } else {
        margins
    }
}

/// The market after a liquidation: the position is closed at the oracle price, and the liquidator
/// gets half of the margin that is left. Where it may not be, nothing changes.
pub open spec fn liquidated(m: Market, target: [u8; 32], liquidator: [u8; 32]) -> Market {
    if can_liquidate(m, target) {
        let i = position_slot(m.accounts.positions, target)->Some_0;
        let closed = realized(m.accounts.margins, target, m.accounts.positions[i], m.oracle_price);
        Market {
            accounts: Accounts {
                margins: rewarded(closed, target, liquidator),
                positions: m.accounts.positions.update(i, blank_position()),
            },
            ..m
        }
    } else {
        m
    }
}

/// Executes a liquidation. Gives whether the position was liquidated.
pub fn execute_liquidation(
    state: &mut PerpsState,
    target: &[u8; 32],
    liquidator: &[u8; 32],
) -> (done: bool)
    ensures
        same_but_accounts(*old(state), *final(state)),
        done == can_liquidate(old(state)@, *target),
        final(state)@ == liquidated(old(state)@, *target, *liquidator),
{
    let idx: usize = match state.positions.find(target) {
        Some(idx) => idx,
        None => {
            return false;
        },
    };
    let pos = state.positions.positions[idx];
    let margin: u64 = state.margins.get_balance(target);
    if !pos.is_liquidatable(state.oracle_price, margin, MAINTENANCE_MARGIN_BPS) {
        return false;
    }
    let oracle_price: u64 = state.oracle_price;
    realize_pnl(state, target, pos.entry_price, oracle_price, pos.size, pos.side);
    state.positions.close(idx);
    let remaining: u64 = state.margins.get_balance(target);
    let reward: u64 = remaining / 2;
    if reward > 0 {
        let _ = state.margins.debit(target, reward);
        let _ = state.margins.credit(liquidator, reward);
    }
    true
}

} // verus!
