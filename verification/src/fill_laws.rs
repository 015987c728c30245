//! What a fill, its settlement and a liquidation do to the accounts.

use vstd::prelude::*;

use crate::margin_laws::{empty_margins_blank, law_credit, law_debit};
use crate::positions::{
    balance_of, blank_position, can_credit, can_debit, counted, credited, debited,
    effective_margin, empty_margin, gain_at, margin_of, margin_slot, not_against, notional_of,
    position_claim, position_claimed, required_margin, Position, UserMargin,
};
use crate::settlement::{
    all_fit, all_settled, can_liquidate, fill_fits, filled, liquidated, margin_for, realized,
    settle_fits, settled, units, Fill,
};
use crate::slots::{first_where, lemma_first_exists, lemma_first_is, lemma_first_unmoved};
use crate::state::{Accounts, Market, MAINTENANCE_MARGIN_BPS};
use crate::table_laws::{
    lacks_position, law_balance_is_in_the_slot, law_owner_has_a_slot_or_none,
    law_position_is_claimed, lemma_lacks_position, lemma_owns_position, next_position, owns_margin,
    owns_position, position_set,
};

verus! {

/// What `units` bought (side 0) or sold (any other side) at `entry` gain when they are closed at
/// `exit`: negative for a loss.
pub open spec fn profit(side: u64, entry: u64, exit: u64, units: u64) -> int {
    if side == 0 {
        exit * units - entry * units
    } else {
        entry * units - exit * units
    }
}

/// The number that a balance becomes by a change: itself where the result is no number of 64 bits.
pub open spec fn moved_by(balance: u64, change: int) -> int {
    if 0 <= balance + change <= u64::MAX {
        balance + change
    } else {
        balance as int
    }
}

/// The balances once `units` of `user` are closed: a price that did not move against them is
/// credited, one that did is debited. A difference beyond 64 bits counts as nothing.
pub open spec fn booked(
    margins: Seq<UserMargin>,
    user: [u8; 32],
    side: u64,
    entry: u64,
    exit: u64,
    units: u64,
) -> Seq<UserMargin> {
    let gain = profit(side, entry, exit, units);
    let loss = profit(side, exit, entry, units);
    if (side == 0 && exit >= entry) || (side != 0 && exit <= entry) {
        credited(
            margins,
            user,
            if gain <= u64::MAX {
                gain as u64
            } else {
                0
            },
        )
    } else {
        debited(
            margins,
            user,
            if loss <= u64::MAX {
                loss as u64
            } else {
                0
            },
        )
    }
}

/// Slot `i` is the position that `user` has, or the first empty one for a user without.
pub open spec fn seat(positions: Seq<Position>, user: [u8; 32], i: int) -> bool {
    owns_position(positions, user, i) || (lacks_position(positions, user) && next_position(
        positions,
        i,
    ))
}

/// The seat is what a user claims.
proof fn lemma_seat(positions: Seq<Position>, user: [u8; 32], i: int)
    requires
        seat(positions, user, i),
    ensures
        position_claim(positions, user) == Some(i),
        position_claimed(positions, user)[i] == (Position {
            owner: user,
            is_active: 1,
            ..positions[i]
        }),
        position_claimed(positions, user).len() == positions.len(),
        forall|j: int|
            0 <= j < positions.len() && j != i ==> #[trigger] position_claimed(positions, user)[j]
                == positions[j],
{
    law_position_is_claimed(positions, user, i);
}

/// A product of a difference is the difference of the products.
proof fn lemma_difference(x: u64, y: u64, n: u64)
    ensures
        (x - y) * n == x * n - y * n,
        (y - x) * n == y * n - x * n,
        x >= y ==> x * n >= y * n,
        x <= y ==> x * n <= y * n,
{
    assert((x - y) * n == x * n - y * n) by (nonlinear_arith);
    assert((y - x) * n == y * n - x * n) by (nonlinear_arith);
    assert(x >= y ==> x * n >= y * n) by (nonlinear_arith);
    assert(x <= y ==> x * n <= y * n) by (nonlinear_arith);
}

/// The gain or loss of a position at a price is what its units are worth more or less than they
/// were at the entry price; beyond 64 bits it counts as nothing. It is a gain just where the price
/// has not moved against the position.
pub proof fn law_pnl(p: Position, price: u64)
    ensures
        gain_at(p, price) == profit(p.side, p.entry_price, price, p.size),
        not_against(p, price) <==> (p.side == 0 && price >= p.entry_price) || (p.side != 0 && price
            <= p.entry_price),
        -u64::MAX <= profit(p.side, p.entry_price, price, p.size) <= u64::MAX ==> counted(
            gain_at(p, price),
        ) == if not_against(p, price) {
            profit(p.side, p.entry_price, price, p.size)
        } else {
            -profit(p.side, p.entry_price, price, p.size)
        },
        !(-u64::MAX <= profit(p.side, p.entry_price, price, p.size) <= u64::MAX) ==> counted(
            gain_at(p, price),
        ) == 0,
{
    lemma_difference(price, p.entry_price, p.size);
}

/// The value of units is their number times the price, or the largest number where that exceeds 64
/// bits; the margin behind them is a tenth of it, rounded down.
pub proof fn law_margin_is_a_tenth(price: u64, size: u64)
    ensures
        price * size <= u64::MAX ==> notional_of(price, size) == price * size && 10 * margin_for(
            price,
            size,
        ) <= price * size < 10 * margin_for(price, size) + 10,
        price * size > u64::MAX ==> notional_of(price, size) == u64::MAX && margin_for(price, size)
            == u64::MAX / 10,
{
    assert(price * size >= 0) by (nonlinear_arith)
        requires
            price >= 0,
            size >= 0,
    ;
}

/// Closing units books their gain or loss.
pub proof fn law_closing_books_the_pnl(
    margins: Seq<UserMargin>,
    user: [u8; 32],
    closed: Position,
    price: u64,
)
    ensures
        realized(margins, user, closed, price) == booked(
            margins,
            user,
            closed.side,
            closed.entry_price,
            price,
            closed.size,
        ),
{
    lemma_difference(price, closed.entry_price, closed.size);
}

/// Booking moves the user's balance by the gain or loss, where the result is a number of 64 bits,
/// and nobody else's.
pub proof fn law_booking_moves_the_balance(
    margins: Seq<UserMargin>,
    user: [u8; 32],
    side: u64,
    entry: u64,
    exit: u64,
    units: u64,
)
    requires
        margin_slot(margins, user) is Some || (empty_margins_blank(margins) && exists|k: int|
            0 <= k < margins.len() && (#[trigger] margins[k]).is_active == 0),
    ensures
        balance_of(booked(margins, user, side, entry, exit, units), user) == moved_by(
            balance_of(margins, user),
            profit(side, entry, exit, units),
        ),
        forall|other: [u8; 32]|
            other != user ==> #[trigger] balance_of(
                booked(margins, user, side, entry, exit, units),
                other,
            ) == balance_of(margins, other),
{
    lemma_difference(exit, entry, units);
    let gain = profit(side, entry, exit, units);
    let loss = profit(side, exit, entry, units);
    assert(loss == -gain);
    let up = if gain <= u64::MAX {
        gain as u64
    } else {
        0
    };
    let down = if loss <= u64::MAX {
        loss as u64
    } else {
        0
    };
    law_owner_has_a_slot_or_none(margins, user);
    law_balance_is_in_the_slot(margins, user);
    lemma_first_is(margins, empty_margin());
    if margin_slot(margins, user) is None {
        let k = choose|k: int|
            0 <= k < margins.len() && (#[trigger] margins[k]).is_active == 0;
        lemma_first_exists(margins, empty_margin(), k);
        let e = first_where(margins, empty_margin())->Some_0;
        assert(margins[e].balance == 0);
    }
    law_credit(margins, user, up);
    law_debit(margins, user, down);
}

/// What a fill does to a position. One without units is opened at the price of the fill. One on the
/// side of the fill grows, at the average price. One on another side shrinks by the units of the
/// fill; when they are all of its units its slot is freed, and what goes beyond them opens a
/// position on the side of the fill. The units that are closed are booked, and nothing else changes.
pub proof fn law_fill(
    a: Accounts,
    user: [u8; 32],
    price: u64,
    size: u64,
    side: u64,
    i: int,
)
    requires
        seat(a.positions, user, i),
        fill_fits(a, user, price, size, side),
    ensures
        ({
            let after = filled(a, user, price, size, side);
            let p = a.positions[i];
            let q = after.positions[i];
            &&& position_set(a.positions, after.positions, i, q)
            &&& p.size == 0 ==> {
                &&& q == (Position { owner: user, size, entry_price: price, side, is_active: 1 })
                &&& after.margins == a.margins
            }
            &&& p.size != 0 && p.side == side ==> {
                &&& q.size == p.size + size
                &&& q.entry_price * q.size <= p.entry_price * p.size + price * size
                &&& p.entry_price * p.size + price * size < (q.entry_price + 1) * q.size
                &&& q.side == side
                &&& q.owner == user
                &&& q.is_active == 1
                &&& after.margins == a.margins
            }
            &&& p.size != 0 && p.side != side && size < p.size ==> {
                &&& q.size + size == p.size
                &&& q.entry_price == p.entry_price
                &&& q.side == p.side
                &&& q.owner == user
                &&& q.is_active == 1
                &&& after.margins == booked(a.margins, user, p.side, p.entry_price, price, size)
            }
            &&& p.size != 0 && p.side != side && size >= p.size ==> after.margins == booked(
                a.margins,
                user,
                p.side,
                p.entry_price,
                price,
                p.size,
            )
            &&& p.size != 0 && p.side != side && size == p.size ==> q == blank_position()
            &&& p.size != 0 && p.side != side && size > p.size ==> {
                &&& q.size + p.size == size
                &&& q.entry_price == price
                &&& q.side == side
                &&& q.owner == user
                &&& q.is_active == 1
            }
        }),
{
    lemma_seat(a.positions, user, i);
    let p = position_claimed(a.positions, user)[i];
    law_closing_books_the_pnl(a.margins, user, p, price);
    law_closing_books_the_pnl(a.margins, user, Position { size, ..p }, price);
    if p.size != 0 && p.side == side {
        let total = p.entry_price * p.size + price * size;
        let n = p.size + size;
        assert(total >= 0) by (nonlinear_arith)
            requires
                total == p.entry_price * p.size + price * size,
        ;
        let e = total / n;
        assert(0 <= e <= total && e * n <= total < (e + 1) * n) by (nonlinear_arith)
            requires
                e == total / n,
                n > 0,
                total >= 0,
        ;
    }
}

/// In a full table a fill of a user without a position changes nothing.
pub proof fn law_fill_without_a_seat(
    a: Accounts,
    user: [u8; 32],
    price: u64,
    size: u64,
    side: u64,
)
    requires
        lacks_position(a.positions, user),
        forall|j: int| 0 <= j < a.positions.len() ==> (#[trigger] a.positions[j]).is_active != 0,
    ensures
        filled(a, user, price, size, side) == a,
        fill_fits(a, user, price, size, side),
{
    law_position_is_claimed(a.positions, user, 0);
}

/// A fill fits unless it adds to a position whose units, or whose units times prices, would exceed
/// 64 bits.
pub proof fn law_fill_fits(
    a: Accounts,
    user: [u8; 32],
    price: u64,
    size: u64,
    side: u64,
    i: int,
)
    requires
        seat(a.positions, user, i),
    ensures
        ({
            let p = a.positions[i];
            !fill_fits(a, user, price, size, side) <==> p.size != 0 && p.side == side && (p.size
                + size > u64::MAX || p.entry_price * p.size + price * size > u64::MAX)
        }),
{
    lemma_seat(a.positions, user, i);
}

/// A fill that closes units, be it all of them or not, moves its user's balance by their gain or
/// loss between the two prices, where the result is a number of 64 bits; one that closes nothing
/// moves no balance.
pub proof fn law_fill_moves_the_balance(
    a: Accounts,
    user: [u8; 32],
    price: u64,
    size: u64,
    side: u64,
    i: int,
)
    requires
        seat(a.positions, user, i),
        fill_fits(a, user, price, size, side),
        margin_slot(a.margins, user) is Some || (empty_margins_blank(a.margins) && exists|k: int|
            0 <= k < a.margins.len() && (#[trigger] a.margins[k]).is_active == 0),
    ensures
        ({
            let p = a.positions[i];
            let closed = if p.side == side {
                0
            } else if size < p.size {
                size
            } else {
                p.size
            };
            let after = filled(a, user, price, size, side);
            &&& balance_of(after.margins, user) == moved_by(
                balance_of(a.margins, user),
                profit(p.side, p.entry_price, price, closed),
            )
            &&& forall|other: [u8; 32]|
                other != user ==> #[trigger] balance_of(after.margins, other) == balance_of(
                    a.margins,
                    other,
                )
        }),
{
    law_fill(a, user, price, size, side, i);
    let p = a.positions[i];
    let closed = if p.side == side {
        0
    } else if size < p.size {
        size
    } else {
        p.size
    };
    assert(profit(p.side, p.entry_price, price, 0) == 0);
    if p.size != 0 && p.side != side {
        law_booking_moves_the_balance(
            a.margins,
            user,
            p.side,
            p.entry_price,
            price,
            closed,
        );
    }
}

/// A fill is settled in four steps: the taker puts up a tenth of its value, the taker receives the
/// units, the maker receives them on the other side, and the maker is credited the margin. A taker
/// who cannot put it up leaves everything as it is.
pub proof fn law_settled_in_steps(
    a: Accounts,
    taker: [u8; 32],
    fill: Fill,
    side: u64,
    paid: Accounts,
    bought: Accounts,
    sold: Accounts,
)
    requires
        paid.positions == a.positions,
        paid.margins == debited(a.margins, taker, margin_for(fill.price, fill.size)),
        bought == filled(paid, taker, fill.price, fill.size, side),
        sold == filled(
            bought,
            fill.maker,
            fill.price,
            fill.size,
            if side == 0 {
                1
            } else {
                0
            },
        ),
    ensures
        can_debit(a.margins, taker, margin_for(fill.price, fill.size)) ==> {
            &&& settled(a, taker, fill, side).positions == sold.positions
            &&& settled(a, taker, fill, side).margins == credited(
                sold.margins,
                fill.maker,
                margin_for(fill.price, fill.size),
            )
            &&& settle_fits(a, taker, fill, side) <==> fill_fits(
                paid,
                taker,
                fill.price,
                fill.size,
                side,
            ) && fill_fits(
                bought,
                fill.maker,
                fill.price,
                fill.size,
                if side == 0 {
                    1
                } else {
                    0
                },
            )
        },
        !can_debit(a.margins, taker, margin_for(fill.price, fill.size)) ==> settled(
            a,
            taker,
            fill,
            side,
        ) == a && settle_fits(a, taker, fill, side),
{
}

/// Fills are settled one after the other: a single one as itself, and two sequences as the second
/// after the first. No fills settle nothing.
pub proof fn law_fills_settle_in_turn(
    a: Accounts,
    taker: [u8; 32],
    first: Seq<Fill>,
    second: Seq<Fill>,
    side: u64,
)
    ensures
        all_settled(a, taker, Seq::empty(), side) == a,
        all_fit(a, taker, Seq::empty(), side),
        units(Seq::empty()) == 0,
        forall|fill: Fill| #[trigger]
            all_settled(a, taker, seq![fill], side) == settled(a, taker, fill, side),
        forall|fill: Fill| #[trigger]
            all_fit(a, taker, seq![fill], side) == settle_fits(a, taker, fill, side),
        forall|fill: Fill| #[trigger] units(seq![fill]) == fill.size,
        all_settled(a, taker, first + second, side) == all_settled(
            all_settled(a, taker, first, side),
            taker,
            second,
            side,
        ),
        all_fit(a, taker, first + second, side) == (all_fit(a, taker, first, side) && all_fit(
            all_settled(a, taker, first, side),
            taker,
            second,
            side,
        )),
        units(first + second) == units(first) + units(second),
    decreases first.len(),
{
    assert forall|fill: Fill| #[trigger]
        all_settled(a, taker, seq![fill], side) == settled(a, taker, fill, side) by {
        let next = settled(a, taker, fill, side);
        assert(seq![fill].skip(1) =~= Seq::<Fill>::empty());
        assert(all_settled(next, taker, Seq::empty(), side) == next);
    }
    assert forall|fill: Fill| #[trigger]
        all_fit(a, taker, seq![fill], side) == settle_fits(a, taker, fill, side) by {
        assert(seq![fill].skip(1) =~= Seq::<Fill>::empty());
        assert(all_fit(settled(a, taker, fill, side), taker, Seq::empty(), side));
    }
    assert forall|fill: Fill| #[trigger] units(seq![fill]) == fill.size by {
        assert(seq![fill].skip(1) =~= Seq::<Fill>::empty());
        assert(units(Seq::<Fill>::empty()) == 0);
    }
    if first.len() == 0 {
        assert(first + second =~= second);
    } else {
        assert((first + second).skip(1) =~= first.skip(1) + second);
        law_fills_settle_in_turn(
            settled(a, taker, first[0], side),
            taker,
            first.skip(1),
            second,
            side,
        );
    }
}

/// The margin behind a position is the balance moved by the gain or loss at the price, but at least
/// nothing and at most the largest number of 64 bits. A gain or loss beyond 64 bits counts as
/// nothing.
pub proof fn law_effective_margin(p: Position, price: u64, margin: u64)
    ensures
        ({
            let pnl = profit(p.side, p.entry_price, price, p.size);
            let sum = if -u64::MAX <= pnl <= u64::MAX {
                margin + pnl
            } else {
                margin as int
            };
            effective_margin(p, price, margin) == if sum < 0 {
                0
            } else if sum > u64::MAX {
                u64::MAX as int
            } else {
                sum
            }
        }),
{
    lemma_difference(price, p.entry_price, p.size);
}

/// The margin that a position must keep is `bps` in 10000 of its value, rounded down.
pub proof fn law_required_margin(p: Position, price: u64, bps: u64)
    ensures
        ({
            let value = if price * p.size <= u64::MAX {
                price * p.size
            } else {
                u64::MAX as int
            };
            &&& required_margin(p, price, bps) * 10000 <= value * bps
            &&& value * bps < (required_margin(p, price, bps) + 1) * 10000
        }),
{
    assert(price * p.size >= 0) by (nonlinear_arith)
        requires
            price >= 0,
            p.size >= 0,
    ;
}

/// A position may be liquidated just where it has units and the margin behind it, by at least one
/// whole unit, does not reach 5% of its value. A user without a position is not liquidated.
pub proof fn law_who_is_liquidated(m: Market, target: [u8; 32], i: int)
    ensures
        lacks_position(m.accounts.positions, target) ==> !can_liquidate(m, target),
        owns_position(m.accounts.positions, target, i) ==> {
            let p = m.accounts.positions[i];
            let margin = effective_margin(
                p,
                m.oracle_price,
                balance_of(m.accounts.margins, target),
            );
            let value = if m.oracle_price * p.size <= u64::MAX {
                m.oracle_price * p.size
            } else {
                u64::MAX as int
            };
            can_liquidate(m, target) <==> p.size > 0 && (margin + 1) * 20 <= value
        },
{
    if lacks_position(m.accounts.positions, target) {
        lemma_lacks_position(m.accounts.positions, target);
    }
    if owns_position(m.accounts.positions, target, i) {
        lemma_owns_position(m.accounts.positions, target, i);
        law_required_margin(m.accounts.positions[i], m.oracle_price, MAINTENANCE_MARGIN_BPS);
    }
}

/// A liquidation frees the target's slot, books the gain or loss of the whole position at the oracle
/// price, and moves half of what the target then has, rounded down, to the liquidator. Nothing else
/// changes, and where the target may not be liquidated nothing does.
pub proof fn law_liquidation(
    m: Market,
    target: [u8; 32],
    liquidator: [u8; 32],
    i: int,
    closed: Seq<UserMargin>,
    reward: u64,
)
    requires
        owns_position(m.accounts.positions, target, i),
        closed == booked(
            m.accounts.margins,
            target,
            m.accounts.positions[i].side,
            m.accounts.positions[i].entry_price,
            m.oracle_price,
            m.accounts.positions[i].size,
        ),
        balance_of(closed, target) - 1 <= 2 * reward <= balance_of(closed, target),
    ensures
        ({
            let after = liquidated(m, target, liquidator);
            &&& after.seq == m.seq
            &&& after.oracle_price == m.oracle_price
            &&& after.funding_rate == m.funding_rate
            &&& after.last_funding_slot == m.last_funding_slot
            &&& after.bids == m.bids
            &&& after.asks == m.asks
            &&& after.queue == m.queue
            &&& !can_liquidate(m, target) ==> after.accounts == m.accounts
            &&& can_liquidate(m, target) ==> {
                &&& position_set(
                    m.accounts.positions,
                    after.accounts.positions,
                    i,
                    blank_position(),
                )
                &&& reward == 0 ==> after.accounts.margins == closed
                &&& reward > 0 ==> after.accounts.margins == credited(
                    debited(closed, target, reward),
                    liquidator,
                    reward,
                )
            }
        }),
{
    lemma_owns_position(m.accounts.positions, target, i);
    let p = m.accounts.positions[i];
    law_closing_books_the_pnl(m.accounts.margins, target, p, m.oracle_price);
    assert(balance_of(closed, target) / 2 == reward);
}

/// After a liquidation by somebody else, target and liquidator together have what they had, moved by
/// the gain or loss of the position at the oracle price: the target keeps half of its own, rounded
/// up, and the liquidator gets the other half.
pub proof fn law_liquidation_splits_what_is_left(
    m: Market,
    target: [u8; 32],
    liquidator: [u8; 32],
    i: int,
)
    requires
        owns_position(m.accounts.positions, target, i),
        can_liquidate(m, target),
        target != liquidator,
        margin_slot(m.accounts.margins, target) is Some,
        margin_slot(m.accounts.margins, liquidator) is Some,
        balance_of(m.accounts.margins, liquidator) + moved_by(
            balance_of(m.accounts.margins, target),
            profit(
                m.accounts.positions[i].side,
                m.accounts.positions[i].entry_price,
                m.oracle_price,
                m.accounts.positions[i].size,
            ),
        ) <= u64::MAX,
    ensures
        ({
            let p = m.accounts.positions[i];
            let left = moved_by(
                balance_of(m.accounts.margins, target),
                profit(p.side, p.entry_price, m.oracle_price, p.size),
            );
            let after = liquidated(m, target, liquidator).accounts.margins;
            let kept = balance_of(after, target);
            let won = balance_of(after, liquidator) - balance_of(m.accounts.margins, liquidator);
            &&& kept + won == left
            &&& won <= kept <= won + 1
            &&& forall|other: [u8; 32]|
                other != target && other != liquidator ==> #[trigger] balance_of(after, other)
                    == balance_of(m.accounts.margins, other)
        }),
{
    let p = m.accounts.positions[i];
    let margins = m.accounts.margins;
    let closed = booked(margins, target, p.side, p.entry_price, m.oracle_price, p.size);
    law_booking_moves_the_balance(
        margins,
        target,
        p.side,
        p.entry_price,
        m.oracle_price,
        p.size,
    );
    let reward = balance_of(closed, target) / 2;
    law_liquidation(m, target, liquidator, i, closed, reward);
    lemma_booked_slots(margins, target, p.side, p.entry_price, m.oracle_price, p.size);
    law_debit(closed, target, reward);
    let paid = debited(closed, target, reward);
    law_credit(paid, liquidator, reward);
    assert(margin_slot(paid, liquidator) is Some);
    let k = margin_slot(paid, liquidator)->Some_0;
    law_owner_has_a_slot_or_none(paid, liquidator);
    law_owner_has_a_slot_or_none(closed, target);
    law_balance_is_in_the_slot(closed, target);
    law_balance_is_in_the_slot(paid, liquidator);
    assert(owns_margin(paid, liquidator, k));
    if reward > 0 {
        assert(can_debit(closed, target, reward));
        assert(balance_of(paid, liquidator) == balance_of(closed, liquidator));
        assert(can_credit(paid, liquidator, reward));
        assert forall|other: [u8; 32]|
            other != target && other != liquidator implies #[trigger] balance_of(
            credited(paid, liquidator, reward),
            other,
        ) == balance_of(margins, other) by {
            assert(balance_of(paid, other) == balance_of(closed, other));
        }
    }
}

/// Booking leaves everyone the slot that they have.
proof fn lemma_booked_slots(
    margins: Seq<UserMargin>,
    user: [u8; 32],
    side: u64,
    entry: u64,
    exit: u64,
    units: u64,
)
    requires
        margin_slot(margins, user) is Some,
    ensures
        forall|other: [u8; 32]| #[trigger]
            margin_slot(booked(margins, user, side, entry, exit, units), other) == margin_slot(
                margins,
                other,
            ),
{
    let after = booked(margins, user, side, entry, exit, units);
    let i = margin_slot(margins, user)->Some_0;
    law_owner_has_a_slot_or_none(margins, user);
    assert forall|other: [u8; 32]| #[trigger] margin_slot(after, other) == margin_slot(
        margins,
        other,
    ) by {
        assert(after =~= margins.update(i, after[i]));
        lemma_first_unmoved(
            margins,
            margin_of(other),
            i,
            after[i],
        );
    }
}

} // verus!
