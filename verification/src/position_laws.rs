//! What holds of positions whatever is filled, closed or liquidated.

use vstd::prelude::*;

use crate::margin_laws::{law_credit, law_debit, margins_ok, starts_blank, total_margin};
use crate::positions::{
    balance_of, blank_position, can_credit, can_debit, counted, credited, debited, empty_position,
    gain_at, not_against, position_claim, position_claimed, position_of, position_slot, Position,
    UserMargin,
};
use crate::settlement::{
    all_fit, all_settled, can_liquidate, fill_fits, filled, liquidated, margin_for, opposite,
    position_after, realized, rewarded, settle_fits, settled, taker_settled, Fill,
};
use crate::slots::{
    first_where, lemma_first_exists, lemma_first_is, lemma_first_unmoved, lemma_first_where,
    lemma_sum_update, sum_of,
};
use crate::state::{Accounts, Market};

verus! {

/// An empty slot is blank.
pub open spec fn empty_positions_blank(positions: Seq<Position>) -> bool {
    forall|i: int|
        0 <= i < positions.len() && (#[trigger] positions[i]).is_active == 0 ==> positions[i]
            == blank_position()
}

/// No two active slots have one owner.
pub open spec fn one_position_each(positions: Seq<Position>) -> bool {
    forall|i: int, j: int|
        0 <= i < j < positions.len() && (#[trigger] positions[i]).is_active == 1 && (
        #[trigger] positions[j]).is_active == 1 ==> positions[i].owner != positions[j].owner
}

/// Every slot is either blank or active, and no two active slots have one owner.
pub open spec fn positions_ok(positions: Seq<Position>) -> bool {
    &&& forall|i: int| 0 <= i < positions.len() ==> (#[trigger] positions[i]).is_active <= 1
    &&& empty_positions_blank(positions)
    &&& one_position_each(positions)
}

/// Both tables are in order.
pub open spec fn accounts_ok(a: Accounts) -> bool {
    margins_ok(a.margins) && positions_ok(a.positions)
}

/// Every position is long or short.
pub open spec fn sides_ok(positions: Seq<Position>) -> bool {
    forall|i: int| 0 <= i < positions.len() ==> (#[trigger] positions[i]).side <= 1
}

/// The units of a position: negative for a short one.
pub open spec fn exposure(p: Position) -> int {
    if p.side == 0 {
        p.size as int
    } else {
        -(p.size as int)
    }
}

/// What all positions come to.
pub open spec fn net_exposure(positions: Seq<Position>) -> int {
    sum_of(positions, |p: Position| exposure(p))
}

/// Units on a side: negative for a sale.
pub open spec fn signed(size: u64, side: u64) -> int {
    if side == 0 {
        size as int
    } else {
        -(size as int)
    }
}

/// The net exposure is that of the active positions, where the others hold nothing.
pub proof fn law_net_exposure_is_of_active_positions(positions: Seq<Position>)
    requires
        forall|i: int|
            0 <= i < positions.len() && (#[trigger] positions[i]).is_active != 1
                ==> positions[i].size == 0,
    ensures
        net_exposure(positions) == sum_of(
            positions,
            |p: Position|
                if p.is_active == 1 {
                    exposure(p)
                } else {
                    0
                },
        ),
    decreases positions.len(),
{
    if positions.len() > 0 {
        let front = positions.drop_last();
        assert forall|i: int|
            0 <= i < front.len() && (#[trigger] front[i]).is_active != 1 implies front[i].size
            == 0 by {
            assert(front[i] == positions[i]);
        }
        law_net_exposure_is_of_active_positions(front);
        assert(positions.last() == positions[positions.len() - 1]);
    }
}

/// Claiming a slot gives the owner a slot with the fields that it had.
proof fn lemma_position_claimed(positions: Seq<Position>, owner: [u8; 32])
    ensures
        position_claimed(positions, owner).len() == positions.len(),
        net_exposure(position_claimed(positions, owner)) == net_exposure(positions),
        sides_ok(positions) ==> sides_ok(position_claimed(positions, owner)),
        empty_positions_blank(positions) ==> empty_positions_blank(
            position_claimed(positions, owner),
        ),
        one_position_each(positions) ==> one_position_each(position_claimed(positions, owner)),
        positions_ok(positions) ==> positions_ok(position_claimed(positions, owner)),
        position_claim(positions, owner) matches Some(i) ==> {
            let p = position_claimed(positions, owner)[i];
            &&& 0 <= i < positions.len()
            &&& p == (Position { owner, is_active: 1, ..positions[i] })
        },
{
    lemma_first_is(positions, position_of(owner));
    lemma_first_is(positions, empty_position());
    let claimed = position_claimed(positions, owner);
    if position_slot(positions, owner) is None && first_where(positions, empty_position()) is Some {
        let i = first_where(positions, empty_position())->Some_0;
        let slot = Position { owner, is_active: 1, ..positions[i] };
        lemma_sum_update(positions, |p: Position| exposure(p), i, slot);
        if one_position_each(positions) {
            assert forall|j: int, k: int|
                0 <= j < k < claimed.len() && (#[trigger] claimed[j]).is_active == 1 && (
                #[trigger] claimed[k]).is_active == 1 implies claimed[j].owner
                != claimed[k].owner by {
                assert(j != i ==> claimed[j] == positions[j] && !position_of(owner)(positions[j]));
                assert(k != i ==> claimed[k] == positions[k] && !position_of(owner)(positions[k]));
            }
        }
    }
}

/// A fill moves the exposure of a position by its units.
proof fn lemma_position_after(p: Position, price: u64, size: u64, side: u64)
    requires
        p.side <= 1,
        side <= 1,
        p.size != 0 && p.side == side ==> p.size + size <= u64::MAX,
    ensures
        exposure(position_after(p, price, size, side)) == exposure(p) + signed(size, side),
        position_after(p, price, size, side).side <= 1,
{
}

/// A fill moves the net exposure by its units, where its user has or gets a slot, and not at all
/// where there is none.
pub proof fn law_fill_moves_exposure(
    a: Accounts,
    user: [u8; 32],
    price: u64,
    size: u64,
    side: u64,
)
    requires
        sides_ok(a.positions),
        side <= 1,
        fill_fits(a, user, price, size, side),
    ensures
        sides_ok(filled(a, user, price, size, side).positions),
        net_exposure(filled(a, user, price, size, side).positions) == net_exposure(a.positions)
            + if position_claim(a.positions, user) is Some {
            signed(size, side)
        } else {
            0
        },
{
    lemma_position_claimed(a.positions, user);
    if let Some(i) = position_claim(a.positions, user) {
        let claimed = position_claimed(a.positions, user);
        lemma_position_after(claimed[i], price, size, side);
        lemma_sum_update(
            claimed,
            |p: Position| exposure(p),
            i,
            position_after(claimed[i], price, size, side),
        );
    }
}

/// Taker and maker take opposite sides: a fill leaves the net exposure as it is, where both have
/// or get a slot.
pub proof fn law_settled_fill_nets_out(a: Accounts, taker: [u8; 32], fill: Fill, side: u64)
    requires
        sides_ok(a.positions),
        side <= 1,
        settle_fits(a, taker, fill, side),
        position_claim(a.positions, taker) is Some,
        position_claim(taker_settled(a, taker, fill, side).positions, fill.maker) is Some,
    ensures
        sides_ok(settled(a, taker, fill, side).positions),
        net_exposure(settled(a, taker, fill, side).positions) == net_exposure(a.positions),
{
    let margin = margin_for(fill.price, fill.size);
    if can_debit(a.margins, taker, margin) {
        let paid = Accounts { margins: debited(a.margins, taker, margin), ..a };
        law_fill_moves_exposure(paid, taker, fill.price, fill.size, side);
        law_fill_moves_exposure(
            taker_settled(a, taker, fill, side),
            fill.maker,
            fill.price,
            fill.size,
            opposite(side),
        );
    }
}

/// Taker and makers have or get a slot for every fill.
pub open spec fn all_seated(a: Accounts, taker: [u8; 32], fills: Seq<Fill>, side: u64) -> bool
    decreases fills.len(),
{
    fills.len() > 0 ==> {
        &&& position_claim(a.positions, taker) is Some
        &&& position_claim(taker_settled(a, taker, fills[0], side).positions, fills[0].maker) is Some
        &&& all_seated(settled(a, taker, fills[0], side), taker, fills.skip(1), side)
    }
}

/// A whole take leaves the net exposure as it is, where taker and makers have or get slots.
pub proof fn law_take_nets_out(a: Accounts, taker: [u8; 32], fills: Seq<Fill>, side: u64)
    requires
        sides_ok(a.positions),
        side <= 1,
        all_fit(a, taker, fills, side),
        all_seated(a, taker, fills, side),
    ensures
        sides_ok(all_settled(a, taker, fills, side).positions),
        net_exposure(all_settled(a, taker, fills, side).positions) == net_exposure(a.positions),
    decreases fills.len(),
{
    if fills.len() > 0 {
        law_settled_fill_nets_out(a, taker, fills[0], side);
        law_take_nets_out(settled(a, taker, fills[0], side), taker, fills.skip(1), side);
    }
}

/// `owner`'s position, where there is one.
pub open spec fn position_held(positions: Seq<Position>, owner: [u8; 32]) -> Option<Position> {
    match position_slot(positions, owner) {
        Some(i) => Some(positions[i]),
        None => None,
    }
}

/// The units of `owner`: negative for a short position, none without one.
pub open spec fn exposure_of(positions: Seq<Position>, owner: [u8; 32]) -> int {
    match position_held(positions, owner) {
        Some(p) => exposure(p),
        None => 0,
    }
}

/// A fill moves its user's exposure by its units, and nobody else's position or balance. Empty
/// slots stay blank, and nobody gets a second one.
pub proof fn law_fill_moves_its_user(
    a: Accounts,
    user: [u8; 32],
    price: u64,
    size: u64,
    side: u64,
)
    requires
        empty_positions_blank(a.positions),
        one_position_each(a.positions),
        sides_ok(a.positions),
        side <= 1,
        fill_fits(a, user, price, size, side),
        position_claim(a.positions, user) is Some,
    ensures
        ({
            let after = filled(a, user, price, size, side);
            &&& empty_positions_blank(after.positions)
            &&& one_position_each(after.positions)
            &&& exposure_of(after.positions, user) == exposure_of(a.positions, user) + signed(
                size,
                side,
            )
            &&& forall|other: [u8; 32]|
                other != user ==> #[trigger] position_held(after.positions, other)
                    == position_held(a.positions, other)
            &&& forall|other: [u8; 32]|
                other != user ==> #[trigger] balance_of(after.margins, other) == balance_of(
                    a.margins,
                    other,
                )
        }),
{
    let i = position_claim(a.positions, user)->Some_0;
    let claimed = position_claimed(a.positions, user);
    let p = position_after(claimed[i], price, size, side);
    let after = claimed.update(i, p);
    lemma_position_claimed(a.positions, user);
    lemma_first_is(a.positions, position_of(user));
    lemma_first_is(a.positions, empty_position());
    lemma_position_after(claimed[i], price, size, side);
    lemma_position_set(claimed, i, p);
    law_realized(a.margins, user, claimed[i], price);
    law_realized(a.margins, user, Position { size, ..claimed[i] }, price);
    assert(exposure(claimed[i]) == exposure_of(a.positions, user));
    lemma_first_is(after, position_of(user));
    assert forall|j: int| 0 <= j < after.len() && j != i implies !position_of(user)(
        #[trigger] after[j],
    ) by {
        assert(after[j] == claimed[j]);
        assert(claimed[i].is_active == 1 && claimed[i].owner == user);
    }
    if p != blank_position() {
        lemma_first_where(after, position_of(user), i);
    }
    assert forall|other: [u8; 32]| other != user implies #[trigger] position_held(after, other)
        == position_held(a.positions, other) by {
        lemma_first_unmoved(a.positions, position_of(other), i, claimed[i]);
        assert(claimed =~= a.positions.update(i, claimed[i]));
        assert(position_slot(after, other) == position_slot(claimed, other));
        lemma_first_is(a.positions, position_of(other));
    }
}

/// A maker who has a position keeps the slot whatever the taker gets.
pub proof fn law_maker_keeps_the_slot(a: Accounts, taker: [u8; 32], fill: Fill, side: u64)
    requires
        taker != fill.maker,
        position_slot(a.positions, fill.maker) is Some,
    ensures
        position_slot(taker_settled(a, taker, fill, side).positions, fill.maker) == position_slot(
            a.positions,
            fill.maker,
        ),
        position_claim(taker_settled(a, taker, fill, side).positions, fill.maker) is Some,
{
    let claimed = position_claimed(a.positions, taker);
    lemma_position_claimed(a.positions, taker);
    lemma_first_is(a.positions, position_of(taker));
    lemma_first_is(a.positions, empty_position());
    if let Some(i) = position_claim(a.positions, taker) {
        let p = position_after(claimed[i], fill.price, fill.size, side);
        lemma_position_set(claimed, i, p);
        lemma_first_unmoved(a.positions, position_of(fill.maker), i, claimed[i]);
        assert(claimed =~= a.positions.update(i, claimed[i]));
    }
}

/// A slot that is free and not the one that the taker gets is there for the maker.
pub proof fn law_free_slot_seats_the_maker(
    a: Accounts,
    taker: [u8; 32],
    fill: Fill,
    side: u64,
    k: int,
)
    requires
        0 <= k < a.positions.len(),
        a.positions[k].is_active == 0,
        position_claim(a.positions, taker) != Some(k),
    ensures
        position_claim(taker_settled(a, taker, fill, side).positions, fill.maker) is Some,
{
    let bought = taker_settled(a, taker, fill, side).positions;
    lemma_position_claimed(a.positions, taker);
    lemma_first_is(a.positions, position_of(taker));
    lemma_first_is(a.positions, empty_position());
    assert(bought[k] == a.positions[k]);
    assert(empty_position()(bought[k]));
    lemma_first_exists(bought, empty_position(), k);
}

/// Both users have positions, or there are as many free slots as they need.
pub open spec fn room_for_both(positions: Seq<Position>, a: [u8; 32], b: [u8; 32]) -> bool {
    let one_free = exists|i: int|
        0 <= i < positions.len() && (#[trigger] positions[i]).is_active == 0;
    let two_free = exists|i: int, j: int|
        0 <= i < j < positions.len() && (#[trigger] positions[i]).is_active == 0 && (
        #[trigger] positions[j]).is_active == 0;
    ||| position_slot(positions, a) is Some && position_slot(positions, b) is Some
    ||| (position_slot(positions, a) is Some || position_slot(positions, b) is Some) && one_free
    ||| two_free
}

/// Where there is room for both, taker and maker have or get a slot.
pub proof fn law_room_seats_both(a: Accounts, taker: [u8; 32], fill: Fill, side: u64)
    requires
        taker != fill.maker,
        room_for_both(a.positions, taker, fill.maker),
    ensures
        position_claim(a.positions, taker) is Some,
        position_claim(taker_settled(a, taker, fill, side).positions, fill.maker) is Some,
{
    let positions = a.positions;
    lemma_first_is(positions, position_of(taker));
    lemma_first_is(positions, empty_position());
    if position_slot(positions, fill.maker) is Some {
        law_maker_keeps_the_slot(a, taker, fill, side);
    }
    if position_slot(positions, taker) is None || position_slot(positions, fill.maker) is None {
        let k = if position_slot(positions, taker) is Some || position_slot(
            positions,
            fill.maker,
        ) is Some {
            choose|i: int|
                0 <= i < positions.len() && (#[trigger] positions[i]).is_active == 0
        } else {
            let (i, j) = choose|i: int, j: int|
                0 <= i < j < positions.len() && (#[trigger] positions[i]).is_active == 0 && (
                #[trigger] positions[j]).is_active == 0;
            if position_claim(positions, taker) == Some(i) {
                j
            } else {
                i
            }
        };
        assert(0 <= k < positions.len() && positions[k].is_active == 0);
        lemma_first_exists(positions, empty_position(), k);
        if position_slot(positions, fill.maker) is None {
            law_free_slot_seats_the_maker(a, taker, fill, side, k);
        }
    }
}

/// A fill moves the taker's exposure by its units and the maker's by as many the other way, and
/// nobody else's position or balance.
pub proof fn law_settled_fill_moves_two(a: Accounts, taker: [u8; 32], fill: Fill, side: u64)
    requires
        empty_positions_blank(a.positions),
        one_position_each(a.positions),
        sides_ok(a.positions),
        side <= 1,
        taker != fill.maker,
        can_debit(a.margins, taker, margin_for(fill.price, fill.size)),
        settle_fits(a, taker, fill, side),
        position_claim(a.positions, taker) is Some,
        position_claim(taker_settled(a, taker, fill, side).positions, fill.maker) is Some,
    ensures
        ({
            let after = settled(a, taker, fill, side);
            &&& exposure_of(after.positions, taker) == exposure_of(a.positions, taker) + signed(
                fill.size,
                side,
            )
            &&& exposure_of(after.positions, fill.maker) == exposure_of(a.positions, fill.maker)
                - signed(fill.size, side)
            &&& forall|other: [u8; 32]|
                other != taker && other != fill.maker ==> #[trigger] position_held(
                    after.positions,
                    other,
                ) == position_held(a.positions, other)
            &&& forall|other: [u8; 32]|
                other != taker && other != fill.maker ==> #[trigger] balance_of(
                    after.margins,
                    other,
                ) == balance_of(a.margins, other)
        }),
{
    let margin = margin_for(fill.price, fill.size);
    let paid = Accounts { margins: debited(a.margins, taker, margin), ..a };
    let bought = taker_settled(a, taker, fill, side);
    let traded = filled(bought, fill.maker, fill.price, fill.size, opposite(side));
    law_debit(a.margins, taker, margin);
    law_fill_moves_its_user(paid, taker, fill.price, fill.size, side);
    law_fill_moves_exposure(paid, taker, fill.price, fill.size, side);
    law_fill_moves_its_user(bought, fill.maker, fill.price, fill.size, opposite(side));
    law_credit(traded.margins, fill.maker, margin);
    assert(position_held(traded.positions, taker) == position_held(bought.positions, taker));
    assert(position_held(bought.positions, fill.maker) == position_held(a.positions, fill.maker));
    assert forall|other: [u8; 32]|
        other != taker && other != fill.maker implies #[trigger] position_held(
        traded.positions,
        other,
    ) == position_held(a.positions, other) by {
        assert(position_held(bought.positions, other) == position_held(a.positions, other));
    }
    assert forall|other: [u8; 32]|
        other != taker && other != fill.maker implies #[trigger] balance_of(
        credited(traded.margins, fill.maker, margin),
        other,
    ) == balance_of(a.margins, other) by {
        assert(balance_of(traded.margins, other) == balance_of(bought.margins, other));
        assert(balance_of(bought.margins, other) == balance_of(paid.margins, other));
    }
}

/// A user without a position who opens one and then closes it exactly leaves the table as it was:
/// only the gain or loss between the two prices moves the balance.
pub proof fn law_open_then_close(
    a: Accounts,
    user: [u8; 32],
    open_price: u64,
    close_price: u64,
    size: u64,
    side: u64,
)
    requires
        empty_positions_blank(a.positions),
        position_slot(a.positions, user) is None,
        position_claim(a.positions, user) is Some,
        size > 0,
        side <= 1,
    ensures
        ({
            let opened = filled(a, user, open_price, size, side);
            let closed = filled(opened, user, close_price, size, opposite(side));
            let held = Position { owner: user, size, entry_price: open_price, side, is_active: 1 };
            &&& fill_fits(a, user, open_price, size, side)
            &&& opened.margins == a.margins
            &&& position_held(opened.positions, user) == Some(held)
            &&& fill_fits(opened, user, close_price, size, opposite(side))
            &&& closed.positions == a.positions
            &&& position_slot(closed.positions, user) is None
            &&& closed.margins == realized(a.margins, user, held, close_price)
        }),
{
    let opened = filled(a, user, open_price, size, side);
    let closed = filled(opened, user, close_price, size, opposite(side));
    let i = position_claim(a.positions, user)->Some_0;
    lemma_first_is(a.positions, position_of(user));
    lemma_first_is(a.positions, empty_position());
    assert(a.positions[i] == blank_position());
    assert forall|j: int| 0 <= j < i implies !position_of(user)(#[trigger] opened.positions[j]) by {
        assert(opened.positions[j] == a.positions[j]);
    }
    lemma_first_where(opened.positions, position_of(user), i);
    assert(closed.positions =~= a.positions);
}

/// Adding to a position averages its entry price: the new one is between the old one and the price
/// of the fill.
pub proof fn law_average_entry(p: Position, price: u64, size: u64)
    requires
        p.size != 0,
        p.entry_price * p.size + price * size <= u64::MAX,
        p.size + size <= u64::MAX,
    ensures
        ({
            let entry = position_after(p, price, size, p.side).entry_price;
            &&& p.entry_price <= price ==> p.entry_price <= entry <= price
            &&& p.entry_price >= price ==> price <= entry <= p.entry_price
        }),
{
    let (e, s, f, n) = (p.entry_price as int, p.size as int, price as int, size as int);
    let q = (e * s + f * n) / (s + n);
    assert(e * s + f * n >= 0) by (nonlinear_arith)
        requires
            e >= 0,
            s >= 0,
            f >= 0,
            n >= 0,
    ;
    assert(0 <= q <= e * s + f * n) by (nonlinear_arith)
        requires
            q == (e * s + f * n) / (s + n),
            e * s + f * n >= 0,
            s >= 1,
            n >= 0,
    ;
    if e <= f {
        assert(e <= q <= f) by (nonlinear_arith)
            requires
                q == (e * s + f * n) / (s + n),
                e <= f,
                s >= 1,
                n >= 0,
        ;
    }
    if e >= f {
        assert(f <= q <= e) by (nonlinear_arith)
            requires
                q == (e * s + f * n) / (s + n),
                f <= e,
                s >= 1,
                n >= 0,
        ;
    }
}

/// What a long position gains, a short one of the same size and entry price loses.
pub proof fn law_long_and_short_mirror(long: Position, short: Position, price: u64)
    requires
        long.side == 0,
        short.side != 0,
        long.size == short.size,
        long.entry_price == short.entry_price,
    ensures
        gain_at(long, price) == -gain_at(short, price),
        counted(gain_at(long, price)) == counted(gain_at(short, price)),
{
    let (p, e, s) = (price as int, long.entry_price as int, long.size as int);
    assert((p - e) * s == -((e - p) * s)) by (nonlinear_arith);
}

/// Closing a position credits a gain or debits a loss, to the owner alone, and the balances stay
/// in order.
pub proof fn law_realized(margins: Seq<UserMargin>, user: [u8; 32], closed: Position, price: u64)
    ensures
        ({
            let pnl = counted(gain_at(closed, price));
            let change = if not_against(closed, price) {
                if can_credit(margins, user, pnl) {
                    pnl as int
                } else {
                    0
                }
            } else if can_debit(margins, user, pnl) {
                -(pnl as int)
            } else {
                0
            };
            let after = realized(margins, user, closed, price);
            &&& margins_ok(margins) ==> margins_ok(after)
            &&& starts_blank(margins, user) ==> balance_of(after, user) == balance_of(margins, user)
                + change
            &&& total_margin(after) == total_margin(margins) + change
            &&& forall|other: [u8; 32]|
                other != user ==> #[trigger] balance_of(after, other) == balance_of(margins, other)
        }),
{
    let pnl = counted(gain_at(closed, price));
    law_credit(margins, user, pnl);
    law_debit(margins, user, pnl);
}

/// Changing a position to one of the same owner, or to a blank one, keeps the table in order and
/// moves nobody else's position.
proof fn lemma_position_set(positions: Seq<Position>, i: int, p: Position)
    requires
        0 <= i < positions.len(),
        positions[i].is_active == 1,
        p == blank_position() || (p.is_active == 1 && p.owner == positions[i].owner),
    ensures
        empty_positions_blank(positions) ==> empty_positions_blank(positions.update(i, p)),
        one_position_each(positions) ==> one_position_each(positions.update(i, p)),
        positions_ok(positions) ==> positions_ok(positions.update(i, p)),
        forall|other: [u8; 32]|
            other != positions[i].owner ==> #[trigger] position_slot(
                positions.update(i, p),
                other,
            ) == position_slot(positions, other),
{
    let after = positions.update(i, p);
    if one_position_each(positions) {
        assert forall|j: int, k: int|
            0 <= j < k < after.len() && (#[trigger] after[j]).is_active == 1 && (
            #[trigger] after[k]).is_active == 1 implies after[j].owner != after[k].owner by {
            assert(positions[j].is_active == 1 && positions[k].is_active == 1);
        }
    }
    assert forall|other: [u8; 32]| other != positions[i].owner implies #[trigger] position_slot(
        after,
        other,
    ) == position_slot(positions, other) by {
        lemma_first_unmoved(positions, position_of(other), i, p);
    }
}

/// A fill keeps the accounts in order.
pub proof fn law_fill_keeps_accounts(a: Accounts, user: [u8; 32], price: u64, size: u64, side: u64)
    requires
        accounts_ok(a),
    ensures
        accounts_ok(filled(a, user, price, size, side)),
{
    lemma_position_claimed(a.positions, user);
    if let Some(i) = position_claim(a.positions, user) {
        let claimed = position_claimed(a.positions, user);
        lemma_position_set(claimed, i, position_after(claimed[i], price, size, side));
        law_realized(a.margins, user, claimed[i], price);
        law_realized(a.margins, user, Position { size, ..claimed[i] }, price);
    }
}

/// Settling fills keeps the accounts in order.
pub proof fn law_settling_keeps_accounts(
    a: Accounts,
    taker: [u8; 32],
    fills: Seq<Fill>,
    side: u64,
)
    requires
        accounts_ok(a),
    ensures
        accounts_ok(all_settled(a, taker, fills, side)),
    decreases fills.len(),
{
    if fills.len() > 0 {
        let fill = fills[0];
        let margin = margin_for(fill.price, fill.size);
        if can_debit(a.margins, taker, margin) {
            law_debit(a.margins, taker, margin);
            let paid = Accounts { margins: debited(a.margins, taker, margin), ..a };
            law_fill_keeps_accounts(paid, taker, fill.price, fill.size, side);
            let bought = taker_settled(a, taker, fill, side);
            law_fill_keeps_accounts(bought, fill.maker, fill.price, fill.size, opposite(side));
            let traded = filled(bought, fill.maker, fill.price, fill.size, opposite(side));
            law_credit(traded.margins, fill.maker, margin);
        }
        law_settling_keeps_accounts(settled(a, taker, fill, side), taker, fills.skip(1), side);
    }
}

/// A fill on `side` opens a position of `user` or adds to it, and closes nothing.
pub open spec fn only_adds(positions: Seq<Position>, user: [u8; 32], side: u64) -> bool {
    match position_claim(positions, user) {
        Some(i) => positions[i].size == 0 || positions[i].side == side,
        None => true,
    }
}

/// The margin that the taker puts up goes to the maker: where the fill closes nothing, it moves
/// from one balance to the other, and the total stays.
pub proof fn law_fill_moves_margin(a: Accounts, taker: [u8; 32], fill: Fill, side: u64)
    requires
        starts_blank(a.margins, fill.maker),
        taker != fill.maker,
        can_debit(a.margins, taker, margin_for(fill.price, fill.size)),
        can_credit(
            debited(a.margins, taker, margin_for(fill.price, fill.size)),
            fill.maker,
            margin_for(fill.price, fill.size),
        ),
        only_adds(a.positions, taker, side),
        only_adds(taker_settled(a, taker, fill, side).positions, fill.maker, opposite(side)),
    ensures
        ({
            let margin = margin_for(fill.price, fill.size);
            let after = settled(a, taker, fill, side).margins;
            &&& total_margin(after) == total_margin(a.margins)
            &&& balance_of(after, taker) == balance_of(a.margins, taker) - margin
            &&& balance_of(after, fill.maker) == balance_of(a.margins, fill.maker) + margin
        }),
{
    let margin = margin_for(fill.price, fill.size);
    law_debit(a.margins, taker, margin);
    assert(starts_blank(debited(a.margins, taker, margin), fill.maker));
    law_credit(debited(a.margins, taker, margin), fill.maker, margin);
    lemma_position_claimed(a.positions, taker);
    lemma_position_claimed(taker_settled(a, taker, fill, side).positions, fill.maker);
}

/// The reward moves from the target to the liquidator: half of what the target has, rounded down.
pub proof fn law_reward_is_half(margins: Seq<UserMargin>, target: [u8; 32], liquidator: [u8; 32])
    requires
        starts_blank(margins, liquidator),
        target != liquidator,
        can_credit(
            debited(margins, target, balance_of(margins, target) / 2),
            liquidator,
            balance_of(margins, target) / 2,
        ),
    ensures
        ({
            let reward = balance_of(margins, target) / 2;
            let after = rewarded(margins, target, liquidator);
            &&& total_margin(after) == total_margin(margins)
            &&& balance_of(after, target) == balance_of(margins, target) - reward
            &&& balance_of(after, liquidator) == balance_of(margins, liquidator) + reward
        }),
{
    let reward = balance_of(margins, target) / 2;
    law_debit(margins, target, reward);
    assert(starts_blank(debited(margins, target, reward), liquidator));
    law_credit(debited(margins, target, reward), liquidator, reward);
}

/// A liquidation keeps the accounts in order.
pub proof fn law_liquidation_keeps_accounts(m: Market, target: [u8; 32], liquidator: [u8; 32])
    requires
        accounts_ok(m.accounts),
    ensures
        accounts_ok(liquidated(m, target, liquidator).accounts),
{
    if can_liquidate(m, target) {
        let i = position_slot(m.accounts.positions, target)->Some_0;
        lemma_first_is(m.accounts.positions, position_of(target));
        lemma_position_set(m.accounts.positions, i, blank_position());
        let p = m.accounts.positions[i];
        let closed = realized(m.accounts.margins, target, p, m.oracle_price);
        law_realized(m.accounts.margins, target, p, m.oracle_price);
        let reward = balance_of(closed, target) / 2;
        law_debit(closed, target, reward);
        law_credit(debited(closed, target, reward), liquidator, reward);
    }
}

/// A liquidation closes the target's position, which then cannot be liquidated again, and moves
/// nobody else's.
pub proof fn law_liquidation_closes(m: Market, target: [u8; 32], liquidator: [u8; 32])
    requires
        one_position_each(m.accounts.positions),
        can_liquidate(m, target),
    ensures
        ({
            let after = liquidated(m, target, liquidator);
            &&& position_slot(after.accounts.positions, target) is None
            &&& !can_liquidate(after, target)
            &&& forall|other: [u8; 32]|
                other != target ==> #[trigger] position_held(after.accounts.positions, other)
                    == position_held(m.accounts.positions, other)
        }),
{
    let positions = m.accounts.positions;
    let i = position_slot(positions, target)->Some_0;
    lemma_first_is(positions, position_of(target));
    lemma_position_set(positions, i, blank_position());
    let after = positions.update(i, blank_position());
    assert forall|other: [u8; 32]| other != target implies #[trigger] position_held(after, other)
        == position_held(positions, other) by {
        assert(position_slot(after, other) == position_slot(positions, other));
        lemma_first_is(positions, position_of(other));
    }
    lemma_first_is(after, position_of(target));
    assert forall|j: int| 0 <= j < after.len() implies !position_of(target)(
        #[trigger] after[j],
    ) by {
        if j != i {
            assert(after[j] == positions[j]);
            assert(positions[i].is_active == 1 && positions[i].owner == target);
        }
    }
}

} // verus!
