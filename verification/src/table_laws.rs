//! What the tables of balances and positions do, slot by slot.

use vstd::prelude::*;

use crate::positions::{
    balance_of, blank_position, can_credit, can_debit, credited, debited, empty_margin,
    empty_position, margin_claim, margin_claimed, margin_of, margin_slot, position_claim,
    position_claimed, position_of, position_slot, Position, UserMargin,
};
use crate::slots::{first_where, lemma_first_is, lemma_first_where};

verus! {

/// Slot `i` is the first active one that belongs to `owner`.
pub open spec fn owns_margin(users: Seq<UserMargin>, owner: [u8; 32], i: int) -> bool {
    &&& 0 <= i < users.len()
    &&& users[i].is_active == 1
    &&& users[i].owner == owner
    &&& forall|j: int|
        0 <= j < i ==> (#[trigger] users[j]).is_active != 1 || users[j].owner != owner
}

/// No active slot belongs to `owner`.
pub open spec fn lacks_margin(users: Seq<UserMargin>, owner: [u8; 32]) -> bool {
    forall|j: int|
        0 <= j < users.len() ==> (#[trigger] users[j]).is_active != 1 || users[j].owner != owner
}

/// Slot `i` is the first empty one.
pub open spec fn next_margin(users: Seq<UserMargin>, i: int) -> bool {
    &&& 0 <= i < users.len()
    &&& users[i].is_active == 0
    &&& forall|j: int| 0 <= j < i ==> (#[trigger] users[j]).is_active != 0
}

/// Slot `i` is all that differs between two tables, and it is `slot` in the second.
pub open spec fn margin_set(
    before: Seq<UserMargin>,
    after: Seq<UserMargin>,
    i: int,
    slot: UserMargin,
) -> bool {
    &&& after.len() == before.len()
    &&& after[i] == slot
    &&& forall|j: int| 0 <= j < before.len() && j != i ==> #[trigger] after[j] == before[j]
}

/// Slot `i` is the first active one that belongs to `owner`.
pub open spec fn owns_position(positions: Seq<Position>, owner: [u8; 32], i: int) -> bool {
    &&& 0 <= i < positions.len()
    &&& positions[i].is_active == 1
    &&& positions[i].owner == owner
    &&& forall|j: int|
        0 <= j < i ==> (#[trigger] positions[j]).is_active != 1 || positions[j].owner != owner
}

/// No active slot belongs to `owner`.
pub open spec fn lacks_position(positions: Seq<Position>, owner: [u8; 32]) -> bool {
    forall|j: int|
        0 <= j < positions.len() ==> (#[trigger] positions[j]).is_active != 1 || positions[j].owner
            != owner
}

/// Slot `i` is the first empty one.
pub open spec fn next_position(positions: Seq<Position>, i: int) -> bool {
    &&& 0 <= i < positions.len()
    &&& positions[i].is_active == 0
    &&& forall|j: int| 0 <= j < i ==> (#[trigger] positions[j]).is_active != 0
}

/// Slot `i` is all that differs between two tables, and it is `slot` in the second.
pub open spec fn position_set(
    before: Seq<Position>,
    after: Seq<Position>,
    i: int,
    slot: Position,
) -> bool {
    &&& after.len() == before.len()
    &&& after[i] == slot
    &&& forall|j: int| 0 <= j < before.len() && j != i ==> #[trigger] after[j] == before[j]
}

/// The slot of `owner` is the one that a search for it finds.
pub proof fn lemma_owns_margin(users: Seq<UserMargin>, owner: [u8; 32], i: int)
    requires
        owns_margin(users, owner, i),
    ensures
        margin_slot(users, owner) == Some(i),
{
    assert forall|j: int| 0 <= j < i implies !margin_of(owner)(#[trigger] users[j]) by {}
    lemma_first_where(users, margin_of(owner), i);
}

/// A search for an owner without a slot finds none.
pub proof fn lemma_lacks_margin(users: Seq<UserMargin>, owner: [u8; 32])
    requires
        lacks_margin(users, owner),
    ensures
        margin_slot(users, owner) is None,
{
    lemma_first_is(users, margin_of(owner));
}

/// The first empty slot is the one that a search for it finds.
pub proof fn lemma_next_margin(users: Seq<UserMargin>, i: int)
    requires
        next_margin(users, i),
    ensures
        first_where(users, empty_margin()) == Some(i),
{
    assert forall|j: int| 0 <= j < i implies !empty_margin()(#[trigger] users[j]) by {}
    lemma_first_where(users, empty_margin(), i);
}

/// The slot of `owner` is the one that a search for it finds.
pub proof fn lemma_owns_position(positions: Seq<Position>, owner: [u8; 32], i: int)
    requires
        owns_position(positions, owner, i),
    ensures
        position_slot(positions, owner) == Some(i),
{
    assert forall|j: int| 0 <= j < i implies !position_of(owner)(#[trigger] positions[j]) by {}
    lemma_first_where(positions, position_of(owner), i);
}

/// A search for an owner without a slot finds none.
pub proof fn lemma_lacks_position(positions: Seq<Position>, owner: [u8; 32])
    requires
        lacks_position(positions, owner),
    ensures
        position_slot(positions, owner) is None,
{
    lemma_first_is(positions, position_of(owner));
}

/// The first empty slot is the one that a search for it finds.
pub proof fn lemma_next_position(positions: Seq<Position>, i: int)
    requires
        next_position(positions, i),
    ensures
        first_where(positions, empty_position()) == Some(i),
{
    assert forall|j: int| 0 <= j < i implies !empty_position()(#[trigger] positions[j]) by {}
    lemma_first_where(positions, empty_position(), i);
}

/// An owner either has a first slot or none.
pub proof fn law_owner_has_a_slot_or_none(users: Seq<UserMargin>, owner: [u8; 32])
    ensures
        match margin_slot(users, owner) {
            Some(i) => owns_margin(users, owner, i),
            None => lacks_margin(users, owner),
        },
{
    lemma_first_is(users, margin_of(owner));
    if let Some(i) = margin_slot(users, owner) {
        assert forall|j: int| 0 <= j < i implies (#[trigger] users[j]).is_active != 1
            || users[j].owner != owner by {
            assert(!margin_of(owner)(users[j]));
        }
    } else {
        assert forall|j: int| 0 <= j < users.len() implies (#[trigger] users[j]).is_active != 1
            || users[j].owner != owner by {
            assert(!margin_of(owner)(users[j]));
        }
    }
}

/// An owner either has a first position or none.
pub proof fn law_owner_has_a_position_or_none(positions: Seq<Position>, owner: [u8; 32])
    ensures
        match position_slot(positions, owner) {
            Some(i) => owns_position(positions, owner, i),
            None => lacks_position(positions, owner),
        },
{
    lemma_first_is(positions, position_of(owner));
    if let Some(i) = position_slot(positions, owner) {
        assert forall|j: int| 0 <= j < i implies (#[trigger] positions[j]).is_active != 1
            || positions[j].owner != owner by {
            assert(!position_of(owner)(positions[j]));
        }
    } else {
        assert forall|j: int|
            0 <= j < positions.len() implies (#[trigger] positions[j]).is_active != 1
            || positions[j].owner != owner by {
            assert(!position_of(owner)(positions[j]));
        }
    }
}

/// A balance is what stands in the owner's slot, and 0 without one.
pub proof fn law_balance_is_in_the_slot(users: Seq<UserMargin>, owner: [u8; 32])
    ensures
        forall|i: int| #[trigger]
            owns_margin(users, owner, i) ==> balance_of(users, owner) == users[i].balance,
        lacks_margin(users, owner) ==> balance_of(users, owner) == 0,
{
    assert forall|i: int| #[trigger] owns_margin(users, owner, i) implies balance_of(users, owner)
        == users[i].balance by {
        lemma_owns_margin(users, owner, i);
    }
    if lacks_margin(users, owner) {
        lemma_lacks_margin(users, owner);
    }
}

/// A user keeps the slot that they have; one without gets the first empty slot, where there is one,
/// with its balance; and nothing else in the table moves.
pub proof fn law_margin_slot_is_claimed(users: Seq<UserMargin>, owner: [u8; 32], i: int)
    ensures
        owns_margin(users, owner, i) ==> margin_claim(users, owner) == Some(i) && margin_claimed(
            users,
            owner,
        ) == users,
        lacks_margin(users, owner) && next_margin(users, i) ==> margin_claim(users, owner) == Some(i)
            && margin_set(
            users,
            margin_claimed(users, owner),
            i,
            UserMargin { owner, is_active: 1, balance: users[i].balance },
        ),
        lacks_margin(users, owner) && (forall|j: int|
            0 <= j < users.len() ==> (#[trigger] users[j]).is_active != 0) ==> margin_claim(
            users,
            owner,
        ) is None && margin_claimed(users, owner) == users,
{
    if owns_margin(users, owner, i) {
        lemma_owns_margin(users, owner, i);
    }
    if lacks_margin(users, owner) {
        lemma_lacks_margin(users, owner);
        lemma_first_is(users, empty_margin());
        if next_margin(users, i) {
            lemma_next_margin(users, i);
        }
    }
}

/// A user keeps the position that they have; one without gets the first empty slot, where there is
/// one, with its other fields; and nothing else in the table moves.
pub proof fn law_position_is_claimed(positions: Seq<Position>, owner: [u8; 32], i: int)
    ensures
        owns_position(positions, owner, i) ==> position_claim(positions, owner) == Some(i)
            && position_claimed(positions, owner) == positions,
        lacks_position(positions, owner) && next_position(positions, i) ==> position_claim(
            positions,
            owner,
        ) == Some(i) && position_set(
            positions,
            position_claimed(positions, owner),
            i,
            Position { owner, is_active: 1, ..positions[i] },
        ),
        lacks_position(positions, owner) && (forall|j: int|
            0 <= j < positions.len() ==> (#[trigger] positions[j]).is_active != 0)
            ==> position_claim(positions, owner) is None && position_claimed(positions, owner)
            == positions,
{
    if owns_position(positions, owner, i) {
        lemma_owns_position(positions, owner, i);
    }
    if lacks_position(positions, owner) {
        lemma_lacks_position(positions, owner);
        lemma_first_is(positions, empty_position());
        if next_position(positions, i) {
            lemma_next_position(positions, i);
        }
    }
}

/// A credit to an owner with a slot adds the amount there where the sum fits in 64 bits, and else
/// changes nothing.
pub proof fn law_credit_adds(users: Seq<UserMargin>, owner: [u8; 32], amount: u64, i: int)
    requires
        owns_margin(users, owner, i),
    ensures
        can_credit(users, owner, amount) <==> users[i].balance + amount <= u64::MAX,
        can_credit(users, owner, amount) ==> {
            let slot = credited(users, owner, amount)[i];
            &&& margin_set(users, credited(users, owner, amount), i, slot)
            &&& slot.balance - users[i].balance == amount
            &&& slot.owner == owner
            &&& slot.is_active == 1
        },
        !can_credit(users, owner, amount) ==> credited(users, owner, amount) == users,
{
    lemma_owns_margin(users, owner, i);
}

/// A credit to an owner without a slot takes the first empty one, and adds the amount to what is in
/// it where the sum fits. In a full table it is refused.
pub proof fn law_first_credit_opens_a_slot(
    users: Seq<UserMargin>,
    owner: [u8; 32],
    amount: u64,
    i: int,
)
    requires
        lacks_margin(users, owner),
    ensures
        next_margin(users, i) ==> {
            let slot = credited(users, owner, amount)[i];
            &&& can_credit(users, owner, amount) <==> users[i].balance + amount <= u64::MAX
            &&& margin_set(users, credited(users, owner, amount), i, slot)
            &&& slot.owner == owner
            &&& slot.is_active == 1
            &&& slot.balance - users[i].balance == if users[i].balance + amount <= u64::MAX {
                amount as int
            } else {
                0
            }
        },
        (forall|j: int| 0 <= j < users.len() ==> (#[trigger] users[j]).is_active != 0)
            ==> !can_credit(users, owner, amount) && credited(users, owner, amount) == users,
{
    lemma_lacks_margin(users, owner);
    lemma_first_is(users, empty_margin());
    if next_margin(users, i) {
        lemma_next_margin(users, i);
    }
}

/// A debit takes the amount out of the owner's slot where the balance covers it, and else changes
/// nothing; without a slot it is refused.
pub proof fn law_debit_subtracts(users: Seq<UserMargin>, owner: [u8; 32], amount: u64, i: int)
    ensures
        owns_margin(users, owner, i) ==> {
            let slot = debited(users, owner, amount)[i];
            &&& can_debit(users, owner, amount) <==> amount <= users[i].balance
            &&& margin_set(users, debited(users, owner, amount), i, slot)
            &&& slot.owner == owner
            &&& slot.is_active == 1
            &&& users[i].balance - slot.balance == if amount <= users[i].balance {
                amount as int
            } else {
                0
            }
        },
        lacks_margin(users, owner) ==> !can_debit(users, owner, amount) && debited(
            users,
            owner,
            amount,
        ) == users,
{
    if owns_margin(users, owner, i) {
        lemma_owns_margin(users, owner, i);
    }
    if lacks_margin(users, owner) {
        lemma_lacks_margin(users, owner);
    }
}

/// A blank slot belongs to nobody and holds nothing.
pub proof fn law_blank_position_is_empty()
    ensures
        blank_position().is_active == 0,
        blank_position().size == 0,
        blank_position().entry_price == 0,
        blank_position().side == 0,
        forall|i: int| 0 <= i < 32 ==> #[trigger] blank_position().owner[i] == 0,
{
}

} // verus!
