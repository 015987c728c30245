//! What holds of margin balances whatever is done with them.

use vstd::prelude::*;

use crate::positions::{
    balance_of, can_credit, can_debit, credited, debited, empty_margin, margin_claim, margin_claimed,
    margin_of, margin_slot, UserMargin,
};
use crate::slots::{
    first_where, lemma_first_is, lemma_first_unmoved, lemma_first_where, lemma_sum_update, sum_of,
};

verus! {

/// An empty slot has no balance.
pub open spec fn empty_margins_blank(users: Seq<UserMargin>) -> bool {
    forall|i: int|
        0 <= i < users.len() && (#[trigger] users[i]).is_active == 0 ==> users[i].balance == 0
}

/// No two active slots have one owner.
pub open spec fn one_margin_each(users: Seq<UserMargin>) -> bool {
    forall|i: int, j: int|
        0 <= i < j < users.len() && (#[trigger] users[i]).is_active == 1 && (
        #[trigger] users[j]).is_active == 1 ==> users[i].owner != users[j].owner
}

/// Every slot is either empty, with no balance, or active; and no two active slots have one owner.
pub open spec fn margins_ok(users: Seq<UserMargin>) -> bool {
    &&& forall|i: int| 0 <= i < users.len() ==> (#[trigger] users[i]).is_active <= 1
    &&& empty_margins_blank(users)
    &&& one_margin_each(users)
}

/// A first credit starts from nothing: `owner` has a slot, or the empty ones have no balance.
pub open spec fn starts_blank(users: Seq<UserMargin>, owner: [u8; 32]) -> bool {
    margin_slot(users, owner) is Some || empty_margins_blank(users)
}

/// What all balances come to.
pub open spec fn total_margin(users: Seq<UserMargin>) -> int {
    sum_of(users, |u: UserMargin| u.balance as int)
}

/// Claiming a slot for an owner gives the owner a slot, and moves no balance.
proof fn lemma_claimed(users: Seq<UserMargin>, owner: [u8; 32])
    ensures
        ({
            let claimed = margin_claimed(users, owner);
            &&& claimed.len() == users.len()
            &&& total_margin(claimed) == total_margin(users)
            &&& empty_margins_blank(users) ==> empty_margins_blank(claimed)
            &&& one_margin_each(users) ==> one_margin_each(claimed)
            &&& margins_ok(users) ==> margins_ok(claimed)
            &&& forall|other: [u8; 32]|
                other != owner ==> #[trigger] balance_of(claimed, other) == balance_of(users, other)
            &&& starts_blank(users, owner) ==> balance_of(claimed, owner) == balance_of(
                users,
                owner,
            )
            &&& margin_claim(users, owner) matches Some(i) ==> {
                &&& 0 <= i < users.len()
                &&& margin_slot(claimed, owner) == Some(i)
                &&& claimed[i].balance == users[i].balance
            }
        }),
{
    lemma_first_is(users, margin_of(owner));
    lemma_first_is(users, empty_margin());
    let claimed = margin_claimed(users, owner);
    if margin_slot(users, owner) is None && first_where(users, empty_margin()) is Some {
        let i = first_where(users, empty_margin())->Some_0;
        let slot = UserMargin { owner, is_active: 1, ..users[i] };
        lemma_sum_update(users, |u: UserMargin| u.balance as int, i, slot);
        assert forall|j: int| 0 <= j < users.len() && j != i implies !margin_of(owner)(
            #[trigger] claimed[j],
        ) by {
            assert(claimed[j] == users[j]);
        }
        lemma_first_where(claimed, margin_of(owner), i);
        assert forall|other: [u8; 32]| other != owner implies #[trigger] balance_of(claimed, other)
            == balance_of(users, other) by {
            lemma_first_unmoved(users, margin_of(other), i, slot);
            lemma_first_is(users, margin_of(other));
        }
        if one_margin_each(users) {
            assert forall|j: int, k: int|
                0 <= j < k < claimed.len() && (#[trigger] claimed[j]).is_active == 1 && (
                #[trigger] claimed[k]).is_active == 1 implies claimed[j].owner
                != claimed[k].owner by {
                assert(j != i ==> claimed[j] == users[j] && !margin_of(owner)(users[j]));
                assert(k != i ==> claimed[k] == users[k] && !margin_of(owner)(users[k]));
            }
        }
    }
}

/// Changing the balance in an owner's slot changes that owner's balance, the total by as much, and
/// nobody else's balance.
proof fn lemma_set_balance(users: Seq<UserMargin>, owner: [u8; 32], balance: u64)
    requires
        margin_slot(users, owner) is Some,
    ensures
        ({
            let i = margin_slot(users, owner)->Some_0;
            let after = users.update(i, UserMargin { balance, ..users[i] });
            &&& 0 <= i < users.len()
            &&& empty_margins_blank(users) ==> empty_margins_blank(after)
            &&& one_margin_each(users) ==> one_margin_each(after)
            &&& margins_ok(users) ==> margins_ok(after)
            &&& balance_of(after, owner) == balance
            &&& total_margin(after) == total_margin(users) - users[i].balance + balance
            &&& forall|other: [u8; 32]| #[trigger]
                margin_slot(after, other) == margin_slot(users, other)
            &&& forall|other: [u8; 32]|
                other != owner ==> #[trigger] balance_of(after, other) == balance_of(users, other)
        }),
{
    let i = margin_slot(users, owner)->Some_0;
    lemma_first_is(users, margin_of(owner));
    let slot = UserMargin { balance, ..users[i] };
    let after = users.update(i, slot);
    lemma_first_unmoved(users, margin_of(owner), i, slot);
    lemma_sum_update(users, |u: UserMargin| u.balance as int, i, slot);
    assert forall|other: [u8; 32]| #[trigger] margin_slot(after, other) == margin_slot(
        users,
        other,
    ) by {
        lemma_first_unmoved(users, margin_of(other), i, slot);
    }
    assert forall|other: [u8; 32]| other != owner implies #[trigger] balance_of(after, other)
        == balance_of(users, other) by {
        assert(margin_slot(after, other) == margin_slot(users, other));
        lemma_first_is(users, margin_of(other));
    }
    if one_margin_each(users) {
        assert forall|j: int, k: int|
            0 <= j < k < after.len() && (#[trigger] after[j]).is_active == 1 && (
            #[trigger] after[k]).is_active == 1 implies after[j].owner != after[k].owner by {
            assert(users[j].is_active == 1 && users[k].is_active == 1);
        }
    }
}

/// A credit that can be done adds to the owner's balance, where a first one starts from nothing, and
/// to the total; one that cannot changes neither. Nobody else's balance changes, and the balances
/// stay in order.
pub proof fn law_credit(users: Seq<UserMargin>, owner: [u8; 32], amount: u64)
    ensures
        margins_ok(users) ==> margins_ok(credited(users, owner, amount)),
        empty_margins_blank(users) ==> empty_margins_blank(credited(users, owner, amount)),
        one_margin_each(users) ==> one_margin_each(credited(users, owner, amount)),
        starts_blank(users, owner) ==> balance_of(credited(users, owner, amount), owner)
            == balance_of(users, owner) + if can_credit(users, owner, amount) {
            amount as int
        } else {
            0
        },
        total_margin(credited(users, owner, amount)) == total_margin(users) + if can_credit(
            users,
            owner,
            amount,
        ) {
            amount as int
        } else {
            0
        },
        forall|other: [u8; 32]|
            other != owner ==> #[trigger] balance_of(credited(users, owner, amount), other)
                == balance_of(users, other),
{
    lemma_claimed(users, owner);
    if can_credit(users, owner, amount) {
        let claimed = margin_claimed(users, owner);
        let i = margin_claim(users, owner)->Some_0;
        lemma_set_balance(claimed, owner, (claimed[i].balance + amount) as u64);
    }
}

/// A debit that can be done takes from the owner's balance and from the total; one that cannot
/// changes nothing. Nobody else's balance changes, and the balances stay in order.
pub proof fn law_debit(users: Seq<UserMargin>, owner: [u8; 32], amount: u64)
    ensures
        margins_ok(users) ==> margins_ok(debited(users, owner, amount)),
        empty_margins_blank(users) ==> empty_margins_blank(debited(users, owner, amount)),
        one_margin_each(users) ==> one_margin_each(debited(users, owner, amount)),
        forall|other: [u8; 32]| #[trigger]
            margin_slot(debited(users, owner, amount), other) == margin_slot(users, other),
        balance_of(debited(users, owner, amount), owner) == balance_of(users, owner) - if can_debit(
            users,
            owner,
            amount,
        ) {
            amount as int
        } else {
            0
        },
        total_margin(debited(users, owner, amount)) == total_margin(users) - if can_debit(
            users,
            owner,
            amount,
        ) {
            amount as int
        } else {
            0
        },
        forall|other: [u8; 32]|
            other != owner ==> #[trigger] balance_of(debited(users, owner, amount), other)
                == balance_of(users, other),
{
    if can_debit(users, owner, amount) {
        let i = margin_slot(users, owner)->Some_0;
        lemma_first_is(users, margin_of(owner));
        lemma_set_balance(users, owner, (users[i].balance - amount) as u64);
    }
}

/// What was deposited can be withdrawn, and then every balance is what it was before, where a first
/// deposit starts from nothing.
pub proof fn law_deposit_then_withdraw(users: Seq<UserMargin>, owner: [u8; 32], amount: u64)
    requires
        starts_blank(users, owner),
        can_credit(users, owner, amount),
    ensures
        can_debit(credited(users, owner, amount), owner, amount),
        forall|other: [u8; 32]| #[trigger]
            balance_of(debited(credited(users, owner, amount), owner, amount), other) == balance_of(
                users,
                other,
            ),
{
    law_credit(users, owner, amount);
    lemma_claimed(users, owner);
    let after = credited(users, owner, amount);
    let claimed = margin_claimed(users, owner);
    let i = margin_claim(users, owner)->Some_0;
    lemma_set_balance(claimed, owner, (claimed[i].balance + amount) as u64);
    law_debit(after, owner, amount);
}

/// What was withdrawn can be deposited, and then the balances are what they were before.
pub proof fn law_withdraw_then_deposit(users: Seq<UserMargin>, owner: [u8; 32], amount: u64)
    requires
        can_debit(users, owner, amount),
    ensures
        can_credit(debited(users, owner, amount), owner, amount),
        credited(debited(users, owner, amount), owner, amount) == users,
{
    let i = margin_slot(users, owner)->Some_0;
    let after = debited(users, owner, amount);
    lemma_first_is(users, margin_of(owner));
    lemma_first_unmoved(users, margin_of(owner), i, after[i]);
    assert(credited(after, owner, amount) =~= users);
}

/// An owner can be debited just what the balance covers, and nothing without a slot.
pub proof fn law_overdraft_refused(users: Seq<UserMargin>, owner: [u8; 32], amount: u64)
    requires
        amount > balance_of(users, owner),
    ensures
        !can_debit(users, owner, amount),
        debited(users, owner, amount) == users,
{
}

} // verus!
