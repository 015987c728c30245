//! Positions and margin balances: two fixed-size tables with one slot per user.

use vstd::prelude::*;

use crate::margin_laws::{law_credit, law_debit, margins_ok, starts_blank};
use crate::record::same_key;
use crate::slots::{first_where, is_first_where, lemma_first_where};

verus! {

/// The number of positions.
pub const MAX_POSITIONS: usize = 256;

/// A user's position.
#[derive(Copy, Clone, PartialEq, Eq, Debug)]
pub struct Position {
    pub owner: [u8; 32],
    pub size: u64,
    pub entry_price: u64,
    /// 0 = long, 1 = short.
    pub side: u64,
    /// 0 = empty slot, 1 = active.
    pub is_active: u64,
}

/// What a position gains when it is closed at `price`: negative for a loss.
pub open spec fn gain_at(position: Position, price: u64) -> int {
    if position.side == 0 {
        (price - position.entry_price) * position.size
    } else {
        (position.entry_price - price) * position.size
    }
}

/// The size of a gain or a loss as the program counts it: 0 where it exceeds 64 bits.
pub open spec fn counted(gain: int) -> u64 {
    let amount = if gain >= 0 {
        gain
    } else {
        -gain
    };
    if amount <= u64::MAX {
        amount as u64
    } else {
        0
    }
}

/// Whether the price has not moved against a position.
pub open spec fn not_against(position: Position, price: u64) -> bool {
    if position.side == 0 {
        price >= position.entry_price
    } else {
        price <= position.entry_price
    }
}

/// A product, or the largest number where it exceeds 64 bits.
pub open spec fn saturated(product: int) -> u64 {
    if product <= u64::MAX {
        product as u64
    } else {
        u64::MAX
    }
}

/// The value of `size` units at `price`.
pub open spec fn notional_of(price: u64, size: u64) -> u64 {
    saturated(price * size)
}

/// A user's margin with the gain or loss of a position counted in, within 64 bits.
pub open spec fn effective_margin(position: Position, price: u64, margin: u64) -> int {
    let pnl = counted(gain_at(position, price));
    if not_against(position, price) {
        if margin + pnl <= u64::MAX {
            margin + pnl
        } else {
            u64::MAX as int
        }
    } else if margin >= pnl {
        margin - pnl
    } else {
        0
    }
}

/// The margin that a position must keep: `bps` parts in 10000 of its value.
pub open spec fn required_margin(position: Position, price: u64, bps: u64) -> int {
    notional_of(price, position.size) * bps / 10000
}

/// `price * size`, or the largest number where that exceeds 64 bits.
pub fn notional(price: u64, size: u64) -> (n: u64)
    ensures
        n == notional_of(price, size),
{
    assert(price * size >= 0) by (nonlinear_arith)
        requires
            price >= 0,
            size >= 0,
    ;
    match price.checked_mul(size) {
        Some(n) => n,
        None => u64::MAX,
    }
}

impl Default for Position {
    fn default() -> (p: Position)
        ensures
            p == blank_position(),
    {
        Position { owner: [0u8; 32], size: 0, entry_price: 0, side: 0, is_active: 0 }
    }
}

/// An empty slot with every field zero.
pub open spec fn blank_position() -> Position {
    Position { owner: blank_key(), size: 0, entry_price: 0, side: 0, is_active: 0 }
}

/// The key of 32 zero bytes.
pub open spec fn blank_key() -> [u8; 32] {
    vstd::array::spec_array_fill_for_copy_type::<u8, 32>(0)
}

impl Position {
    /// Whether the position is long.
    pub fn is_long(&self) -> (long: bool)
        ensures
            long == (self.side == 0),
    {
        self.side == 0
    }

    /// The gain or loss of the position at a price, and whether it is a gain.
    pub fn unrealized_pnl(&self, oracle_price: u64) -> (pnl: (u64, bool))
        ensures
            pnl.0 == counted(gain_at(*self, oracle_price)),
            pnl.1 == not_against(*self, oracle_price),
    {
        let ghost (price, entry, size) = (oracle_price as int, self.entry_price as int, self.size as int);
        assert((entry - price) * size == -((price - entry) * size)) by (nonlinear_arith);
        assert(price >= entry ==> (price - entry) * size >= 0) by (nonlinear_arith)
            requires
                size >= 0,
        ;
        assert(price <= entry ==> (entry - price) * size >= 0) by (nonlinear_arith)
            requires
                size >= 0,
        ;
        if self.is_long() {
            if oracle_price >= self.entry_price {
                let pnl: u64 = (oracle_price - self.entry_price).checked_mul(self.size).unwrap_or(0);
                (pnl, true)
            } else {
                let pnl: u64 = (self.entry_price - oracle_price).checked_mul(self.size).unwrap_or(0);
                (pnl, false)
            }
        } else {
            if oracle_price <= self.entry_price {
                let pnl: u64 = (self.entry_price - oracle_price).checked_mul(self.size).unwrap_or(0);
                (pnl, true)
            } else {
                let pnl: u64 = (oracle_price - self.entry_price).checked_mul(self.size).unwrap_or(0);
                (pnl, false)
            }
        }
    }

    /// Whether the margin behind the position, with its gain or loss, is under what it must keep.
    pub fn is_liquidatable(
        &self,
        oracle_price: u64,
        margin: u64,
        maintenance_margin_bps: u64,
    ) -> (liquidatable: bool)
        ensures
            liquidatable == (self.is_active != 0 && self.size != 0 && effective_margin(
                *self,
                oracle_price,
                margin,
            ) < required_margin(*self, oracle_price, maintenance_margin_bps)),
    {
        if self.is_active == 0 || self.size == 0 {
            return false;
        }
        let (pnl, is_positive) = self.unrealized_pnl(oracle_price);
        let effective: u64 = if is_positive {
            margin.saturating_add(pnl)
        } else {
            margin.saturating_sub(pnl)
        };
        let value: u64 = notional(oracle_price, self.size);
        assert(0 <= value * maintenance_margin_bps <= u64::MAX * u64::MAX) by (nonlinear_arith)
            requires
                0 <= value <= u64::MAX,
                0 <= maintenance_margin_bps <= u64::MAX,
        ;
        let required: u128 = value as u128 * maintenance_margin_bps as u128 / 10000;
        (effective as u128) < required
    }
}

/// The slot is active and belongs to `owner`.
pub open spec fn position_of(owner: [u8; 32]) -> spec_fn(Position) -> bool {
    |p: Position| p.is_active == 1 && p.owner == owner
}

/// The slot is empty.
pub open spec fn empty_position() -> spec_fn(Position) -> bool {
    |p: Position| p.is_active == 0
}

/// The index of `owner`'s position.
pub open spec fn position_slot(positions: Seq<Position>, owner: [u8; 32]) -> Option<int> {
    first_where(positions, position_of(owner))
}

/// The index of the position that `owner` has or can be given.
pub open spec fn position_claim(positions: Seq<Position>, owner: [u8; 32]) -> Option<int> {
    match position_slot(positions, owner) {
        Some(i) => Some(i),
        None => first_where(positions, empty_position()),
    }
}

/// The positions once `owner` has one, where there is room: an empty slot keeps its other fields.
pub open spec fn position_claimed(positions: Seq<Position>, owner: [u8; 32]) -> Seq<Position> {
    match position_slot(positions, owner) {
        Some(_) => positions,
        None => match first_where(positions, empty_position()) {
            Some(i) => positions.update(i, Position { owner, is_active: 1, ..positions[i] }),
            None => positions,
        },
    }
}

/// Fixed-size array of positions, searched from the front.
#[derive(Copy, Clone)]
pub struct PositionMap {
    pub positions: [Position; MAX_POSITIONS],
}

impl PositionMap {
    /// A table of empty slots.
    pub fn zeroed() -> (map: PositionMap)
        ensures
            map.positions@ == Seq::new(MAX_POSITIONS as nat, |i: int| blank_position()),
    {
        let map = PositionMap { positions: [Position::default();MAX_POSITIONS] };
        assert(map.positions@ =~= Seq::new(MAX_POSITIONS as nat, |i: int| blank_position()));
        map
    }

    /// Finds a position by owner. Gives its index.
    pub fn find(&self, owner: &[u8; 32]) -> (found: Option<usize>)
        ensures
            match found {
                Some(i) => position_slot(self.positions@, *owner) == Some(i as int)
                    && is_first_where(self.positions@, position_of(*owner), i as int),
                None => position_slot(self.positions@, *owner) is None && forall|j: int|
                    0 <= j < MAX_POSITIONS ==> !position_of(*owner)(#[trigger] self.positions@[j]),
            },
            found matches Some(i) ==> i < MAX_POSITIONS,
    {
        let mut i: usize = 0;
        while i < MAX_POSITIONS
            invariant
                i <= MAX_POSITIONS,
                forall|j: int|
                    0 <= j < i ==> !position_of(*owner)(#[trigger] self.positions@[j]),
            decreases MAX_POSITIONS - i,
        {
            if self.positions[i].is_active == 1 && same_key(&self.positions[i].owner, owner) {
                proof {
                    lemma_first_where(self.positions@, position_of(*owner), i as int);
                }
                return Some(i);
            }
            i += 1;
        }
        None
    }

    /// Finds the first empty slot.
    fn find_empty(&self) -> (found: Option<usize>)
        ensures
            match found {
                Some(i) => first_where(self.positions@, empty_position()) == Some(i as int),
                None => first_where(self.positions@, empty_position()) is None,
            },
            found matches Some(i) ==> i < MAX_POSITIONS,
    {
        let mut i: usize = 0;
        while i < MAX_POSITIONS
            invariant
                i <= MAX_POSITIONS,
                forall|j: int| 0 <= j < i ==> !empty_position()(#[trigger] self.positions@[j]),
            decreases MAX_POSITIONS - i,
        {
            if self.positions[i].is_active == 0 {
                proof {
                    lemma_first_where(self.positions@, empty_position(), i as int);
                }
                return Some(i);
            }
            i += 1;
        }
        None
    }

    /// Finds or allocates a slot for an owner. Gives its index.
    pub fn find_or_alloc(&mut self, owner: &[u8; 32]) -> (found: Option<usize>)
        ensures
            match found {
                Some(i) => position_claim(old(self).positions@, *owner) == Some(i as int),
                None => position_claim(old(self).positions@, *owner) is None,
            },
            found matches Some(i) ==> i < MAX_POSITIONS,
            final(self).positions@ == position_claimed(old(self).positions@, *owner),
    {
        if let Some(idx) = self.find(owner) {
            return Some(idx);
        }
        match self.find_empty() {
            Some(idx) => {
                self.positions[idx].owner = *owner;
                self.positions[idx].is_active = 1;
                assert(self.positions@ =~= position_claimed(old(self).positions@, *owner));
                Some(idx)
            },
            None => None,
        }
    }

    /// Closes a position: the slot is empty again.
    pub fn close(&mut self, idx: usize)
        requires
            idx < MAX_POSITIONS,
        ensures
            final(self).positions@ == old(self).positions@.update(idx as int, blank_position()),
    {
        self.positions[idx] = Position::default();
    }
}

/// The number of margin balances.
pub const MAX_USERS: usize = 256;

/// A user's margin balance.
#[derive(Copy, Clone, Default, PartialEq, Eq, Debug)]
pub struct UserMargin {
    pub owner: [u8; 32],
    pub balance: u64,
    pub is_active: u64,
}

/// An empty slot with every field zero.
pub open spec fn blank_margin() -> UserMargin {
    UserMargin { owner: blank_key(), balance: 0, is_active: 0 }
}

/// The slot is active and belongs to `owner`.
pub open spec fn margin_of(owner: [u8; 32]) -> spec_fn(UserMargin) -> bool {
    |u: UserMargin| u.is_active == 1 && u.owner == owner
}

/// The slot is empty.
pub open spec fn empty_margin() -> spec_fn(UserMargin) -> bool {
    |u: UserMargin| u.is_active == 0
}

/// The index of `owner`'s balance.
pub open spec fn margin_slot(users: Seq<UserMargin>, owner: [u8; 32]) -> Option<int> {
    first_where(users, margin_of(owner))
}

/// The index of the balance that `owner` has or can be given.
pub open spec fn margin_claim(users: Seq<UserMargin>, owner: [u8; 32]) -> Option<int> {
    match margin_slot(users, owner) {
        Some(i) => Some(i),
        None => first_where(users, empty_margin()),
    }
}

/// The balances once `owner` has one, where there is room: an empty slot keeps its balance.
pub open spec fn margin_claimed(users: Seq<UserMargin>, owner: [u8; 32]) -> Seq<UserMargin> {
    match margin_slot(users, owner) {
        Some(_) => users,
        None => match first_where(users, empty_margin()) {
            Some(i) => users.update(i, UserMargin { owner, is_active: 1, ..users[i] }),
            None => users,
        },
    }
}

/// `owner`'s balance: 0 where there is none.
pub open spec fn balance_of(users: Seq<UserMargin>, owner: [u8; 32]) -> u64 {
    match margin_slot(users, owner) {
        Some(i) => users[i].balance,
        None => 0,
    }
}

/// `owner` can be credited: there is a slot, and the sum fits in it.
pub open spec fn can_credit(users: Seq<UserMargin>, owner: [u8; 32], amount: u64) -> bool {
    margin_claim(users, owner) matches Some(i) && users[i].balance + amount <= u64::MAX
}

/// The balances after a credit. One that does not fit still claims the slot.
pub open spec fn credited(users: Seq<UserMargin>, owner: [u8; 32], amount: u64) -> Seq<UserMargin> {
    let claimed = margin_claimed(users, owner);
    if can_credit(users, owner, amount) {
        let i = margin_claim(users, owner)->Some_0;
        claimed.update(
            i,
            UserMargin { balance: (claimed[i].balance + amount) as u64, ..claimed[i] },
        )
    } else {
        claimed
    }
}

/// `owner` can be debited: the balance covers the amount.
pub open spec fn can_debit(users: Seq<UserMargin>, owner: [u8; 32], amount: u64) -> bool {
    margin_slot(users, owner) matches Some(i) && users[i].balance >= amount
}

/// The balances after a debit.
pub open spec fn debited(users: Seq<UserMargin>, owner: [u8; 32], amount: u64) -> Seq<UserMargin> {
    if can_debit(users, owner, amount) {
        let i = margin_slot(users, owner)->Some_0;
        users.update(i, UserMargin { balance: (users[i].balance - amount) as u64, ..users[i] })
    } else {
        users
    }
}

/// Fixed-size array of margin balances, searched from the front.
#[derive(Copy, Clone)]
pub struct MarginMap {
    pub users: [UserMargin; MAX_USERS],
}

impl MarginMap {
    /// A table of empty slots.
    pub fn zeroed() -> (map: MarginMap)
        ensures
            map.users@ == Seq::new(MAX_USERS as nat, |i: int| blank_margin()),
    {
        let empty = UserMargin { owner: [0u8; 32], balance: 0, is_active: 0 };
        let map = MarginMap { users: [empty;MAX_USERS] };
        assert(map.users@ =~= Seq::new(MAX_USERS as nat, |i: int| blank_margin()));
        map
    }

    /// Finds a balance by owner. Gives its index.
    pub fn find(&self, owner: &[u8; 32]) -> (found: Option<usize>)
        ensures
            match found {
                Some(i) => margin_slot(self.users@, *owner) == Some(i as int)
                    && is_first_where(self.users@, margin_of(*owner), i as int),
                None => margin_slot(self.users@, *owner) is None && forall|j: int|
                    0 <= j < MAX_USERS ==> !margin_of(*owner)(#[trigger] self.users@[j]),
            },
            found matches Some(i) ==> i < MAX_USERS,
    {
        let mut i: usize = 0;
        while i < MAX_USERS
            invariant
                i <= MAX_USERS,
                forall|j: int| 0 <= j < i ==> !margin_of(*owner)(#[trigger] self.users@[j]),
            decreases MAX_USERS - i,
        {
            if self.users[i].is_active == 1 && same_key(&self.users[i].owner, owner) {
                proof {
                    lemma_first_where(self.users@, margin_of(*owner), i as int);
                }
                return Some(i);
            }
            i += 1;
        }
        None
    }

    /// Finds the first empty slot.
    fn find_empty(&self) -> (found: Option<usize>)
        ensures
            match found {
                Some(i) => first_where(self.users@, empty_margin()) == Some(i as int),
                None => first_where(self.users@, empty_margin()) is None,
            },
            found matches Some(i) ==> i < MAX_USERS,
    {
        let mut i: usize = 0;
        while i < MAX_USERS
            invariant
                i <= MAX_USERS,
                forall|j: int| 0 <= j < i ==> !empty_margin()(#[trigger] self.users@[j]),
            decreases MAX_USERS - i,
        {
            if self.users[i].is_active == 0 {
                proof {
                    lemma_first_where(self.users@, empty_margin(), i as int);
                }
                return Some(i);
            }
            i += 1;
        }
        None
    }

    /// Finds or allocates a slot for an owner. Gives its index.
    pub fn find_or_alloc(&mut self, owner: &[u8; 32]) -> (found: Option<usize>)
        ensures
            match found {
                Some(i) => margin_claim(old(self).users@, *owner) == Some(i as int),
                None => margin_claim(old(self).users@, *owner) is None,
            },
            found matches Some(i) ==> i < MAX_USERS,
            final(self).users@ == margin_claimed(old(self).users@, *owner),
    {
        if let Some(idx) = self.find(owner) {
            return Some(idx);
        }
        match self.find_empty() {
            Some(idx) => {
                self.users[idx].owner = *owner;
                self.users[idx].is_active = 1;
                assert(self.users@ =~= margin_claimed(old(self).users@, *owner));
                Some(idx)
            },
            None => None,
        }
    }

    /// The balance of an owner: 0 where there is none.
    pub fn get_balance(&self, owner: &[u8; 32]) -> (balance: u64)
        ensures
            balance == balance_of(self.users@, *owner),
    {
        match self.find(owner) {
            Some(idx) => self.users[idx].balance,
            None => 0,
        }
    }

    /// Adds to an owner's balance. Gives `None` where there is no slot or the sum does not fit.
    pub fn credit(&mut self, owner: &[u8; 32], amount: u64) -> (done: Option<()>)
        ensures
            done is Some <==> can_credit(old(self).users@, *owner, amount),
            final(self).users@ == credited(old(self).users@, *owner, amount),
            margins_ok(old(self).users@) ==> margins_ok(final(self).users@),
            starts_blank(old(self).users@, *owner) ==> balance_of(final(self).users@, *owner)
                == balance_of(old(self).users@, *owner) + if done is Some {
                amount as int
            } else {
                0
            },
    {
        proof {
            law_credit(self.users@, *owner, amount);
        }
        match self.find_or_alloc(owner) {
            Some(idx) => {
                match self.users[idx].balance.checked_add(amount) {
                    Some(balance) => {
                        self.users[idx].balance = balance;
                        assert(self.users@ =~= credited(old(self).users@, *owner, amount));
                        Some(())
                    },
                    None => None,
                }
            },
            None => None,
        }
    }

    /// Takes from an owner's balance. Gives `None`, changing nothing, where it does not cover the
    /// amount.
    pub fn debit(&mut self, owner: &[u8; 32], amount: u64) -> (done: Option<()>)
        ensures
            done is Some <==> can_debit(old(self).users@, *owner, amount),
            final(self).users@ == debited(old(self).users@, *owner, amount),
            margins_ok(old(self).users@) ==> margins_ok(final(self).users@),
            balance_of(final(self).users@, *owner) == balance_of(old(self).users@, *owner)
                - if done is Some {
                amount as int
            } else {
                0
            },
    {
        proof {
            law_debit(self.users@, *owner, amount);
        }
        match self.find(owner) {
            Some(idx) => {
                if self.users[idx].balance < amount {
                    return None;
                }
                self.users[idx].balance = self.users[idx].balance - amount;
                assert(self.users@ =~= debited(old(self).users@, *owner, amount));
                Some(())
            },
            None => None,
        }
    }
}

} // verus!
