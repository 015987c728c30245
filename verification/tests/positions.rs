use perps::positions::{
    notional, MarginMap, Position, PositionMap, UserMargin, MAX_POSITIONS, MAX_USERS,
};
use perps::state::{PerpsState, MAINTENANCE_MARGIN_BPS};

fn position(side: u64, size: u64, entry_price: u64) -> Position {
    Position { owner: [9; 32], size, entry_price, side, is_active: 1 }
}

#[test]
fn test_margin_deposit_withdraw() {
    let mut state = PerpsState::new_boxed();
    let user = [42u8; 32];

    state.margins.credit(&user, 1000).unwrap();
    assert_eq!(state.margins.get_balance(&user), 1000);

    state.margins.debit(&user, 300).unwrap();
    assert_eq!(state.margins.get_balance(&user), 700);

    // Overdraw should fail
    assert!(state.margins.debit(&user, 800).is_none());
    assert_eq!(state.margins.get_balance(&user), 700);
}

#[test]
fn gains_and_losses() {
    assert!(position(0, 1, 1).is_long());
    assert!(!position(1, 1, 1).is_long());
    assert_eq!(position(0, 3, 10).unrealized_pnl(15), (15, true));
    assert_eq!(position(0, 3, 10).unrealized_pnl(8), (6, false));
    assert_eq!(position(1, 3, 10).unrealized_pnl(15), (15, false));
    assert_eq!(position(1, 3, 10).unrealized_pnl(8), (6, true));
    assert_eq!(position(0, 3, 10).unrealized_pnl(10), (0, true));
    assert_eq!(position(1, 3, 10).unrealized_pnl(10), (0, true));
}

#[test]
fn a_gain_beyond_64_bits_counts_as_nothing() {
    assert_eq!(position(0, 2, 0).unrealized_pnl(u64::MAX), (0, true));
    assert_eq!(position(1, 2, 0).unrealized_pnl(u64::MAX), (0, false));
    assert_eq!(position(0, 1, 0).unrealized_pnl(u64::MAX), (u64::MAX, true));
}

#[test]
fn notional_saturates() {
    assert_eq!(notional(150, 10), 1500);
    assert_eq!(notional(u64::MAX, 2), u64::MAX);
    assert_eq!(notional(u64::MAX, 0), 0);
}

#[test]
fn liquidatable_just_under_the_required_margin() {
    // At 1000 the value of 100 units is 100_000, of which 5% are 5000.
    let p = position(0, 100, 1000);
    assert!(!p.is_liquidatable(1000, 5000, MAINTENANCE_MARGIN_BPS));
    assert!(p.is_liquidatable(1000, 4999, MAINTENANCE_MARGIN_BPS));
    // At 900 the loss is 10_000 and 4500 are required.
    assert!(!p.is_liquidatable(900, 14_500, MAINTENANCE_MARGIN_BPS));
    assert!(p.is_liquidatable(900, 14_499, MAINTENANCE_MARGIN_BPS));
    // A short gains as much.
    let p = position(1, 100, 1000);
    assert!(!p.is_liquidatable(900, 0, MAINTENANCE_MARGIN_BPS));
}

#[test]
fn a_small_value_needs_margin_too() {
    // 19_999 * 500 / 10_000 = 999
    let p = position(0, 1, 19_999);
    assert!(!p.is_liquidatable(19_999, 999, 500));
    assert!(p.is_liquidatable(19_999, 998, 500));
    // 9_999 * 500 / 10_000 = 499
    let p = position(0, 1, 9_999);
    assert!(!p.is_liquidatable(9_999, 499, 500));
    assert!(p.is_liquidatable(9_999, 498, 500));
    assert!(p.is_liquidatable(9_999, 0, 500));
    // 19 * 500 / 10_000 = 0
    assert!(!position(0, 1, 19).is_liquidatable(19, 0, 500));
}

#[test]
fn the_required_margin_may_exceed_64_bits() {
    let p = position(0, 1, u64::MAX);
    assert!(p.is_liquidatable(u64::MAX, u64::MAX, 20_000));
    assert!(p.is_liquidatable(u64::MAX, u64::MAX, u64::MAX));
    assert!(!p.is_liquidatable(u64::MAX, u64::MAX, 10_000));
    assert!(p.is_liquidatable(u64::MAX, u64::MAX - 1, 10_000));
}

#[test]
fn an_empty_or_inactive_position_is_not_liquidatable() {
    assert!(!position(0, 0, 1000).is_liquidatable(1_000_000, 0, 500));
    let p = Position { is_active: 0, ..position(0, 100, 1000) };
    assert!(!p.is_liquidatable(1000, 0, 500));
}

#[test]
fn positions_are_found_claimed_and_closed() {
    let mut map = PositionMap::zeroed();
    assert_eq!(map.find(&[1; 32]), None);
    assert_eq!(map.find_or_alloc(&[1; 32]), Some(0));
    assert_eq!(map.find_or_alloc(&[2; 32]), Some(1));
    assert_eq!(map.find_or_alloc(&[1; 32]), Some(0));
    assert_eq!(map.find(&[2; 32]), Some(1));
    map.positions[0].size = 5;
    map.close(0);
    assert_eq!(map.positions[0], Position::default());
    assert_eq!(map.find(&[1; 32]), None);
    assert_eq!(map.find_or_alloc(&[3; 32]), Some(0));
}

#[test]
fn an_inactive_key_is_not_found() {
    let mut map = PositionMap::zeroed();
    assert_eq!(map.find(&[0; 32]), None);
    assert_eq!(map.find_or_alloc(&[0; 32]), Some(0));
    assert_eq!(map.find(&[0; 32]), Some(0));
}

fn key(i: usize) -> [u8; 32] {
    let mut key = [7; 32];
    key[30] = (i / 256) as u8;
    key[31] = (i % 256) as u8;
    key
}

#[test]
fn a_full_table_of_positions() {
    let mut map = PositionMap::zeroed();
    for i in 0..MAX_POSITIONS {
        assert_eq!(map.find_or_alloc(&key(i)), Some(i));
    }
    assert_eq!(map.find_or_alloc(&key(1000)), None);
    assert_eq!(map.find_or_alloc(&key(255)), Some(255));
}

#[test]
fn a_full_table_of_balances() {
    let mut map = MarginMap::zeroed();
    for i in 0..MAX_USERS {
        assert_eq!(map.credit(&key(i), i as u64), Some(()));
    }
    assert_eq!(map.find_or_alloc(&key(1000)), None);
    assert_eq!(map.credit(&key(1000), 1), None);
    assert_eq!(map.get_balance(&key(1000)), 0);
    assert_eq!(map.get_balance(&key(200)), 200);
    assert_eq!(map.find(&key(200)), Some(200));
}

#[test]
fn a_credit_that_does_not_fit_claims_a_slot_only() {
    let mut map = MarginMap::zeroed();
    map.credit(&[1; 32], u64::MAX).unwrap();
    assert_eq!(map.credit(&[1; 32], 1), None);
    assert_eq!(map.get_balance(&[1; 32]), u64::MAX);
    map.users[1].balance = u64::MAX;
    assert_eq!(map.credit(&[2; 32], 1), None);
    assert_eq!(map.users[1], UserMargin { owner: [2; 32], balance: u64::MAX, is_active: 1 });
}

#[test]
fn a_debit_needs_a_slot() {
    let mut map = MarginMap::zeroed();
    assert_eq!(map.debit(&[1; 32], 0), None);
    map.credit(&[1; 32], 0).unwrap();
    assert_eq!(map.debit(&[1; 32], 0), Some(()));
}

#[test]
fn deposits_and_withdrawals_leave_others_alone() {
    let mut map = MarginMap::zeroed();
    map.credit(&[1; 32], 100).unwrap();
    map.credit(&[2; 32], 50).unwrap();
    map.debit(&[1; 32], 30).unwrap();
    map.credit(&[1; 32], 30).unwrap();
    assert_eq!(map.get_balance(&[1; 32]), 100);
    assert_eq!(map.get_balance(&[2; 32]), 50);
    map.credit(&[2; 32], 25).unwrap();
    map.debit(&[2; 32], 25).unwrap();
    assert_eq!(map.get_balance(&[2; 32]), 50);
    let total: u64 = map.users.iter().map(|u| u.balance).sum();
    assert_eq!(total, 150);
}
