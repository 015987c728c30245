use perps::async_instructions::{Outcome, PerpsAsyncIx, PerpsAsyncIxArgs};
use perps::positions::Position;
use perps::settlement;
use perps::state::{PerpsState, QueuedInstruction};

const MAKER: [u8; 32] = [1; 32];
const TAKER: [u8; 32] = [2; 32];

fn state_with_margin(amount: u64) -> Box<PerpsState> {
    let mut state = PerpsState::new_boxed();
    state.margins.credit(&MAKER, amount).unwrap();
    state.margins.credit(&TAKER, amount).unwrap();
    state
}

fn position_of(state: &PerpsState, user: &[u8; 32]) -> (u64, u64, u64) {
    let p = &state.positions.positions[state.positions.find(user).unwrap()];
    (p.side, p.size, p.entry_price)
}

fn give_position(state: &mut PerpsState, user: [u8; 32], side: u64, size: u64, entry_price: u64) {
    let idx = state.positions.find_or_alloc(&user).unwrap();
    state.positions.positions[idx] =
        Position { owner: user, size, entry_price, side, is_active: 1 };
}

#[test]
fn test_settlement_basic() {
    let mut state = PerpsState::new_boxed();

    let maker = [1u8; 32];
    let taker = [2u8; 32];

    // Give both users margin
    state.margins.credit(&maker, 100_000_000).unwrap();
    state.margins.credit(&taker, 100_000_000).unwrap();

    // Maker places an ask at price 150
    let price = 150u64;
    let size = 10u64;
    state.orderbook.place_ask(price, size, maker, 0);

    // Taker buys (side=0) at limit price 150
    let filled = settlement::execute_take(&mut state, &taker, price, size, 0);
    assert_eq!(filled, size, "Should fill entire order");

    // Taker should have a long position
    let taker_idx = state.positions.find(&taker).unwrap();
    let taker_pos = &state.positions.positions[taker_idx];
    assert_eq!(taker_pos.side, 0, "Taker should be long");
    assert_eq!(taker_pos.size, size);
    assert_eq!(taker_pos.entry_price, price);

    // Maker should have a short position
    let maker_idx = state.positions.find(&maker).unwrap();
    let maker_pos = &state.positions.positions[maker_idx];
    assert_eq!(maker_pos.side, 1, "Maker should be short");
    assert_eq!(maker_pos.size, size);
}

#[test]
fn a_take_sweeps_the_levels_from_the_best_on() {
    let mut state = state_with_margin(1_000);
    state.orderbook.place_ask(108, 10, MAKER, 3);
    state.orderbook.place_ask(106, 20, MAKER, 1);
    state.orderbook.place_ask(107, 15, MAKER, 2);
    let filled = settlement::execute_take(&mut state, &TAKER, 110, 40, 0);
    assert_eq!(filled, 40);
    let (id, left) = state.orderbook.best_ask().unwrap();
    assert_eq!((id.seq, left.price, left.size), (3, 108, 5));
    assert_eq!(state.orderbook.asks.len(), 1);
    // 20 at 106 put up 212, 15 at 107 put up 160, 5 at 108 put up 54.
    assert_eq!(state.margins.get_balance(&TAKER), 1_000 - 212 - 160 - 54);
    assert_eq!(state.margins.get_balance(&MAKER), 1_000 + 212 + 160 + 54);
    assert_eq!(position_of(&state, &TAKER), (0, 40, 106));
    assert_eq!(position_of(&state, &MAKER), (1, 40, 106));
}

#[test]
fn three_layers_of_asks() {
    let mut state = state_with_margin(10_000);
    for (seq, price) in [(1, 150), (2, 152), (3, 154)] {
        state.orderbook.place_ask(price, 10, MAKER, seq);
    }
    assert_eq!(settlement::execute_take(&mut state, &TAKER, 157, 25, 0), 25);
    assert_eq!(state.margins.get_balance(&TAKER), 10_000 - 150 - 152 - 77);
    assert_eq!(position_of(&state, &TAKER), (0, 25, 151));
    assert_eq!(state.orderbook.best_ask().unwrap().1.size, 5);
}

#[test]
fn a_take_stops_at_its_limit() {
    let mut state = state_with_margin(1_000);
    state.orderbook.place_ask(100, 5, MAKER, 1);
    state.orderbook.place_ask(102, 5, MAKER, 2);
    assert_eq!(settlement::execute_take(&mut state, &TAKER, 101, 10, 0), 5);
    assert_eq!(state.orderbook.best_ask().unwrap().1.price, 102);
    assert_eq!(settlement::execute_take(&mut state, &TAKER, 101, 10, 0), 0);
    assert_eq!(settlement::execute_take(&mut state, &TAKER, 102, 0, 0), 0);
    assert_eq!(position_of(&state, &TAKER), (0, 5, 100));
}

#[test]
fn a_sale_meets_the_highest_bids() {
    let mut state = state_with_margin(1_000);
    state.orderbook.place_bid(98, 5, MAKER, 1);
    state.orderbook.place_bid(100, 5, MAKER, 2);
    state.orderbook.place_bid(99, 5, MAKER, 3);
    assert_eq!(settlement::execute_take(&mut state, &TAKER, 99, 20, 1), 10);
    let (_, left) = state.orderbook.best_bid().unwrap();
    assert_eq!((left.price, left.size), (98, 5));
    assert_eq!(position_of(&state, &TAKER), (1, 10, 99));
    assert_eq!(position_of(&state, &MAKER), (0, 10, 99));
    assert_eq!(state.margins.get_balance(&TAKER), 1_000 - 50 - 49);
}

#[test]
fn a_partial_fill_of_a_bid_leaves_the_rest() {
    let mut state = state_with_margin(1_000);
    state.orderbook.place_bid(100, 5, MAKER, 2);
    assert_eq!(settlement::execute_take(&mut state, &TAKER, 1, 2, 1), 2);
    assert_eq!(state.orderbook.best_bid().unwrap().1.size, 3);
}

#[test]
fn a_taker_without_margin_uses_up_the_order() {
    let mut state = PerpsState::new_boxed();
    state.margins.credit(&TAKER, 99).unwrap();
    state.orderbook.place_ask(100, 10, MAKER, 1);
    assert_eq!(settlement::execute_take(&mut state, &TAKER, 100, 10, 0), 10);
    assert_eq!(state.orderbook.asks.len(), 0);
    assert!(state.positions.find(&TAKER).is_none());
    assert!(state.positions.find(&MAKER).is_none());
    assert_eq!(state.margins.get_balance(&TAKER), 99);
    assert!(state.margins.find(&MAKER).is_none());
}

#[test]
fn an_order_of_no_size_is_cleared_away() {
    let mut state = state_with_margin(1_000);
    state.orderbook.place_ask(100, 0, MAKER, 1);
    state.orderbook.place_ask(101, 3, MAKER, 2);
    assert_eq!(settlement::execute_take(&mut state, &TAKER, 101, 3, 0), 3);
    assert_eq!(state.orderbook.asks.len(), 0);
    assert_eq!(position_of(&state, &TAKER), (0, 3, 101));
}

#[test]
fn adding_to_a_position_averages_the_entry_price() {
    let mut state = state_with_margin(100_000);
    give_position(&mut state, TAKER, 0, 30, 100);
    state.orderbook.place_ask(107, 10, MAKER, 1);
    settlement::execute_take(&mut state, &TAKER, 107, 10, 0);
    // (30 * 100 + 10 * 107) / 40 = 101.75
    assert_eq!(position_of(&state, &TAKER), (0, 40, 101));
}

#[test]
fn reducing_a_position_realizes_the_gain() {
    let mut state = state_with_margin(10_000);
    give_position(&mut state, TAKER, 0, 10, 100);
    state.orderbook.place_bid(120, 4, MAKER, 1);
    settlement::execute_take(&mut state, &TAKER, 120, 4, 1);
    assert_eq!(position_of(&state, &TAKER), (0, 6, 100));
    // 48 are put up, 80 are gained.
    assert_eq!(state.margins.get_balance(&TAKER), 10_000 - 48 + 80);
}

#[test]
fn reducing_a_position_realizes_the_loss() {
    let mut state = state_with_margin(10_000);
    give_position(&mut state, TAKER, 1, 10, 100);
    state.orderbook.place_ask(120, 4, MAKER, 1);
    settlement::execute_take(&mut state, &TAKER, 120, 4, 0);
    assert_eq!(position_of(&state, &TAKER), (1, 6, 100));
    assert_eq!(state.margins.get_balance(&TAKER), 10_000 - 48 - 80);
}

#[test]
fn closing_a_position_frees_its_slot() {
    let mut state = state_with_margin(10_000);
    give_position(&mut state, TAKER, 0, 10, 100);
    state.orderbook.place_bid(90, 10, MAKER, 1);
    settlement::execute_take(&mut state, &TAKER, 90, 10, 1);
    assert!(state.positions.find(&TAKER).is_none());
    assert_eq!(state.margins.get_balance(&TAKER), 10_000 - 90 - 100);
    // The maker gets the freed slot.
    assert_eq!(state.positions.find(&MAKER), Some(0));
}

#[test]
fn a_larger_fill_flips_the_position() {
    let mut state = state_with_margin(10_000);
    give_position(&mut state, TAKER, 0, 10, 100);
    state.orderbook.place_bid(110, 25, MAKER, 1);
    settlement::execute_take(&mut state, &TAKER, 110, 25, 1);
    assert_eq!(position_of(&state, &TAKER), (1, 15, 110));
    assert_eq!(position_of(&state, &MAKER), (0, 25, 110));
    // 275 are put up, 100 are gained.
    assert_eq!(state.margins.get_balance(&TAKER), 10_000 - 275 + 100);
}

#[test]
fn long_and_short_units_balance() {
    let mut state = state_with_margin(100_000);
    give_position(&mut state, TAKER, 1, 7, 100);
    give_position(&mut state, MAKER, 0, 7, 100);
    state.orderbook.place_ask(101, 12, MAKER, 1);
    state.orderbook.place_ask(103, 12, [3; 32], 2);
    settlement::execute_take(&mut state, &TAKER, 103, 20, 0);
    let mut net: i128 = 0;
    for p in state.positions.positions.iter() {
        net += if p.side == 0 { p.size as i128 } else { -(p.size as i128) };
    }
    assert_eq!(net, 0);
    assert_eq!(position_of(&state, &TAKER), (0, 13, 102));
}

#[test]
fn opening_and_closing_restores_the_table() {
    let mut state = state_with_margin(10_000);
    give_position(&mut state, [5; 32], 1, 3, 70);
    give_position(&mut state, MAKER, 0, 1_000, 90);
    let before = state.positions;
    state.orderbook.place_ask(100, 10, MAKER, 1);
    assert_eq!(settlement::execute_take(&mut state, &TAKER, 100, 10, 0), 10);
    assert_eq!(position_of(&state, &TAKER), (0, 10, 100));
    state.orderbook.place_bid(104, 10, [5; 32], 1);
    assert_eq!(settlement::execute_take(&mut state, &TAKER, 104, 10, 1), 10);
    assert_eq!(state.positions.positions[2], before.positions[2]);
    assert!(state.positions.find(&TAKER).is_none());
    // 100 and 104 are put up, 40 are gained.
    assert_eq!(state.margins.get_balance(&TAKER), 10_000 - 100 - 104 + 40);
}

#[test]
fn a_fill_moves_taker_and_maker_and_nobody_else() {
    let mut state = state_with_margin(10_000);
    let third = [3u8; 32];
    state.margins.credit(&third, 77).unwrap();
    give_position(&mut state, third, 1, 3, 70);
    give_position(&mut state, MAKER, 0, 4, 100);
    state.orderbook.place_ask(100, 10, MAKER, 1);
    assert_eq!(settlement::execute_take(&mut state, &TAKER, 100, 10, 0), 10);
    assert_eq!(position_of(&state, &TAKER), (0, 10, 100));
    assert_eq!(position_of(&state, &MAKER), (1, 6, 100));
    assert_eq!(position_of(&state, &third), (1, 3, 70));
    assert_eq!(state.margins.get_balance(&third), 77);
}

/// One unit worth 9_999 needs 499.
#[test]
fn a_small_position_is_liquidated_too() {
    let mut state = PerpsState::new_boxed();
    state.margins.credit(&TAKER, 498).unwrap();
    give_position(&mut state, TAKER, 0, 1, 9_999);
    state.oracle_price = 9_999;
    assert!(settlement::execute_liquidation(&mut state, &TAKER, &MAKER));
    assert_eq!(state.margins.get_balance(&MAKER), 249);
}

#[test]
fn a_position_that_does_not_fit() {
    let mut state = state_with_margin(u64::MAX / 2);
    give_position(&mut state, TAKER, 0, u64::MAX - 1, 1);
    state.orderbook.place_ask(1, 5, MAKER, 1);
    assert_eq!(settlement::checked_execute_take(&mut state, &TAKER, 1, 5, 0), None);
    let mut state = state_with_margin(u64::MAX / 2);
    give_position(&mut state, TAKER, 0, 1, u64::MAX);
    state.orderbook.place_ask(1, 5, MAKER, 1);
    assert_eq!(settlement::checked_execute_take(&mut state, &TAKER, 1, 5, 0), None);
    let mut state = state_with_margin(1_000);
    state.orderbook.place_ask(1, 5, MAKER, 1);
    assert_eq!(settlement::checked_execute_take(&mut state, &TAKER, 1, 5, 0), Some(5));
}

#[test]
fn a_sound_position_is_not_liquidated() {
    let mut state = PerpsState::new_boxed();
    assert!(!settlement::execute_liquidation(&mut state, &TAKER, &MAKER));
    state.margins.credit(&TAKER, 5_000).unwrap();
    give_position(&mut state, TAKER, 0, 100, 1_000);
    state.oracle_price = 1_000;
    assert!(!settlement::execute_liquidation(&mut state, &TAKER, &MAKER));
    assert_eq!(position_of(&state, &TAKER), (0, 100, 1_000));
    assert_eq!(state.margins.get_balance(&TAKER), 5_000);
}

#[test]
fn a_liquidation_closes_and_rewards() {
    let mut state = PerpsState::new_boxed();
    state.margins.credit(&TAKER, 14_001).unwrap();
    give_position(&mut state, TAKER, 0, 100, 1_000);
    // At 900 the loss is 10_000, and 4500 are required.
    state.oracle_price = 900;
    assert!(settlement::execute_liquidation(&mut state, &TAKER, &MAKER));
    assert!(state.positions.find(&TAKER).is_none());
    // 4001 are left, half of which is 2000.
    assert_eq!(state.margins.get_balance(&TAKER), 2_001);
    assert_eq!(state.margins.get_balance(&MAKER), 2_000);
    assert!(!settlement::execute_liquidation(&mut state, &TAKER, &MAKER));
}

#[test]
fn a_loss_beyond_the_margin_is_not_debited() {
    let mut state = PerpsState::new_boxed();
    state.margins.credit(&TAKER, 6_000).unwrap();
    give_position(&mut state, TAKER, 0, 100, 1_000);
    state.oracle_price = 900;
    assert!(settlement::execute_liquidation(&mut state, &TAKER, &MAKER));
    assert_eq!(state.margins.get_balance(&TAKER), 3_000);
    assert_eq!(state.margins.get_balance(&MAKER), 3_000);
}

fn queued(user: [u8; 32], price: u64, size: u64, side: u64, order_seq: u64) -> PerpsAsyncIxArgs {
    PerpsAsyncIxArgs {
        queued: QueuedInstruction {
            user,
            ix_type: 0,
            price,
            size,
            side,
            order_seq,
            extra_user: MAKER,
        },
    }
}

#[test]
fn placing_reserves_and_cancelling_returns() {
    for side in [0, 1] {
        let mut state = state_with_margin(1_000);
        let args = queued(MAKER, 155, 3, side, 4);
        assert_eq!(PerpsAsyncIx::PlaceOrder.process(&args, &mut state), Ok(()));
        assert_eq!(state.margins.get_balance(&MAKER), 1_000 - 46);
        assert_eq!(state.orderbook.bids.len() + state.orderbook.asks.len(), 1);
        assert_eq!(PerpsAsyncIx::Cancel.process(&args, &mut state), Ok(()));
        assert_eq!(state.margins.get_balance(&MAKER), 1_000);
        assert_eq!(state.orderbook.bids.len() + state.orderbook.asks.len(), 0);
    }
}

/// 46 are reserved for 15 units at 31 and come back: 12 for 4 filled ones, 34 for the other 11.
#[test]
fn a_partly_filled_order_returns_its_margin() {
    let mut state = state_with_margin(1_000);
    let args = queued(MAKER, 31, 15, 1, 4);
    assert_eq!(PerpsAsyncIx::PlaceOrder.process(&args, &mut state), Ok(()));
    assert_eq!(state.margins.get_balance(&MAKER), 1_000 - 46);
    assert_eq!(settlement::execute_take(&mut state, &TAKER, 31, 4, 0), 4);
    assert_eq!(state.margins.get_balance(&MAKER), 1_000 - 46 + 12);
    assert_eq!(PerpsAsyncIx::Cancel.process(&args, &mut state), Ok(()));
    assert_eq!(state.margins.get_balance(&MAKER), 1_000 - 46 + 12 + 34);
    assert_eq!(state.margins.get_balance(&TAKER), 1_000 - 12);
}

#[test]
fn the_one_who_cancels_gets_the_margin() {
    let mut state = state_with_margin(1_000);
    let place = queued(MAKER, 100, 10, 1, 4);
    assert_eq!(PerpsAsyncIx::PlaceOrder.process(&place, &mut state), Ok(()));
    let cancel = queued(TAKER, 100, 0, 1, 4);
    assert_eq!(PerpsAsyncIx::Cancel.process(&cancel, &mut state), Ok(()));
    assert_eq!(state.margins.get_balance(&MAKER), 900);
    assert_eq!(state.margins.get_balance(&TAKER), 1_100);
}

#[test]
fn an_order_without_margin_is_not_placed() {
    let mut state = state_with_margin(99);
    let place = queued(MAKER, 100, 10, 1, 4);
    assert_eq!(PerpsAsyncIx::PlaceOrder.process(&place, &mut state), Ok(()));
    assert_eq!(state.orderbook.asks.len(), 0);
    assert_eq!(state.margins.get_balance(&MAKER), 99);
}

#[test]
fn an_order_without_room_is_refunded() {
    let mut state = state_with_margin(1_000);
    for seq in 0..1024 {
        assert!(state.orderbook.place_bid(5, 1, TAKER, seq));
    }
    let place = queued(MAKER, 100, 10, 0, 5000);
    assert_eq!(
        PerpsAsyncIx::PlaceOrder.checked_process(&place, &mut state),
        Some(Outcome::BookFull)
    );
    assert_eq!(state.orderbook.bids.len(), 1024);
    assert_eq!(state.margins.get_balance(&MAKER), 1_000);
}

#[test]
fn cancelling_what_is_not_there_changes_nothing() {
    let mut state = state_with_margin(1_000);
    let cancel = queued(MAKER, 100, 0, 0, 4);
    assert_eq!(PerpsAsyncIx::Cancel.process(&cancel, &mut state), Ok(()));
    assert_eq!(state.margins.get_balance(&MAKER), 1_000);
}

#[test]
fn a_queued_take_and_a_queued_liquidation() {
    let mut state = state_with_margin(1_000);
    state.orderbook.place_ask(100, 10, MAKER, 1);
    let take = queued(TAKER, 100, 10, 0, 0);
    assert_eq!(
        PerpsAsyncIx::Take.checked_process(&take, &mut state),
        Some(Outcome::Taken(10))
    );
    assert_eq!(position_of(&state, &TAKER), (0, 10, 100));
    // 900 are left; at 5000 the maker's short has lost 49_000 and 2500 are required.
    state.oracle_price = 5_000;
    let liquidate = queued(MAKER, 0, 0, 0, 0);
    assert_eq!(
        PerpsAsyncIx::Liquidate.checked_process(&liquidate, &mut state),
        Some(Outcome::Liquidated)
    );
    assert!(state.positions.find(&MAKER).is_none());
}

/// A user who opens a position and closes it exactly leaves the table as it was, whatever other
/// users hold twice.
#[test]
fn one_user_opens_and_closes() {
    let mut state = state_with_margin(1_000);
    give_position(&mut state, MAKER, 0, 5, 50);
    state.positions.positions[1] = state.positions.positions[0];
    let before = state.positions;
    assert!(settlement::update_position(&mut state, &TAKER, 100, 7, 1));
    assert_eq!(position_of(&state, &TAKER), (1, 7, 100));
    assert_eq!(state.margins.get_balance(&TAKER), 1_000);
    assert!(settlement::update_position(&mut state, &TAKER, 90, 7, 0));
    assert!(state.positions.positions == before.positions);
    assert_eq!(state.margins.get_balance(&TAKER), 1_070);
}

#[test]
fn a_fill_by_itself() {
    let mut state = state_with_margin(1_000);
    assert!(settlement::settle_fill(&mut state, &MAKER, &TAKER, 100, 7, 1));
    assert_eq!(position_of(&state, &TAKER), (1, 7, 100));
    assert_eq!(position_of(&state, &MAKER), (0, 7, 100));
    assert_eq!(state.margins.get_balance(&TAKER), 930);
    assert_eq!(state.margins.get_balance(&MAKER), 1_070);
    settlement::realize_pnl(&mut state, &TAKER, 10, 15, 3, 0);
    assert_eq!(state.margins.get_balance(&TAKER), 945);
}

/// Two slots are left, and both are needed.
#[test]
fn two_free_slots_seat_taker_and_maker() {
    let mut state = state_with_margin(1_000);
    for i in 0..254u8 {
        let mut owner = [7u8; 32];
        owner[0] = i;
        give_position(&mut state, owner, 0, 1, 1);
    }
    assert!(settlement::settle_fill(&mut state, &MAKER, &TAKER, 100, 7, 0));
    assert_eq!(state.positions.find(&TAKER), Some(254));
    assert_eq!(state.positions.find(&MAKER), Some(255));
}
