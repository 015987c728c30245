use perps::async_instructions::{Outcome, PerpsAsyncIx};
use perps::error::ProgramError;
use perps::orderbook::{Order, OrderId};
use perps::state::{
    AsyncIxKey, PerpsAsyncIxType, PerpsState, QueuedInstruction, MAX_QUEUE,
};
use perps::QueueAsyncArgs;

fn args(user: u8, ix_type: PerpsAsyncIxType) -> QueueAsyncArgs {
    QueueAsyncArgs {
        user: [user; 32],
        ix_type,
        price: 0,
        size: 0,
        side: 0,
        order_seq: 0,
        extra_user: [0u8; 32],
    }
}

#[test]
fn test_priority_ordering() {
    let mut state = PerpsState::new_boxed();

    // Queue: Take, Cancel, PlaceOrder, Liquidate; they should come out in priority order.
    let queue_ix = |state: &mut PerpsState, ix_type: PerpsAsyncIxType| {
        let ix = PerpsAsyncIx::from_type(ix_type);
        let args = QueueAsyncArgs {
            user: [1u8; 32],
            ix_type,
            price: 100_000_000,
            size: 1,
            side: 0,
            order_seq: 0,
            extra_user: [2u8; 32],
        };
        state.queue_async(&ix, &args, 0).unwrap();
    };

    queue_ix(&mut state, PerpsAsyncIxType::Take);
    queue_ix(&mut state, PerpsAsyncIxType::Cancel);
    queue_ix(&mut state, PerpsAsyncIxType::PlaceOrder);
    queue_ix(&mut state, PerpsAsyncIxType::Liquidate);

    assert_eq!(state.async_queue.len(), 4);

    // Pop should give: Liquidate(0), Cancel(1), PlaceOrder(2), Take(3)
    let expected = [0u64, 1, 2, 3];
    for &exp in &expected {
        let node = state.pop_async().unwrap();
        assert_eq!(
            node.key.priority, exp,
            "Expected priority {}, got {}",
            exp, node.key.priority
        );
    }
}

#[test]
fn test_cancel_before_take_same_slot() {
    let mut state = PerpsState::new_boxed();

    // Queue a take first (seq=1)
    let take_args = QueueAsyncArgs {
        user: [10u8; 32],
        ix_type: PerpsAsyncIxType::Take,
        price: 100_000_000,
        size: 1,
        side: 0,
        order_seq: 0,
        extra_user: [0u8; 32],
    };
    state.queue_async(&PerpsAsyncIx::Take, &take_args, 0).unwrap();

    // Queue a cancel second (seq=2), which should still execute first
    let cancel_args = QueueAsyncArgs {
        user: [20u8; 32],
        ix_type: PerpsAsyncIxType::Cancel,
        price: 100_000_000,
        size: 0,
        side: 1,
        order_seq: 5,
        extra_user: [0u8; 32],
    };
    state.queue_async(&PerpsAsyncIx::Cancel, &cancel_args, 0).unwrap();

    let first = state.pop_async().unwrap();
    assert_eq!(first.key.priority, 1, "Cancel should execute before Take");
    assert_eq!(first.value.user, [20u8; 32]);

    let second = state.pop_async().unwrap();
    assert_eq!(second.key.priority, 3, "Take should execute after Cancel");
    assert_eq!(second.value.user, [10u8; 32]);
}

#[test]
fn test_fifo_within_same_priority() {
    let mut state = PerpsState::new_boxed();

    // Three cancels should come out in seq order (FIFO)
    for i in 0u8..3 {
        let args = QueueAsyncArgs {
            user: [i + 1; 32],
            ix_type: PerpsAsyncIxType::Cancel,
            price: 0,
            size: 0,
            side: 0,
            order_seq: 0,
            extra_user: [0u8; 32],
        };
        state.queue_async(&PerpsAsyncIx::Cancel, &args, 0).unwrap();
    }

    for i in 0u8..3 {
        let node = state.pop_async().unwrap();
        assert_eq!(node.value.user, [i + 1; 32], "FIFO order violated");
    }
}

#[test]
fn an_earlier_slot_comes_first_whatever_the_priority() {
    let mut state = PerpsState::new_boxed();
    let liquidate = args(2, PerpsAsyncIxType::Liquidate);
    state.queue_async(&PerpsAsyncIx::Liquidate, &liquidate, 8).unwrap();
    let take = args(1, PerpsAsyncIxType::Take);
    state.queue_async(&PerpsAsyncIx::Take, &take, 7).unwrap();
    assert_eq!(state.pop_async().unwrap().key.slot, 7);
    assert_eq!(state.pop_async().unwrap().key.slot, 8);
    assert!(state.pop_async().is_none());
}

#[test]
fn what_is_queued_is_what_comes_out() {
    let mut state = PerpsState::new_boxed();
    let mut user = [0u8; 32];
    let mut extra_user = [0u8; 32];
    for i in 0..32 {
        user[i] = i as u8;
        extra_user[i] = 255 - i as u8;
    }
    let args = QueueAsyncArgs {
        user,
        ix_type: PerpsAsyncIxType::PlaceOrder,
        price: 11,
        size: 22,
        side: 33,
        order_seq: u64::MAX,
        extra_user,
    };
    state.queue_async(&PerpsAsyncIx::PlaceOrder, &args, 9).unwrap();
    let (address, peeked) = state.peek_async().unwrap();
    assert_ne!(address, 0);
    let node = state.pop_async().unwrap();
    assert_eq!(peeked, node);
    assert_eq!((node.key.slot, node.key.priority, node.key.seq), (9, 2, 1));
    assert_eq!(node.value.user, user);
    assert_eq!(node.value.ix_type, 2);
    assert_eq!(node.value.price, 11);
    assert_eq!(node.value.size, 22);
    assert_eq!(node.value.side, 33);
    assert_eq!(node.value.order_seq, u64::MAX);
    assert_eq!(node.value.extra_user, extra_user);
    assert!(state.peek_async().is_none());
}

#[test]
fn the_priority_is_that_of_the_instruction_not_of_its_arguments() {
    let mut state = PerpsState::new_boxed();
    let mismatched = args(1, PerpsAsyncIxType::Take);
    state.queue_async(&PerpsAsyncIx::Cancel, &mismatched, 0).unwrap();
    let node = state.pop_async().unwrap();
    assert_eq!(node.key.priority, 1);
    assert_eq!(node.value.ix_type, 1);
}

#[test]
fn many_keys_come_out_in_order() {
    let mut state = PerpsState::new_boxed();
    let mut x: u64 = 12345;
    for _ in 0..1500 {
        x = (x * 1103515245 + 12345) % 2147483648;
        let ix = match x / 65536 % 4 {
            0 => PerpsAsyncIx::Liquidate,
            1 => PerpsAsyncIx::Cancel,
            2 => PerpsAsyncIx::PlaceOrder,
            _ => PerpsAsyncIx::Take,
        };
        let args = args(3, PerpsAsyncIxType::Take);
        state.queue_async(&ix, &args, x / 1024 % 16).unwrap();
    }
    let mut last = state.pop_async().unwrap().key;
    let mut count = 1;
    while let Some(node) = state.pop_async() {
        assert!(last < node.key);
        last = node.key;
        count += 1;
    }
    assert_eq!(count, 1500);
    assert_eq!(state.async_queue.len(), 0);
}

#[test]
fn a_full_queue_refuses_and_uses_up_the_number() {
    let mut state = PerpsState::new_boxed();
    let take = args(1, PerpsAsyncIxType::Take);
    for _ in 0..MAX_QUEUE {
        state.queue_async(&PerpsAsyncIx::Take, &take, 0).unwrap();
    }
    assert_eq!(state.seq, 4097);
    let refused = state.queue_async(&PerpsAsyncIx::Cancel, &take, 0);
    assert_eq!(refused, Err(ProgramError::Custom(0x20)));
    assert_eq!(state.seq, 4098);
    assert_eq!(state.async_queue.len(), 4096);
    assert_eq!(state.pop_async().unwrap().key.seq, 1);
    assert_eq!(state.queue_async(&PerpsAsyncIx::Cancel, &take, 0), Ok(()));
}

#[test]
fn nothing_is_pending_in_its_own_slot() {
    let mut state = PerpsState::new_boxed();
    assert!(!state.has_pending_async(5));
    let cancel = args(1, PerpsAsyncIxType::Cancel);
    state.queue_async(&PerpsAsyncIx::Cancel, &cancel, 5).unwrap();
    assert!(!state.has_pending_async(4));
    assert!(!state.has_pending_async(5));
    assert!(state.has_pending_async(6));
    assert!(state.checked_crank(5).is_some());
    assert_eq!(state.async_queue.len(), 1);
    assert!(state.checked_crank(6).is_some());
    assert_eq!(state.async_queue.len(), 0);
}

#[test]
fn processing_an_empty_queue_changes_nothing() {
    let mut state = PerpsState::new_boxed();
    assert_eq!(state.process_next_async(), Ok(()));
    assert_eq!(state.checked_process_next_async(), Some(None));
    assert_eq!(state.seq, 1);
}

#[test]
fn the_very_last_slot_cannot_be_cranked() {
    let mut state = PerpsState::new_boxed();
    let cancel = args(1, PerpsAsyncIxType::Cancel);
    state.queue_async(&PerpsAsyncIx::Cancel, &cancel, u64::MAX).unwrap();
    assert!(state.checked_crank(7).is_none());
}

/// The maker cancels and the taker takes in one slot: the cancel runs first, the take gets
/// nothing. Without a cancel the take is filled.
#[test]
fn the_maker_is_protected() {
    let mut state = PerpsState::new_boxed();
    let maker = [1u8; 32];
    let taker = [2u8; 32];
    state.margins.credit(&maker, 10_000).unwrap();
    state.margins.credit(&taker, 10_000).unwrap();

    let place = QueueAsyncArgs {
        user: maker,
        ix_type: PerpsAsyncIxType::PlaceOrder,
        price: 150,
        size: 10,
        side: 1,
        order_seq: 7,
        extra_user: [0u8; 32],
    };
    state.queue_async(&PerpsAsyncIx::PlaceOrder, &place, 1).unwrap();
    assert!(state.checked_crank(2).is_some());
    assert_eq!(state.margins.get_balance(&maker), 9_850);
    assert_eq!(state.orderbook.asks.len(), 1);

    let take = QueueAsyncArgs {
        user: taker,
        ix_type: PerpsAsyncIxType::Take,
        price: 150,
        size: 10,
        side: 0,
        order_seq: 0,
        extra_user: [0u8; 32],
    };
    let cancel = QueueAsyncArgs {
        user: maker,
        ix_type: PerpsAsyncIxType::Cancel,
        price: 150,
        size: 0,
        side: 1,
        order_seq: 7,
        extra_user: [0u8; 32],
    };
    state.queue_async(&PerpsAsyncIx::Take, &take, 2).unwrap();
    state.queue_async(&PerpsAsyncIx::Cancel, &cancel, 2).unwrap();
    assert!(state.checked_crank(3).is_some());
    assert_eq!(state.margins.get_balance(&maker), 10_000);
    assert_eq!(state.margins.get_balance(&taker), 10_000);
    assert!(state.positions.find(&taker).is_none());
    assert!(state.positions.find(&maker).is_none());

    state.queue_async(&PerpsAsyncIx::PlaceOrder, &place, 3).unwrap();
    assert!(state.checked_crank(4).is_some());
    state.queue_async(&PerpsAsyncIx::Take, &take, 4).unwrap();
    assert!(state.checked_crank(5).is_some());
    assert_eq!(state.orderbook.asks.len(), 0);
    let bought = state.positions.positions[state.positions.find(&taker).unwrap()];
    assert_eq!((bought.size, bought.entry_price, bought.side), (10, 150, 0));
    let sold = state.positions.positions[state.positions.find(&maker).unwrap()];
    assert_eq!((sold.size, sold.entry_price, sold.side), (10, 150, 1));
    assert_eq!(state.margins.get_balance(&taker), 9_850);
    assert_eq!(state.margins.get_balance(&maker), 10_000);
}

/// A take of an earlier slot is not held back by a cancel of a later one.
#[test]
fn a_later_cancel_is_too_late() {
    let mut state = PerpsState::new_boxed();
    let maker = [1u8; 32];
    let taker = [2u8; 32];
    state.margins.credit(&taker, 10_000).unwrap();
    assert!(state.orderbook.place_ask(150, 10, maker, 7));
    let take = QueueAsyncArgs {
        user: taker,
        ix_type: PerpsAsyncIxType::Take,
        price: 150,
        size: 10,
        side: 0,
        order_seq: 0,
        extra_user: [0u8; 32],
    };
    state.queue_async(&PerpsAsyncIx::Take, &take, 2).unwrap();
    let cancel = QueueAsyncArgs {
        user: maker,
        ix_type: PerpsAsyncIxType::Cancel,
        price: 150,
        size: 0,
        side: 1,
        order_seq: 7,
        extra_user: [0u8; 32],
    };
    state.queue_async(&PerpsAsyncIx::Cancel, &cancel, 3).unwrap();
    assert!(state.checked_crank(4).is_some());
    assert_eq!(state.positions.positions[state.positions.find(&taker).unwrap()].size, 10);
}

fn instruct(
    state: &mut PerpsState,
    ix: PerpsAsyncIx,
    user: [u8; 32],
    price: u64,
    size: u64,
    side: u64,
    order_seq: u64,
    slot: u64,
) {
    let ix_type = match ix {
        PerpsAsyncIx::Liquidate => PerpsAsyncIxType::Liquidate,
        PerpsAsyncIx::Cancel => PerpsAsyncIxType::Cancel,
        PerpsAsyncIx::PlaceOrder => PerpsAsyncIxType::PlaceOrder,
        PerpsAsyncIx::Take => PerpsAsyncIxType::Take,
    };
    let args =
        QueueAsyncArgs { user, ix_type, price, size, side, order_seq, extra_user: [0u8; 32] };
    state.queue_async(&ix, &args, slot).unwrap();
}

/// Three makers requote while a taker takes: every cancel runs before any new order is placed, and
/// every order before the take, which therefore meets only new prices.
#[test]
fn makers_requote_before_the_take() {
    let mut state = PerpsState::new_boxed();
    let taker = [9u8; 32];
    state.margins.credit(&taker, 1_000).unwrap();
    let makers = [([1u8; 32], 97, 103, 20), ([2u8; 32], 96, 104, 15), ([3u8; 32], 95, 105, 10)];
    for (i, (maker, bid, ask, size)) in makers.iter().enumerate() {
        state.margins.credit(maker, 10_000).unwrap();
        let n = 10 * i as u64;
        instruct(&mut state, PerpsAsyncIx::PlaceOrder, *maker, *bid, *size, 0, n, 1);
        instruct(&mut state, PerpsAsyncIx::PlaceOrder, *maker, *ask, *size, 1, n, 1);
    }
    assert!(state.checked_crank(2).is_some());
    assert_eq!((state.orderbook.bids.len(), state.orderbook.asks.len()), (3, 3));

    for (i, (maker, bid, ask, size)) in makers.iter().enumerate() {
        let n = 10 * i as u64;
        instruct(&mut state, PerpsAsyncIx::Cancel, *maker, *bid, 0, 0, n, 2);
        instruct(&mut state, PerpsAsyncIx::PlaceOrder, *maker, *bid + 3, *size, 0, n + 1, 2);
        instruct(&mut state, PerpsAsyncIx::Cancel, *maker, *ask, 0, 1, n, 2);
        instruct(&mut state, PerpsAsyncIx::PlaceOrder, *maker, *ask + 3, *size, 1, n + 1, 2);
        if i == 0 {
            instruct(&mut state, PerpsAsyncIx::Take, taker, 110, 40, 0, 0, 2);
        }
    }
    assert!(state.checked_crank(3).is_some());

    // Filled: 20 at 106, 15 at 107, 5 at 108.
    assert_eq!(state.margins.get_balance(&taker), 1_000 - 212 - 160 - 54);
    let bought = state.positions.positions[state.positions.find(&taker).unwrap()];
    assert_eq!((bought.side, bought.size), (0, 40));
    let (_, left) = state.orderbook.pop_best_ask().unwrap();
    assert_eq!((left.owner, left.price, left.size), ([3u8; 32], 108, 5));
    assert!(state.orderbook.best_ask().is_none());
    for (price, size) in [(100, 20), (99, 15), (98, 10)] {
        let (_, bid) = state.orderbook.pop_best_bid().unwrap();
        assert_eq!((bid.price, bid.size), (price, size));
    }
    assert!(state.orderbook.best_bid().is_none());
}

/// The maker removes the best of three layers in the slot of the take: the take gets the others.
#[test]
fn a_cancelled_layer_is_not_filled() {
    let mut state = PerpsState::new_boxed();
    let maker = [1u8; 32];
    let taker = [2u8; 32];
    state.margins.credit(&maker, 10_000).unwrap();
    state.margins.credit(&taker, 10_000).unwrap();
    for (price, seq) in [(150, 10), (152, 11), (154, 12)] {
        instruct(&mut state, PerpsAsyncIx::PlaceOrder, maker, price, 10, 1, seq, 5);
    }
    assert!(state.checked_crank(6).is_some());
    assert_eq!(state.margins.get_balance(&maker), 10_000 - 150 - 152 - 154);
    instruct(&mut state, PerpsAsyncIx::Take, taker, 157, 25, 0, 0, 6);
    instruct(&mut state, PerpsAsyncIx::Cancel, maker, 150, 0, 1, 10, 6);
    assert!(state.checked_crank(7).is_some());
    assert_eq!(state.margins.get_balance(&taker), 10_000 - 152 - 154);
    let bought = state.positions.positions[state.positions.find(&taker).unwrap()];
    assert_eq!((bought.side, bought.size, bought.entry_price), (0, 20, 153));
    // What is not filled does not rest.
    assert_eq!((state.orderbook.bids.len(), state.orderbook.asks.len()), (0, 0));
    assert_eq!(state.margins.get_balance(&maker), 10_000);
}

/// In one slot a liquidation runs before a cancel, whatever came first.
#[test]
fn a_liquidation_runs_first() {
    let mut state = PerpsState::new_boxed();
    let target = [1u8; 32];
    state.margins.credit(&target, 10).unwrap();
    let idx = state.positions.find_or_alloc(&target).unwrap();
    state.positions.positions[idx].size = 100;
    state.positions.positions[idx].entry_price = 1_000;
    state.oracle_price = 1_000;
    assert!(state.orderbook.place_ask(1_000, 100, target, 1));
    instruct(&mut state, PerpsAsyncIx::Cancel, target, 1_000, 0, 1, 1, 1);
    instruct(&mut state, PerpsAsyncIx::Liquidate, target, 0, 0, 0, 0, 1);
    assert!(state.checked_crank(2).is_some());
    // Had the cancel run first, its margin would have saved the position.
    assert!(state.positions.find(&target).is_none());
    assert_eq!(state.margins.get_balance(&target), 5 + 10_000);
    assert_eq!(state.margins.get_balance(&[0u8; 32]), 5);
}

/// A take of an earlier slot comes out before a cancel of a later one, whatever stands under the
/// keys.
#[test]
fn a_queue_that_was_filled_directly_is_popped_in_order() {
    let mut state = PerpsState::new_boxed();
    let cancel = AsyncIxKey { slot: 8, priority: 1, seq: 2 };
    let take = AsyncIxKey { slot: 7, priority: 3, seq: 1 };
    assert!(state.async_queue.insert(cancel, QueuedInstruction::default()).is_some());
    assert!(state.async_queue.insert(take, QueuedInstruction::default()).is_some());
    assert_eq!(state.pop_async().unwrap().key, take);
    assert_eq!(state.async_queue.len(), 1);
    assert_eq!(state.pop_async().unwrap().key, cancel);
    assert!(state.pop_async().is_none());
}

/// An entry under the very key that is given out next is replaced, even in a full queue.
#[test]
fn the_key_decides_what_is_replaced() {
    let mut state = PerpsState::new_boxed();
    for seq in 1..=MAX_QUEUE as u64 {
        let key = AsyncIxKey { slot: 0, priority: 1, seq };
        state.async_queue.insert(key, QueuedInstruction::default());
    }
    let cancel = args(5, PerpsAsyncIxType::Cancel);
    assert_eq!(state.queue_async(&PerpsAsyncIx::Cancel, &cancel, 0), Ok(()));
    assert_eq!(state.async_queue.len(), MAX_QUEUE);
    assert_eq!(state.pop_async().unwrap().value.user, [5; 32]);
}

#[test]
fn instructions_are_ordered_by_priority() {
    let types = [
        PerpsAsyncIxType::Liquidate,
        PerpsAsyncIxType::Cancel,
        PerpsAsyncIxType::PlaceOrder,
        PerpsAsyncIxType::Take,
    ];
    for (i, a) in types.iter().enumerate() {
        for (j, b) in types.iter().enumerate() {
            let (x, y) = (PerpsAsyncIx::from_type(*a), PerpsAsyncIx::from_type(*b));
            assert_eq!(x.priority(), i as u64);
            assert_eq!(x < y, i < j);
            assert_eq!(x.partial_cmp(&y), Some(i.cmp(&j)));
            assert_eq!(x.cmp(&y), i.cmp(&j));
        }
    }
}

#[test]
fn a_crank_tells_what_was_done() {
    let mut state = PerpsState::new_boxed();
    let maker = [1u8; 32];
    let taker = [2u8; 32];
    state.margins.credit(&maker, 100).unwrap();
    state.margins.credit(&taker, 100).unwrap();
    instruct(&mut state, PerpsAsyncIx::Take, taker, 100, 7, 0, 0, 1);
    instruct(&mut state, PerpsAsyncIx::PlaceOrder, maker, 100, 10, 1, 1, 1);
    instruct(&mut state, PerpsAsyncIx::PlaceOrder, maker, 100, 10, 1, 2, 1);
    instruct(&mut state, PerpsAsyncIx::Cancel, maker, 100, 0, 1, 1, 1);
    instruct(&mut state, PerpsAsyncIx::Liquidate, maker, 0, 0, 0, 0, 1);
    instruct(&mut state, PerpsAsyncIx::Cancel, maker, 100, 0, 1, 1, 2);
    assert_eq!(
        state.checked_crank(3),
        Some(vec![
            Outcome::NotLiquidatable,
            Outcome::OrderNotFound,
            Outcome::Placed { price: 100, size: 10, side: 1 },
            Outcome::InsufficientMargin,
            Outcome::Taken(7),
            Outcome::Cancelled,
        ])
    );
    assert_eq!(state.checked_crank(3), Some(vec![]));
}

/// What came first of two cancels runs first, whatever came in between.
#[test]
fn first_in_first_out_across_others() {
    let mut state = PerpsState::new_boxed();
    instruct(&mut state, PerpsAsyncIx::Cancel, [1; 32], 0, 0, 0, 0, 4);
    instruct(&mut state, PerpsAsyncIx::Take, [2; 32], 0, 0, 0, 0, 4);
    instruct(&mut state, PerpsAsyncIx::Cancel, [3; 32], 0, 0, 0, 0, 5);
    instruct(&mut state, PerpsAsyncIx::Cancel, [4; 32], 0, 0, 0, 0, 4);
    let mut users = vec![];
    while let Some(node) = state.pop_async() {
        users.push(node.value.user[0]);
    }
    assert_eq!(users, vec![1, 4, 2, 3]);
}

/// An order that was inserted under another id than its own is traded as it stands in line.
#[test]
fn a_book_that_was_filled_directly_is_traded() {
    let mut state = PerpsState::new_boxed();
    let (maker, taker) = ([1u8; 32], [2u8; 32]);
    state.margins.credit(&taker, 1_000).unwrap();
    let id = OrderId { price_key: 1, seq: 1 };
    let order = Order { owner: maker, size: 3, price: 120, side: 0 };
    assert!(state.orderbook.asks.insert(id, order).is_some());
    assert!(state.orderbook.place_ask(100, 5, maker, 2));
    instruct(&mut state, PerpsAsyncIx::Take, taker, 110, 5, 0, 0, 1);
    instruct(&mut state, PerpsAsyncIx::Take, taker, 120, 5, 0, 0, 1);
    let outcomes = state.checked_crank(2).unwrap();
    assert_eq!(outcomes, vec![Outcome::Taken(0), Outcome::Taken(5)]);
    assert_eq!(state.orderbook.best_ask().unwrap().1.size, 3);
}
