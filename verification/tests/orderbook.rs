use perps::order_tree::OrderTree;
use perps::orderbook::{Order, OrderId, Orderbook, MAX_ORDERS};
use perps::queue_tree::QueueTree;
use perps::state::{AsyncIxKey, QueuedInstruction};

fn book() -> Orderbook {
    let mut book = Orderbook::zeroed();
    book.initialize();
    book
}

#[test]
fn ids_are_ordered_by_price_key_then_number() {
    let a = OrderId { price_key: 1, seq: 9 };
    let b = OrderId { price_key: 2, seq: 0 };
    let c = OrderId { price_key: 2, seq: 1 };
    assert!(a < b && b < c && a < c);
    assert!(c > a);
    assert_eq!(a.cmp(&b), std::cmp::Ordering::Less);
    assert_eq!(b.partial_cmp(&b), Some(std::cmp::Ordering::Equal));
    assert_eq!(c.partial_cmp(&b), Some(std::cmp::Ordering::Greater));
}

#[test]
fn the_best_ask_is_the_lowest_and_the_best_bid_the_highest() {
    let mut book = book();
    assert!(book.best_ask().is_none());
    assert!(book.best_bid().is_none());
    for price in [106, 104, 108] {
        assert!(book.place_ask(price, 1, [1; 32], price));
        assert!(book.place_bid(price, 2, [2; 32], price));
    }
    let (id, ask) = book.best_ask().unwrap();
    assert_eq!(id, OrderId { price_key: 104, seq: 104 });
    assert_eq!(ask, Order { owner: [1; 32], size: 1, price: 104, side: 1 });
    assert!(!ask.is_bid());
    let (id, bid) = book.best_bid().unwrap();
    assert_eq!(id, OrderId { price_key: u64::MAX - 108, seq: 108 });
    assert_eq!(bid, Order { owner: [2; 32], size: 2, price: 108, side: 0 });
    assert!(bid.is_bid());
}

#[test]
fn at_one_price_the_lower_number_is_first() {
    let mut book = book();
    for seq in [5, 3, 4] {
        assert!(book.place_ask(100, seq, [1; 32], seq));
        assert!(book.place_bid(100, seq, [1; 32], seq));
    }
    for seq in [3, 4, 5] {
        assert_eq!(book.pop_best_ask().unwrap().1.size, seq);
        assert_eq!(book.pop_best_bid().unwrap().0.seq, seq);
    }
    assert!(book.pop_best_ask().is_none());
    assert!(book.pop_best_bid().is_none());
}

#[test]
fn the_two_sides_do_not_meet() {
    let mut book = book();
    assert!(book.place_bid(100, 1, [1; 32], 1));
    assert!(book.best_ask().is_none());
    assert!(book.cancel_ask(&OrderId { price_key: u64::MAX - 100, seq: 1 }).is_none());
    assert_eq!(book.bids.len(), 1);
}

#[test]
fn a_cancelled_order_is_gone() {
    let mut book = book();
    assert!(book.place_ask(100, 1, [1; 32], 1));
    assert!(book.place_ask(101, 2, [2; 32], 2));
    let id = OrderId { price_key: 100, seq: 1 };
    let cancelled = book.cancel_ask(&id).unwrap();
    assert_eq!(cancelled, Order { owner: [1; 32], size: 1, price: 100, side: 1 });
    assert!(book.cancel_ask(&id).is_none());
    assert_eq!(book.best_ask().unwrap().1.price, 101);
    assert!(book.place_bid(7, 3, [3; 32], 3));
    let cancelled = book.cancel_bid(&OrderId { price_key: u64::MAX - 7, seq: 3 }).unwrap();
    assert_eq!(cancelled, Order { owner: [3; 32], size: 3, price: 7, side: 0 });
    assert_eq!(book.bids.len(), 0);
}

#[test]
fn the_same_id_replaces() {
    let mut book = book();
    assert!(book.place_bid(100, 1, [1; 32], 1));
    assert!(book.place_bid(100, 9, [2; 32], 1));
    assert_eq!(book.bids.len(), 1);
    assert_eq!(book.best_bid().unwrap().1, Order { owner: [2; 32], size: 9, price: 100, side: 0 });
}

#[test]
fn a_full_side_takes_only_known_ids() {
    let mut book = book();
    for i in 0..MAX_ORDERS as u64 {
        assert!(book.place_ask(i * 7919 % 1024, i, [1; 32], i));
    }
    assert_eq!(book.asks.len(), 1024);
    assert!(!book.place_ask(5000, 1, [2; 32], 5000));
    assert_eq!(book.asks.len(), 1024);
    assert!(book.place_ask(0, 77, [2; 32], 0));
    assert_eq!(book.best_ask().unwrap().1.size, 77);
    assert!(book.place_bid(5000, 1, [2; 32], 5000));
    let mut last = 0;
    for _ in 0..1024 {
        let (_, order) = book.pop_best_ask().unwrap();
        assert!(last <= order.price);
        last = order.price;
    }
    assert!(book.best_ask().is_none());
}

#[test]
fn an_order_tree_keeps_what_it_is_given() {
    let mut owner = [0u8; 32];
    for i in 0..32 {
        owner[i] = 200 - 5 * i as u8;
    }
    let id = OrderId { price_key: 3, seq: 4 };
    let order = Order { owner, size: u64::MAX, price: 0x0102_0304_0506_0708, side: 1 };
    let mut tree = OrderTree::zeroed();
    tree.initialize();
    assert!(tree.first().is_none());
    assert_ne!(tree.insert(id, order), None);
    assert_eq!(tree.get(&id), Some(order));
    assert!(tree.set_size(&id, 12));
    assert_eq!(tree.get(&id), Some(Order { size: 12, ..order }));
    let other = OrderId { price_key: 3, seq: 5 };
    assert!(!tree.set_size(&other, 1));
    assert_eq!(tree.get(&other), None);
    assert_eq!(tree.remove(&other), None);
    let (address, first, _) = tree.first().unwrap();
    assert_ne!(address, 0);
    assert_eq!(first, id);
    assert_eq!(tree.remove(&id), Some(Order { size: 12, ..order }));
    assert_eq!(tree.len(), 0);
}

#[test]
fn no_node_is_at_the_sentinel() {
    assert_eq!(perps::order_tree::SENTINEL, sokoban::SENTINEL);
}

#[test]
fn a_queue_tree_replaces_and_removes() {
    let key = AsyncIxKey { slot: 1, priority: 2, seq: 3 };
    let mut tree = QueueTree::zeroed();
    tree.initialize();
    let one = QueuedInstruction { price: 1, ..QueuedInstruction::default() };
    let two = QueuedInstruction { price: 2, ..QueuedInstruction::default() };
    assert!(tree.insert(key, one).is_some());
    assert!(tree.insert(key, two).is_some());
    assert_eq!(tree.len(), 1);
    assert_eq!(tree.remove(&key), Some(two));
    assert_eq!(tree.remove(&key), None);
    assert_eq!(tree.len(), 0);
}
