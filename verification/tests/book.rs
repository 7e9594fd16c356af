use xray_core::{BookEvent, BookKind, BookState, Level};

fn lv(price: f64, qty: f64) -> Level {
    Level { price: price.to_bits(), qty: qty.to_bits() }
}

fn snapshot() -> BookEvent {
    BookEvent {
        ts: 1,
        kind: BookKind::Snapshot,
        bids: vec![lv(100.4, 3.1), lv(100.3, 5.0)],
        asks: vec![lv(100.5, 2.2), lv(100.6, 4.7)],
    }
}

fn close(a: f64, b: f64) -> bool {
    (a - b).abs() < 1e-9
}

/// The mid of the book from its best levels, or `None` if a side is empty.
fn mid(book: &BookState) -> Option<f64> {
    let bids = book.bid_levels();
    let asks = book.ask_levels();
    let best_bid = f64::from_bits(bids.last()?.price);
    let best_ask = f64::from_bits(asks.first()?.price);
    Some(f64::midpoint(best_bid, best_ask))
}

fn resting_in_bin(book: &BookState, lo: f64, hi: f64) -> f64 {
    let sum = |side: Vec<Level>| {
        side.iter()
            .filter(|l| f64::from_bits(l.price) >= lo && f64::from_bits(l.price) < hi)
            .map(|l| f64::from_bits(l.qty))
            .sum::<f64>()
    };
    sum(book.bid_levels()) + sum(book.ask_levels())
}

#[test]
fn snapshot_sets_the_book_and_mid() {
    let mut book = BookState::new();
    book.apply(&snapshot());
    assert!(close(mid(&book).unwrap(), f64::midpoint(100.4, 100.5)));
}

#[test]
fn diff_merges_updates_and_removes() {
    let mut book = BookState::new();
    book.apply(&snapshot());
    book.apply(&BookEvent {
        ts: 2,
        kind: BookKind::Diff,
        bids: vec![lv(100.4, 0.0), lv(100.35, 1.0)],
        asks: vec![lv(100.5, 1.1)],
    });
    assert!(close(mid(&book).unwrap(), f64::midpoint(100.35, 100.5)));
    assert!(close(resting_in_bin(&book, 100.3, 100.5), 6.0));
}

#[test]
fn mid_is_none_when_a_side_is_empty() {
    let mut book = BookState::new();
    book.apply(&BookEvent {
        ts: 1,
        kind: BookKind::Snapshot,
        bids: vec![lv(100.0, 1.0)],
        asks: vec![],
    });
    assert_eq!(mid(&book), None);
    assert!(!book.two_sided());
}

#[test]
fn levels_are_listed_in_ascending_price_order() {
    let mut book = BookState::new();
    book.apply(&BookEvent {
        ts: 1,
        kind: BookKind::Snapshot,
        bids: vec![lv(100.2, 1.0), lv(99.9, 2.0), lv(100.0, 3.0)],
        asks: vec![lv(101.5, 1.0), lv(100.5, 2.0)],
    });
    let bids: Vec<f64> = book.bid_levels().iter().map(|l| f64::from_bits(l.price)).collect();
    let asks: Vec<f64> = book.ask_levels().iter().map(|l| f64::from_bits(l.price)).collect();
    assert_eq!(bids, vec![99.9, 100.0, 100.2]);
    assert_eq!(asks, vec![100.5, 101.5]);
}

#[test]
fn snapshot_replaces_whatever_was_there() {
    let mut a = BookState::new();
    a.apply(&snapshot());
    let mut b = BookState::new();
    b.apply(&BookEvent { ts: 0, kind: BookKind::Snapshot, bids: vec![lv(1.0, 1.0)], asks: vec![lv(2.0, 1.0)] });
    let next = BookEvent { ts: 3, kind: BookKind::Snapshot, bids: vec![lv(50.0, 1.5)], asks: vec![lv(51.0, 2.5)] };
    a.apply(&next);
    b.apply(&next);
    assert_eq!(a.bid_levels(), b.bid_levels());
    assert_eq!(a.ask_levels(), b.ask_levels());
    assert_eq!(a.bid_levels(), vec![lv(50.0, 1.5)]);
}

#[test]
fn negative_zero_quantity_removes_a_level() {
    let mut book = BookState::new();
    book.apply(&snapshot());
    book.apply(&BookEvent { ts: 2, kind: BookKind::Diff, bids: vec![lv(100.3, -0.0)], asks: vec![] });
    assert_eq!(book.bid_levels(), vec![lv(100.4, 3.1)]);
}

#[test]
fn later_level_in_one_diff_wins() {
    let mut book = BookState::new();
    book.apply(&BookEvent {
        ts: 1,
        kind: BookKind::Diff,
        bids: vec![lv(10.0, 1.0), lv(10.0, 0.0), lv(10.0, 4.0)],
        asks: vec![],
    });
    assert_eq!(book.bid_levels(), vec![lv(10.0, 4.0)]);
}
