use xray_core::{BookEvent, BookKind, Candle, Dataset, FundingEvent, LiqSide, LiquidationEvent, OiEvent, Side, Trade};

fn trade(ts: i64, price: f64) -> Trade {
    Trade { ts, price: price.to_bits(), qty: 1.0f64.to_bits(), side: Side::Buy }
}

fn sample() -> Dataset {
    let mut d = Dataset::empty();
    d.trades = vec![trade(30, 3.0), trade(10, 1.0), trade(20, 2.0), trade(10, 1.5)];
    d.funding = vec![FundingEvent { ts: 5, rate: 0.0001f64.to_bits() }];
    d.oi = vec![OiEvent { ts: 40, oi: 7.0f64.to_bits() }];
    d.book = vec![BookEvent { ts: 15, kind: BookKind::Snapshot, bids: vec![], asks: vec![] }];
    d.candles = vec![Candle { ts: 25, open: 0, high: 0, low: 0, close: 0, volume: 0 }];
    d.liquidations = vec![LiquidationEvent { ts: 35, price: 0, qty: 0, side: LiqSide::Long }];
    d
}

#[test]
fn counts_and_bounds_span_every_stream() {
    let d = sample();
    assert_eq!(d.n_events(), 9);
    assert_eq!(d.bounds(), Some((5, 40, 9)));
    assert_eq!(Dataset::empty().bounds(), None);
}

#[test]
fn sort_is_stable_by_timestamp() {
    let mut d = sample();
    d.sort();
    let ts: Vec<i64> = d.trades.iter().map(|t| t.ts).collect();
    assert_eq!(ts, vec![10, 10, 20, 30]);
    assert_eq!(f64::from_bits(d.trades[0].price), 1.0);
    assert_eq!(f64::from_bits(d.trades[1].price), 1.5);
}

#[test]
fn window_is_inclusive_and_keeps_order() {
    let d = sample();
    let w = d.window(Some(10), Some(20));
    let prices: Vec<f64> = w.trades.iter().map(|t| f64::from_bits(t.price)).collect();
    assert_eq!(prices, vec![1.0, 2.0, 1.5]);
    assert_eq!(w.book.len(), 1);
    assert!(w.funding.is_empty());
    assert!(w.oi.is_empty());
    let open = d.window(None, None);
    assert_eq!(open.n_events(), 9);
    let late = d.window(Some(31), None);
    assert_eq!(late.n_events(), 2);
}

#[test]
fn sorting_twice_changes_nothing() {
    let mut once = sample();
    once.sort();
    let mut twice = once.clone();
    twice.sort();
    assert_eq!(once, twice);
}

#[test]
fn clipping_a_window_again_gives_the_smaller_window() {
    let d = sample();
    let wide = d.window(Some(10), Some(35));
    let narrow = wide.window(Some(10), Some(20));
    assert_eq!(narrow, d.window(Some(10), Some(20)));
    assert_eq!(narrow.n_events(), 4);
}
