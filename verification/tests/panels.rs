use xray_core::panels::book_heatmap;
use xray_core::panels::footprint::group_by_bin;
use xray_core::panels::funding_oi_divergence;
use xray_core::panels::liquidation_map::{order_events, LiqEvent};
use xray_core::{BookEvent, BookKind, BookState, Candle, Dataset, FundingEvent, Level, LiqSide, LiquidationEvent, OiEvent, Side, Trade};

fn round8(x: f64) -> f64 {
    (x * 1e8).round() / 1e8
}

fn bin_of(price: f64, bin: f64) -> f64 {
    round8((price / bin).floor() * bin)
}

fn lv(price: f64, qty: f64) -> Level {
    Level { price: price.to_bits(), qty: qty.to_bits() }
}

fn trade(ts: i64, price: f64, qty: f64, side: Side) -> Trade {
    Trade { ts, price: price.to_bits(), qty: qty.to_bits(), side }
}

/// Footprint totals over the grouped trades: (bins, buy, sell).
fn footprint(win: &Dataset, price_bin: f64) -> (Vec<f64>, Vec<f64>, Vec<f64>) {
    let bins: Vec<u64> = win
        .trades
        .iter()
        .map(|t| bin_of(f64::from_bits(t.price), price_bin).to_bits())
        .collect();
    let groups = group_by_bin(&win.trades, &bins);
    let total = |idx: &Vec<usize>| {
        let mut acc = 0.0f64;
        for &i in idx {
            acc += f64::from_bits(win.trades[i].qty);
        }
        round8(acc)
    };
    (
        groups.iter().map(|g| round8(f64::from_bits(g.bin))).collect(),
        groups.iter().map(|g| total(&g.buys)).collect(),
        groups.iter().map(|g| total(&g.sells)).collect(),
    )
}

#[test]
fn worked_example() {
    let mut win = Dataset::empty();
    win.trades = vec![
        trade(1000, 100.4, 2.0, Side::Buy),
        trade(1100, 100.9, 1.0, Side::Sell),
        trade(1200, 101.2, 3.0, Side::Buy),
        trade(1300, 100.1, 1.5, Side::Sell),
        trade(1400, 101.8, 0.5, Side::Buy),
    ];
    let (price_bins, buy_vol, sell_vol) = footprint(&win, 1.0);
    assert_eq!(price_bins, vec![100.0, 101.0]);
    assert_eq!(buy_vol, vec![2.0, 3.5]);
    assert_eq!(sell_vol, vec![2.5, 0.0]);
}

#[test]
fn empty_window_yields_empty_bins() {
    let (price_bins, buy_vol, sell_vol) = footprint(&Dataset::empty(), 1.0);
    assert!(price_bins.is_empty());
    assert!(buy_vol.is_empty());
    assert!(sell_vol.is_empty());
}

#[test]
fn groups_list_trade_indices_per_side() {
    let trades = vec![
        trade(1, 5.0, 1.0, Side::Sell),
        trade(2, -1.0, 1.0, Side::Buy),
        trade(3, 5.0, 1.0, Side::Buy),
        trade(4, 5.0, 1.0, Side::Sell),
    ];
    let bins: Vec<u64> = trades.iter().map(|t| t.price).collect();
    let groups = group_by_bin(&trades, &bins);
    assert_eq!(groups.len(), 2);
    assert_eq!(f64::from_bits(groups[0].bin), -1.0);
    assert_eq!(groups[0].buys, vec![1]);
    assert!(groups[0].sells.is_empty());
    assert_eq!(f64::from_bits(groups[1].bin), 5.0);
    assert_eq!(groups[1].buys, vec![2]);
    assert_eq!(groups[1].sells, vec![0, 3]);
}

#[test]
fn zero_quantity_trades_make_no_bin() {
    let mut win = Dataset::empty();
    win.trades = vec![trade(1, 100.0, 0.0, Side::Buy)];
    let (price_bins, buy_vol, sell_vol) = footprint(&win, 1.0);
    assert!(price_bins.is_empty());
    assert!(buy_vol.is_empty());
    assert!(sell_vol.is_empty());

    win.trades = vec![
        trade(1, 100.0, 0.0, Side::Buy),
        trade(2, 101.5, 2.0, Side::Sell),
        trade(3, 101.2, -0.0, Side::Buy),
    ];
    let (price_bins, buy_vol, sell_vol) = footprint(&win, 1.0);
    assert_eq!(price_bins, vec![101.0]);
    assert_eq!(buy_vol, vec![0.0]);
    assert_eq!(sell_vol, vec![2.0]);
    let groups = group_by_bin(&win.trades, &vec![100.0f64.to_bits(), 101.0f64.to_bits(), 101.0f64.to_bits()]);
    assert_eq!(groups.len(), 1);
    assert!(groups[0].buys.is_empty());
    assert_eq!(groups[0].sells, vec![1]);
}

#[test]
fn footprint_reads_only_the_trades() {
    let mut win = Dataset::empty();
    win.trades = vec![trade(1, 100.4, 2.0, Side::Buy), trade(2, 101.2, 1.0, Side::Sell)];
    let plain = footprint(&win, 1.0);
    win.funding = vec![FundingEvent { ts: 1, rate: 0.5f64.to_bits() }];
    win.oi = vec![OiEvent { ts: 2, oi: 3.0f64.to_bits() }];
    win.liquidations = vec![LiquidationEvent { ts: 3, price: 100.0f64.to_bits(), qty: 1.0f64.to_bits(), side: LiqSide::Long }];
    assert_eq!(footprint(&win, 1.0), plain);
    assert_eq!(plain, (vec![100.0, 101.0], vec![2.0, 0.0], vec![0.0, 1.0]));
}

fn snapshot(ts: i64, bids: Vec<Level>, asks: Vec<Level>) -> BookEvent {
    BookEvent { ts, kind: BookKind::Snapshot, bids, asks }
}

fn mid(book: &BookState) -> f64 {
    let best_bid = f64::from_bits(book.bid_levels().last().unwrap().price);
    let best_ask = f64::from_bits(book.ask_levels().first().unwrap().price);
    f64::midpoint(best_bid, best_ask)
}

fn resting_in_bin(book: &BookState, lo: f64, hi: f64) -> f64 {
    let sum = |side: Vec<Level>| {
        side.iter()
            .filter(|l| f64::from_bits(l.price) >= lo && f64::from_bits(l.price) < hi)
            .map(|l| f64::from_bits(l.qty))
            .sum::<f64>()
    };
    sum(book.bid_levels()) + sum(book.ask_levels())
}

/// A heatmap (time, price, intensity), the way the panel renders it.
fn heatmap(win: &Dataset, price_bin: f64, bucket_ms: i64, depth: u32) -> (Vec<i64>, Vec<f64>, Vec<Vec<f64>>) {
    let axis_of = |book: &BookState| -> Vec<f64> {
        let center = bin_of(mid(book), price_bin);
        let half = i64::from(depth / 2);
        (0..i64::from(depth)).map(|j| round8(center + (j - half) as f64 * price_bin)).collect()
    };
    let sample = |axis: &Vec<f64>, book: &BookState| -> Vec<f64> {
        axis.iter().map(|&lo| round8(resting_in_bin(book, lo, round8(lo + price_bin)))).collect()
    };
    match book_heatmap::build(&win.book, bucket_ms, axis_of, sample) {
        Some(g) => (g.time, g.axis, g.rows),
        None => (vec![], vec![], vec![]),
    }
}

#[test]
fn single_snapshot_centres_on_the_mid() {
    let mut win = Dataset::empty();
    win.book = vec![snapshot(1000, vec![lv(100.0, 2.0)], vec![lv(101.0, 3.0)])];
    let (time, price, intensity) = heatmap(&win, 1.0, 1000, 4);
    assert_eq!(time, vec![1000]);
    assert_eq!(price, vec![98.0, 99.0, 100.0, 101.0]);
    assert_eq!(intensity, vec![vec![0.0, 0.0, 2.0, 3.0]]);
}

#[test]
fn buckets_carry_the_book_forward() {
    let mut win = Dataset::empty();
    win.book = vec![
        snapshot(1000, vec![lv(100.0, 1.0)], vec![lv(101.0, 1.0)]),
        snapshot(3000, vec![lv(100.0, 5.0)], vec![lv(101.0, 1.0)]),
    ];
    let (time, price, intensity) = heatmap(&win, 1.0, 1000, 2);
    assert_eq!(time, vec![1000, 2000, 3000]);
    assert_eq!(price, vec![99.0, 100.0]);
    assert_eq!(intensity[0], vec![0.0, 1.0]);
    assert_eq!(intensity[1], vec![0.0, 1.0]);
    assert_eq!(intensity[2], vec![0.0, 5.0]);
}

#[test]
fn one_sided_book_has_no_mid_and_is_empty() {
    let mut win = Dataset::empty();
    win.book = vec![snapshot(1000, vec![lv(100.0, 2.0)], vec![])];
    let (time, price, intensity) = heatmap(&win, 1.0, 1000, 4);
    assert!(time.is_empty());
    assert!(price.is_empty());
    assert!(intensity.is_empty());
}

#[test]
fn no_book_events_is_empty() {
    let (time, price, intensity) = heatmap(&Dataset::empty(), 1.0, 1000, 4);
    assert!(time.is_empty());
    assert!(price.is_empty());
    assert!(intensity.is_empty());
}

#[test]
fn heatmap_raster_fits_check() {
    let book = vec![snapshot(i64::MAX - 10, vec![lv(1.0, 1.0)], vec![lv(2.0, 1.0)])];
    assert!(!book_heatmap::fits(&book, 1000));
    let one_sided = vec![snapshot(i64::MAX - 10, vec![lv(1.0, 1.0)], vec![])];
    assert!(book_heatmap::fits(&one_sided, 1000));
    let book = vec![snapshot(-1500, vec![], vec![]), snapshot(500, vec![], vec![])];
    assert!(book_heatmap::fits(&book, 1000));
    assert!(book_heatmap::fits(&Vec::new(), 7));
}

#[test]
fn negative_timestamps_floor_to_their_bucket() {
    let mut win = Dataset::empty();
    win.book = vec![
        snapshot(-1500, vec![lv(10.0, 1.0)], vec![lv(11.0, 1.0)]),
        snapshot(500, vec![lv(10.0, 2.0)], vec![lv(11.0, 1.0)]),
    ];
    let (time, _, intensity) = heatmap(&win, 1.0, 1000, 2);
    assert_eq!(time, vec![-2000, -1000, 0]);
    assert_eq!(intensity[0], vec![0.0, 1.0]);
    assert_eq!(intensity[1], vec![0.0, 1.0]);
    assert_eq!(intensity[2], vec![0.0, 2.0]);
}

fn candle(ts: i64, close: f64) -> Candle {
    let c = close.to_bits();
    Candle { ts, open: c, high: c, low: c, close: c, volume: 0.0f64.to_bits() }
}

fn as_f64(v: &[u64]) -> Vec<f64> {
    v.iter().map(|&b| round8(f64::from_bits(b))).collect()
}

#[test]
fn carries_each_stream_forward() {
    let mut win = Dataset::empty();
    win.candles = vec![candle(1000, 100.0), candle(3000, 110.0)];
    win.funding = vec![
        FundingEvent { ts: 1000, rate: 0.0001f64.to_bits() },
        FundingEvent { ts: 3000, rate: 0.0002f64.to_bits() },
    ];
    win.oi = vec![OiEvent { ts: 1000, oi: 500.0f64.to_bits() }, OiEvent { ts: 2000, oi: 600.0f64.to_bits() }];
    let d = funding_oi_divergence::build(&win, 1000);
    assert_eq!(d.time, vec![1000, 2000, 3000]);
    assert_eq!(as_f64(&d.funding), vec![0.0001, 0.0001, 0.0002]);
    assert_eq!(as_f64(&d.oi), vec![500.0, 600.0, 600.0]);
    assert_eq!(as_f64(&d.price), vec![100.0, 100.0, 110.0]);
}

#[test]
fn missing_at_start_reads_zero() {
    let mut win = Dataset::empty();
    win.candles = vec![candle(1000, 100.0), candle(2000, 101.0), candle(3000, 102.0)];
    win.funding = vec![FundingEvent { ts: 3000, rate: 0.0005f64.to_bits() }];
    let d = funding_oi_divergence::build(&win, 1000);
    assert_eq!(d.time, vec![1000, 2000, 3000]);
    assert_eq!(as_f64(&d.funding), vec![0.0, 0.0, 0.0005]);
    assert_eq!(as_f64(&d.oi), vec![0.0, 0.0, 0.0]);
    assert_eq!(as_f64(&d.price), vec![100.0, 101.0, 102.0]);
}

#[test]
fn empty_window_yields_empty_series() {
    let d = funding_oi_divergence::build(&Dataset::empty(), 1000);
    assert!(d.time.is_empty());
    assert!(d.funding.is_empty());
    assert!(d.oi.is_empty());
    assert!(d.price.is_empty());
}

#[test]
fn divergence_raster_fits_check() {
    let mut win = Dataset::empty();
    win.funding = vec![FundingEvent { ts: i64::MIN, rate: 0 }, FundingEvent { ts: i64::MAX, rate: 0 }];
    assert!(!funding_oi_divergence::fits(&win, 1000));
    assert!(funding_oi_divergence::fits(&Dataset::empty(), 1000));
}

fn liq(ts: i64, price: f64, qty: f64, side: LiqSide) -> LiquidationEvent {
    LiquidationEvent { ts, price: price.to_bits(), qty: qty.to_bits(), side }
}

fn liq_map(win: &Dataset, price_bin: f64) -> Vec<LiqEvent> {
    let events: Vec<LiqEvent> = win
        .liquidations
        .iter()
        .map(|l| LiqEvent {
            ts: l.ts,
            price_bin: bin_of(f64::from_bits(l.price), price_bin).to_bits(),
            qty: round8(f64::from_bits(l.qty)).to_bits(),
            side: l.side,
        })
        .collect();
    order_events(events).events
}

#[test]
fn snaps_price_to_bin() {
    let mut win = Dataset::empty();
    win.liquidations = vec![liq(10, 100.7, 2.0, LiqSide::Long)];
    let events = liq_map(&win, 1.0);
    assert_eq!(events.len(), 1);
    let e = &events[0];
    assert_eq!((f64::from_bits(e.price_bin), f64::from_bits(e.qty), e.side), (100.0, 2.0, LiqSide::Long));
}

#[test]
fn sorts_by_ts_then_bin_then_side() {
    let mut win = Dataset::empty();
    win.liquidations = vec![
        liq(20, 100.0, 1.0, LiqSide::Short),
        liq(10, 102.0, 1.0, LiqSide::Long),
        liq(10, 101.0, 1.0, LiqSide::Short),
        liq(10, 101.0, 1.0, LiqSide::Long),
    ];
    let key: Vec<(i64, f64, LiqSide)> =
        liq_map(&win, 1.0).iter().map(|e| (e.ts, f64::from_bits(e.price_bin), e.side)).collect();
    assert_eq!(
        key,
        vec![
            (10, 101.0, LiqSide::Long),
            (10, 101.0, LiqSide::Short),
            (10, 102.0, LiqSide::Long),
            (20, 100.0, LiqSide::Short),
        ]
    );
}

#[test]
fn empty_window_yields_no_events() {
    assert!(liq_map(&Dataset::empty(), 1.0).is_empty());
}

#[test]
fn negative_bins_sort_below_positive_ones_and_ties_keep_order() {
    let events = vec![
        LiqEvent { ts: 1, price_bin: 2.0f64.to_bits(), qty: 1, side: LiqSide::Long },
        LiqEvent { ts: 1, price_bin: (-3.0f64).to_bits(), qty: 2, side: LiqSide::Long },
        LiqEvent { ts: 1, price_bin: (-0.5f64).to_bits(), qty: 3, side: LiqSide::Long },
        LiqEvent { ts: 1, price_bin: 2.0f64.to_bits(), qty: 4, side: LiqSide::Long },
    ];
    let qty: Vec<u64> = order_events(events).events.iter().map(|e| e.qty).collect();
    assert_eq!(qty, vec![2, 3, 1, 4]);
}
