//! Funding / OI divergence: three series on one time axis.
//!
//! On a shared `bucket_ms` raster, each bucket carries the last observed
//! funding rate, open interest and candle close (last observation carried
//! forward): a stream with nothing new in a bucket keeps its previous value,
//! and a stream not yet seen reads `0.0`. The three series are index-aligned
//! with the time axis. Values are the raw bits of the observed doubles; the
//! caller rounds them for output.

use vstd::prelude::*;

use crate::dataset::{Candle, DatasetView, Dataset};
use crate::panels::{
    advance_cursor, bucket_count, bucket_start, buckets_fit, check_buckets, consumed,
    lemma_consumed_bounded, spec_bucket_start,
};
use crate::types::{FundingEvent, OiEvent};

verus! {

/// The funding, open-interest and price series on their shared time axis.
#[derive(Debug)]
pub struct DivergenceSeries {
    /// Bucket start timestamps (ascending).
    pub time: Vec<i64>,
    /// Per bucket: the last funding rate (bits), `0` before the first.
    pub funding: Vec<u64>,
    /// Per bucket: the last open interest (bits), `0` before the first.
    pub oi: Vec<u64>,
    /// Per bucket: the last candle close (bits), `0` before the first.
    pub price: Vec<u64>,
}

/// The smaller of two optional timestamps (a `None` is ignored).
pub open spec fn opt_min(a: Option<i64>, b: Option<i64>) -> Option<i64> {
    match (a, b) {
        (Some(x), Some(y)) => Some(if x <= y { x } else { y }),
        (Some(x), None) => Some(x),
        (None, _) => b,
    }
}

/// The larger of two optional timestamps (a `None` is ignored).
pub open spec fn opt_max(a: Option<i64>, b: Option<i64>) -> Option<i64> {
    match (a, b) {
        (Some(x), Some(y)) => Some(if x >= y { x } else { y }),
        (Some(x), None) => Some(x),
        (None, _) => b,
    }
}

/// The axis start: the smallest of the first timestamps of the funding, OI
/// and candle streams.
pub open spec fn axis_first(w: DatasetView) -> Option<i64> {
    opt_min(
        opt_min(
            if w.funding.len() > 0 { Some(w.funding[0].ts) } else { None },
            if w.oi.len() > 0 { Some(w.oi[0].ts) } else { None },
        ),
        if w.candles.len() > 0 { Some(w.candles[0].ts) } else { None },
    )
}

/// The axis end: the largest of the last timestamps of the funding, OI and
/// candle streams.
pub open spec fn axis_last(w: DatasetView) -> Option<i64> {
    opt_max(
        opt_max(
            if w.funding.len() > 0 { Some(w.funding.last().ts) } else { None },
            if w.oi.len() > 0 { Some(w.oi.last().ts) } else { None },
        ),
        if w.candles.len() > 0 { Some(w.candles.last().ts) } else { None },
    )
}

/// Whether the series of `w` can be built for `bucket_ms` (the raster fits
/// in 64-bit timestamps; trivially so when there is nothing to plot).
pub open spec fn divergence_fits(w: DatasetView, bucket_ms: i64) -> bool {
    match (axis_first(w), axis_last(w)) {
        (Some(f), Some(l)) => buckets_fit(f, l, bucket_ms),
        _ => true,
    }
}

/// The funding rate carried after consuming `j` funding events.
pub open spec fn funding_carry(s: Seq<FundingEvent>, j: nat) -> u64 {
    if j == 0 { 0 } else { s[j - 1].rate }
}

/// The open interest carried after consuming `j` OI events.
pub open spec fn oi_carry(s: Seq<OiEvent>, j: nat) -> u64 {
    if j == 0 { 0 } else { s[j - 1].oi }
}

/// The close carried after consuming `j` candles.
pub open spec fn close_carry(s: Seq<Candle>, j: nat) -> u64 {
    if j == 0 { 0 } else { s[j - 1].close }
}

/// The series for `w`: one bucket per `bucket_ms` from the bucket of the
/// axis start to that of the axis end, each carrying the values last seen.
pub open spec fn divergence_spec(w: DatasetView, bucket_ms: i64, d: DivergenceSeries) -> bool {
    match (axis_first(w), axis_last(w)) {
        (Some(f), Some(l)) => {
            let first = spec_bucket_start(f as int, bucket_ms as int);
            let n = bucket_count(f, l, bucket_ms);
            &&& d.time@.len() == n
            &&& d.funding@.len() == n
            &&& d.oi@.len() == n
            &&& d.price@.len() == n
            &&& forall|i: int| 0 <= i < n ==> {
                &&& #[trigger] d.time@[i] == first + i * bucket_ms
                &&& d.funding@[i] == funding_carry(w.funding, consumed::<FundingEvent>(w.funding, first, bucket_ms as int, i as nat))
                &&& d.oi@[i] == oi_carry(w.oi, consumed::<OiEvent>(w.oi, first, bucket_ms as int, i as nat))
                &&& d.price@[i] == close_carry(w.candles, consumed::<Candle>(w.candles, first, bucket_ms as int, i as nat))
            }
        },
        _ => d.time@.len() == 0 && d.funding@.len() == 0 && d.oi@.len() == 0 && d.price@.len() == 0,
    }
}

fn first_ts_of(win: &Dataset) -> (r: Option<i64>)
    ensures
        r == axis_first(win@),
{
    let f = if win.funding.len() > 0 { Some(win.funding[0].ts) } else { None };
    let o = if win.oi.len() > 0 { Some(win.oi[0].ts) } else { None };
    let c = if win.candles.len() > 0 { Some(win.candles[0].ts) } else { None };
    let fo = match (f, o) {
        (Some(x), Some(y)) => Some(if x <= y { x } else { y }),
        (Some(x), None) => Some(x),
        (None, _) => o,
    };
    match (fo, c) {
        (Some(x), Some(y)) => Some(if x <= y { x } else { y }),
        (Some(x), None) => Some(x),
        (None, _) => c,
    }
}

fn last_ts_of(win: &Dataset) -> (r: Option<i64>)
    ensures
        r == axis_last(win@),
{
    let f = if win.funding.len() > 0 { Some(win.funding[win.funding.len() - 1].ts) } else { None };
    let o = if win.oi.len() > 0 { Some(win.oi[win.oi.len() - 1].ts) } else { None };
    let c = if win.candles.len() > 0 { Some(win.candles[win.candles.len() - 1].ts) } else { None };
    let fo = match (f, o) {
        (Some(x), Some(y)) => Some(if x >= y { x } else { y }),
        (Some(x), None) => Some(x),
        (None, _) => o,
    };
    match (fo, c) {
        (Some(x), Some(y)) => Some(if x >= y { x } else { y }),
        (Some(x), None) => Some(x),
        (None, _) => c,
    }
}

/// Whether [`build`] can lay out the raster of `win` for `bucket_ms`.
pub fn fits(win: &Dataset, bucket_ms: i64) -> (r: bool)
    ensures
        r == divergence_fits(win@, bucket_ms),
{
    match (first_ts_of(win), last_ts_of(win)) {
        (Some(f), Some(l)) => check_buckets(f, l, bucket_ms),
        _ => true,
    }
}

/// Builds the funding / OI / price series over the (already windowed)
/// dataset; all empty when the window has no funding, OI or candles.
pub fn build(win: &Dataset, bucket_ms: i64) -> (d: DivergenceSeries)
    requires
        bucket_ms > 0,
        divergence_fits(win@, bucket_ms),
    ensures
        divergence_spec(win@, bucket_ms, d),
{
    let (first_ts, last_ts) = match (first_ts_of(win), last_ts_of(win)) {
        (Some(f), Some(l)) => (f, l),
        _ => {
            return DivergenceSeries { time: Vec::new(), funding: Vec::new(), oi: Vec::new(), price: Vec::new() };
        },
    };
    let first = bucket_start(first_ts, bucket_ms);
    let last = bucket_start(last_ts, bucket_ms);
    let ghost qf = (first_ts as int) / (bucket_ms as int);
    let ghost ql = (last_ts as int) / (bucket_ms as int);
    let ghost n = ql - qf + 1;
    let ghost fs = win@.funding;
    let ghost os = win@.oi;
    let ghost cs = win@.candles;
    let mut time: Vec<i64> = Vec::new();
    let mut funding: Vec<u64> = Vec::new();
    let mut oi: Vec<u64> = Vec::new();
    let mut price: Vec<u64> = Vec::new();
    let (mut fp, mut op, mut cp) = (0usize, 0usize, 0usize);
    let mut bucket = first;
    let mut i: usize = 0;
    proof {
        assert(first == qf * bucket_ms && last == ql * bucket_ms);
    }
    while bucket <= last
        invariant
            bucket_ms > 0,
            fs == win@.funding,
            os == win@.oi,
            cs == win@.candles,
            first == qf * bucket_ms,
            last == ql * bucket_ms,
            n == ql - qf + 1,
            0 <= n <= usize::MAX,
            n > 0 ==> last + bucket_ms <= i64::MAX,
            i <= n,
            bucket == (qf + i) * bucket_ms,
            fp == (if i == 0 { 0 } else { consumed::<FundingEvent>(fs, first as int, bucket_ms as int, (i - 1) as nat) }),
            op == (if i == 0 { 0 } else { consumed::<OiEvent>(os, first as int, bucket_ms as int, (i - 1) as nat) }),
            cp == (if i == 0 { 0 } else { consumed::<Candle>(cs, first as int, bucket_ms as int, (i - 1) as nat) }),
            fp <= fs.len(),
            op <= os.len(),
            cp <= cs.len(),
            time@.len() == i,
            funding@.len() == i,
            oi@.len() == i,
            price@.len() == i,
            forall|k: int| 0 <= k < i ==> {
                &&& #[trigger] time@[k] == first + k * bucket_ms
                &&& funding@[k] == funding_carry(fs, consumed::<FundingEvent>(fs, first as int, bucket_ms as int, k as nat))
                &&& oi@[k] == oi_carry(os, consumed::<OiEvent>(os, first as int, bucket_ms as int, k as nat))
                &&& price@[k] == close_carry(cs, consumed::<Candle>(cs, first as int, bucket_ms as int, k as nat))
            },
        decreases n - i,
    {
        proof {
            assert(qf + i <= ql) by (nonlinear_arith)
                requires (qf + i) * bucket_ms <= ql * bucket_ms, bucket_ms > 0;
            assert((qf + i) * bucket_ms + bucket_ms == first + (i + 1) * bucket_ms) by (nonlinear_arith)
                requires first == qf * bucket_ms;
            assert((qf + i) * bucket_ms == first + i * bucket_ms) by (nonlinear_arith)
                requires first == qf * bucket_ms;
        }
        let end = bucket + bucket_ms;
        fp = advance_cursor(&win.funding, fp, end);
        op = advance_cursor(&win.oi, op, end);
        cp = advance_cursor(&win.candles, cp, end);
        proof {
            lemma_consumed_bounded::<FundingEvent>(fs, first as int, bucket_ms as int, i as nat);
            lemma_consumed_bounded::<OiEvent>(os, first as int, bucket_ms as int, i as nat);
            lemma_consumed_bounded::<Candle>(cs, first as int, bucket_ms as int, i as nat);
        }
        let f = if fp > 0 { win.funding[fp - 1].rate } else { 0 };
        let o = if op > 0 { win.oi[op - 1].oi } else { 0 };
        let c = if cp > 0 { win.candles[cp - 1].close } else { 0 };
        assert(fp == consumed::<FundingEvent>(fs, first as int, bucket_ms as int, i as nat));
        assert(f == funding_carry(fs, fp as nat));
        assert(o == oi_carry(os, op as nat));
        assert(c == close_carry(cs, cp as nat));
        time.push(bucket);
        funding.push(f);
        oi.push(o);
        price.push(c);
        let ghost bi = i as int;
        bucket = end;
        i = i + 1;
        proof {
            assert(bucket == (qf + i) * bucket_ms) by (nonlinear_arith)
                requires bucket == (qf + bi) * bucket_ms + bucket_ms, i == bi + 1;
        }
    }
    proof {
        assert(qf + i > ql) by (nonlinear_arith)
            requires (qf + i) * bucket_ms > ql * bucket_ms, bucket_ms > 0;
    }
    DivergenceSeries { time, funding, oi, price }
}

} // verus!
