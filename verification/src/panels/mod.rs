//! Panel builders: fold a windowed dataset into the data behind each panel.
//!
//! The time-bucketed panels share one raster: bucket `i` starts at
//! `first + i * bucket_ms`, where `first` is the start of the bucket holding
//! the first relevant event, and a bucket takes every not-yet-consumed event
//! whose timestamp lies before its end (streams are read with a cursor, as
//! they arrive).

pub mod book_heatmap;
pub mod footprint;
pub mod funding_oi_divergence;
pub mod liquidation_map;

use vstd::prelude::*;
use vstd::arithmetic::div_mod::lemma_fundamental_div_mod_converse;

use crate::dataset::Dataset;
use crate::spec::XrayPanel;
use crate::types::Timed;

verus! {

/// Builds one panel over the (already windowed) dataset with the builder of
/// its kind, handing it the panel's parameters: `footprint(win, price_bin,
/// bucket_ms)`, `heatmap(win, price_bin, bucket_ms, depth_levels)`,
/// `liquidations(win, price_bin)` or `divergence(win, bucket_ms)`. The frame
/// edge `_cursor_ts` is unused by the current panels.
pub fn build_panel_data<P, FA, FB, FC, FD>(
    panel: &XrayPanel,
    win: &Dataset,
    _cursor_ts: i64,
    footprint: FA,
    heatmap: FB,
    liquidations: FC,
    divergence: FD,
) -> (r: P) where
    FA: Fn(&Dataset, u64, i64) -> P,
    FB: Fn(&Dataset, u64, i64, u32) -> P,
    FC: Fn(&Dataset, u64) -> P,
    FD: Fn(&Dataset, i64) -> P,
    requires
        forall|w: &Dataset, b: u64, m: i64| footprint.requires((w, b, m)),
        forall|w: &Dataset, b: u64, m: i64, d: u32| heatmap.requires((w, b, m, d)),
        forall|w: &Dataset, b: u64| liquidations.requires((w, b)),
        forall|w: &Dataset, m: i64| divergence.requires((w, m)),
    ensures
        match *panel {
            XrayPanel::Footprint { price_bin, bucket_ms } => footprint.ensures((win, price_bin, bucket_ms), r),
            XrayPanel::BookHeatmap { price_bin, bucket_ms, depth_levels } => heatmap.ensures((win, price_bin, bucket_ms, depth_levels), r),
            XrayPanel::LiquidationMap { price_bin } => liquidations.ensures((win, price_bin), r),
            XrayPanel::FundingOiDivergence { bucket_ms } => divergence.ensures((win, bucket_ms), r),
        },
{
    match *panel {
        XrayPanel::Footprint { price_bin, bucket_ms } => footprint(win, price_bin, bucket_ms),
        XrayPanel::BookHeatmap { price_bin, bucket_ms, depth_levels } => heatmap(win, price_bin, bucket_ms, depth_levels),
        XrayPanel::LiquidationMap { price_bin } => liquidations(win, price_bin),
        XrayPanel::FundingOiDivergence { bucket_ms } => divergence(win, bucket_ms),
    }
}

/// The start of the `bucket_ms`-wide bucket containing `ts`:
/// `floor(ts / bucket_ms) * bucket_ms`.
pub open spec fn spec_bucket_start(ts: int, bucket_ms: int) -> int {
    (ts / bucket_ms) * bucket_ms
}

/// The number of buckets from the bucket of `first_ts` to the bucket of
/// `last_ts`, inclusive (not positive when `last_ts` lies in an earlier
/// bucket).
pub open spec fn bucket_count(first_ts: i64, last_ts: i64, bucket_ms: i64) -> int {
    (last_ts as int) / (bucket_ms as int) - (first_ts as int) / (bucket_ms as int) + 1
}

/// Whether the raster from the bucket of `first_ts` to the bucket of
/// `last_ts` can be laid out in 64-bit timestamps: both bucket starts and the
/// end of the last bucket are representable, the span does not overflow, and
/// the bucket count is a non-negative machine size.
pub open spec fn buckets_fit(first_ts: i64, last_ts: i64, bucket_ms: i64) -> bool {
    let first = spec_bucket_start(first_ts as int, bucket_ms as int);
    let last = spec_bucket_start(last_ts as int, bucket_ms as int);
    let n = bucket_count(first_ts, last_ts, bucket_ms);
    &&& bucket_ms > 0
    &&& first >= i64::MIN
    &&& last >= i64::MIN
    &&& last - first <= i64::MAX
    &&& 0 <= n <= usize::MAX
    &&& (n > 0 ==> last + bucket_ms <= i64::MAX)
}

/// The stream cursor after consuming, from `j` on, every event before `end`
/// (stopping at the first that is not).
pub open spec fn advance<T: Timed>(s: Seq<T::V>, j: nat, end: int) -> nat
    decreases s.len() - j,
{
    if j < s.len() && T::ts_of(s[j as int]) < end {
        advance::<T>(s, j + 1, end)
    } else {
        j
    }
}

/// The stream cursor once bucket `i` of the raster starting at `first` is
/// done.
pub open spec fn consumed<T: Timed>(s: Seq<T::V>, first: int, bucket_ms: int, i: nat) -> nat
    decreases i,
{
    let prev = if i == 0 { 0 } else { consumed::<T>(s, first, bucket_ms, (i - 1) as nat) };
    advance::<T>(s, prev, first + (i + 1) * bucket_ms)
}

proof fn lemma_advance_monotone<T: Timed>(s: Seq<T::V>, j: nat, end: int)
    ensures
        j <= advance::<T>(s, j, end),
        j <= s.len() ==> advance::<T>(s, j, end) <= s.len(),
    decreases s.len() - j,
{
    if j < s.len() && T::ts_of(s[j as int]) < end {
        lemma_advance_monotone::<T>(s, j + 1, end);
    }
}

/// The cursor never runs past the stream.
pub proof fn lemma_consumed_bounded<T: Timed>(s: Seq<T::V>, first: int, bucket_ms: int, i: nat)
    ensures
        consumed::<T>(s, first, bucket_ms, i) <= s.len(),
        i > 0 ==> consumed::<T>(s, first, bucket_ms, (i - 1) as nat) <= consumed::<T>(s, first, bucket_ms, i),
    decreases i,
{
    if i > 0 {
        lemma_consumed_bounded::<T>(s, first, bucket_ms, (i - 1) as nat);
        lemma_advance_monotone::<T>(s, consumed::<T>(s, first, bucket_ms, (i - 1) as nat), first + (i + 1) * bucket_ms);
    } else {
        lemma_advance_monotone::<T>(s, 0, first + (i + 1) * bucket_ms);
    }
}

/// Moves the cursor `j` past every event of `s` before `end`.
pub fn advance_cursor<T: Timed>(s: &Vec<T>, j: usize, end: i64) -> (r: usize)
    requires
        j <= s@.len(),
    ensures
        r == advance::<T>(crate::sort::views(s@), j as nat, end as int),
{
    let ghost vs = crate::sort::views(s@);
    let mut k = j;
    while k < s.len() && s[k].ts() < end
        invariant
            j <= k <= s@.len(),
            vs == crate::sort::views(s@),
            advance::<T>(vs, k as nat, end as int) == advance::<T>(vs, j as nat, end as int),
        decreases s.len() - k,
    {
        assert(vs[k as int] == s@[k as int]@);
        k = k + 1;
    }
    proof {
        if k < s@.len() {
            assert(vs[k as int] == s@[k as int]@);
        }
    }
    k
}

/// `floor(ts / d)` for a positive divisor, with its remainder relation.
fn floor_div(ts: i64, d: i64) -> (q: i64)
    requires
        d > 0,
    ensures
        q == (ts as int) / (d as int),
        q * d <= ts,
        ts - q * d < d,
{
    let b = d as u64;
    let q: i64 = if ts >= 0 {
        ((ts as u64) / b) as i64
    } else {
        let m: u64 = (-1 - ts) as u64;
        -1 - ((m / b) as i64)
    };
    proof {
        let bi = d as int;
        if ts >= 0 {
            let t = ts as int;
            let qq = t / bi;
            let r = t % bi;
            vstd::arithmetic::div_mod::lemma_fundamental_div_mod(t, bi);
            assert(q == qq);
            assert(q * d <= ts) by (nonlinear_arith)
                requires t == bi * qq + r, 0 <= r < bi, q == qq, t == ts, bi == d;
            assert(ts - q * d < d) by (nonlinear_arith)
                requires t == bi * qq + r, 0 <= r < bi, q == qq, t == ts, bi == d;
        } else {
            let m = -1 - ts as int;
            let qm = m / bi;
            let sm = m % bi;
            vstd::arithmetic::div_mod::lemma_fundamental_div_mod(m, bi);
            assert(ts == (-qm - 1) * bi + (bi - 1 - sm)) by (nonlinear_arith)
                requires m == bi * qm + sm, m == -1 - ts;
            lemma_fundamental_div_mod_converse(ts as int, bi, -qm - 1, bi - 1 - sm);
            assert(q == -qm - 1);
            assert(q * d <= ts) by (nonlinear_arith)
                requires ts == (-qm - 1) * bi + (bi - 1 - sm), 0 <= sm < bi, q == -qm - 1, bi == d;
            assert(ts - q * d < d) by (nonlinear_arith)
                requires ts == (-qm - 1) * bi + (bi - 1 - sm), 0 <= sm < bi, q == -qm - 1, bi == d;
        }
    }
    q
}

/// The start of the `bucket_ms`-wide bucket containing `ts`.
pub fn bucket_start(ts: i64, bucket_ms: i64) -> (start: i64)
    requires
        bucket_ms > 0,
        spec_bucket_start(ts as int, bucket_ms as int) >= i64::MIN,
    ensures
        start == spec_bucket_start(ts as int, bucket_ms as int),
        start <= ts,
        ts - start < bucket_ms,
{
    let q = floor_div(ts, bucket_ms);
    q * bucket_ms
}

/// Whether the raster from the bucket of `first_ts` to that of `last_ts`
/// fits (see [`buckets_fit`]).
pub fn check_buckets(first_ts: i64, last_ts: i64, bucket_ms: i64) -> (r: bool)
    ensures
        r == buckets_fit(first_ts, last_ts, bucket_ms),
{
    if bucket_ms <= 0 {
        return false;
    }
    let qf = floor_div(first_ts, bucket_ms);
    let ql = floor_div(last_ts, bucket_ms);
    let b = bucket_ms as i128;
    let first: i128 = (first_ts as i128) - ((first_ts as i128) - (qf as i128) * b);
    let last: i128 = (last_ts as i128) - ((last_ts as i128) - (ql as i128) * b);
    if first < i64::MIN as i128 || last < i64::MIN as i128 {
        return false;
    }
    if last - first > i64::MAX as i128 {
        return false;
    }
    let n: i128 = (ql as i128) - (qf as i128) + 1;
    if n < 0 || n > usize::MAX as i128 {
        return false;
    }
    if n > 0 && last + b > i64::MAX as i128 {
        return false;
    }
    true
}

} // verus!
