//! Liquidation map: liquidations snapped to price bins.
//!
//! Each liquidation becomes one [`LiqEvent`] whose `price_bin` is the lower
//! edge of its price bin (computed by the caller). The events stay
//! event-granular and are ordered by `(ts, price_bin, side)`, stably, for a
//! deterministic, byte-reproducible order.

use vstd::prelude::*;

use crate::sort::{is_stable_sort_of, stable_sort, views, Ranked};
use crate::types::{spec_total_order_key, total_order_key, LiqSide, SIGN_BIT};

verus! {

/// A single liquidation, its price snapped to a bin.
#[derive(Clone, Copy, Debug, PartialEq, Eq, Structural)]
pub struct LiqEvent {
    /// The liquidation timestamp.
    pub ts: i64,
    /// The lower edge of the price bin (bits of a double).
    pub price_bin: u64,
    /// Liquidated quantity (bits of a double).
    pub qty: u64,
    /// The liquidated side.
    pub side: LiqSide,
}

/// The events of a liquidation map, ordered by `(ts, price_bin, side)`.
#[derive(Debug)]
pub struct LiqMapData {
    /// Events sorted by `(ts, price_bin, side)`.
    pub events: Vec<LiqEvent>,
}

/// The rank of a side in the event order: longs before shorts.
pub open spec fn spec_side_rank(side: LiqSide) -> int {
    match side {
        LiqSide::Long => 0,
        LiqSide::Short => 1,
    }
}

/// A stable rank for the side, so it can join the sort key.
pub fn side_rank(side: LiqSide) -> (r: u8)
    ensures
        r == spec_side_rank(side),
{
    match side {
        LiqSide::Long => 0,
        LiqSide::Short => 1,
    }
}

/// The width of the price-and-side part of the event rank.
pub open spec fn ts_weight() -> int {
    0x2_0000_0000_0000_0000
}

/// The price-and-side part of the event rank, in `[0, ts_weight())`.
pub open spec fn bin_side_rank(e: LiqEvent) -> int {
    (spec_total_order_key(e.price_bin) + SIGN_BIT) * 2 + spec_side_rank(e.side)
}

impl View for LiqEvent {
    type V = LiqEvent;

    open spec fn view(&self) -> LiqEvent {
        *self
    }
}

proof fn lemma_lexicographic(t1: int, a: int, t2: int, b: int, w: int)
    requires
        0 <= a < w,
        0 <= b < w,
    ensures
        (t1 * w + a <= t2 * w + b) == (t1 < t2 || (t1 == t2 && a <= b)),
{
    if t1 < t2 {
        assert(t1 * w + a <= t2 * w + b) by (nonlinear_arith)
            requires t1 < t2, 0 <= a < w, 0 <= b < w;
    } else if t1 > t2 {
        assert(t1 * w + a > t2 * w + b) by (nonlinear_arith)
            requires t1 > t2, 0 <= a < w, 0 <= b < w;
    }
}

impl Ranked for LiqEvent {
    /// Orders by timestamp, then by price bin (the total order of doubles),
    /// then by side.
    open spec fn rank_of(e: LiqEvent) -> int {
        e.ts * ts_weight() + bin_side_rank(e)
    }

    fn rank_le(&self, other: &LiqEvent) -> (r: bool) {
        let ka = total_order_key(self.price_bin);
        let kb = total_order_key(other.price_bin);
        let sa = side_rank(self.side);
        let sb = side_rank(other.side);
        proof {
            lemma_lexicographic(self.ts as int, bin_side_rank(*self), other.ts as int, bin_side_rank(*other), ts_weight());
        }
        if self.ts != other.ts {
            self.ts < other.ts
        } else if ka != kb {
            ka < kb
        } else {
            sa <= sb
        }
    }
}

/// Orders the events by `(ts, price_bin, side)`, keeping the input order of
/// events that agree on all three.
pub fn order_events(events: Vec<LiqEvent>) -> (m: LiqMapData)
    ensures
        is_stable_sort_of::<LiqEvent>(views(m.events@), views(events@)),
{
    LiqMapData { events: stable_sort(events) }
}

} // verus!
