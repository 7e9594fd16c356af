//! Input event types and the integer view of prices used for ordering.
//!
//! Every floating-point field is held as the bit pattern of an IEEE-754
//! double (`f64::to_bits`). Two prices are the same book or bin key exactly
//! when their bit patterns are equal, and they are ordered by
//! [`total_order_key`], the integer image of `f64::total_cmp`.

use vstd::prelude::*;

use crate::sort::Ranked;

verus! {

/// The aggressor side of a trade (the taker's direction).
#[derive(Clone, Copy, Debug, PartialEq, Eq, Structural)]
pub enum Side {
    /// The taker bought, lifting the ask.
    Buy,
    /// The taker sold, hitting the bid.
    Sell,
}

/// The side of a liquidated position.
#[derive(Clone, Copy, Debug, PartialEq, Eq, Structural)]
pub enum LiqSide {
    /// A long position was liquidated.
    Long,
    /// A short position was liquidated.
    Short,
}

/// Whether a book event is a full snapshot or an incremental diff.
#[derive(Clone, Copy, Debug, PartialEq, Eq, Structural)]
pub enum BookKind {
    /// Replace the whole book with the given levels.
    Snapshot,
    /// Apply the given level changes; a zero quantity removes a level.
    Diff,
}

/// The sign bit of an IEEE-754 double.
pub const SIGN_BIT: u64 = 0x8000_0000_0000_0000u64;

/// The bit pattern of positive infinity; every finite positive double lies
/// strictly between zero and it.
pub const POSITIVE_INFINITY_BITS: u64 = 0x7FF0_0000_0000_0000u64;

/// The integer whose order is the total order of doubles (`f64::total_cmp`):
/// non-negative patterns keep their value, negative ones are mirrored below
/// zero so that a larger magnitude sorts lower.
pub open spec fn spec_total_order_key(bits: u64) -> int {
    if bits < SIGN_BIT {
        bits as int
    } else {
        SIGN_BIT - 1 - bits
    }
}

/// The bit pattern whose total-order key is `key` (the inverse of
/// [`spec_total_order_key`]).
pub open spec fn spec_key_bits(key: int) -> int {
    if key >= 0 {
        key
    } else {
        SIGN_BIT - 1 - key
    }
}

/// Whether the double with these bits compares equal to `0.0` (either zero).
pub open spec fn spec_is_zero(bits: u64) -> bool {
    bits == 0 || bits == SIGN_BIT
}

/// Whether the double with these bits is finite and strictly positive.
pub open spec fn spec_is_positive_finite(bits: u64) -> bool {
    0 < bits < POSITIVE_INFINITY_BITS
}

/// The total-order key of a double's bit pattern.
pub fn total_order_key(bits: u64) -> (key: i64)
    ensures
        key == spec_total_order_key(bits),
{
    if bits < SIGN_BIT {
        bits as i64
    } else {
        let magnitude: u64 = bits - SIGN_BIT;
        -1 - (magnitude as i64)
    }
}

/// The bit pattern of the double whose total-order key is `key`.
pub fn key_bits(key: i64) -> (bits: u64)
    ensures
        bits == spec_key_bits(key as int),
        spec_total_order_key(bits) == key,
{
    if key >= 0 {
        key as u64
    } else {
        let magnitude: u64 = (-1 - key) as u64;
        SIGN_BIT + magnitude
    }
}

/// The total-order key is one-to-one: equal keys mean equal bit patterns.
pub proof fn lemma_total_order_key_injective(a: u64, b: u64)
    ensures
        spec_total_order_key(a) == spec_total_order_key(b) <==> a == b,
        spec_key_bits(spec_total_order_key(a)) == a,
{
}

/// Whether the double with these bits compares equal to `0.0`.
pub fn is_zero(bits: u64) -> (r: bool)
    ensures
        r == spec_is_zero(bits),
{
    bits == 0 || bits == SIGN_BIT
}

/// Whether the double with these bits is finite and strictly positive.
pub fn is_positive_finite(bits: u64) -> (r: bool)
    ensures
        r == spec_is_positive_finite(bits),
{
    0 < bits && bits < POSITIVE_INFINITY_BITS
}

/// A timestamped event of one of the dataset streams.
pub trait Timed: View + Sized {
    /// The event timestamp (milliseconds) of a view.
    spec fn ts_of(v: Self::V) -> i64;

    /// The event timestamp in milliseconds.
    fn ts(&self) -> (r: i64)
        ensures
            r == Self::ts_of(self@),
    ;

    /// A copy of the event.
    fn duplicate(&self) -> (r: Self)
        ensures
            r@ == self@,
    ;
}

/// An aggressor-tagged trade.
#[derive(Clone, Copy, Debug, PartialEq, Eq, Structural)]
pub struct Trade {
    /// Event timestamp in milliseconds.
    pub ts: i64,
    /// Trade price (bits of a double).
    pub price: u64,
    /// Trade quantity in base units (bits of a double).
    pub qty: u64,
    /// The taker's side.
    pub side: Side,
}

/// One book level, `[price, qty]` (bits of two doubles).
#[derive(Clone, Copy, Debug, PartialEq, Eq, Structural)]
pub struct Level {
    /// Level price.
    pub price: u64,
    /// Resting quantity; zero in a diff removes the level.
    pub qty: u64,
}

/// An order-book snapshot or diff.
#[derive(Clone, Debug, PartialEq, Eq)]
pub struct BookEvent {
    /// Event timestamp in milliseconds.
    pub ts: i64,
    /// Whether this replaces the book (snapshot) or updates it (diff).
    pub kind: BookKind,
    /// Bid levels.
    pub bids: Vec<Level>,
    /// Ask levels.
    pub asks: Vec<Level>,
}

/// The mathematical content of a [`BookEvent`].
pub struct BookEventView {
    pub ts: i64,
    pub kind: BookKind,
    pub bids: Seq<Level>,
    pub asks: Seq<Level>,
}

/// A funding-rate event.
#[derive(Clone, Copy, Debug, PartialEq, Eq, Structural)]
pub struct FundingEvent {
    /// Event timestamp in milliseconds.
    pub ts: i64,
    /// Funding rate as a fraction (bits of a double).
    pub rate: u64,
}

/// An open-interest event.
#[derive(Clone, Copy, Debug, PartialEq, Eq, Structural)]
pub struct OiEvent {
    /// Event timestamp in milliseconds.
    pub ts: i64,
    /// Open interest in base units (bits of a double).
    pub oi: u64,
}

/// A liquidation event.
#[derive(Clone, Copy, Debug, PartialEq, Eq, Structural)]
pub struct LiquidationEvent {
    /// Event timestamp in milliseconds.
    pub ts: i64,
    /// Liquidation price (bits of a double).
    pub price: u64,
    /// Liquidated quantity in base units (bits of a double).
    pub qty: u64,
    /// The liquidated position side.
    pub side: LiqSide,
}

/// Copies a list of levels.
pub fn copy_levels(levels: &Vec<Level>) -> (r: Vec<Level>)
    ensures
        r@ == levels@,
{
    let mut r: Vec<Level> = Vec::new();
    let mut i: usize = 0;
    while i < levels.len()
        invariant
            i <= levels@.len(),
            r@ == levels@.take(i as int),
        decreases levels.len() - i,
    {
        r.push(levels[i]);
        i = i + 1;
        assert(r@ =~= levels@.take(i as int));
    }
    assert(levels@.take(i as int) =~= levels@);
    r
}

impl View for Trade {
    type V = Trade;

    open spec fn view(&self) -> Trade {
        *self
    }
}

impl View for FundingEvent {
    type V = FundingEvent;

    open spec fn view(&self) -> FundingEvent {
        *self
    }
}

impl View for OiEvent {
    type V = OiEvent;

    open spec fn view(&self) -> OiEvent {
        *self
    }
}

impl View for LiquidationEvent {
    type V = LiquidationEvent;

    open spec fn view(&self) -> LiquidationEvent {
        *self
    }
}

impl View for BookEvent {
    type V = BookEventView;

    open spec fn view(&self) -> BookEventView {
        BookEventView { ts: self.ts, kind: self.kind, bids: self.bids@, asks: self.asks@ }
    }
}

impl Timed for Trade {
    open spec fn ts_of(v: Trade) -> i64 {
        v.ts
    }

    fn ts(&self) -> (r: i64) {
        self.ts
    }

    fn duplicate(&self) -> (r: Trade) {
        *self
    }
}

impl Timed for FundingEvent {
    open spec fn ts_of(v: FundingEvent) -> i64 {
        v.ts
    }

    fn ts(&self) -> (r: i64) {
        self.ts
    }

    fn duplicate(&self) -> (r: FundingEvent) {
        *self
    }
}

impl Timed for OiEvent {
    open spec fn ts_of(v: OiEvent) -> i64 {
        v.ts
    }

    fn ts(&self) -> (r: i64) {
        self.ts
    }

    fn duplicate(&self) -> (r: OiEvent) {
        *self
    }
}

impl Timed for LiquidationEvent {
    open spec fn ts_of(v: LiquidationEvent) -> i64 {
        v.ts
    }

    fn ts(&self) -> (r: i64) {
        self.ts
    }

    fn duplicate(&self) -> (r: LiquidationEvent) {
        *self
    }
}

impl Timed for BookEvent {
    open spec fn ts_of(v: BookEventView) -> i64 {
        v.ts
    }

    fn ts(&self) -> (r: i64) {
        self.ts
    }

    fn duplicate(&self) -> (r: BookEvent) {
        BookEvent {
            ts: self.ts,
            kind: self.kind,
            bids: copy_levels(&self.bids),
            asks: copy_levels(&self.asks),
        }
    }
}

impl Ranked for Trade {
    open spec fn rank_of(v: Trade) -> int {
        v.ts as int
    }

    fn rank_le(&self, other: &Trade) -> (r: bool) {
        self.ts <= other.ts
    }
}

impl Ranked for FundingEvent {
    open spec fn rank_of(v: FundingEvent) -> int {
        v.ts as int
    }

    fn rank_le(&self, other: &FundingEvent) -> (r: bool) {
        self.ts <= other.ts
    }
}

impl Ranked for OiEvent {
    open spec fn rank_of(v: OiEvent) -> int {
        v.ts as int
    }

    fn rank_le(&self, other: &OiEvent) -> (r: bool) {
        self.ts <= other.ts
    }
}

impl Ranked for LiquidationEvent {
    open spec fn rank_of(v: LiquidationEvent) -> int {
        v.ts as int
    }

    fn rank_le(&self, other: &LiquidationEvent) -> (r: bool) {
        self.ts <= other.ts
    }
}

impl Ranked for BookEvent {
    open spec fn rank_of(v: BookEventView) -> int {
        v.ts as int
    }

    fn rank_le(&self, other: &BookEvent) -> (r: bool) {
        self.ts <= other.ts
    }
}

} // verus!
