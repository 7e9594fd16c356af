//! The `Dataset`: the recorded event streams the panels fold over.

use vstd::prelude::*;

use crate::sort::{is_stable_sort_of, lemma_stable_sort_unique, stable_sort, views, Ranked};
use crate::types::{BookEvent, BookEventView, FundingEvent, LiquidationEvent, OiEvent, Timed, Trade};

verus! {

/// An OHLCV candle; prices and volume are bits of doubles.
#[derive(Clone, Copy, Debug, PartialEq, Eq, Structural)]
pub struct Candle {
    /// Bar timestamp in milliseconds.
    pub ts: i64,
    /// Open price.
    pub open: u64,
    /// High price.
    pub high: u64,
    /// Low price.
    pub low: u64,
    /// Close price.
    pub close: u64,
    /// Bar volume in base units.
    pub volume: u64,
}

impl View for Candle {
    type V = Candle;

    open spec fn view(&self) -> Candle {
        *self
    }
}

impl Timed for Candle {
    open spec fn ts_of(v: Candle) -> i64 {
        v.ts
    }

    fn ts(&self) -> (r: i64) {
        self.ts
    }

    fn duplicate(&self) -> (r: Candle) {
        *self
    }
}

impl Ranked for Candle {
    open spec fn rank_of(v: Candle) -> int {
        v.ts as int
    }

    fn rank_le(&self, other: &Candle) -> (r: bool) {
        self.ts <= other.ts
    }
}

/// The event streams of a loaded dataset window.
#[derive(Clone, Debug, PartialEq)]
pub struct Dataset {
    /// OHLCV candles.
    pub candles: Vec<Candle>,
    /// Aggressor-tagged trades.
    pub trades: Vec<Trade>,
    /// Order-book snapshots and diffs.
    pub book: Vec<BookEvent>,
    /// Funding-rate events.
    pub funding: Vec<FundingEvent>,
    /// Open-interest events.
    pub oi: Vec<OiEvent>,
    /// Liquidation events.
    pub liquidations: Vec<LiquidationEvent>,
}

/// The mathematical content of a [`Dataset`]: one sequence per stream.
pub struct DatasetView {
    pub candles: Seq<Candle>,
    pub trades: Seq<Trade>,
    pub book: Seq<BookEventView>,
    pub funding: Seq<FundingEvent>,
    pub oi: Seq<OiEvent>,
    pub liquidations: Seq<LiquidationEvent>,
}

impl View for Dataset {
    type V = DatasetView;

    open spec fn view(&self) -> DatasetView {
        DatasetView {
            candles: views(self.candles@),
            trades: views(self.trades@),
            book: views(self.book@),
            funding: views(self.funding@),
            oi: views(self.oi@),
            liquidations: views(self.liquidations@),
        }
    }
}

/// The timestamps of a stream, in stream order.
pub open spec fn ts_seq<T: Timed>(s: Seq<T::V>) -> Seq<i64> {
    s.map_values(|v: T::V| T::ts_of(v))
}

/// Whether `ts` lies in the inclusive window `[from, to]`; a `None` bound is
/// open on that side.
pub open spec fn in_window(ts: i64, from: Option<i64>, to: Option<i64>) -> bool {
    &&& (from matches Some(f) ==> ts >= f)
    &&& (to matches Some(t) ==> ts <= t)
}

/// The predicate "the event lies in `[from, to]`".
pub open spec fn window_pred<T: Timed>(from: Option<i64>, to: Option<i64>) -> spec_fn(T::V) -> bool {
    |v: T::V| in_window(T::ts_of(v), from, to)
}

impl DatasetView {
    /// The total number of events across every stream.
    pub open spec fn n_events(self) -> nat {
        self.candles.len() + self.trades.len() + self.book.len() + self.funding.len()
            + self.oi.len() + self.liquidations.len()
    }

    /// Every event timestamp, stream after stream.
    pub open spec fn all_ts(self) -> Seq<i64> {
        ts_seq::<Candle>(self.candles) + ts_seq::<Trade>(self.trades) + ts_seq::<BookEvent>(self.book)
            + ts_seq::<FundingEvent>(self.funding) + ts_seq::<OiEvent>(self.oi)
            + ts_seq::<LiquidationEvent>(self.liquidations)
    }

    /// The dataset clipped to the inclusive window `[from, to]`, stream order kept.
    pub open spec fn window(self, from: Option<i64>, to: Option<i64>) -> DatasetView {
        DatasetView {
            candles: self.candles.filter(window_pred::<Candle>(from, to)),
            trades: self.trades.filter(window_pred::<Trade>(from, to)),
            book: self.book.filter(window_pred::<BookEvent>(from, to)),
            funding: self.funding.filter(window_pred::<FundingEvent>(from, to)),
            oi: self.oi.filter(window_pred::<OiEvent>(from, to)),
            liquidations: self.liquidations.filter(window_pred::<LiquidationEvent>(from, to)),
        }
    }

    /// `self` is `orig` with every stream stably sorted by timestamp.
    pub open spec fn is_sorted_from(self, orig: DatasetView) -> bool {
        &&& is_stable_sort_of::<Candle>(self.candles, orig.candles)
        &&& is_stable_sort_of::<Trade>(self.trades, orig.trades)
        &&& is_stable_sort_of::<BookEvent>(self.book, orig.book)
        &&& is_stable_sort_of::<FundingEvent>(self.funding, orig.funding)
        &&& is_stable_sort_of::<OiEvent>(self.oi, orig.oi)
        &&& is_stable_sort_of::<LiquidationEvent>(self.liquidations, orig.liquidations)
    }

    /// The dataset with every stream stably sorted by timestamp (unique; see
    /// [`lemma_sorted_view`]).
    pub open spec fn sorted(self) -> DatasetView {
        choose|v: DatasetView| v.is_sorted_from(self)
    }

    /// The earliest event timestamp (meaningful for a non-empty dataset).
    pub open spec fn min_ts(self) -> i64 {
        choose|lo: i64| self.all_ts().contains(lo) && forall|i: int| 0 <= i < self.all_ts().len() ==> lo <= #[trigger] self.all_ts()[i]
    }

    /// The latest event timestamp (meaningful for a non-empty dataset).
    pub open spec fn max_ts(self) -> i64 {
        choose|hi: i64| self.all_ts().contains(hi) && forall|i: int| 0 <= i < self.all_ts().len() ==> #[trigger] self.all_ts()[i] <= hi
    }

    /// The dataset with no events.
    pub open spec fn empty() -> DatasetView {
        DatasetView {
            candles: Seq::empty(),
            trades: Seq::empty(),
            book: Seq::empty(),
            funding: Seq::empty(),
            oi: Seq::empty(),
            liquidations: Seq::empty(),
        }
    }
}

/// The events of `s` within `[from, to]`, in stream order.
fn window_stream<T: Timed>(s: &Vec<T>, from: Option<i64>, to: Option<i64>) -> (out: Vec<T>)
    ensures
        views(out@) == views(s@).filter(window_pred::<T>(from, to)),
{
    let ghost pred = window_pred::<T>(from, to);
    let mut out: Vec<T> = Vec::new();
    let mut i: usize = 0;
    assert(views(s@).take(0) =~= Seq::<T::V>::empty());
    assert(views(out@) =~= views(s@).take(0).filter(pred)) by {
        reveal(Seq::filter);
    }
    while i < s.len()
        invariant
            i <= s@.len(),
            pred == window_pred::<T>(from, to),
            views(out@) == views(s@).take(i as int).filter(pred),
        decreases s.len() - i,
    {
        let ts = s[i].ts();
        let keep = match from {
            Some(f) => ts >= f,
            None => true,
        } && match to {
            Some(t) => ts <= t,
            None => true,
        };
        let ghost prev = out@;
        assert(views(s@).take(i + 1) =~= views(s@).take(i as int).push(s@[i as int]@));
        proof { views(s@).take(i as int).lemma_filter_push(s@[i as int]@, pred); }
        if keep {
            out.push(s[i].duplicate());
            assert(views(out@) =~= views(prev).push(s@[i as int]@));
        }
        i = i + 1;
    }
    assert(views(s@).take(i as int) =~= views(s@));
    out
}

/// Folds the timestamps of `s` into the running `(lo, hi)`.
fn fold_bounds<T: Timed>(s: &Vec<T>, lo: i64, hi: i64) -> (r: (i64, i64))
    ensures
        r.0 <= lo,
        hi <= r.1,
        r.0 == lo || ts_seq::<T>(views(s@)).contains(r.0),
        r.1 == hi || ts_seq::<T>(views(s@)).contains(r.1),
        forall|i: int| 0 <= i < s@.len() ==> r.0 <= #[trigger] ts_seq::<T>(views(s@))[i] <= r.1,
{
    let ghost tss = ts_seq::<T>(views(s@));
    let mut lo2 = lo;
    let mut hi2 = hi;
    let mut i: usize = 0;
    while i < s.len()
        invariant
            i <= s@.len(),
            tss == ts_seq::<T>(views(s@)),
            tss.len() == s@.len(),
            lo2 <= lo,
            hi <= hi2,
            lo2 == lo || tss.contains(lo2),
            hi2 == hi || tss.contains(hi2),
            forall|j: int| 0 <= j < i ==> lo2 <= #[trigger] tss[j] <= hi2,
        decreases s.len() - i,
    {
        let ts = s[i].ts();
        assert(tss[i as int] == ts);
        if ts < lo2 {
            lo2 = ts;
        }
        if ts > hi2 {
            hi2 = ts;
        }
        i = i + 1;
    }
    (lo2, hi2)
}

impl Default for Dataset {
    fn default() -> (d: Dataset)
        ensures
            d@ == DatasetView::empty(),
    {
        Dataset::empty()
    }
}

impl Dataset {
    /// The dataset with no events.
    pub fn empty() -> (d: Dataset)
        ensures
            d@ == DatasetView::empty(),
    {
        let d = Dataset {
            candles: Vec::new(),
            trades: Vec::new(),
            book: Vec::new(),
            funding: Vec::new(),
            oi: Vec::new(),
            liquidations: Vec::new(),
        };
        assert(d@.candles =~= Seq::<Candle>::empty());
        assert(d@.trades =~= Seq::<Trade>::empty());
        assert(d@.book =~= Seq::<BookEventView>::empty());
        assert(d@.funding =~= Seq::<FundingEvent>::empty());
        assert(d@.oi =~= Seq::<OiEvent>::empty());
        assert(d@.liquidations =~= Seq::<LiquidationEvent>::empty());
        d
    }

    /// Stable-sorts every stream by timestamp (equal timestamps keep their
    /// input order), so that the downstream fold is deterministic.
    pub fn sort(&mut self)
        ensures
            final(self)@.is_sorted_from(old(self)@),
            final(self)@ == old(self)@.sorted(),
            final(self)@.n_events() == old(self)@.n_events(),
    {
        let mut candles: Vec<Candle> = Vec::new();
        std::mem::swap(&mut candles, &mut self.candles);
        self.candles = stable_sort(candles);
        let mut trades: Vec<Trade> = Vec::new();
        std::mem::swap(&mut trades, &mut self.trades);
        self.trades = stable_sort(trades);
        let mut book: Vec<BookEvent> = Vec::new();
        std::mem::swap(&mut book, &mut self.book);
        self.book = stable_sort(book);
        let mut funding: Vec<FundingEvent> = Vec::new();
        std::mem::swap(&mut funding, &mut self.funding);
        self.funding = stable_sort(funding);
        let mut oi: Vec<OiEvent> = Vec::new();
        std::mem::swap(&mut oi, &mut self.oi);
        self.oi = stable_sort(oi);
        let mut liquidations: Vec<LiquidationEvent> = Vec::new();
        std::mem::swap(&mut liquidations, &mut self.liquidations);
        self.liquidations = stable_sort(liquidations);
        proof {
            lemma_sorted_view(self@, old(self)@);
        }
    }

    /// The total number of events across every stream.
    pub fn n_events(&self) -> (n: usize)
        requires
            self@.n_events() <= usize::MAX,
        ensures
            n == self@.n_events(),
    {
        self.candles.len() + self.trades.len() + self.book.len() + self.funding.len()
            + self.oi.len() + self.liquidations.len()
    }

    /// The `(min_ts, max_ts, n_events)` bounds across every stream, or `None`
    /// when the dataset is empty.
    pub fn bounds(&self) -> (r: Option<(i64, i64, usize)>)
        requires
            self@.n_events() <= usize::MAX,
        ensures
            r is None <==> self@.n_events() == 0,
            r matches Some((lo, hi, n)) ==> {
                &&& n == self@.n_events()
                &&& self@.all_ts().contains(lo)
                &&& self@.all_ts().contains(hi)
                &&& forall|i: int| 0 <= i < self@.all_ts().len() ==> lo <= #[trigger] self@.all_ts()[i] <= hi
                &&& lo == self@.min_ts()
                &&& hi == self@.max_ts()
            },
    {
        let n = self.n_events();
        if n == 0 {
            return None;
        }
        let (lo, hi) = fold_bounds(&self.candles, i64::MAX, i64::MIN);
        let (lo, hi) = fold_bounds(&self.trades, lo, hi);
        let (lo, hi) = fold_bounds(&self.book, lo, hi);
        let (lo, hi) = fold_bounds(&self.funding, lo, hi);
        let (lo, hi) = fold_bounds(&self.oi, lo, hi);
        let (lo, hi) = fold_bounds(&self.liquidations, lo, hi);
        let ghost all = self@.all_ts();
        let ghost a = ts_seq::<Candle>(self@.candles);
        let ghost b = ts_seq::<Trade>(self@.trades);
        let ghost c = ts_seq::<BookEvent>(self@.book);
        let ghost d = ts_seq::<FundingEvent>(self@.funding);
        let ghost e = ts_seq::<OiEvent>(self@.oi);
        let ghost f = ts_seq::<LiquidationEvent>(self@.liquidations);
        assert(all == a + b + c + d + e + f);
        assert forall|i: int| 0 <= i < all.len() implies lo <= #[trigger] all[i] <= hi by {
            if i < a.len() {
            } else if i < a.len() + b.len() {
                assert(all[i] == b[i - a.len()]);
            } else if i < a.len() + b.len() + c.len() {
                assert(all[i] == c[i - a.len() - b.len()]);
            } else if i < a.len() + b.len() + c.len() + d.len() {
                assert(all[i] == d[i - a.len() - b.len() - c.len()]);
            } else if i < a.len() + b.len() + c.len() + d.len() + e.len() {
                assert(all[i] == e[i - a.len() - b.len() - c.len() - d.len()]);
            } else {
                assert(all[i] == f[i - a.len() - b.len() - c.len() - d.len() - e.len()]);
            }
        }
        assert(all.len() == n);
        assert(all.contains(lo)) by {
            if lo == i64::MAX {
                assert(lo <= all[0]);
                assert(all[0] == lo);
            } else {
                lemma_contains_in_parts(a, b, c, d, e, f, lo);
            }
        }
        assert(all.contains(hi)) by {
            if hi == i64::MIN {
                assert(all[0] <= hi);
                assert(all[0] == hi);
            } else {
                lemma_contains_in_parts(a, b, c, d, e, f, hi);
            }
        }
        proof {
            let mn = self@.min_ts();
            let mx = self@.max_ts();
            assert(all.contains(mn) && forall|i: int| 0 <= i < all.len() ==> mn <= #[trigger] all[i]);
            assert(all.contains(mx) && forall|i: int| 0 <= i < all.len() ==> #[trigger] all[i] <= mx);
            let imn = choose|i: int| 0 <= i < all.len() && all[i] == mn;
            let ilo = choose|i: int| 0 <= i < all.len() && all[i] == lo;
            assert(lo <= all[imn] && mn <= all[ilo]);
            let imx = choose|i: int| 0 <= i < all.len() && all[i] == mx;
            let ihi = choose|i: int| 0 <= i < all.len() && all[i] == hi;
            assert(all[imx] <= hi && all[ihi] <= mx);
        }
        Some((lo, hi, n))
    }

    /// A copy of the dataset clipped to the inclusive window `[from, to]` (a
    /// `None` bound is open on that side). Order within each stream is kept.
    pub fn window(&self, from: Option<i64>, to: Option<i64>) -> (w: Dataset)
        ensures
            w@ == self@.window(from, to),
    {
        Dataset {
            candles: window_stream(&self.candles, from, to),
            trades: window_stream(&self.trades, from, to),
            book: window_stream(&self.book, from, to),
            funding: window_stream(&self.funding, from, to),
            oi: window_stream(&self.oi, from, to),
            liquidations: window_stream(&self.liquidations, from, to),
        }
    }
}

/// Sorting is deterministic: any stable sort of `d` is `d.sorted()`.
pub proof fn lemma_sorted_view(v: DatasetView, d: DatasetView)
    requires
        v.is_sorted_from(d),
    ensures
        v == d.sorted(),
{
    let c = d.sorted();
    assert(c.is_sorted_from(d));
    lemma_stable_sort_unique::<Candle>(v.candles, c.candles, d.candles);
    lemma_stable_sort_unique::<Trade>(v.trades, c.trades, d.trades);
    lemma_stable_sort_unique::<BookEvent>(v.book, c.book, d.book);
    lemma_stable_sort_unique::<FundingEvent>(v.funding, c.funding, d.funding);
    lemma_stable_sort_unique::<OiEvent>(v.oi, c.oi, d.oi);
    lemma_stable_sort_unique::<LiquidationEvent>(v.liquidations, c.liquidations, d.liquidations);
}

proof fn lemma_contains_in_parts(
    a: Seq<i64>,
    b: Seq<i64>,
    c: Seq<i64>,
    d: Seq<i64>,
    e: Seq<i64>,
    f: Seq<i64>,
    x: i64,
)
    requires
        a.contains(x) || b.contains(x) || c.contains(x) || d.contains(x) || e.contains(x)
            || f.contains(x),
    ensures
        (a + b + c + d + e + f).contains(x),
{
    let all = a + b + c + d + e + f;
    if a.contains(x) {
        let i = choose|i: int| 0 <= i < a.len() && a[i] == x;
        assert(all[i] == x);
    } else if b.contains(x) {
        let i = choose|i: int| 0 <= i < b.len() && b[i] == x;
        assert(all[a.len() + i] == x);
    } else if c.contains(x) {
        let i = choose|i: int| 0 <= i < c.len() && c[i] == x;
        assert(all[a.len() + b.len() + i] == x);
    } else if d.contains(x) {
        let i = choose|i: int| 0 <= i < d.len() && d[i] == x;
        assert(all[a.len() + b.len() + c.len() + i] == x);
    } else if e.contains(x) {
        let i = choose|i: int| 0 <= i < e.len() && e[i] == x;
        assert(all[a.len() + b.len() + c.len() + d.len() + i] == x);
    } else {
        let i = choose|i: int| 0 <= i < f.len() && f[i] == x;
        assert(all[a.len() + b.len() + c.len() + d.len() + e.len() + i] == x);
    }
}

} // verus!
