//! Properties of the library as a whole: scrubbing, windowing, sorting and
//! book reconstruction.

use vstd::prelude::*;

use crate::book::{apply_levels, level_key, BookView};
use crate::dataset::{in_window, window_pred, Candle, DatasetView};
use crate::sort::{is_stable_sort_of, lemma_sorted_by_insertion, lemma_stable_sort_permutes, sorted_by_insertion, Ranked};
use crate::types::{spec_is_zero, BookEvent, BookEventView, BookKind, FundingEvent, Level, LiquidationEvent, OiEvent, Timed, Trade};
use crate::xray::{answers, effective_cursor, frame_plan, frame_request, full_cursor, realizes, FramePlan, XrayFrame, XrayView};
use crate::dataset::Dataset;
use crate::spec::{first_panel_error, panel_error, reports, XrayPanel, XraySpecView};
use crate::error::Result;
use crate::xray::{dispatched, is_cmd, Envelope, Reply};
use crate::panels::funding_oi_divergence::axis_first;
use crate::args::{digits_value, is_digit, number_body, parse_i64};
use crate::json::{decimal, digit_char, digits};
use crate::panels::{advance, consumed};
use crate::panels::footprint::{has_bin, in_bin_on_side, index_range, is_grouping, trades_in, BinGroup};
use crate::panels::funding_oi_divergence::{divergence_spec, DivergenceSeries};
use crate::panels::liquidation_map::{bin_side_rank, spec_side_rank, ts_weight, LiqEvent};
use crate::types::{lemma_total_order_key_injective, spec_total_order_key, LiqSide, Side};

verus! {

// ------------------------------------------------------------ scrubbing

/// Scrubbing to the dataset's end reproduces the full frame: when the spec
/// leaves `to_ts` open (or ends at or before the data), `frame_at` at the
/// latest timestamp answers exactly what `frame` answers.
pub proof fn law_frame_at_end_is_frame(x: XrayView)
    requires
        x.spec matches Some(s) && (s.to_ts is None || s.to_ts->0 <= x.dataset.max_ts()),
    ensures
        frame_request(x, x.dataset.max_ts()) == frame_request(x, full_cursor(x)),
{
}

/// Scrubbing past the spec's `to_ts` changes nothing: any instant at or
/// after it yields the full frame.
pub proof fn law_scrub_past_spec_end(x: XrayView, t: i64)
    requires
        x.spec matches Some(s) && s.to_ts matches Some(to) && t >= to,
    ensures
        frame_request(x, t) == frame_request(x, full_cursor(x)),
{
}

// ------------------------------------------------------------ windowing

proof fn lemma_filter_filter<A>(s: Seq<A>, p: spec_fn(A) -> bool, q: spec_fn(A) -> bool)
    requires
        forall|a: A| #[trigger] p(a) ==> q(a),
    ensures
        s.filter(q).filter(p) == s.filter(p),
    decreases s.len(),
{
    reveal(Seq::filter);
    if s.len() > 0 {
        lemma_filter_filter(s.drop_last(), p, q);
        let x = s.last();
        s.drop_last().filter(q).lemma_filter_push(x, p);
    }
}

/// Clipping is nested: clipping the `[from, t2]` window to `t1 <= t2`
/// gives the `[from, t1]` window, so a frame folded to an earlier instant
/// folds a sub-window of a later one.
pub proof fn law_window_nested(d: DatasetView, from: Option<i64>, t1: i64, t2: i64)
    requires
        t1 <= t2,
    ensures
        d.window(from, Some(t2)).window(from, Some(t1)) == d.window(from, Some(t1)),
{
    lemma_filter_filter(d.candles, window_pred::<Candle>(from, Some(t1)), window_pred::<Candle>(from, Some(t2)));
    lemma_filter_filter(d.trades, window_pred::<Trade>(from, Some(t1)), window_pred::<Trade>(from, Some(t2)));
    lemma_filter_filter(d.book, window_pred::<BookEvent>(from, Some(t1)), window_pred::<BookEvent>(from, Some(t2)));
    lemma_filter_filter(d.funding, window_pred::<FundingEvent>(from, Some(t1)), window_pred::<FundingEvent>(from, Some(t2)));
    lemma_filter_filter(d.oi, window_pred::<OiEvent>(from, Some(t1)), window_pred::<OiEvent>(from, Some(t2)));
    lemma_filter_filter(d.liquidations, window_pred::<LiquidationEvent>(from, Some(t1)), window_pred::<LiquidationEvent>(from, Some(t2)));
}

/// Events outside a frame's window never matter: cutting the dataset to the
/// window `[from_ts, min(cursor_ts, to_ts)]` first gives the same frame plan,
/// so a frame folded to `t` is the full-window frame of the dataset cut at `t`.
pub proof fn law_cut_dataset_same_plan(d: DatasetView, s: crate::spec::XraySpecView, cursor_ts: i64)
    ensures
        frame_plan(d.window(s.from_ts, Some(effective_cursor(s, cursor_ts))), s, cursor_ts) == frame_plan(d, s, cursor_ts),
{
    let t = effective_cursor(s, cursor_ts);
    law_window_nested(d, s.from_ts, t, t);
}

// ------------------------------------------------------------ frames

/// A panel builder that answers alike on alike inputs: the same panel, windows
/// of equal contents and the same cursor give the same panel data.
pub open spec fn builder_is_functional<P, F: Fn(&XrayPanel, &Dataset, i64) -> P>(build_panel: F) -> bool {
    forall|p: &XrayPanel, w1: &Dataset, w2: &Dataset, c: i64, r1: P, r2: P|
        w1@ == w2@ && #[trigger] build_panel.ensures((p, w1, c), r1) && #[trigger] build_panel.ensures((p, w2, c), r2)
            ==> r1 == r2
}

/// Two frame outcomes are the same: the same error, or frames with the same
/// symbol, cursor and panels.
pub open spec fn same_outcome<P>(r1: Result<XrayFrame<P>>, r2: Result<XrayFrame<P>>) -> bool {
    match (r1, r2) {
        (Err(a), Err(b)) => a@ == b@,
        (Ok(f1), Ok(f2)) => f1.symbol@ == f2.symbol@ && f1.cursor_ts == f2.cursor_ts && f1.panels@ == f2.panels@,
        _ => false,
    }
}

proof fn lemma_same_plan_same_frame<P, F: Fn(&XrayPanel, &Dataset, i64) -> P>(
    f1: XrayFrame<P>,
    f2: XrayFrame<P>,
    plan: FramePlan,
    panels: Seq<XrayPanel>,
    build_panel: F,
)
    requires
        realizes(f1, plan, panels, build_panel),
        realizes(f2, plan, panels, build_panel),
        builder_is_functional(build_panel),
    ensures
        f1.symbol@ == f2.symbol@,
        f1.cursor_ts == f2.cursor_ts,
        f1.panels@ == f2.panels@,
{
    let w1 = choose|w: Dataset| #[trigger] w@ == plan.window && forall|i: int| 0 <= i < panels.len() ==> build_panel.ensures((&panels[i], &w, plan.cursor_ts), #[trigger] f1.panels@[i]);
    let w2 = choose|w: Dataset| #[trigger] w@ == plan.window && forall|i: int| 0 <= i < panels.len() ==> build_panel.ensures((&panels[i], &w, plan.cursor_ts), #[trigger] f2.panels@[i]);
    assert forall|i: int| 0 <= i < f1.panels@.len() implies f1.panels@[i] == f2.panels@[i] by {
        assert(build_panel.ensures((&panels[i], &w1, plan.cursor_ts), f1.panels@[i]));
        assert(build_panel.ensures((&panels[i], &w2, plan.cursor_ts), f2.panels@[i]));
    }
    assert(f1.panels@ =~= f2.panels@);
}

proof fn lemma_same_request_same_outcome<P, F: Fn(&XrayPanel, &Dataset, i64) -> P>(
    r1: Result<XrayFrame<P>>,
    r2: Result<XrayFrame<P>>,
    req: core::result::Result<FramePlan, crate::error::ErrorView>,
    panels: Seq<XrayPanel>,
    build_panel: F,
)
    requires
        answers(r1, req, panels, build_panel),
        answers(r2, req, panels, build_panel),
        builder_is_functional(build_panel),
    ensures
        same_outcome(r1, r2),
{
    if let Ok(plan) = req {
        lemma_same_plan_same_frame(r1->Ok_0, r2->Ok_0, plan, panels, build_panel);
    }
}

/// With a builder that answers alike on alike inputs, scrubbing to the
/// dataset's end yields the very frame `frame` yields (when the spec leaves
/// `to_ts` open, or ends at or before the data): same symbol, cursor and
/// panels, or the same error.
pub proof fn law_frame_at_end_gives_the_full_frame<P, F: Fn(&XrayPanel, &Dataset, i64) -> P>(
    x: XrayView,
    at_end: Result<XrayFrame<P>>,
    full: Result<XrayFrame<P>>,
    build_panel: F,
)
    requires
        x.spec matches Some(s) && (s.to_ts is None || s.to_ts->0 <= x.dataset.max_ts()),
        answers(at_end, frame_request(x, x.dataset.max_ts()), x.spec->0.panels, build_panel),
        answers(full, frame_request(x, full_cursor(x)), x.spec->0.panels, build_panel),
        builder_is_functional(build_panel),
    ensures
        same_outcome(at_end, full),
{
    law_frame_at_end_is_frame(x);
    lemma_same_request_same_outcome(at_end, full, frame_request(x, full_cursor(x)), x.spec->0.panels, build_panel);
}

/// `r` is what `build_frame` gives for a dataset `d`, a spec `s` and the
/// cursor `cursor_ts`.
pub open spec fn built<P, F: Fn(&XrayPanel, &Dataset, i64) -> P>(
    r: Result<XrayFrame<P>>,
    d: DatasetView,
    s: XraySpecView,
    cursor_ts: i64,
    build_panel: F,
) -> bool {
    &&& (r is Ok <==> s.valid())
    &&& (r is Err ==> reports(Err(r->Err_0), s.error()))
    &&& (r matches Ok(f) ==> realizes(f, frame_plan(d, s, cursor_ts), s.panels, build_panel))
}

/// With a builder that answers alike on alike inputs, events outside a
/// frame's window never influence it: building over the dataset cut to
/// `[from_ts, min(cursor_ts, to_ts)]` gives the frame built over the whole
/// dataset (or the same error), so `frame_at(t)` is the full-window frame of
/// the dataset cut at `t`.
pub proof fn law_cut_dataset_same_frame<P, F: Fn(&XrayPanel, &Dataset, i64) -> P>(
    d: DatasetView,
    s: XraySpecView,
    cursor_ts: i64,
    cut: Result<XrayFrame<P>>,
    whole: Result<XrayFrame<P>>,
    build_panel: F,
)
    requires
        built(cut, d.window(s.from_ts, Some(effective_cursor(s, cursor_ts))), s, cursor_ts, build_panel),
        built(whole, d, s, cursor_ts, build_panel),
        builder_is_functional(build_panel),
    ensures
        same_outcome(cut, whole),
{
    law_cut_dataset_same_plan(d, s, cursor_ts);
    if s.valid() {
        lemma_same_plan_same_frame(cut->Ok_0, whole->Ok_0, frame_plan(d, s, cursor_ts), s.panels, build_panel);
    }
}

// ------------------------------------------------------------ sorting

proof fn lemma_sorted_exists(d: DatasetView)
    ensures
        d.sorted().is_sorted_from(d),
{
    lemma_sorted_by_insertion::<Candle>(d.candles);
    lemma_sorted_by_insertion::<Trade>(d.trades);
    lemma_sorted_by_insertion::<BookEvent>(d.book);
    lemma_sorted_by_insertion::<FundingEvent>(d.funding);
    lemma_sorted_by_insertion::<OiEvent>(d.oi);
    lemma_sorted_by_insertion::<LiquidationEvent>(d.liquidations);
    let v = DatasetView {
        candles: sorted_by_insertion::<Candle>(d.candles),
        trades: sorted_by_insertion::<Trade>(d.trades),
        book: sorted_by_insertion::<BookEvent>(d.book),
        funding: sorted_by_insertion::<FundingEvent>(d.funding),
        oi: sorted_by_insertion::<OiEvent>(d.oi),
        liquidations: sorted_by_insertion::<LiquidationEvent>(d.liquidations),
    };
    assert(v.is_sorted_from(d));
}

/// Sorting keeps every event: each stream of the sorted dataset holds
/// exactly the events of the original stream, so the event count (what
/// `load` reports and `bounds` counts) is unchanged.
pub proof fn law_sort_keeps_events(d: DatasetView)
    ensures
        d.sorted().n_events() == d.n_events(),
        forall|e: Trade| d.sorted().trades.contains(e) <==> d.trades.contains(e),
        forall|e: BookEventView| d.sorted().book.contains(e) <==> d.book.contains(e),
        forall|e: LiquidationEvent| d.sorted().liquidations.contains(e) <==> d.liquidations.contains(e),
        forall|e: Candle| d.sorted().candles.contains(e) <==> d.candles.contains(e),
        forall|e: FundingEvent| d.sorted().funding.contains(e) <==> d.funding.contains(e),
        forall|e: OiEvent| d.sorted().oi.contains(e) <==> d.oi.contains(e),
{
    lemma_sorted_exists(d);
    let v = d.sorted();
    lemma_stable_sort_permutes::<Candle>(v.candles, d.candles);
    lemma_stable_sort_permutes::<Trade>(v.trades, d.trades);
    lemma_stable_sort_permutes::<BookEvent>(v.book, d.book);
    lemma_stable_sort_permutes::<FundingEvent>(v.funding, d.funding);
    lemma_stable_sort_permutes::<OiEvent>(v.oi, d.oi);
    lemma_stable_sort_permutes::<LiquidationEvent>(v.liquidations, d.liquidations);
}

/// Sorting is idempotent: sorting an already sorted dataset leaves it as it
/// is (loading a sorted dataset again changes nothing).
pub proof fn law_sort_idempotent(d: DatasetView)
    ensures
        d.sorted().sorted() == d.sorted(),
{
    lemma_sorted_exists(d);
    let v = d.sorted();
    assert(v.is_sorted_from(v));
    crate::dataset::lemma_sorted_view(v, v);
}

/// The frame folds exactly the in-range events: a trade is in the frame's
/// window iff it is a dataset trade within `[from_ts, cursor]`, the cursor
/// being `min(cursor_ts, to_ts)`; likewise for liquidations and book events.
pub proof fn law_frame_window_holds_exactly_the_range(d: DatasetView, s: crate::spec::XraySpecView, cursor_ts: i64)
    ensures
        ({
            let plan = frame_plan(d, s, cursor_ts);
            let c = plan.cursor_ts;
            &&& c <= cursor_ts
            &&& (s.to_ts matches Some(t) ==> c <= t)
            &&& (c == cursor_ts || s.to_ts == Some(c))
            &&& forall|e: Trade| #[trigger] plan.window.trades.contains(e)
                <==> (d.trades.contains(e) && (s.from_ts matches Some(f) ==> f <= e.ts) && e.ts <= c)
            &&& forall|e: LiquidationEvent| #[trigger] plan.window.liquidations.contains(e)
                <==> (d.liquidations.contains(e) && (s.from_ts matches Some(f) ==> f <= e.ts) && e.ts <= c)
            &&& forall|e: BookEventView| #[trigger] plan.window.book.contains(e)
                <==> (d.book.contains(e) && (s.from_ts matches Some(f) ==> f <= e.ts) && e.ts <= c)
            &&& forall|e: Candle| #[trigger] plan.window.candles.contains(e)
                <==> (d.candles.contains(e) && (s.from_ts matches Some(f) ==> f <= e.ts) && e.ts <= c)
            &&& forall|e: FundingEvent| #[trigger] plan.window.funding.contains(e)
                <==> (d.funding.contains(e) && (s.from_ts matches Some(f) ==> f <= e.ts) && e.ts <= c)
            &&& forall|e: OiEvent| #[trigger] plan.window.oi.contains(e)
                <==> (d.oi.contains(e) && (s.from_ts matches Some(f) ==> f <= e.ts) && e.ts <= c)
        }),
{
    let plan = frame_plan(d, s, cursor_ts);
    let w = d.window(s.from_ts, Some(plan.cursor_ts));
    law_sort_keeps_events(w);
    lemma_filter_membership(d.trades, window_pred::<Trade>(s.from_ts, Some(plan.cursor_ts)));
    lemma_filter_membership(d.liquidations, window_pred::<LiquidationEvent>(s.from_ts, Some(plan.cursor_ts)));
    lemma_filter_membership(d.book, window_pred::<BookEvent>(s.from_ts, Some(plan.cursor_ts)));
    lemma_filter_membership(d.candles, window_pred::<Candle>(s.from_ts, Some(plan.cursor_ts)));
    lemma_filter_membership(d.funding, window_pred::<FundingEvent>(s.from_ts, Some(plan.cursor_ts)));
    lemma_filter_membership(d.oi, window_pred::<OiEvent>(s.from_ts, Some(plan.cursor_ts)));
    assert(plan.window == w.sorted());
    assert forall|e: Trade| #[trigger] plan.window.trades.contains(e)
        <==> (d.trades.contains(e) && (s.from_ts matches Some(f) ==> f <= e.ts) && e.ts <= plan.cursor_ts) by {
        assert(w.sorted().trades.contains(e) <==> w.trades.contains(e));
        assert(w.trades.contains(e) <==> (d.trades.contains(e) && in_window(e.ts, s.from_ts, Some(plan.cursor_ts))));
    }
    assert forall|e: LiquidationEvent| #[trigger] plan.window.liquidations.contains(e)
        <==> (d.liquidations.contains(e) && (s.from_ts matches Some(f) ==> f <= e.ts) && e.ts <= plan.cursor_ts) by {
        assert(w.sorted().liquidations.contains(e) <==> w.liquidations.contains(e));
        assert(w.liquidations.contains(e) <==> (d.liquidations.contains(e) && in_window(e.ts, s.from_ts, Some(plan.cursor_ts))));
    }
    assert forall|e: BookEventView| #[trigger] plan.window.book.contains(e)
        <==> (d.book.contains(e) && (s.from_ts matches Some(f) ==> f <= e.ts) && e.ts <= plan.cursor_ts) by {
        assert(w.sorted().book.contains(e) <==> w.book.contains(e));
        assert(w.book.contains(e) <==> (d.book.contains(e) && in_window(e.ts, s.from_ts, Some(plan.cursor_ts))));
    }
    assert forall|e: Candle| #[trigger] plan.window.candles.contains(e)
        <==> (d.candles.contains(e) && (s.from_ts matches Some(f) ==> f <= e.ts) && e.ts <= plan.cursor_ts) by {
        assert(w.sorted().candles.contains(e) <==> w.candles.contains(e));
        assert(w.candles.contains(e) <==> (d.candles.contains(e) && in_window(e.ts, s.from_ts, Some(plan.cursor_ts))));
    }
    assert forall|e: FundingEvent| #[trigger] plan.window.funding.contains(e)
        <==> (d.funding.contains(e) && (s.from_ts matches Some(f) ==> f <= e.ts) && e.ts <= plan.cursor_ts) by {
        assert(w.sorted().funding.contains(e) <==> w.funding.contains(e));
        assert(w.funding.contains(e) <==> (d.funding.contains(e) && in_window(e.ts, s.from_ts, Some(plan.cursor_ts))));
    }
    assert forall|e: OiEvent| #[trigger] plan.window.oi.contains(e)
        <==> (d.oi.contains(e) && (s.from_ts matches Some(f) ==> f <= e.ts) && e.ts <= plan.cursor_ts) by {
        assert(w.sorted().oi.contains(e) <==> w.oi.contains(e));
        assert(w.oi.contains(e) <==> (d.oi.contains(e) && in_window(e.ts, s.from_ts, Some(plan.cursor_ts))));
    }
}

proof fn lemma_filter_membership<A>(s: Seq<A>, p: spec_fn(A) -> bool)
    ensures
        forall|a: A| s.filter(p).contains(a) <==> (s.contains(a) && p(a)),
{
    assert forall|a: A| s.filter(p).contains(a) <==> (s.contains(a) && p(a)) by {
        if s.filter(p).contains(a) {
            s.lemma_filter_contains_rev(p, a);
            let i = choose|i: int| 0 <= i < s.filter(p).len() && s.filter(p)[i] == a;
            s.lemma_filter_pred(p, i);
        }
        if s.contains(a) && p(a) {
            let i = choose|i: int| 0 <= i < s.len() && s[i] == a;
            s.lemma_filter_contains(p, i);
        }
    }
}

// ------------------------------------------------------------ book

/// A snapshot replaces the whole book: whatever the book held before, the
/// book after a snapshot is the same.
pub proof fn law_snapshot_replaces_the_book(b1: BookView, b2: BookView, ev: BookEventView)
    requires
        ev.kind == BookKind::Snapshot,
    ensures
        b1.apply(ev) == b2.apply(ev),
{
}

/// The index of the last level of `levels` resting at `key`, or `-1`.
pub open spec fn last_mention(levels: Seq<Level>, key: i64) -> int
    decreases levels.len(),
{
    if levels.len() == 0 {
        -1
    } else if spec_total_order_key(levels.last().price) == key {
        levels.len() - 1
    } else {
        last_mention(levels.drop_last(), key)
    }
}

/// Within one event the last word on a price wins: a price the levels never
/// mention keeps its resting quantity; otherwise its last level decides, a
/// zero quantity removing it and any other setting it.
pub proof fn law_last_level_wins(side: Map<i64, u64>, levels: Seq<Level>, key: i64)
    ensures
        ({
            let after = apply_levels(side, levels);
            let j = last_mention(levels, key);
            &&& -1 <= j < levels.len()
            &&& j == -1 ==> (after.contains_key(key) == side.contains_key(key) && (side.contains_key(key) ==> after[key] == side[key]))
            &&& j >= 0 ==> (if spec_is_zero(levels[j].qty) {
                !after.contains_key(key)
            } else {
                after.contains_key(key) && after[key] == levels[j].qty
            })
        }),
    decreases levels.len(),
{
    if levels.len() > 0 {
        law_last_level_wins(side, levels.drop_last(), key);
        if level_key(levels.last()) != key {
            assert(levels.drop_last().len() == levels.len() - 1);
            let j = last_mention(levels.drop_last(), key);
            if j >= 0 {
                assert(levels[j] == levels.drop_last()[j]);
            }
        }
    }
}

// ------------------------------------------------------------ panels

/// The timestamps of a stream never decrease.
pub open spec fn ts_sorted<T: Timed>(s: Seq<T::V>) -> bool {
    forall|a: int, b: int| 0 <= a <= b < s.len() ==> T::ts_of(s[a]) <= T::ts_of(s[b])
}

proof fn lemma_advance_sorted<T: Timed>(s: Seq<T::V>, j: nat, end: int)
    requires
        ts_sorted::<T>(s),
        j <= s.len(),
        forall|q: int| 0 <= q < j ==> T::ts_of(s[q]) < end,
    ensures
        forall|q: int| 0 <= q < advance::<T>(s, j, end) ==> T::ts_of(s[q]) < end,
        forall|q: int| advance::<T>(s, j, end) <= q < s.len() ==> T::ts_of(s[q]) >= end,
        advance::<T>(s, j, end) <= s.len(),
    decreases s.len() - j,
{
    if j < s.len() && T::ts_of(s[j as int]) < end {
        lemma_advance_sorted::<T>(s, j + 1, end);
    } else if j < s.len() {
        assert forall|q: int| j <= q < s.len() implies T::ts_of(s[q]) >= end by {
            assert(T::ts_of(s[j as int]) <= T::ts_of(s[q]));
        }
    }
}

/// On a time-sorted stream, bucket `i` of the raster starting at `first`
/// has consumed exactly the events before its end: every event before the
/// cursor is earlier than `first + (i + 1) * bucket_ms`, every event from the
/// cursor on is not. So a heatmap column is the book after every event up to
/// its bucket's end, and a divergence bucket carries the last value seen
/// before that end.
pub proof fn law_bucket_consumes_events_before_its_end<T: Timed>(s: Seq<T::V>, first: int, bucket_ms: int, i: nat)
    requires
        ts_sorted::<T>(s),
        bucket_ms > 0,
    ensures
        forall|q: int| 0 <= q < consumed::<T>(s, first, bucket_ms, i) ==> T::ts_of(s[q]) < first + (i + 1) * bucket_ms,
        forall|q: int| consumed::<T>(s, first, bucket_ms, i) <= q < s.len() ==> T::ts_of(s[q]) >= first + (i + 1) * bucket_ms,
    decreases i,
{
    let end = first + (i + 1) * bucket_ms;
    if i == 0 {
        lemma_advance_sorted::<T>(s, 0, end);
    } else {
        law_bucket_consumes_events_before_its_end::<T>(s, first, bucket_ms, (i - 1) as nat);
        crate::panels::lemma_consumed_bounded::<T>(s, first, bucket_ms, (i - 1) as nat);
        let prev = consumed::<T>(s, first, bucket_ms, (i - 1) as nat);
        assert(first + ((i - 1) as nat + 1) * bucket_ms <= end) by (nonlinear_arith)
            requires bucket_ms > 0, end == first + (i + 1) * bucket_ms, i >= 1;
        lemma_advance_sorted::<T>(s, prev, end);
    }
}

/// The divergence series are index-aligned with their time axis, and the
/// axis strictly ascends in steps of `bucket_ms`.
pub proof fn law_divergence_series_aligned(w: DatasetView, bucket_ms: i64, d: DivergenceSeries)
    requires
        bucket_ms > 0,
        divergence_spec(w, bucket_ms, d),
    ensures
        d.funding@.len() == d.time@.len(),
        d.oi@.len() == d.time@.len(),
        d.price@.len() == d.time@.len(),
        forall|a: int, b: int| 0 <= a < b < d.time@.len() ==> d.time@[a] < d.time@[b],
{
    assert forall|a: int, b: int| 0 <= a < b < d.time@.len() implies d.time@[a] < d.time@[b] by {
        let f = crate::panels::spec_bucket_start(crate::panels::funding_oi_divergence::axis_first(w)->0 as int, bucket_ms as int);
        assert(d.time@[a] == f + a * bucket_ms);
        assert(d.time@[b] == f + b * bucket_ms);
        assert(a * bucket_ms < b * bucket_ms) by (nonlinear_arith)
            requires a < b, bucket_ms > 0;
    }
}

/// The liquidation map is in time order, ties broken by price bin (the
/// total order of doubles) and then by side, longs first.
pub proof fn law_liquidations_in_order(out: Seq<LiqEvent>, inp: Seq<LiqEvent>)
    requires
        is_stable_sort_of::<LiqEvent>(out, inp),
    ensures
        forall|a: int, b: int| 0 <= a < b < out.len() ==> {
            ||| out[a].ts < out[b].ts
            ||| (out[a].ts == out[b].ts && spec_total_order_key(out[a].price_bin) < spec_total_order_key(out[b].price_bin))
            ||| (out[a].ts == out[b].ts && out[a].price_bin == out[b].price_bin && (out[a].side == LiqSide::Long || out[b].side == LiqSide::Short))
        },
{
    assert forall|a: int, b: int| 0 <= a < b < out.len() implies {
        ||| out[a].ts < out[b].ts
        ||| (out[a].ts == out[b].ts && spec_total_order_key(out[a].price_bin) < spec_total_order_key(out[b].price_bin))
        ||| (out[a].ts == out[b].ts && out[a].price_bin == out[b].price_bin && (out[a].side == LiqSide::Long || out[b].side == LiqSide::Short))
    } by {
        let x = out[a];
        let y = out[b];
        assert(<LiqEvent as Ranked>::rank_of(x) <= <LiqEvent as Ranked>::rank_of(y));
        let rx = bin_side_rank(x);
        let ry = bin_side_rank(y);
        assert(0 <= rx < ts_weight() && 0 <= ry < ts_weight());
        lemma_ts_first(x.ts as int, rx, y.ts as int, ry, ts_weight());
        lemma_total_order_key_injective(x.price_bin, y.price_bin);
    }
}

proof fn lemma_ts_first(t1: int, a: int, t2: int, b: int, w: int)
    requires
        0 <= a < w,
        0 <= b < w,
        t1 * w + a <= t2 * w + b,
    ensures
        t1 < t2 || (t1 == t2 && a <= b),
{
    if t1 > t2 {
        assert(t1 * w + a > t2 * w + b) by (nonlinear_arith)
            requires t1 > t2, 0 <= a < w, 0 <= b < w;
    }
}

/// The footprint counts every trade of non-zero quantity in its own bin:
/// trade `j` is listed by the group of its bin, on its side. A trade of zero
/// quantity is listed by no group, so it makes no bin of its own.
pub proof fn law_footprint_counts_each_trade(groups: Seq<crate::panels::footprint::BinGroup>, bins: Seq<u64>, trades: Seq<Trade>, j: int)
    requires
        is_grouping(groups, bins, trades, trades.len() as int),
        bins.len() == trades.len(),
        trades.len() <= usize::MAX,
        0 <= j < trades.len(),
    ensures
        !spec_is_zero(trades[j].qty) ==> exists|g: int| 0 <= g < groups.len() && groups[g].bin == bins[j] && (if trades[j].side == Side::Buy {
            groups[g].buys@.contains(j as usize)
        } else {
            groups[g].sells@.contains(j as usize)
        }),
        spec_is_zero(trades[j].qty) ==> forall|g: int| 0 <= g < groups.len() ==> !(#[trigger] groups[g].buys@).contains(j as usize),
        spec_is_zero(trades[j].qty) ==> forall|g: int| 0 <= g < groups.len() ==> !(#[trigger] groups[g].sells@).contains(j as usize),
{
    let n = trades.len() as int;
    let range = index_range(n);
    if !spec_is_zero(trades[j].qty) {
        assert(has_bin(groups, bins[j]));
        let g = choose|g: int| 0 <= g < groups.len() && #[trigger] groups[g].bin == bins[j];
        assert(range[j] == j as usize);
        let side = trades[j].side;
        range.lemma_filter_contains(in_bin_on_side(bins, trades, bins[j], side), j);
        assert(groups[g].buys@ == trades_in(bins, trades, n, groups[g].bin, Side::Buy));
    } else {
        assert forall|g: int| 0 <= g < groups.len() implies !(#[trigger] groups[g].buys@).contains(j as usize) && !groups[g].sells@.contains(j as usize) by {
            let b = groups[g].bin;
            assert(groups[g].buys@ == trades_in(bins, trades, n, b, Side::Buy));
            assert(groups[g].sells@ == trades_in(bins, trades, n, b, Side::Sell));
            if groups[g].buys@.contains(j as usize) {
                let k = choose|k: int| 0 <= k < groups[g].buys@.len() && groups[g].buys@[k] == j as usize;
                range.lemma_filter_pred(in_bin_on_side(bins, trades, b, Side::Buy), k);
            }
            if groups[g].sells@.contains(j as usize) {
                let k = choose|k: int| 0 <= k < groups[g].sells@.len() && groups[g].sells@[k] == j as usize;
                range.lemma_filter_pred(in_bin_on_side(bins, trades, b, Side::Sell), k);
            }
        }
        assert forall|g: int| 0 <= g < groups.len() implies !(#[trigger] groups[g].sells@).contains(j as usize) by {
            assert(!groups[g].buys@.contains(j as usize));
        }
    }
}

proof fn lemma_strict_same_elements(a: Seq<int>, b: Seq<int>)
    requires
        forall|i: int, j: int| 0 <= i < j < a.len() ==> a[i] < a[j],
        forall|i: int, j: int| 0 <= i < j < b.len() ==> b[i] < b[j],
        forall|i: int| 0 <= i < a.len() ==> b.contains(#[trigger] a[i]),
        forall|i: int| 0 <= i < b.len() ==> a.contains(#[trigger] b[i]),
    ensures
        a == b,
    decreases a.len(),
{
    if a.len() == 0 {
        if b.len() > 0 {
            assert(a.contains(b[0]));
        }
        assert(a =~= b);
    } else {
        assert(b.contains(a[0]));
        let p = choose|p: int| 0 <= p < b.len() && b[p] == a[0];
        assert(a.contains(b[0]));
        let q = choose|q: int| 0 <= q < a.len() && a[q] == b[0];
        assert(a[0] <= a[q]);
        assert(b[0] <= b[p]);
        let a1 = a.drop_first();
        let b1 = b.drop_first();
        assert forall|i: int| 0 <= i < a1.len() implies b1.contains(#[trigger] a1[i]) by {
            assert(a1[i] == a[i + 1]);
            assert(b.contains(a[i + 1]));
            let m = choose|m: int| 0 <= m < b.len() && b[m] == a[i + 1];
            assert(m != 0);
            assert(b1[m - 1] == a1[i]);
        }
        assert forall|i: int| 0 <= i < b1.len() implies a1.contains(#[trigger] b1[i]) by {
            assert(b1[i] == b[i + 1]);
            assert(a.contains(b[i + 1]));
            let m = choose|m: int| 0 <= m < a.len() && a[m] == b[i + 1];
            assert(m != 0);
            assert(a1[m - 1] == b1[i]);
        }
        lemma_strict_same_elements(a1, b1);
        assert(a =~= seq![a[0]] + a1);
        assert(b =~= seq![b[0]] + b1);
    }
}

proof fn lemma_group_bin_has_trade(groups: Seq<BinGroup>, bins: Seq<u64>, trades: Seq<Trade>, g: int) -> (j: int)
    requires
        is_grouping(groups, bins, trades, trades.len() as int),
        bins.len() == trades.len(),
        trades.len() <= usize::MAX,
        0 <= g < groups.len(),
    ensures
        0 <= j < trades.len(),
        bins[j] == groups[g].bin,
        !spec_is_zero(trades[j].qty),
{
    let n = trades.len() as int;
    let range = index_range(n);
    let b = groups[g].bin;
    assert(groups[g].buys@ == trades_in(bins, trades, n, b, Side::Buy));
    assert(groups[g].sells@ == trades_in(bins, trades, n, b, Side::Sell));
    let side = if groups[g].buys@.len() > 0 { Side::Buy } else { Side::Sell };
    let pred = in_bin_on_side(bins, trades, b, side);
    let f = range.filter(pred);
    assert(f.len() > 0);
    range.lemma_filter_pred(pred, 0);
    range.lemma_filter_contains_rev(pred, f[0]);
    let i = choose|i: int| 0 <= i < range.len() && range[i] == f[0];
    i
}

/// The footprint grouping depends on the trades and their bins alone: any
/// two groupings of the same trades and bins are the same, group for group.
/// So the panel's bucket width and the dataset's other streams cannot change
/// the footprint.
pub proof fn law_footprint_grouping_is_determined(g1: Seq<BinGroup>, g2: Seq<BinGroup>, bins: Seq<u64>, trades: Seq<Trade>)
    requires
        is_grouping(g1, bins, trades, trades.len() as int),
        is_grouping(g2, bins, trades, trades.len() as int),
        bins.len() == trades.len(),
        trades.len() <= usize::MAX,
    ensures
        g1.len() == g2.len(),
        forall|i: int| 0 <= i < g1.len() ==> {
            &&& #[trigger] g1[i].bin == g2[i].bin
            &&& g1[i].buys@ == g2[i].buys@
            &&& g1[i].sells@ == g2[i].sells@
        },
{
    let n = trades.len() as int;
    let k1 = g1.map_values(|g: BinGroup| spec_total_order_key(g.bin));
    let k2 = g2.map_values(|g: BinGroup| spec_total_order_key(g.bin));
    assert forall|i: int| 0 <= i < k1.len() implies k2.contains(#[trigger] k1[i]) by {
        let j = lemma_group_bin_has_trade(g1, bins, trades, i);
        assert(has_bin(g2, bins[j]));
        let m = choose|m: int| 0 <= m < g2.len() && #[trigger] g2[m].bin == bins[j];
        assert(k2[m] == k1[i]);
    }
    assert forall|i: int| 0 <= i < k2.len() implies k1.contains(#[trigger] k2[i]) by {
        let j = lemma_group_bin_has_trade(g2, bins, trades, i);
        assert(has_bin(g1, bins[j]));
        let m = choose|m: int| 0 <= m < g1.len() && #[trigger] g1[m].bin == bins[j];
        assert(k1[m] == k2[i]);
    }
    lemma_strict_same_elements(k1, k2);
    assert(k1.len() == k2.len());
    assert forall|i: int| 0 <= i < g1.len() implies {
        &&& #[trigger] g1[i].bin == g2[i].bin
        &&& g1[i].buys@ == g2[i].buys@
        &&& g1[i].sells@ == g2[i].sells@
    } by {
        assert(k1[i] == k2[i]);
        lemma_total_order_key_injective(g1[i].bin, g2[i].bin);
        assert(g1[i].buys@ == trades_in(bins, trades, n, g1[i].bin, Side::Buy));
        assert(g2[i].buys@ == trades_in(bins, trades, n, g2[i].bin, Side::Buy));
    }
}

// ------------------------------------------------------------ commands

/// A successful `set_spec` replaces the spec with the one given and keeps
/// the loaded dataset.
pub proof fn law_set_spec_keeps_the_dataset<P, F: Fn(&XrayPanel, &Dataset, i64) -> P>(
    old: XrayView,
    new: XrayView,
    env: Envelope,
    r: Result<Reply<P>>,
    build_panel: F,
)
    requires
        dispatched(old, new, env, r, build_panel),
        is_cmd(env.cmd, "set_spec"@),
        r is Ok,
    ensures
        new.dataset == old.dataset,
        env.spec matches Some(Ok(s)) && new.spec == Some(s@),
{
}

/// A successful `load` replaces the dataset with the given one sorted by
/// time, keeps the spec, and reports the dataset's event count.
pub proof fn law_load_keeps_the_spec<P, F: Fn(&XrayPanel, &Dataset, i64) -> P>(
    old: XrayView,
    new: XrayView,
    env: Envelope,
    r: Result<Reply<P>>,
    build_panel: F,
)
    requires
        dispatched(old, new, env, r, build_panel),
        is_cmd(env.cmd, "load"@),
        r is Ok,
    ensures
        new.spec == old.spec,
        env.dataset matches Some(Ok(d)) && new.dataset == d@.sorted() && r == Ok::<Reply<P>, crate::error::Error>(Reply::Loaded(d@.n_events() as usize)),
{
}

/// `reset` always succeeds, empties the dataset and keeps the spec.
pub proof fn law_reset_keeps_the_spec<P, F: Fn(&XrayPanel, &Dataset, i64) -> P>(
    old: XrayView,
    new: XrayView,
    env: Envelope,
    r: Result<Reply<P>>,
    build_panel: F,
)
    requires
        dispatched(old, new, env, r, build_panel),
        is_cmd(env.cmd, "reset"@),
    ensures
        r is Ok,
        new.spec == old.spec,
        new.dataset.n_events() == 0,
{
}

/// The queries `frame`, `frame_at`, `bounds` and `version` never change
/// the handle, whatever they answer; and no failed command does.
pub proof fn law_queries_change_nothing<P, F: Fn(&XrayPanel, &Dataset, i64) -> P>(
    old: XrayView,
    new: XrayView,
    env: Envelope,
    r: Result<Reply<P>>,
    build_panel: F,
)
    requires
        dispatched(old, new, env, r, build_panel),
        is_cmd(env.cmd, "frame"@) || is_cmd(env.cmd, "frame_at"@) || is_cmd(env.cmd, "bounds"@)
            || is_cmd(env.cmd, "version"@) || r is Err,
    ensures
        new == old,
{
}

// ------------------------------------------------------------ validation

/// A price bin is accepted exactly when the double it encodes is finite and
/// strictly positive, i.e. its bits lie strictly between those of `+0.0` and
/// `+inf` (`0x7FF0_0000_0000_0000`); bucket widths and depths exactly when
/// positive.
pub proof fn law_panel_parameters_accepted(price_bin: u64, bucket_ms: i64, depth_levels: u32)
    ensures
        panel_error(XrayPanel::Footprint { price_bin, bucket_ms }) is None
            <==> (0 < price_bin < 0x7FF0_0000_0000_0000u64 && bucket_ms > 0),
        panel_error(XrayPanel::BookHeatmap { price_bin, bucket_ms, depth_levels }) is None
            <==> (0 < price_bin < 0x7FF0_0000_0000_0000u64 && bucket_ms > 0 && depth_levels > 0),
        panel_error(XrayPanel::LiquidationMap { price_bin }) is None
            <==> 0 < price_bin < 0x7FF0_0000_0000_0000u64,
        panel_error(XrayPanel::FundingOiDivergence { bucket_ms }) is None <==> bucket_ms > 0,
{
}

// ------------------------------------------------------------ timestamps

proof fn lemma_digits_round_trip(m: nat)
    ensures
        forall|i: int| 0 <= i < digits(m).len() ==> is_digit(#[trigger] digits(m)[i]),
        digits(m).len() > 0,
        digits_value(digits(m)) == m,
    decreases m,
{
    if m < 10 {
        let s = digits(m);
        assert(s.drop_last() =~= Seq::<char>::empty());
        assert(digit_char(m as int) as int == 48 + m);
        assert(s.last() == digit_char(m as int));
        assert(digits_value(s.drop_last()) == 0);
        assert(digits_value(s) == digits_value(s.drop_last()) * 10 + (s.last() as int - 48));
    } else {
        lemma_digits_round_trip(m / 10);
        let d = (m % 10) as int;
        let s = digits(m);
        assert(s.drop_last() =~= digits(m / 10));
        assert(digit_char(d) as int == 48 + d);
        assert(s.last() == digit_char(d));
        assert(digits_value(s) == digits_value(s.drop_last()) * 10 + (s.last() as int - 48));
        assert((m / 10) * 10 + m % 10 == m);
        assert forall|i: int| 0 <= i < s.len() implies is_digit(#[trigger] s[i]) by {
            if i < s.len() - 1 {
                assert(s[i] == digits(m / 10)[i]);
            }
        }
    }
}

/// A timestamp written in decimal reads back as itself: for every 64-bit
/// `n`, the decimal text of `n` (an optional `-` and its digits) parses to
/// `n`, as `i64::from_str` does.
pub proof fn law_timestamps_read_back(n: i64)
    ensures
        parse_i64(decimal(n as int)) == Some(n),
{
    let t = decimal(n as int);
    if n < 0 {
        let m = (-(n as int)) as nat;
        lemma_digits_round_trip(m);
        assert(t[0] == '-');
        assert(number_body(t) =~= digits(m));
    } else {
        lemma_digits_round_trip(n as nat);
        assert(t[0] != '-' && t[0] != '+');
        assert(number_body(t) =~= digits(n as nat));
    }
}

// ------------------------------------------------------------ sorted streams

/// After sorting, every stream is in time order: timestamps never decrease
/// along any stream of `d.sorted()` (what `load` keeps).
pub proof fn law_sorted_streams_are_in_time_order(d: DatasetView)
    ensures
        ts_sorted::<Candle>(d.sorted().candles),
        ts_sorted::<Trade>(d.sorted().trades),
        ts_sorted::<BookEvent>(d.sorted().book),
        ts_sorted::<FundingEvent>(d.sorted().funding),
        ts_sorted::<OiEvent>(d.sorted().oi),
        ts_sorted::<LiquidationEvent>(d.sorted().liquidations),
{
    lemma_sorted_exists(d);
}

// ------------------------------------------------------------ divergence

/// Each divergence bucket carries the values last seen before its end: with
/// `k` the number of events of a stream consumed once bucket `i` is done,
/// the funding entry is the `rate` of funding event `k - 1`, the OI entry the
/// `oi` of OI event `k - 1`, the price entry the `close` of candle `k - 1`,
/// and `0` when `k` is `0`. On a time-sorted stream, the events consumed are
/// exactly those before the bucket's end, `time[i] + bucket_ms`.
pub proof fn law_divergence_carries_last_values(w: DatasetView, bucket_ms: i64, d: DivergenceSeries, i: int)
    requires
        bucket_ms > 0,
        divergence_spec(w, bucket_ms, d),
        0 <= i < d.time@.len(),
    ensures
        ({
            let first = d.time@[0] as int;
            let kf = consumed::<FundingEvent>(w.funding, first, bucket_ms as int, i as nat);
            let ko = consumed::<OiEvent>(w.oi, first, bucket_ms as int, i as nat);
            let kc = consumed::<Candle>(w.candles, first, bucket_ms as int, i as nat);
            &&& d.time@[i] == first + i * bucket_ms
            &&& d.funding@[i] == (if kf == 0 { 0u64 } else { w.funding[kf - 1].rate })
            &&& d.oi@[i] == (if ko == 0 { 0u64 } else { w.oi[ko - 1].oi })
            &&& d.price@[i] == (if kc == 0 { 0u64 } else { w.candles[kc - 1].close })
            &&& (ts_sorted::<Candle>(w.candles) ==> {
                &&& forall|q: int| 0 <= q < kc ==> w.candles[q].ts < d.time@[i] + bucket_ms
                &&& forall|q: int| kc <= q < w.candles.len() ==> w.candles[q].ts >= d.time@[i] + bucket_ms
            })
        }),
{
    assert(d.time@[0] == crate::panels::spec_bucket_start(axis_first(w)->0 as int, bucket_ms as int) + 0 * bucket_ms);
    let first = d.time@[0] as int;
    assert(d.time@[i] == first + i * bucket_ms);
    if ts_sorted::<Candle>(w.candles) {
        law_bucket_consumes_events_before_its_end::<Candle>(w.candles, first, bucket_ms as int, i as nat);
        assert(first + (i + 1) * bucket_ms == d.time@[i] + bucket_ms) by (nonlinear_arith)
            requires d.time@[i] == first + i * bucket_ms;
    }
}

// ------------------------------------------------------------ doubles and buckets

/// A quantity counts as zero exactly when it is `+0.0` or `-0.0`.
pub proof fn law_zero_is_either_zero(bits: u64)
    ensures
        spec_is_zero(bits) <==> (bits == 0 || bits == 0x8000_0000_0000_0000u64),
{
}

/// The total-order key orders doubles as `f64::total_cmp` does: among
/// non-negative doubles (sign bit clear) by their bits, among negative ones
/// (sign bit set) in reverse, and every negative double below every
/// non-negative one.
pub proof fn law_total_order_key_orders_doubles(a: u64, b: u64)
    ensures
        (a < 0x8000_0000_0000_0000u64 && b < 0x8000_0000_0000_0000u64) ==> (spec_total_order_key(a) < spec_total_order_key(b) <==> a < b),
        (a >= 0x8000_0000_0000_0000u64 && b >= 0x8000_0000_0000_0000u64) ==> (spec_total_order_key(a) < spec_total_order_key(b) <==> a > b),
        (a >= 0x8000_0000_0000_0000u64 && b < 0x8000_0000_0000_0000u64) ==> spec_total_order_key(a) < spec_total_order_key(b),
{
}

/// A timestamp's bucket starts at the largest multiple of `bucket_ms` not
/// after it: the start is a multiple of `bucket_ms`, at most the timestamp,
/// and the timestamp lies before the bucket's end.
pub proof fn law_bucket_start_is_the_floor(ts: int, bucket_ms: int)
    requires
        bucket_ms > 0,
    ensures
        crate::panels::spec_bucket_start(ts, bucket_ms) % bucket_ms == 0,
        crate::panels::spec_bucket_start(ts, bucket_ms) <= ts < crate::panels::spec_bucket_start(ts, bucket_ms) + bucket_ms,
{
    let q = ts / bucket_ms;
    let start = crate::panels::spec_bucket_start(ts, bucket_ms);
    assert(start == q * bucket_ms);
    assert(q * bucket_ms <= ts < q * bucket_ms + bucket_ms) by (nonlinear_arith)
        requires q == ts / bucket_ms, bucket_ms > 0;
    assert((q * bucket_ms) % bucket_ms == 0) by (nonlinear_arith)
        requires bucket_ms > 0;
}

/// What one book event does to one price level of a side: a price the
/// event's levels mention ends as its last mention says (removed by a zero
/// quantity, else set to it); a price they do not mention keeps its resting
/// quantity under a diff and is gone after a snapshot.
pub proof fn law_book_event_on_one_price(b: BookView, ev: BookEventView, key: i64)
    ensures
        ({
            let after = b.apply(ev);
            let jb = last_mention(ev.bids, key);
            let ja = last_mention(ev.asks, key);
            &&& (jb == -1 && ev.kind == BookKind::Snapshot) ==> !after.bids.contains_key(key)
            &&& (jb == -1 && ev.kind == BookKind::Diff) ==> (after.bids.contains_key(key) == b.bids.contains_key(key)
                && (b.bids.contains_key(key) ==> after.bids[key] == b.bids[key]))
            &&& jb >= 0 ==> (if ev.bids[jb].qty == 0 || ev.bids[jb].qty == 0x8000_0000_0000_0000u64 {
                !after.bids.contains_key(key)
            } else {
                after.bids.contains_key(key) && after.bids[key] == ev.bids[jb].qty
            })
            &&& (ja == -1 && ev.kind == BookKind::Snapshot) ==> !after.asks.contains_key(key)
            &&& (ja == -1 && ev.kind == BookKind::Diff) ==> (after.asks.contains_key(key) == b.asks.contains_key(key)
                && (b.asks.contains_key(key) ==> after.asks[key] == b.asks[key]))
            &&& ja >= 0 ==> (if ev.asks[ja].qty == 0 || ev.asks[ja].qty == 0x8000_0000_0000_0000u64 {
                !after.asks.contains_key(key)
            } else {
                after.asks.contains_key(key) && after.asks[key] == ev.asks[ja].qty
            })
        }),
{
    let base = if ev.kind == BookKind::Snapshot { BookView::empty() } else { b };
    law_last_level_wins(base.bids, ev.bids, key);
    law_last_level_wins(base.asks, ev.asks, key);
}

proof fn lemma_first_panel_error_none(ps: Seq<XrayPanel>)
    ensures
        first_panel_error(ps) is None <==> forall|i: int| 0 <= i < ps.len() ==> #[trigger] panel_error(ps[i]) is None,
    decreases ps.len(),
{
    if ps.len() > 0 {
        lemma_first_panel_error_none(ps.drop_first());
        if first_panel_error(ps) is None {
            assert forall|i: int| 0 <= i < ps.len() implies #[trigger] panel_error(ps[i]) is None by {
                if i > 0 {
                    assert(ps[i] == ps.drop_first()[i - 1]);
                }
            }
        } else if panel_error(ps[0]) is None {
            let i = choose|i: int| 0 <= i < ps.drop_first().len() && !(panel_error(ps.drop_first()[i]) is None);
            assert(ps.drop_first()[i] == ps[i + 1]);
        }
    }
}

/// A spec is valid exactly when its symbol is non-empty, it has a panel, its
/// window is ordered (`from_ts <= to_ts` when both are set) and every
/// panel's parameters are accepted.
pub proof fn law_spec_valid_iff(s: XraySpecView)
    ensures
        s.valid() <==> {
            &&& s.symbol.len() > 0
            &&& s.panels.len() > 0
            &&& ((s.from_ts is Some && s.to_ts is Some) ==> s.from_ts->0 <= s.to_ts->0)
            &&& forall|i: int| 0 <= i < s.panels.len() ==> #[trigger] panel_error(s.panels[i]) is None
        },
{
    lemma_first_panel_error_none(s.panels);
}

} // verus!
