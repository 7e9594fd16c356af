//! Book heatmap: resting liquidity over a time x price grid.
//!
//! The order book is reconstructed by folding the window's book events in
//! order (a snapshot replaces, a diff merges, a zero quantity removes).
//!
//! - **Time axis**: one column per `bucket_ms`-wide bucket, from the bucket of
//!   the first book event to the bucket of the last, inclusive. A column
//!   samples the book after every event consumed by its bucket (carried
//!   forward across empty buckets).
//! - **Price axis**: derived from the *final* book state (bins centred on its
//!   mid). A heatmap is only meaningful around a mid, so when the final book
//!   is not two-sided there is no grid.
//!
//! The price axis and the per-column samples are floating-point work done by
//! the caller's `axis_of` and `sample` functions; this module decides which
//! book state each of them sees.

use vstd::prelude::*;

use crate::book::{fold_events, BookState, BookView};
use crate::panels::{
    bucket_count, bucket_start, buckets_fit, check_buckets, consumed, lemma_consumed_bounded,
    advance, spec_bucket_start,
};
use crate::sort::views;
use crate::types::{BookEvent, BookEventView};

verus! {

/// The grid of a heatmap: the final book, the price axis derived from it,
/// the column timestamps and one sampled row per column.
#[derive(Debug)]
pub struct HeatmapGrid<A, R> {
    /// The book after every event of the window.
    pub final_book: BookState,
    /// The price axis, derived from `final_book`.
    pub axis: A,
    /// Column timestamps (bucket starts, ascending).
    pub time: Vec<i64>,
    /// One sample of the book per column.
    pub rows: Vec<R>,
}

/// `row` is what `sample` may return for `axis` and the book after the
/// events consumed by column `i`.
pub open spec fn is_column_sample<A, R, FS: Fn(&A, &BookState) -> R>(
    sample: FS,
    axis: A,
    es: Seq<BookEventView>,
    first: int,
    bucket_ms: int,
    i: int,
    row: R,
) -> bool {
    exists|st: BookState| {
        &&& st@ == fold_events(BookView::empty(), es.take(consumed::<BookEvent>(es, first, bucket_ms, i as nat) as int))
        &&& #[trigger] sample.ensures((&axis, &st), row)
    }
}

/// Whether the column raster of `book` fits for `bucket_ms` (trivially so
/// when there is no grid: no book events, or a final book that is not
/// two-sided).
pub open spec fn heatmap_fits(book: Seq<BookEventView>, bucket_ms: i64) -> bool {
    (book.len() > 0 && fold_events(BookView::empty(), book).two_sided()) ==> buckets_fit(
        book[0].ts,
        book.last().ts,
        bucket_ms,
    )
}

/// The book after every event of `book`.
pub fn final_book(book: &Vec<BookEvent>) -> (b: BookState)
    ensures
        b@ == fold_events(BookView::empty(), views(book@)),
{
    let ghost es = views(book@);
    let mut b = BookState::new();
    let mut j: usize = 0;
    assert(es.take(0) =~= Seq::<BookEventView>::empty());
    while j < book.len()
        invariant
            j <= book@.len(),
            es == views(book@),
            b@ == fold_events(BookView::empty(), es.take(j as int)),
        decreases book.len() - j,
    {
        b.apply(&book[j]);
        assert(es.take(j + 1).drop_last() =~= es.take(j as int));
        j = j + 1;
    }
    assert(es.take(j as int) =~= es);
    b
}

/// Whether [`build`] can lay out the columns of `book` for `bucket_ms`.
pub fn fits(book: &Vec<BookEvent>, bucket_ms: i64) -> (r: bool)
    ensures
        r == heatmap_fits(views(book@), bucket_ms),
{
    if book.len() == 0 {
        true
    } else if !final_book(book).two_sided() {
        true
    } else {
        check_buckets(book[0].ts, book[book.len() - 1].ts, bucket_ms)
    }
}

/// Builds the heatmap grid over the window's book events, or `None` when
/// there are no book events or the final book is not two-sided.
///
/// `axis_of` derives the price axis from the final book; `sample` computes
/// the row of one column from the axis and the book as it stands at the end
/// of that column's bucket.
pub fn build<A, R, FA: Fn(&BookState) -> A, FS: Fn(&A, &BookState) -> R>(
    book: &Vec<BookEvent>,
    bucket_ms: i64,
    axis_of: FA,
    sample: FS,
) -> (g: Option<HeatmapGrid<A, R>>)
    requires
        bucket_ms > 0,
        heatmap_fits(views(book@), bucket_ms),
        forall|b: &BookState| axis_of.requires((b,)),
        forall|a: &A, b: &BookState| sample.requires((a, b)),
    ensures
        g is None <==> (book@.len() == 0 || !fold_events(BookView::empty(), views(book@)).two_sided()),
        g matches Some(g) ==> {
            let es = views(book@);
            let first = spec_bucket_start(es[0].ts as int, bucket_ms as int);
            let n = bucket_count(es[0].ts, es.last().ts, bucket_ms);
            &&& g.final_book@ == fold_events(BookView::empty(), es)
            &&& axis_of.ensures((&g.final_book,), g.axis)
            &&& g.time@.len() == n
            &&& g.rows@.len() == n
            &&& forall|i: int| 0 <= i < n ==> #[trigger] g.time@[i] == first + i * bucket_ms
            &&& forall|i: int| 0 <= i < n ==> is_column_sample(sample, g.axis, es, first, bucket_ms as int, i, #[trigger] g.rows@[i])
        },
{
    let ghost es = views(book@);
    if book.len() == 0 {
        return None;
    }
    let final_book = final_book(book);
    if !final_book.two_sided() {
        return None;
    }
    let axis = axis_of(&final_book);
    let first_ts = book[0].ts;
    let last_ts = book[book.len() - 1].ts;
    let first = bucket_start(first_ts, bucket_ms);
    let last = bucket_start(last_ts, bucket_ms);
    let ghost qf = (first_ts as int) / (bucket_ms as int);
    let ghost ql = (last_ts as int) / (bucket_ms as int);
    let ghost n = ql - qf + 1;
    let mut state = BookState::new();
    let mut time: Vec<i64> = Vec::new();
    let mut rows: Vec<R> = Vec::new();
    let mut next: usize = 0;
    let mut bucket = first;
    let mut i: usize = 0;
    while bucket <= last
        invariant
            bucket_ms > 0,
            es == views(book@),
            first == qf * bucket_ms,
            last == ql * bucket_ms,
            n == ql - qf + 1,
            0 <= n <= usize::MAX,
            n > 0 ==> last + bucket_ms <= i64::MAX,
            i <= n,
            bucket == (qf + i) * bucket_ms,
            next == (if i == 0 { 0 } else { consumed::<BookEvent>(es, first as int, bucket_ms as int, (i - 1) as nat) }),
            next <= es.len(),
            state@ == fold_events(BookView::empty(), es.take(next as int)),
            forall|a: &A, b: &BookState| sample.requires((a, b)),
            time@.len() == i,
            rows@.len() == i,
            forall|k: int| 0 <= k < i ==> #[trigger] time@[k] == first + k * bucket_ms,
            forall|k: int| 0 <= k < i ==> is_column_sample(sample, axis, es, first as int, bucket_ms as int, k, #[trigger] rows@[k]),
        decreases n - i,
    {
        proof {
            assert(qf + i <= ql) by (nonlinear_arith)
                requires (qf + i) * bucket_ms <= ql * bucket_ms, bucket_ms > 0;
            assert((qf + i) * bucket_ms + bucket_ms == first + (i + 1) * bucket_ms) by (nonlinear_arith)
                requires first == qf * bucket_ms;
            assert((qf + i) * bucket_ms == first + i * bucket_ms) by (nonlinear_arith)
                requires first == qf * bucket_ms;
        }
        let end = bucket + bucket_ms;
        let ghost start = next;
        while next < book.len() && book[next].ts < end
            invariant
                start <= next <= book@.len(),
                es == views(book@),
                advance::<BookEvent>(es, next as nat, end as int) == advance::<BookEvent>(es, start as nat, end as int),
                state@ == fold_events(BookView::empty(), es.take(next as int)),
            decreases book.len() - next,
        {
            state.apply(&book[next]);
            assert(es[next as int] == book@[next as int]@);
            assert(es.take(next + 1).drop_last() =~= es.take(next as int));
            next = next + 1;
        }
        proof {
            if next < es.len() {
                assert(es[next as int] == book@[next as int]@);
            }
            lemma_consumed_bounded::<BookEvent>(es, first as int, bucket_ms as int, i as nat);
        }
        assert(next == consumed::<BookEvent>(es, first as int, bucket_ms as int, i as nat));
        let row = sample(&axis, &state);
        let ghost old_rows = rows@;
        time.push(bucket);
        rows.push(row);
        let ghost bi = i as int;
        bucket = end;
        i = i + 1;
        proof {
            assert(bucket == (qf + i) * bucket_ms) by (nonlinear_arith)
                requires bucket == (qf + bi) * bucket_ms + bucket_ms, i == bi + 1;
            assert forall|k: int| 0 <= k < i implies is_column_sample(sample, axis, es, first as int, bucket_ms as int, k, #[trigger] rows@[k]) by {
                if k == bi {
                    assert(rows@[k] == row);
                    assert(state@ == fold_events(BookView::empty(), es.take(consumed::<BookEvent>(es, first as int, bucket_ms as int, k as nat) as int)));
                    assert(sample.ensures((&axis, &state), rows@[k]));
                } else {
                    assert(rows@[k] == old_rows[k]);
                }
            }
        }
    }
    proof {
        assert(qf + i > ql) by (nonlinear_arith)
            requires (qf + i) * bucket_ms > ql * bucket_ms, bucket_ms > 0;
    }
    Some(HeatmapGrid { final_book, axis, time, rows })
}

} // verus!
