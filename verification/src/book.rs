//! Order-book reconstruction.
//!
//! Folding book snapshots and diffs into a live book is sequential (order
//! matters). Each side is a `BTreeMap` from the total-order key of a price to
//! the bits of its resting quantity, so iteration is deterministic and in
//! ascending price order.

use std::collections::BTreeMap;

use vstd::prelude::*;
use vstd::std_specs::btree::{increasing_seq, spec_btree_map_iter};
use vstd::std_specs::cmp::OrdSpec;
use vstd::std_specs::iter::IteratorSpec;

use crate::types::{
    is_zero, key_bits, spec_is_zero, spec_total_order_key, total_order_key,
    BookEvent, BookEventView, BookKind, Level,
};

verus! {

/// A reconstructed order book: price key -> resting quantity, per side.
#[derive(Debug)]
pub struct BookState {
    bids: BTreeMap<i64, u64>,
    asks: BTreeMap<i64, u64>,
}

/// The mathematical content of a [`BookState`]: for each side, a map from the
/// total-order key of each resting price to the bits of its quantity.
pub struct BookView {
    pub bids: Map<i64, u64>,
    pub asks: Map<i64, u64>,
}

impl View for BookState {
    type V = BookView;

    closed spec fn view(&self) -> BookView {
        BookView { bids: self.bids@, asks: self.asks@ }
    }
}

/// The key under which a level's price rests.
pub open spec fn level_key(l: Level) -> i64 {
    spec_total_order_key(l.price) as i64
}

/// One side after applying `levels` in order: a zero quantity removes the
/// price, any other quantity sets it.
pub open spec fn apply_levels(side: Map<i64, u64>, levels: Seq<Level>) -> Map<i64, u64>
    decreases levels.len(),
{
    if levels.len() == 0 {
        side
    } else {
        let before = apply_levels(side, levels.drop_last());
        let l = levels.last();
        if spec_is_zero(l.qty) {
            before.remove(level_key(l))
        } else {
            before.insert(level_key(l), l.qty)
        }
    }
}

/// `levels` lists the side `m` in strictly ascending price order (by the
/// total order of doubles), each level carrying its resting quantity.
pub open spec fn is_listing(levels: Seq<Level>, m: Map<i64, u64>) -> bool {
    &&& forall|i: int, j: int| 0 <= i < j < levels.len() ==> level_key(levels[i]) < level_key(levels[j])
    &&& forall|i: int| 0 <= i < levels.len() ==> {
        &&& #[trigger] m.contains_key(level_key(levels[i]))
        &&& m[level_key(levels[i])] == levels[i].qty
    }
    &&& forall|k: i64| #[trigger] m.contains_key(k) ==> exists|i: int| 0 <= i < levels.len() && level_key(levels[i]) == k
}

impl BookView {
    /// The book with no levels.
    pub open spec fn empty() -> BookView {
        BookView { bids: Map::empty(), asks: Map::empty() }
    }

    /// The book after one event: a snapshot replaces the whole book, a diff
    /// merges its levels into it.
    pub open spec fn apply(self, ev: BookEventView) -> BookView {
        let base = if ev.kind == BookKind::Snapshot { BookView::empty() } else { self };
        BookView { bids: apply_levels(base.bids, ev.bids), asks: apply_levels(base.asks, ev.asks) }
    }

    /// Whether both sides hold a level, so that a mid price exists.
    pub open spec fn two_sided(self) -> bool {
        !self.bids.is_empty() && !self.asks.is_empty()
    }
}

/// The book after applying `events` in order to `start`.
pub open spec fn fold_events(start: BookView, events: Seq<BookEventView>) -> BookView
    decreases events.len(),
{
    if events.len() == 0 {
        start
    } else {
        fold_events(start, events.drop_last()).apply(events.last())
    }
}

/// Applies level changes to one side: a zero quantity removes, otherwise set.
fn apply_side(side: &mut BTreeMap<i64, u64>, levels: &Vec<Level>)
    ensures
        final(side)@ == apply_levels(old(side)@, levels@),
{
    let mut i: usize = 0;
    assert(levels@.take(0) =~= Seq::<Level>::empty());
    while i < levels.len()
        invariant
            i <= levels@.len(),
            side@ == apply_levels(old(side)@, levels@.take(i as int)),
        decreases levels.len() - i,
    {
        let level = levels[i];
        let key = total_order_key(level.price);
        assert(levels@.take(i + 1).drop_last() =~= levels@.take(i as int));
        if is_zero(level.qty) {
            side.remove(&key);
        } else {
            side.insert(key, level.qty);
        }
        i = i + 1;
    }
    assert(levels@.take(i as int) =~= levels@);
}

proof fn lemma_increasing_keys(ks: Seq<i64>)
    requires
        increasing_seq(ks),
    ensures
        forall|i: int, j: int| 0 <= i < j < ks.len() ==> ks[i] < ks[j],
{
    assert forall|i: int, j: int| 0 <= i < j < ks.len() implies ks[i] < ks[j] by {
        assert(ks[i].cmp_spec(&ks[j]) is Less);
    }
}

/// Lists one side in ascending price order.
fn list_side(side: &BTreeMap<i64, u64>) -> (levels: Vec<Level>)
    ensures
        is_listing(levels@, side@),
{
    let ghost s = spec_btree_map_iter(side).remaining();
    let mut out: Vec<Level> = Vec::new();
    for (k, q) in it: side.iter()
        invariant
            it.seq() == s,
            out@.len() == it.index(),
            forall|i: int| 0 <= i < out@.len() ==> level_key(#[trigger] out@[i]) == *s[i].0 && out@[i].qty == *s[i].1,
    {
        out.push(Level { price: key_bits(*k), qty: *q });
    }
    proof {
        assert(out@.len() == s.len());
        let ks = s.map_values(|kv: (&i64, &u64)| *kv.0);
        lemma_increasing_keys(ks);
        assert forall|i: int, j: int| 0 <= i < j < out@.len() implies level_key(out@[i]) < level_key(out@[j]) by {
            assert(ks[i] == *s[i].0);
            assert(ks[j] == *s[j].0);
        }
        assert forall|k: i64| #[trigger] side@.contains_key(k) implies exists|i: int| 0 <= i < out@.len() && level_key(out@[i]) == k by {
            assert(s.contains((&k, &side@[k])));
            let i = choose|i: int| 0 <= i < s.len() && s[i] == (&k, &side@[k]);
            assert(level_key(out@[i]) == k);
        }
    }
    out
}

impl BookState {
    /// A fresh, empty book.
    pub fn new() -> (b: BookState)
        ensures
            b@ == BookView::empty(),
    {
        BookState { bids: BTreeMap::new(), asks: BTreeMap::new() }
    }

    /// Applies a book event: a snapshot replaces the whole book; a diff merges
    /// the given levels, and a level whose quantity is zero is removed.
    pub fn apply(&mut self, ev: &BookEvent)
        ensures
            final(self)@ == old(self)@.apply(ev@),
    {
        if ev.kind == BookKind::Snapshot {
            self.bids.clear();
            self.asks.clear();
        }
        apply_side(&mut self.bids, &ev.bids);
        apply_side(&mut self.asks, &ev.asks);
    }

    /// Whether both sides hold a level, so that a mid price exists.
    pub fn two_sided(&self) -> (r: bool)
        ensures
            r == self@.two_sided(),
    {
        !self.bids.is_empty() && !self.asks.is_empty()
    }

    /// The bid levels in ascending price order (the best bid is last).
    pub fn bid_levels(&self) -> (levels: Vec<Level>)
        ensures
            is_listing(levels@, self@.bids),
    {
        list_side(&self.bids)
    }

    /// The ask levels in ascending price order (the best ask is first).
    pub fn ask_levels(&self) -> (levels: Vec<Level>)
        ensures
            is_listing(levels@, self@.asks),
    {
        list_side(&self.asks)
    }
}

} // verus!
