//! Footprint: traded volume per price bin, buy and sell kept apart.
//!
//! Every trade is snapped to its price bin (the caller computes the bin of
//! each trade's price) and its quantity goes to that bin's buy or sell total
//! by aggressor side. This module groups the trades: one group per distinct
//! bin, in ascending price order (the total order of doubles), each listing
//! its buy trades and its sell trades in trade order, which is the order the
//! totals are summed in. A trade of zero quantity adds no volume and is
//! left out, so only bins with volume are present.

use vstd::prelude::*;

use crate::types::{is_zero, lemma_total_order_key_injective, spec_is_zero, spec_total_order_key, total_order_key, Side, Trade};

verus! {

/// The trades of one price bin.
#[derive(Debug)]
pub struct BinGroup {
    /// The lower edge of the bin (bits of a double).
    pub bin: u64,
    /// Indices of the bin's buy-side trades, ascending.
    pub buys: Vec<usize>,
    /// Indices of the bin's sell-side trades, ascending.
    pub sells: Vec<usize>,
}

/// The indices `j < n`, ascending, of trades of non-zero quantity in bin
/// `bin` on side `side`.
pub open spec fn trades_in(bins: Seq<u64>, trades: Seq<Trade>, n: int, bin: u64, side: Side) -> Seq<usize> {
    index_range(n).filter(in_bin_on_side(bins, trades, bin, side))
}

/// The indices `0, 1, ..., n - 1`.
pub open spec fn index_range(n: int) -> Seq<usize> {
    Seq::new(n as nat, |j: int| j as usize)
}

/// The predicate "trade `j` has volume and is in bin `bin` on side `side`".
pub open spec fn in_bin_on_side(bins: Seq<u64>, trades: Seq<Trade>, bin: u64, side: Side) -> spec_fn(usize) -> bool {
    |j: usize| bins[j as int] == bin && trades[j as int].side == side && !spec_is_zero(trades[j as int].qty)
}

/// Whether some group is the group of bin `bin`.
pub open spec fn has_bin(groups: Seq<BinGroup>, bin: u64) -> bool {
    exists|g: int| 0 <= g < groups.len() && #[trigger] groups[g].bin == bin
}

/// `groups` is the grouping of the first `n` trades by bin: bins strictly
/// ascending, the bin of every trade of non-zero quantity present, and each
/// group listing exactly its trades of non-zero quantity per side (so no
/// group is empty).
pub open spec fn is_grouping(groups: Seq<BinGroup>, bins: Seq<u64>, trades: Seq<Trade>, n: int) -> bool {
    &&& forall|a: int, b: int| 0 <= a < b < groups.len() ==> spec_total_order_key(groups[a].bin) < spec_total_order_key(groups[b].bin)
    &&& forall|j: int| 0 <= j < n && !spec_is_zero(trades[j].qty) ==> #[trigger] has_bin(groups, bins[j])
    &&& forall|g: int| 0 <= g < groups.len() ==> {
        &&& #[trigger] groups[g].buys@ == trades_in(bins, trades, n, groups[g].bin, Side::Buy)
        &&& groups[g].sells@ == trades_in(bins, trades, n, groups[g].bin, Side::Sell)
        &&& groups[g].buys@.len() + groups[g].sells@.len() > 0
    }
}

proof fn lemma_trades_in_step(bins: Seq<u64>, trades: Seq<Trade>, i: int, bin: u64, side: Side)
    requires
        0 <= i < bins.len(),
        bins.len() == trades.len(),
        bins.len() <= usize::MAX,
    ensures
        trades_in(bins, trades, i + 1, bin, side) == if bins[i] == bin && trades[i].side == side && !spec_is_zero(trades[i].qty) {
            trades_in(bins, trades, i, bin, side).push(i as usize)
        } else {
            trades_in(bins, trades, i, bin, side)
        },
{
    let range_i = index_range(i);
    assert(index_range(i + 1) =~= range_i.push(i as usize));
    range_i.lemma_filter_push(i as usize, in_bin_on_side(bins, trades, bin, side));
}

proof fn lemma_trades_in_absent(bins: Seq<u64>, trades: Seq<Trade>, i: int, bin: u64, side: Side)
    requires
        0 <= i <= bins.len(),
        bins.len() == trades.len(),
        bins.len() <= usize::MAX,
        forall|j: int| 0 <= j < i ==> bins[j] != bin || spec_is_zero(trades[j].qty),
    ensures
        trades_in(bins, trades, i, bin, side).len() == 0,
{
    let range_i = index_range(i);
    let pred = in_bin_on_side(bins, trades, bin, side);
    assert forall|q: int| 0 <= q < range_i.len() implies !pred(range_i[q]) by {
        assert(range_i[q] as int == q);
    }
    range_i.lemma_all_neg_filter_empty(pred);
}

/// Groups the trades of non-zero quantity by bin; `bins[i]` is the bin of
/// `trades[i]`. A trade of zero quantity (either zero) is in no group.
pub fn group_by_bin(trades: &Vec<Trade>, bins: &Vec<u64>) -> (groups: Vec<BinGroup>)
    requires
        bins@.len() == trades@.len(),
    ensures
        is_grouping(groups@, bins@, trades@, trades@.len() as int),
{
    let mut groups: Vec<BinGroup> = Vec::new();
    let mut i: usize = 0;
    while i < trades.len()
        invariant
            i <= trades@.len(),
            bins@.len() == trades@.len(),
            is_grouping(groups@, bins@, trades@, i as int),
        decreases trades.len() - i,
    {
        if is_zero(trades[i].qty) {
            proof {
                assert forall|b: u64, sd: Side| #[trigger] trades_in(bins@, trades@, i + 1, b, sd) == trades_in(bins@, trades@, i as int, b, sd) by {
                    lemma_trades_in_step(bins@, trades@, i as int, b, sd);
                }
            }
            i = i + 1;
            continue;
        }
        let bin = bins[i];
        let key = total_order_key(bin);
        let side = trades[i].side;
        let mut p: usize = 0;
        while p < groups.len() && total_order_key(groups[p].bin) < key
            invariant
                p <= groups@.len(),
                forall|q: int| 0 <= q < p ==> spec_total_order_key(groups@[q].bin) < key,
            decreases groups.len() - p,
        {
            p = p + 1;
        }
        let ghost before = groups@;
        proof {
            assert forall|b: u64, sd: Side| #[trigger] trades_in(bins@, trades@, i + 1, b, sd) == if bins@[i as int] == b && trades@[i as int].side == sd && !spec_is_zero(trades@[i as int].qty) {
                trades_in(bins@, trades@, i as int, b, sd).push(i)
            } else {
                trades_in(bins@, trades@, i as int, b, sd)
            } by {
                lemma_trades_in_step(bins@, trades@, i as int, b, sd);
            }
            assert forall|a: int, b: int| 0 <= a < before.len() && 0 <= b < before.len() && a != b implies before[a].bin != before[b].bin by {
                lemma_total_order_key_injective(before[a].bin, before[b].bin);
            }
        }
        if p < groups.len() && groups[p].bin == bin {
            let mut g = groups.remove(p);
            match side {
                Side::Buy => g.buys.push(i),
                Side::Sell => g.sells.push(i),
            }
            groups.insert(p, g);
            proof {
                assert(groups@ =~= before.update(p as int, groups@[p as int]));
                assert forall|j: int| 0 <= j < i + 1 && !spec_is_zero(trades@[j].qty) implies #[trigger] has_bin(groups@, bins@[j]) by {
                    if j == i {
                        assert(groups@[p as int].bin == bins@[j]);
                    } else {
                        assert(has_bin(before, bins@[j]));
                        let g = choose|g: int| 0 <= g < before.len() && #[trigger] before[g].bin == bins@[j];
                        assert(groups@[g].bin == bins@[j]);
                    }
                }
                assert forall|g: int| 0 <= g < groups@.len() implies {
                    &&& #[trigger] groups@[g].buys@ == trades_in(bins@, trades@, i + 1, groups@[g].bin, Side::Buy)
                    &&& groups@[g].sells@ == trades_in(bins@, trades@, i + 1, groups@[g].bin, Side::Sell)
                    &&& groups@[g].buys@.len() + groups@[g].sells@.len() > 0
                } by {
                    assert(before[g].buys@ == trades_in(bins@, trades@, i as int, before[g].bin, Side::Buy));
                    assert(trades_in(bins@, trades@, i + 1, groups@[g].bin, Side::Buy) == trades_in(bins@, trades@, i + 1, groups@[g].bin, Side::Buy));
                    assert(trades_in(bins@, trades@, i + 1, groups@[g].bin, Side::Sell) == trades_in(bins@, trades@, i + 1, groups@[g].bin, Side::Sell));
                }
            }
        } else {
            let mut g = BinGroup { bin, buys: Vec::new(), sells: Vec::new() };
            match side {
                Side::Buy => g.buys.push(i),
                Side::Sell => g.sells.push(i),
            }
            groups.insert(p, g);
            proof {
                assert(groups@ =~= before.insert(p as int, groups@[p as int]));
                if (p as int) < before.len() {
                    lemma_total_order_key_injective(before[p as int].bin, bin);
                    assert(spec_total_order_key(before[p as int].bin) > key);
                }
                assert forall|q: int| 0 <= q < before.len() implies before[q].bin != bin by {
                    lemma_total_order_key_injective(before[q].bin, bin);
                    if q > p {
                        assert(spec_total_order_key(before[p as int].bin) < spec_total_order_key(before[q].bin));
                    }
                }
                assert forall|j: int| 0 <= j < i implies bins@[j] != bin || spec_is_zero(trades@[j].qty) by {
                    if !spec_is_zero(trades@[j].qty) {
                    assert(has_bin(before, bins@[j]));
                    let g = choose|g: int| 0 <= g < before.len() && #[trigger] before[g].bin == bins@[j];
                    }
                }
                lemma_trades_in_absent(bins@, trades@, i as int, bin, Side::Buy);
                lemma_trades_in_absent(bins@, trades@, i as int, bin, Side::Sell);
                assert(trades_in(bins@, trades@, i as int, bin, Side::Buy) =~= Seq::<usize>::empty());
                assert(trades_in(bins@, trades@, i as int, bin, Side::Sell) =~= Seq::<usize>::empty());
                assert forall|a: int, b: int| 0 <= a < b < groups@.len() implies spec_total_order_key(groups@[a].bin) < spec_total_order_key(groups@[b].bin) by {
                    if a < p && b > p {
                        assert(groups@[b] == before[b - 1]);
                        assert(spec_total_order_key(before[a].bin) < key);
                        if (p as int) < b - 1 {
                            assert(spec_total_order_key(before[p as int].bin) < spec_total_order_key(before[b - 1].bin));
                        }
                    } else if a < p && b == p {
                    } else if a == p {
                        assert(groups@[b] == before[b - 1]);
                        if (p as int) < b - 1 {
                            assert(spec_total_order_key(before[p as int].bin) < spec_total_order_key(before[b - 1].bin));
                        }
                    } else if b < p {
                    } else {
                        assert(groups@[a] == before[a - 1]);
                        assert(groups@[b] == before[b - 1]);
                    }
                }
                assert forall|j: int| 0 <= j < i + 1 && !spec_is_zero(trades@[j].qty) implies #[trigger] has_bin(groups@, bins@[j]) by {
                    if j == i {
                        assert(groups@[p as int].bin == bins@[j]);
                    } else {
                        assert(has_bin(before, bins@[j]));
                        let g = choose|g: int| 0 <= g < before.len() && #[trigger] before[g].bin == bins@[j];
                        if g < p {
                            assert(groups@[g].bin == bins@[j]);
                        } else {
                            assert(groups@[g + 1].bin == bins@[j]);
                        }
                    }
                }
                assert forall|g: int| 0 <= g < groups@.len() implies {
                    &&& #[trigger] groups@[g].buys@ == trades_in(bins@, trades@, i + 1, groups@[g].bin, Side::Buy)
                    &&& groups@[g].sells@ == trades_in(bins@, trades@, i + 1, groups@[g].bin, Side::Sell)
                    &&& groups@[g].buys@.len() + groups@[g].sells@.len() > 0
                } by {
                    if g < p {
                        assert(groups@[g] == before[g]);
                        assert(before[g].buys@ == trades_in(bins@, trades@, i as int, before[g].bin, Side::Buy));
                    } else if g > p {
                        assert(groups@[g] == before[g - 1]);
                        assert(before[g - 1].buys@ == trades_in(bins@, trades@, i as int, before[g - 1].bin, Side::Buy));
                    } else {
                        assert(trades_in(bins@, trades@, i + 1, bin, Side::Buy) == trades_in(bins@, trades@, i + 1, bin, Side::Buy));
                        assert(trades_in(bins@, trades@, i + 1, bin, Side::Sell) == trades_in(bins@, trades@, i + 1, bin, Side::Sell));
                    }
                }
            }
        }
        i = i + 1;
    }
    groups
}

} // verus!
