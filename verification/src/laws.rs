//! The general laws of the kernel, stated over the specification model and
//! proved once and for all: what the aggregate scan sums, how the filter
//! kernel's output is ordered and characterized, how compaction preserves
//! order, and how sharded aggregation relates to an unsharded pool.

use crate::domain::Money;
use crate::domain::Record;
use crate::domain::Status;
use crate::kernel::count_true;
use crate::kernel::filtered_positions;
use crate::kernel::mask_filter;
use crate::kernel::row_matches;
use crate::kernel::sum_matching;
use crate::sharded::sharded_sum;
use vstd::prelude::*;

verus! {

/// Sum of `amount` over all rows, as an unbounded integer.
pub open spec fn sum_amounts(rows: Seq<Record>) -> int
    decreases rows.len(),
{
    if rows.len() == 0 {
        0
    } else {
        sum_amounts(rows.drop_last()) + rows.last().amount.0 as int
    }
}

/// The predicate "this row's status equals `status`", as a value.
pub open spec fn has_status(status: Status) -> spec_fn(Record) -> bool {
    |r: Record| r.status == status
}

/// The aggregate scan sums exactly the matching rows: `sum_matching` equals
/// the plain amount sum of the subsequence of rows whose status is `status`.
/// Holds for any rows, including none (both sides are then zero).
pub proof fn lemma_sum_by_status_is_filtered_sum(rows: Seq<Record>, status: Status)
    ensures
        sum_matching(rows, status) == sum_amounts(rows.filter(has_status(status))),
    decreases rows.len(),
{
    reveal(Seq::filter);
    let p = has_status(status);
    if rows.len() == 0 {
    } else {
        lemma_sum_by_status_is_filtered_sum(rows.drop_last(), status);
        if p(rows.last()) {
            let sub = rows.drop_last().filter(p);
            assert(rows.filter(p) == sub.push(rows.last()));
            assert(sub.push(rows.last()).drop_last() =~= sub);
        }
    }
}

/// Soundness of the filter kernel: every returned position addresses a row,
/// and that row satisfies both conditions.
pub proof fn lemma_filtered_positions_sound(rows: Seq<Record>, min_amount: Money, status: Status)
    ensures
        forall|k: int|
            0 <= k < filtered_positions(rows, min_amount, status).len() ==> {
                let p = #[trigger] filtered_positions(rows, min_amount, status)[k];
                0 <= p < rows.len() && row_matches(rows[p], min_amount, status)
            },
    decreases rows.len(),
{
    if rows.len() == 0 {
    } else {
        lemma_filtered_positions_sound(rows.drop_last(), min_amount, status);
        let init = filtered_positions(rows.drop_last(), min_amount, status);
        assert forall|k: int| 0 <= k < init.len() implies 0 <= #[trigger] init[k] < rows.len() - 1
            && row_matches(rows[init[k]], min_amount, status) by {
            assert(rows.drop_last()[init[k]] == rows[init[k]]);
        }
    }
}

/// The filter kernel returns positions in strictly ascending order.
pub proof fn lemma_filtered_positions_ascending(
    rows: Seq<Record>,
    min_amount: Money,
    status: Status,
)
    ensures
        forall|k1: int, k2: int|
            0 <= k1 < k2 < filtered_positions(rows, min_amount, status).len()
                ==> #[trigger] filtered_positions(rows, min_amount, status)[k1]
                < #[trigger] filtered_positions(rows, min_amount, status)[k2],
    decreases rows.len(),
{
    if rows.len() == 0 {
    } else {
        lemma_filtered_positions_ascending(rows.drop_last(), min_amount, status);
        lemma_filtered_positions_sound(rows.drop_last(), min_amount, status);
        let fp = filtered_positions(rows, min_amount, status);
        let init = filtered_positions(rows.drop_last(), min_amount, status);
        assert forall|k1: int, k2: int| 0 <= k1 < k2 < fp.len() implies fp[k1] < fp[k2] by {
            if row_matches(rows.last(), min_amount, status) {
                assert(fp == init.push(rows.len() - 1));
                assert(fp[k1] == init[k1]);
                if k2 < init.len() {
                    assert(fp[k2] == init[k2]);
                } else {
                    assert(fp[k2] == rows.len() - 1);
                }
            } else {
                assert(fp == init);
            }
        }
    }
}

/// Completeness of the filter kernel: every position whose row satisfies
/// both conditions is returned; equivalently, every omitted position
/// violates at least one condition.
pub proof fn lemma_filtered_positions_complete(
    rows: Seq<Record>,
    min_amount: Money,
    status: Status,
)
    ensures
        forall|i: int|
            0 <= i < rows.len() && row_matches(#[trigger] rows[i], min_amount, status)
                ==> filtered_positions(rows, min_amount, status).contains(i),
    decreases rows.len(),
{
    if rows.len() == 0 {
    } else {
        lemma_filtered_positions_complete(rows.drop_last(), min_amount, status);
        let fp = filtered_positions(rows, min_amount, status);
        let init = filtered_positions(rows.drop_last(), min_amount, status);
        assert forall|i: int|
            0 <= i < rows.len() && row_matches(#[trigger] rows[i], min_amount, status) implies fp.contains(
            i,
        ) by {
            if i < rows.len() - 1 {
                assert(rows.drop_last()[i] == rows[i]);
                let k = choose|k: int| 0 <= k < init.len() && init[k] == i;
                assert(fp[k] == i);
            } else {
                assert(fp.last() == i);
            }
        }
    }
}

/// Compaction keeps as many rows as there are true decisions.
pub proof fn lemma_mask_filter_length(rows: Seq<Record>, keep: Seq<bool>)
    requires
        keep.len() == rows.len(),
    ensures
        mask_filter(rows, keep).len() == count_true(keep),
    decreases rows.len(),
{
    if rows.len() == 0 {
    } else {
        lemma_mask_filter_length(rows.drop_last(), keep.drop_last());
    }
}

/// Positions of the true decisions, in ascending order.
pub open spec fn kept_positions(keep: Seq<bool>) -> Seq<int>
    decreases keep.len(),
{
    if keep.len() == 0 {
        Seq::empty()
    } else {
        let init = kept_positions(keep.drop_last());
        if keep.last() {
            init.push(keep.len() - 1)
        } else {
            init
        }
    }
}

/// Compaction preserves the relative order of the kept rows: the result is
/// exactly the rows at the kept positions, read off along a strictly
/// ascending sequence of original positions.
pub proof fn lemma_mask_filter_order(rows: Seq<Record>, keep: Seq<bool>)
    requires
        keep.len() == rows.len(),
    ensures
        kept_positions(keep).len() == mask_filter(rows, keep).len(),
        forall|k: int|
            0 <= k < kept_positions(keep).len() ==> {
                let p = #[trigger] kept_positions(keep)[k];
                0 <= p < rows.len() && keep[p] && mask_filter(rows, keep)[k] == rows[p]
            },
        forall|k1: int, k2: int|
            0 <= k1 < k2 < kept_positions(keep).len() ==> #[trigger] kept_positions(keep)[k1]
                < #[trigger] kept_positions(keep)[k2],
    decreases rows.len(),
{
    if rows.len() == 0 {
    } else {
        lemma_mask_filter_order(rows.drop_last(), keep.drop_last());
        let initp = kept_positions(keep.drop_last());
        let initm = mask_filter(rows.drop_last(), keep.drop_last());
        assert forall|k: int| 0 <= k < initp.len() implies {
            let p = #[trigger] initp[k];
            0 <= p < rows.len() - 1 && keep[p] && initm[k] == rows[p]
        } by {
            assert(rows.drop_last()[initp[k]] == rows[initp[k]]);
            assert(keep.drop_last()[initp[k]] == keep[initp[k]]);
        }
    }
}

/// A compaction that keeps every row is a no-op: reapplying `retain` with an
/// always-true predicate leaves the store unchanged.
pub proof fn lemma_mask_filter_keep_all(rows: Seq<Record>, keep: Seq<bool>)
    requires
        keep.len() == rows.len(),
        forall|i: int| 0 <= i < keep.len() ==> keep[i],
    ensures
        mask_filter(rows, keep) == rows,
    decreases rows.len(),
{
    if rows.len() == 0 {
        assert(mask_filter(rows, keep) =~= rows);
    } else {
        lemma_mask_filter_keep_all(rows.drop_last(), keep.drop_last());
        assert(mask_filter(rows, keep) =~= rows);
    }
}

/// A deterministic predicate pins compaction down completely: if every
/// decision agrees with a predicate `p` on its row, the kept rows are the
/// canonical order-preserving filtering of the rows by `p`.
pub proof fn lemma_mask_filter_of_pred(rows: Seq<Record>, keep: Seq<bool>, p: spec_fn(Record) -> bool)
    requires
        keep.len() == rows.len(),
        forall|i: int| 0 <= i < rows.len() ==> keep[i] == p(#[trigger] rows[i]),
    ensures
        mask_filter(rows, keep) == rows.filter(p),
    decreases rows.len(),
{
    reveal(Seq::filter);
    if rows.len() == 0 {
        assert(mask_filter(rows, keep) =~= rows.filter(p));
    } else {
        assert forall|i: int| 0 <= i < rows.len() - 1 implies keep.drop_last()[i] == p(
            #[trigger] rows.drop_last()[i],
        ) by {
            assert(rows.drop_last()[i] == rows[i]);
        }
        lemma_mask_filter_of_pred(rows.drop_last(), keep.drop_last(), p);
        assert(keep[rows.len() - 1] == p(rows[rows.len() - 1]));
        assert(keep.last() == p(rows.last()));
    }
}

/// Concatenation splits the matching-amount sum.
pub proof fn lemma_sum_matching_concat(a: Seq<Record>, b: Seq<Record>, status: Status)
    ensures
        sum_matching(a + b, status) == sum_matching(a, status) + sum_matching(b, status),
    decreases b.len(),
{
    if b.len() == 0 {
        assert(a + b =~= a);
    } else {
        lemma_sum_matching_concat(a, b.drop_last(), status);
        assert((a + b).drop_last() =~= a + b.drop_last());
        assert((a + b).last() == b.last());
    }
}

/// Sharded aggregation pools: the fold of the per-shard sums equals the sum
/// over all shards' rows gathered into one unsharded store, whatever the
/// distribution of identifiers over the shards. Exact integer addition is
/// commutative and associative, so the fold order does not matter.
pub proof fn lemma_sharded_sum_is_pooled_sum(shards: Seq<Seq<Record>>, status: Status)
    ensures
        sharded_sum(shards, status) == sum_matching(shards.flatten(), status),
    decreases shards.len(),
{
    shards.lemma_flatten_and_flatten_alt_are_equivalent();
    if shards.len() == 0 {
    } else {
        lemma_sharded_sum_is_pooled_sum(shards.drop_last(), status);
        shards.drop_last().lemma_flatten_and_flatten_alt_are_equivalent();
        lemma_sum_matching_concat(shards.drop_last().flatten(), shards.last(), status);
    }
}

} // verus!
