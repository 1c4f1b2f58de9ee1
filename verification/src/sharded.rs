//! Sharding: records partitioned over independently owned kernels, keyed by
//! `identifier mod shard count`, so writers to different shards touch
//! disjoint memory.

use crate::domain::Money;
use crate::domain::OrderId;
use crate::domain::Record;
use crate::domain::Status;
use crate::kernel::fits_i64;
use crate::kernel::sum_fits;
use crate::kernel::sum_matching;
use crate::kernel::OrderSoA;
use vstd::prelude::*;

verus! {

/// A wrapper intended to give each shard its own cache line, so that hot
/// fields of neighbouring shards do not share one. A layout concern only: it
/// adds no synchronization.
pub struct CachePadded<T>(pub T);

/// Sum of the per-shard matching-amount sums, folded left to right.
pub open spec fn sharded_sum(shards: Seq<Seq<Record>>, status: Status) -> int
    decreases shards.len(),
{
    if shards.len() == 0 {
        0
    } else {
        sharded_sum(shards.drop_last(), status) + sum_matching(shards.last(), status)
    }
}

/// Every per-shard scan and every prefix of the cross-shard fold stays
/// representable in an `i64`.
pub open spec fn sharded_sum_fits(shards: Seq<Seq<Record>>, status: Status) -> bool {
    (forall|k: int| 0 <= k < shards.len() ==> sum_fits(#[trigger] shards[k], status))
        && (forall|k: int|
        0 <= k <= shards.len() ==> fits_i64(sharded_sum(#[trigger] shards.take(k), status)))
}

/// A set of independently owned columnar kernels; a record's identifier
/// alone decides, deterministically, which shard holds it.
pub struct ShardedOrderStore {
    shards: Vec<CachePadded<OrderSoA>>,
}

impl ShardedOrderStore {
    /// The rows of each shard, in shard order.
    pub closed spec fn shard_rows(self) -> Seq<Seq<Record>> {
        self.shards@.map_values(|c: CachePadded<OrderSoA>| c.0.rows())
    }

    /// At least one shard, and every shard's kernel is well formed.
    pub closed spec fn wf(self) -> bool {
        self.shards@.len() >= 1 && forall|i: int|
            0 <= i < self.shards@.len() ==> (#[trigger] self.shards@[i]).0.wf()
    }

    /// How many shards this store routes over.
    pub open spec fn shard_count(self) -> int {
        self.shard_rows().len() as int
    }

    /// `count` empty shards, each pre-sized for `cap_per` rows.
    pub fn with_shards(count: usize, cap_per: usize) -> (r: Self)
        requires
            1 <= count,
        ensures
            r.wf(),
            r.shard_count() == count,
            forall|i: int| 0 <= i < count ==> #[trigger] r.shard_rows()[i] == Seq::<Record>::empty(),
    {
        let mut shards: Vec<CachePadded<OrderSoA>> = Vec::with_capacity(count);
        let mut i: usize = 0;
        while i < count
            invariant
                i <= count,
                shards@.len() == i,
                forall|j: int|
                    0 <= j < i ==> (#[trigger] shards@[j]).0.wf() && shards@[j].0.rows()
                        == Seq::<Record>::empty(),
            decreases count - i,
        {
            shards.push(CachePadded(OrderSoA::with_capacity(cap_per)));
            i = i + 1;
        }
        ShardedOrderStore { shards }
    }

    /// Deterministic routing: append the record to shard
    /// `identifier mod shard count` and return (shard index, row position
    /// within that shard). Both coordinates are needed to address the row
    /// later; a position is meaningful only within its shard.
    pub fn add(&mut self, id: OrderId, amount: Money, status: Status, ts: u64) -> (r: (
        usize,
        usize,
    ))
        requires
            old(self).wf(),
        ensures
            final(self).wf(),
            final(self).shard_count() == old(self).shard_count(),
            r.0 as int == id.0 as int % old(self).shard_count(),
            r.1 == old(self).shard_rows()[r.0 as int].len(),
            final(self).shard_rows() == old(self).shard_rows().update(
                r.0 as int,
                old(self).shard_rows()[r.0 as int].push(
                    (Record { id, amount, status, timestamp: ts }),
                ),
            ),
    {
        let count = self.shards.len();
        let si = (id.0 % (count as u64)) as usize;
        let shard = &mut self.shards[si];
        let row = shard.0.push(id, amount, status, ts);
        proof {
            assert(self.shard_rows() =~= old(self).shard_rows().update(
                si as int,
                old(self).shard_rows()[si as int].push(
                    Record { id, amount, status, timestamp: ts },
                ),
            ));
        }
        (si, row)
    }

    /// Sum the matching amounts of every shard independently and fold the
    /// per-shard results with addition.
    pub fn sum_by_status(&self, status: Status) -> (r: Money)
        requires
            self.wf(),
            sharded_sum_fits(self.shard_rows(), status),
        ensures
            r.0 == sharded_sum(self.shard_rows(), status),
    {
        let mut acc = Money::zero();
        let n = self.shards.len();
        let mut i: usize = 0;
        while i < n
            invariant
                self.wf(),
                sharded_sum_fits(self.shard_rows(), status),
                n == self.shard_count(),
                i <= n,
                acc.0 == sharded_sum(self.shard_rows().take(i as int), status),
            decreases n - i,
        {
            proof {
                assert(self.shard_rows().take(i + 1).drop_last() =~= self.shard_rows().take(
                    i as int,
                ));
                assert(self.shard_rows().take(i + 1).last() == self.shard_rows()[i as int]);
                assert(fits_i64(sharded_sum(self.shard_rows().take(i + 1), status)));
                assert(sum_fits(self.shard_rows()[i as int], status));
            }
            let m = self.shards[i].0.sum_by_status(status);
            acc = acc.add(m);
            i = i + 1;
        }
        proof {
            assert(self.shard_rows().take(n as int) =~= self.shard_rows());
        }
        acc
    }
}

} // verus!
