//! The columnar kernel: four parallel columns of equal length, positional
//! reads and writes, linear aggregate scans, predicate filtering, and
//! in-place compaction.

use crate::domain::Money;
use crate::domain::OrderId;
use crate::domain::Record;
use crate::domain::Status;
use vstd::prelude::*;

verus! {

/// `v` is representable as a 64-bit signed fixed-point amount.
pub open spec fn fits_i64(v: int) -> bool {
    i64::MIN <= v <= i64::MAX
}

/// Sum of `amount` over exactly the rows whose status equals `status`,
/// as an unbounded integer.
pub open spec fn sum_matching(rows: Seq<Record>, status: Status) -> int
    decreases rows.len(),
{
    if rows.len() == 0 {
        0
    } else {
        sum_matching(rows.drop_last(), status) + if rows.last().status == status {
            rows.last().amount.0 as int
        } else {
            0
        }
    }
}

/// Every prefix of the left-to-right accumulation stays representable, so a
/// single-pass scan can hold it in an `i64` without overflow.
pub open spec fn sum_fits(rows: Seq<Record>, status: Status) -> bool {
    forall|i: int| 0 <= i <= rows.len() ==> fits_i64(sum_matching(#[trigger] rows.take(i), status))
}

/// The filter predicate of `filter_indices`: at least `min_amount`, and the
/// status equals `status`. Both conditions are conjunctive.
pub open spec fn row_matches(r: Record, min_amount: Money, status: Status) -> bool {
    r.amount.0 >= min_amount.0 && r.status == status
}

/// Positions of the rows satisfying `row_matches`, in ascending order.
pub open spec fn filtered_positions(rows: Seq<Record>, min_amount: Money, status: Status) -> Seq<
    int,
>
    decreases rows.len(),
{
    if rows.len() == 0 {
        Seq::empty()
    } else {
        let init = filtered_positions(rows.drop_last(), min_amount, status);
        if row_matches(rows.last(), min_amount, status) {
            init.push(rows.len() - 1)
        } else {
            init
        }
    }
}

/// Positions of the rows whose status equals `status`, in ascending order.
pub open spec fn status_positions(rows: Seq<Record>, status: Status) -> Seq<int>
    decreases rows.len(),
{
    if rows.len() == 0 {
        Seq::empty()
    } else {
        let init = status_positions(rows.drop_last(), status);
        if rows.last().status == status {
            init.push(rows.len() - 1)
        } else {
            init
        }
    }
}

/// The subsequence of `rows` at the positions where `keep` is true, in the
/// original order. Meaningful when `keep` has one decision per row.
pub open spec fn mask_filter(rows: Seq<Record>, keep: Seq<bool>) -> Seq<Record>
    decreases rows.len(),
{
    if rows.len() == 0 {
        Seq::empty()
    } else {
        let init = mask_filter(rows.drop_last(), keep.drop_last());
        if keep.len() >= 1 && keep.last() {
            init.push(rows.last())
        } else {
            init
        }
    }
}

/// How many decisions in `keep` are true.
pub open spec fn count_true(keep: Seq<bool>) -> int
    decreases keep.len(),
{
    if keep.len() == 0 {
        0
    } else {
        count_true(keep.drop_last()) + if keep.last() {
            1int
        } else {
            0int
        }
    }
}

/// Struct-of-arrays storage for order records: one contiguous column per
/// field, all four kept at identical length by every mutation.
#[derive(Debug)]
pub struct OrderSoA {
    ids: Vec<OrderId>,
    amounts: Vec<i64>,
    statuses: Vec<Status>,
    timestamps: Vec<u64>,
}

impl Default for OrderSoA {
    /// An empty store with no pre-sized columns.
    fn default() -> (r: Self)
        ensures
            r.wf(),
            r.rows() == Seq::<Record>::empty(),
    {
        OrderSoA::with_capacity(0)
    }
}

impl Clone for OrderSoA {
    /// A deep copy: the clone holds the same rows and stays well formed.
    fn clone(&self) -> (r: Self)
        ensures
            r.wf() == self.wf(),
            r.rows() == self.rows(),
    {
        let r = OrderSoA {
            ids: self.ids.clone(),
            amounts: self.amounts.clone(),
            statuses: self.statuses.clone(),
            timestamps: self.timestamps.clone(),
        };
        proof {
            assert(r.rows() =~= self.rows());
        }
        r
    }
}

impl OrderSoA {
    /// Cross-column alignment invariant: all four columns have the length of
    /// the identifier column.
    pub closed spec fn wf(self) -> bool {
        &&& self.amounts@.len() == self.ids@.len()
        &&& self.statuses@.len() == self.ids@.len()
        &&& self.timestamps@.len() == self.ids@.len()
    }

    /// The store as a sequence of logical rows, one per position.
    pub closed spec fn rows(self) -> Seq<Record> {
        Seq::new(
            self.ids@.len(),
            |i: int|
                Record {
                    id: self.ids@[i],
                    amount: Money(self.amounts@[i]),
                    status: self.statuses@[i],
                    timestamp: self.timestamps@[i],
                },
        )
    }

    /// The physical identifier column.
    pub closed spec fn ids_col(self) -> Seq<OrderId> {
        self.ids@
    }

    /// The physical amount column, in minor units.
    pub closed spec fn amounts_col(self) -> Seq<i64> {
        self.amounts@
    }

    /// The physical status column.
    pub closed spec fn statuses_col(self) -> Seq<Status> {
        self.statuses@
    }

    /// The physical timestamp column.
    pub closed spec fn timestamps_col(self) -> Seq<u64> {
        self.timestamps@
    }

    /// A well-formed store keeps its four columns at one common length, and
    /// row `i` of the logical view reads its fields from position `i` of each
    /// physical column.
    pub proof fn lemma_columns_aligned(self)
        requires
            self.wf(),
        ensures
            self.ids_col().len() == self.rows().len(),
            self.amounts_col().len() == self.rows().len(),
            self.statuses_col().len() == self.rows().len(),
            self.timestamps_col().len() == self.rows().len(),
            forall|i: int|
                0 <= i < self.rows().len() ==> #[trigger] self.rows()[i] == (Record {
                    id: self.ids_col()[i],
                    amount: Money(self.amounts_col()[i]),
                    status: self.statuses_col()[i],
                    timestamp: self.timestamps_col()[i],
                }),
    {
    }

    /// An empty store whose columns are pre-sized for `cap` rows.
    pub fn with_capacity(cap: usize) -> (r: Self)
        ensures
            r.wf(),
            r.rows() == Seq::<Record>::empty(),
    {
        let r = Self {
            ids: Vec::with_capacity(cap),
            amounts: Vec::with_capacity(cap),
            statuses: Vec::with_capacity(cap),
            timestamps: Vec::with_capacity(cap),
        };
        proof {
            assert(r.rows() =~= Seq::<Record>::empty());
        }
        r
    }

    /// Number of rows; every position in `[0, len)` addresses one row in
    /// each of the four columns.
    pub fn len(&self) -> (n: usize)
        ensures
            n == self.rows().len(),
    {
        self.ids.len()
    }

    /// True exactly when the store holds no rows.
    pub fn is_empty(&self) -> (b: bool)
        ensures
            b == (self.rows().len() == 0),
    {
        self.len() == 0
    }

    /// Append one row at the end of all four columns; returns the new row's
    /// position, which equals the length before the call.
    pub fn push(&mut self, id: OrderId, amount: Money, status: Status, ts: u64) -> (pos: usize)
        requires
            old(self).wf(),
        ensures
            final(self).wf(),
            final(self).rows() == old(self).rows().push(
                (Record { id, amount, status, timestamp: ts }),
            ),
            pos == old(self).rows().len(),
            final(self).rows().len() == old(self).rows().len() + 1,
    {
        self.ids.push(id);
        self.amounts.push(amount.0);
        self.statuses.push(status);
        self.timestamps.push(ts);
        proof {
            assert(self.rows() =~= old(self).rows().push(
                Record { id, amount, status, timestamp: ts },
            ));
        }
        self.ids.len() - 1
    }

    /// Zero-copy read-only view of the row at `pos`.
    pub fn view(&self, pos: usize) -> (v: OrderView<'_>)
        requires
            self.wf(),
            pos < self.rows().len(),
        ensures
            v.wf(),
            v.store() == self.rows(),
            v.pos() == pos,
            v.record() == self.rows()[pos as int],
    {
        OrderView { soa: self, idx: pos }
    }

    /// One read-only view per row, in position order.
    pub fn iter(&self) -> (vs: Vec<OrderView<'_>>)
        requires
            self.wf(),
        ensures
            vs@.len() == self.rows().len(),
            forall|i: int|
                0 <= i < vs@.len() ==> (#[trigger] vs@[i]).wf() && vs@[i].store() == self.rows()
                    && vs@[i].pos() == i && vs@[i].record() == self.rows()[i],
    {
        let n = self.ids.len();
        let mut vs: Vec<OrderView<'_>> = Vec::new();
        let mut i: usize = 0;
        while i < n
            invariant
                self.wf(),
                n == self.rows().len(),
                i <= n,
                vs@.len() == i,
                forall|j: int|
                    0 <= j < i ==> (#[trigger] vs@[j]).wf() && vs@[j].store() == self.rows()
                        && vs@[j].pos() == j && vs@[j].record() == self.rows()[j],
            decreases n - i,
        {
            vs.push(OrderView { soa: self, idx: i });
            i = i + 1;
        }
        vs
    }

    /// Overwrite the amount of the row at `pos`; every other field and every
    /// other row is untouched.
    pub fn set_amount(&mut self, pos: usize, m: Money)
        requires
            old(self).wf(),
            pos < old(self).rows().len(),
        ensures
            final(self).wf(),
            final(self).rows() == old(self).rows().update(
                pos as int,
                (Record { amount: m, ..old(self).rows()[pos as int] }),
            ),
    {
        self.amounts[pos] = m.0;
        proof {
            assert(self.rows() =~= old(self).rows().update(
                pos as int,
                Record { amount: m, ..old(self).rows()[pos as int] },
            ));
        }
    }

    /// Overwrite the status of the row at `pos`; every other field and every
    /// other row is untouched.
    pub fn set_status(&mut self, pos: usize, s: Status)
        requires
            old(self).wf(),
            pos < old(self).rows().len(),
        ensures
            final(self).wf(),
            final(self).rows() == old(self).rows().update(
                pos as int,
                (Record { status: s, ..old(self).rows()[pos as int] }),
            ),
    {
        self.statuses[pos] = s;
        proof {
            assert(self.rows() =~= old(self).rows().update(
                pos as int,
                Record { status: s, ..old(self).rows()[pos as int] },
            ));
        }
    }

    /// Overwrite the timestamp of the row at `pos`; every other field and
    /// every other row is untouched.
    pub fn set_timestamp(&mut self, pos: usize, t: u64)
        requires
            old(self).wf(),
            pos < old(self).rows().len(),
        ensures
            final(self).wf(),
            final(self).rows() == old(self).rows().update(
                pos as int,
                (Record { timestamp: t, ..old(self).rows()[pos as int] }),
            ),
    {
        self.timestamps[pos] = t;
        proof {
            assert(self.rows() =~= old(self).rows().update(
                pos as int,
                Record { timestamp: t, ..old(self).rows()[pos as int] },
            ));
        }
    }

    /// Single-pass aggregate kernel: the exact sum of `amount` over the rows
    /// whose status equals `status`, seeded at zero.
    pub fn sum_by_status(&self, status: Status) -> (r: Money)
        requires
            self.wf(),
            sum_fits(self.rows(), status),
        ensures
            r.0 == sum_matching(self.rows(), status),
    {
        let mut acc: i64 = 0;
        let n = self.ids.len();
        let mut i: usize = 0;
        while i < n
            invariant
                self.wf(),
                sum_fits(self.rows(), status),
                n == self.rows().len(),
                i <= n,
                acc == sum_matching(self.rows().take(i as int), status),
            decreases n - i,
        {
            proof {
                assert(self.rows().take(i + 1).drop_last() =~= self.rows().take(i as int));
                assert(self.rows().take(i + 1).last() == self.rows()[i as int]);
                assert(fits_i64(sum_matching(self.rows().take(i + 1), status)));
            }
            if self.statuses[i] == status {
                acc = acc + self.amounts[i];
            }
            i = i + 1;
        }
        proof {
            assert(self.rows().take(n as int) =~= self.rows());
        }
        Money(acc)
    }

    /// Single-pass filter kernel: the positions, in ascending order, of the
    /// rows with `amount >= min_amount` and the given status.
    pub fn filter_indices(&self, min_amount: Money, status: Status) -> (out: Vec<usize>)
        requires
            self.wf(),
        ensures
            out@.map_values(|u: usize| u as int) == filtered_positions(
                self.rows(),
                min_amount,
                status,
            ),
    {
        let mut out: Vec<usize> = Vec::new();
        let n = self.ids.len();
        let mut i: usize = 0;
        while i < n
            invariant
                self.wf(),
                n == self.rows().len(),
                i <= n,
                out@.map_values(|u: usize| u as int) == filtered_positions(
                    self.rows().take(i as int),
                    min_amount,
                    status,
                ),
            decreases n - i,
        {
            proof {
                assert(self.rows().take(i + 1).drop_last() =~= self.rows().take(i as int));
                assert(self.rows().take(i + 1).last() == self.rows()[i as int]);
            }
            if self.amounts[i] >= min_amount.0 && self.statuses[i] == status {
                out.push(i);
                proof {
                    assert(out@.map_values(|u: usize| u as int) =~= filtered_positions(
                        self.rows().take(i as int),
                        min_amount,
                        status,
                    ).push(i as int));
                }
            }
            i = i + 1;
        }
        proof {
            assert(self.rows().take(n as int) =~= self.rows());
        }
        out
    }

    /// In-place compaction: keep exactly the rows the predicate accepts, in
    /// their original relative order, realigning all four columns together.
    /// The kept rows are `mask_filter(rows, keep)` for a decision sequence
    /// `keep` with one predicate outcome per original row.
    pub fn retain<F: Fn(Record) -> bool>(&mut self, f: F)
        requires
            old(self).wf(),
            forall|r: Record| #[trigger] f.requires((r,)),
        ensures
            final(self).wf(),
            exists|keep: Seq<bool>|
                keep.len() == old(self).rows().len() && final(self).rows() == #[trigger] mask_filter(
                    old(self).rows(),
                    keep,
                ) && (forall|i: int|
                    0 <= i < keep.len() ==> f.ensures((old(self).rows()[i],), keep[i])),
    {
        let ghost orig = old(self).rows();
        let ghost mut keep: Seq<bool> = Seq::empty();
        let mut write: usize = 0;
        let n = self.ids.len();
        let mut read: usize = 0;
        while read < n
            invariant
                self.wf(),
                forall|r: Record| #[trigger] f.requires((r,)),
                n == orig.len(),
                self.rows().len() == n,
                write <= read <= n,
                keep.len() == read,
                forall|i: int| 0 <= i < read ==> f.ensures((orig[i],), #[trigger] keep[i]),
                self.rows().skip(read as int) == orig.skip(read as int),
                self.rows().take(write as int) == mask_filter(orig.take(read as int), keep),
            decreases n - read,
        {
            let rec = Record {
                id: self.ids[read],
                amount: Money(self.amounts[read]),
                status: self.statuses[read],
                timestamp: self.timestamps[read],
            };
            proof {
                assert(self.rows()[read as int] == self.rows().skip(read as int)[0]);
                assert(rec == self.rows()[read as int]);
                assert(rec == orig[read as int]);
                assert forall|i: int| read < i < n implies #[trigger] orig[i]
                    == self.rows()[i] by {
                    assert(orig.skip(read as int)[i - read] == self.rows().skip(read as int)[i
                        - read]);
                }
                assert(orig.take(read + 1).drop_last() =~= orig.take(read as int));
                assert(orig.take(read + 1).last() == orig[read as int]);
            }
            let b = f(rec);
            proof {
                let keep_prev = keep;
                keep = keep.push(b);
                assert(keep.drop_last() =~= keep_prev);
            }
            if b {
                if write != read {
                    let id = self.ids[read];
                    self.ids[write] = id;
                    let amount = self.amounts[read];
                    self.amounts[write] = amount;
                    let status = self.statuses[read];
                    self.statuses[write] = status;
                    let ts = self.timestamps[read];
                    self.timestamps[write] = ts;
                }
                proof {
                    assert(self.rows()[write as int] == rec);
                }
                write = write + 1;
            }
            proof {
                assert(self.rows().skip(read + 1) =~= orig.skip(read + 1));
                assert(self.rows().take(write as int) =~= mask_filter(orig.take(read + 1), keep));
            }
            read = read + 1;
        }
        self.ids.truncate(write);
        self.amounts.truncate(write);
        self.statuses.truncate(write);
        self.timestamps.truncate(write);
        proof {
            assert(orig.take(n as int) =~= orig);
            assert(self.rows() =~= mask_filter(orig, keep));
        }
    }
}

/// A zero-copy read-only row view: a borrow of the owning store plus a row
/// position. Every accessor re-reads the live column; the view owns no data.
#[derive(Copy, Clone)]
pub struct OrderView<'a> {
    soa: &'a OrderSoA,
    idx: usize,
}

impl<'a> OrderView<'a> {
    /// The rows of the store this view borrows into.
    pub closed spec fn store(self) -> Seq<Record> {
        self.soa.rows()
    }

    /// The row position this view is bound to.
    pub closed spec fn pos(self) -> int {
        self.idx as int
    }

    /// The view addresses an existing row of a well-formed store.
    pub closed spec fn wf(self) -> bool {
        self.soa.wf() && self.idx < self.soa.rows().len()
    }

    /// The logical row this view reads.
    pub open spec fn record(self) -> Record {
        self.store()[self.pos()]
    }

    /// The identifier of the viewed row.
    pub fn id(&self) -> (r: OrderId)
        requires
            self.wf(),
        ensures
            r == self.record().id,
    {
        self.soa.ids[self.idx]
    }

    /// The amount of the viewed row.
    pub fn amount(&self) -> (r: Money)
        requires
            self.wf(),
        ensures
            r == self.record().amount,
    {
        Money(self.soa.amounts[self.idx])
    }

    /// The status of the viewed row.
    pub fn status(&self) -> (r: Status)
        requires
            self.wf(),
        ensures
            r == self.record().status,
    {
        self.soa.statuses[self.idx]
    }

    /// The timestamp of the viewed row.
    pub fn timestamp(&self) -> (r: u64)
        requires
            self.wf(),
        ensures
            r == self.record().timestamp,
    {
        self.soa.timestamps[self.idx]
    }
}

} // verus!
