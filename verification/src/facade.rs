//! Repository-style facade: a reference-counted, copy-on-write handle over
//! one columnar kernel. Reads share the backing store; a write through a
//! handle that is not the sole owner first clones the store for that handle.

use crate::domain::Money;
use crate::domain::OrderId;
use crate::domain::Record;
use crate::domain::Status;
use crate::kernel::status_positions;
use crate::kernel::OrderSoA;
use crate::kernel::OrderView;
use std::sync::Arc;
use vstd::prelude::*;

verus! {

/// Relies on std::sync::Arc::make_mut: when other handles share the backing
/// value it first clones it for this handle (through `OrderSoA::clone`, which
/// keeps the rows and well-formedness), then returns exclusive access to this
/// handle's (possibly new) copy; afterwards the handle holds exactly what was
/// written through the returned reference.
#[verifier::external_body]
fn arc_make_mut(a: &mut Arc<OrderSoA>) -> (r: &mut OrderSoA)
    ensures
        r.rows() == (**old(a)).rows(),
        r.wf() == (**old(a)).wf(),
        (**final(a)).rows() == final(r).rows(),
        (**final(a)).wf() == final(r).wf(),
{
    Arc::make_mut(a)
}

/// Relies on std::sync::Arc::clone: a new handle to the same backing value.
#[verifier::external_body]
fn arc_clone(a: &Arc<OrderSoA>) -> (r: Arc<OrderSoA>)
    ensures
        *r == **a,
{
    Arc::clone(a)
}

/// A shared, copy-on-write handle to one columnar kernel.
pub struct OrderStore {
    inner: Arc<OrderSoA>,
}

impl OrderStore {
    /// The backing kernel is well formed.
    pub closed spec fn wf(self) -> bool {
        (*self.inner).wf()
    }

    /// The rows this handle currently observes.
    pub closed spec fn rows(self) -> Seq<Record> {
        (*self.inner).rows()
    }

    /// A fresh handle over an empty kernel.
    pub fn new() -> (r: Self)
        ensures
            r.wf(),
            r.rows() == Seq::<Record>::empty(),
    {
        OrderStore { inner: Arc::new(OrderSoA::with_capacity(0)) }
    }

    /// Append one record through this handle. Only this handle observes the
    /// new row; holders that still share the previous store are unaffected.
    pub fn add(&mut self, id: OrderId, amount: Money, status: Status, ts: u64) -> (pos: usize)
        requires
            old(self).wf(),
        ensures
            final(self).wf(),
            final(self).rows() == old(self).rows().push(
                (Record { id, amount, status, timestamp: ts }),
            ),
            pos == old(self).rows().len(),
    {
        let owned = arc_make_mut(&mut self.inner);
        owned.push(id, amount, status, ts)
    }

    /// Read-only access to the backing kernel for batch operations; never
    /// triggers a copy.
    pub fn kernel(&self) -> (k: &OrderSoA)
        ensures
            k.wf() == self.wf(),
            k.rows() == self.rows(),
    {
        &self.inner
    }

    /// Exclusive access to the backing kernel, applying the same
    /// copy-on-write rule as `add` before handing out the reference.
    pub fn kernel_mut(&mut self) -> (k: &mut OrderSoA)
        requires
            old(self).wf(),
        ensures
            k.wf(),
            k.rows() == old(self).rows(),
            final(self).rows() == final(k).rows(),
            final(self).wf() == final(k).wf(),
    {
        arc_make_mut(&mut self.inner)
    }

    /// Zero-copy query: one read-only view per row whose status equals `s`,
    /// in position order, over the live shared store. A pure read: no copy,
    /// however many holders share the store.
    pub fn find_by_status(&self, s: Status) -> (vs: Vec<OrderView<'_>>)
        requires
            self.wf(),
        ensures
            vs@.len() == status_positions(self.rows(), s).len(),
            forall|k: int|
                0 <= k < vs@.len() ==> (#[trigger] vs@[k]).wf() && vs@[k].store() == self.rows()
                    && vs@[k].pos() == status_positions(self.rows(), s)[k] && vs@[k].record()
                    == self.rows()[vs@[k].pos()],
    {
        let kern = self.kernel();
        let n = kern.len();
        let mut vs: Vec<OrderView<'_>> = Vec::new();
        let mut i: usize = 0;
        while i < n
            invariant
                kern.wf(),
                kern.rows() == self.rows(),
                n == self.rows().len(),
                i <= n,
                vs@.len() == status_positions(self.rows().take(i as int), s).len(),
                forall|k: int|
                    0 <= k < vs@.len() ==> (#[trigger] vs@[k]).wf() && vs@[k].store()
                        == self.rows() && vs@[k].pos() == status_positions(
                        self.rows().take(i as int),
                        s,
                    )[k] && vs@[k].record() == self.rows()[vs@[k].pos()],
            decreases n - i,
        {
            proof {
                assert(self.rows().take(i + 1).drop_last() =~= self.rows().take(i as int));
                assert(self.rows().take(i + 1).last() == self.rows()[i as int]);
            }
            let v = kern.view(i);
            if v.status() == s {
                vs.push(v);
            }
            i = i + 1;
        }
        proof {
            assert(self.rows().take(n as int) =~= self.rows());
        }
        vs
    }
}

impl Default for OrderStore {
    /// A fresh handle over an empty kernel, as `new` gives.
    fn default() -> (r: Self)
        ensures
            r.wf(),
            r.rows() == Seq::<Record>::empty(),
    {
        OrderStore::new()
    }
}

impl Clone for OrderStore {
    /// A new handle sharing this handle's backing store; the clone observes
    /// the same rows until either side diverges through a write.
    fn clone(&self) -> (r: Self)
        ensures
            r.wf() == self.wf(),
            r.rows() == self.rows(),
    {
        OrderStore { inner: arc_clone(&self.inner) }
    }
}

} // verus!
