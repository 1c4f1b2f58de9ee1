//! Domain language: record identifiers, statuses, fixed-point amounts, and
//! the plain row value that the columnar kernel is specified against.

use vstd::prelude::*;

verus! {

/// Opaque 64-bit record identifier. Uniqueness is a caller convention; the
/// store neither enforces nor deduplicates it.
#[derive(Copy, Clone, Debug, PartialEq, Eq, Hash, Structural)]
pub struct OrderId(pub u64);

/// Lifecycle status of a record. The store enforces no transition rules:
/// any variant may overwrite any other at any time.
#[derive(Copy, Clone, Debug, PartialEq, Eq, Structural)]
pub enum Status {
    Pending,
    Completed,
    Cancelled,
}

/// Signed monetary amount in fixed-point minor units.
#[derive(Copy, Clone, Debug, PartialEq, Eq, Structural)]
pub struct Money(pub i64);

impl Money {
    /// The zero amount, the seed of every aggregate accumulator.
    pub fn zero() -> (r: Money)
        ensures
            r.0 == 0,
    {
        Money(0)
    }

    /// Exact addition of two amounts.
    pub fn add(self, other: Money) -> (r: Money)
        requires
            i64::MIN <= self.0 + other.0 <= i64::MAX,
        ensures
            r.0 == self.0 + other.0,
    {
        Money(self.0 + other.0)
    }
}

/// One logical row, materialized as a plain value. The columnar store never
/// holds `Record`s; they are the currency of its specification and of
/// predicate arguments.
#[derive(Copy, Clone, Debug, PartialEq, Eq, Structural)]
pub struct Record {
    pub id: OrderId,
    pub amount: Money,
    pub status: Status,
    pub timestamp: u64,
}

} // verus!
