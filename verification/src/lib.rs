//! Columnar ("struct-of-arrays") storage kernel for fixed-schema order
//! records, with row-oriented views, aggregate scan kernels, in-place
//! compaction, a copy-on-write shared facade, and identifier-keyed sharding.

pub mod domain;
pub mod facade;
pub mod kernel;
pub mod laws;
pub mod sharded;

pub use domain::Money;
pub use domain::OrderId;
pub use domain::Record;
pub use domain::Status;
pub use facade::OrderStore;
pub use kernel::OrderSoA;
pub use kernel::OrderView;
pub use sharded::CachePadded;
pub use sharded::ShardedOrderStore;
