use soa_store::CachePadded;
use soa_store::Money;
use soa_store::OrderId;
use soa_store::OrderSoA;
use soa_store::OrderStore;
use soa_store::ShardedOrderStore;
use soa_store::Status;

#[test]
fn sketch_usage() {
    let mut repo = OrderStore::new();
    let _ = repo.add(OrderId(1), Money(10), Status::Completed, 1000);
    let _ = repo.add(OrderId(2), Money(20), Status::Pending, 2000);
    let _ = repo.add(OrderId(3), Money(30), Status::Completed, 3000);

    // Querying via zero-copy views:
    let mut total = Money::zero();
    for v in repo.find_by_status(Status::Completed) {
        total = total.add(v.amount());
    }
    assert_eq!(total.0, 40);

    // Kernel access for batch ops:
    let kernel_total = repo.kernel().sum_by_status(Status::Completed);
    assert_eq!(kernel_total.0, 40);

    // Mutate a row in place through the kernel:
    let k = repo.kernel_mut();
    let idx = 1usize; // suppose we tracked it externally
    k.set_status(idx, Status::Completed);
    assert_eq!(k.sum_by_status(Status::Completed).0, 60);
}

#[test]
fn default_stores_are_empty() {
    let soa = OrderSoA::default();
    assert!(soa.is_empty());
    let repo = OrderStore::default();
    assert_eq!(repo.kernel().len(), 0);
}

#[test]
fn store_add_returns_positions() {
    let mut repo = OrderStore::new();
    assert_eq!(repo.add(OrderId(5), Money(1), Status::Pending, 1), 0);
    assert_eq!(repo.add(OrderId(6), Money(2), Status::Pending, 2), 1);
    assert_eq!(repo.kernel().len(), 2);
}

#[test]
fn copy_on_write_diverges_only_the_writer() {
    let mut a = OrderStore::new();
    a.add(OrderId(1), Money(10), Status::Pending, 1);
    let mut b = a.clone();
    // both handles observe the shared store
    assert_eq!(a.kernel().len(), 1);
    assert_eq!(b.kernel().len(), 1);
    // a write through one handle leaves the other unchanged
    b.add(OrderId(2), Money(20), Status::Pending, 2);
    assert_eq!(a.kernel().len(), 1);
    assert_eq!(b.kernel().len(), 2);
    assert_eq!(a.kernel().sum_by_status(Status::Pending).0, 10);
    assert_eq!(b.kernel().sum_by_status(Status::Pending).0, 30);
    // mutation through kernel_mut copies as well
    a.kernel_mut().set_amount(0, Money(99));
    assert_eq!(a.kernel().sum_by_status(Status::Pending).0, 99);
    assert_eq!(b.kernel().sum_by_status(Status::Pending).0, 30);
}

#[test]
fn find_by_status_filters_lazily_over_the_live_store() {
    let mut repo = OrderStore::new();
    repo.add(OrderId(1), Money(10), Status::Completed, 1);
    repo.add(OrderId(2), Money(20), Status::Pending, 2);
    repo.add(OrderId(3), Money(30), Status::Completed, 3);
    let vs = repo.find_by_status(Status::Completed);
    assert_eq!(vs.len(), 2);
    assert_eq!(vs[0].id(), OrderId(1));
    assert_eq!(vs[1].id(), OrderId(3));
    assert_eq!(repo.find_by_status(Status::Cancelled).len(), 0);
}

#[test]
fn with_shards_allocates_empty_shards() {
    let s = ShardedOrderStore::with_shards(4, 16);
    assert_eq!(s.sum_by_status(Status::Pending).0, 0);
    assert_eq!(s.sum_by_status(Status::Completed).0, 0);
}

#[test]
fn shard_routing_is_identifier_mod_count() {
    let mut s = ShardedOrderStore::with_shards(3, 0);
    // identifier k lands in shard k mod 3, at the next position of that shard
    assert_eq!(s.add(OrderId(0), Money(1), Status::Pending, 1), (0, 0));
    assert_eq!(s.add(OrderId(1), Money(1), Status::Pending, 1), (1, 0));
    assert_eq!(s.add(OrderId(2), Money(1), Status::Pending, 1), (2, 0));
    assert_eq!(s.add(OrderId(3), Money(1), Status::Pending, 1), (0, 1));
    assert_eq!(s.add(OrderId(7), Money(1), Status::Pending, 1), (1, 1));
    // the same identifier always routes to the same shard
    assert_eq!(s.add(OrderId(7), Money(1), Status::Pending, 1), (1, 2));
    assert_eq!(s.add(OrderId(7), Money(1), Status::Pending, 1), (1, 3));
}

#[test]
fn sharded_sum_equals_pooled_sum() {
    let rows = [
        (OrderId(0), 5, Status::Pending, 10),
        (OrderId(1), 7, Status::Completed, 11),
        (OrderId(2), -3, Status::Pending, 12),
        (OrderId(3), 11, Status::Pending, 13),
        (OrderId(4), 20, Status::Cancelled, 14),
        (OrderId(5), 2, Status::Pending, 15),
        (OrderId(6), 40, Status::Completed, 16),
    ];
    let mut sharded = ShardedOrderStore::with_shards(3, 4);
    let mut pooled = OrderSoA::with_capacity(8);
    for (id, amount, status, ts) in rows {
        sharded.add(id, Money(amount), status, ts);
        pooled.push(id, Money(amount), status, ts);
    }
    for status in [Status::Pending, Status::Completed, Status::Cancelled] {
        assert_eq!(sharded.sum_by_status(status).0, pooled.sum_by_status(status).0);
    }
    assert_eq!(sharded.sum_by_status(Status::Pending).0, 15);
}

#[test]
fn cache_padding_wraps_a_kernel() {
    let mut padded = CachePadded(OrderSoA::with_capacity(1));
    assert!(padded.0.is_empty());
    padded.0.push(OrderId(1), Money(2), Status::Pending, 3);
    assert_eq!(padded.0.len(), 1);
}

#[test]
fn single_shard_behaves_like_one_store() {
    let mut s = ShardedOrderStore::with_shards(1, 0);
    assert_eq!(s.add(OrderId(41), Money(8), Status::Completed, 1), (0, 0));
    assert_eq!(s.add(OrderId(999), Money(9), Status::Completed, 2), (0, 1));
    assert_eq!(s.sum_by_status(Status::Completed).0, 17);
}
