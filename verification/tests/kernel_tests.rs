use soa_store::Money;
use soa_store::OrderId;
use soa_store::OrderSoA;
use soa_store::Record;
use soa_store::Status;

fn three_row_store() -> OrderSoA {
    let mut soa = OrderSoA::with_capacity(4);
    soa.push(OrderId(1), Money(10), Status::Completed, 1000);
    soa.push(OrderId(2), Money(20), Status::Pending, 2000);
    soa.push(OrderId(3), Money(30), Status::Completed, 3000);
    soa
}

#[test]
fn push_returns_next_position() {
    let mut soa = OrderSoA::with_capacity(0);
    assert!(soa.is_empty());
    assert_eq!(soa.push(OrderId(7), Money(5), Status::Pending, 1), 0);
    assert_eq!(soa.len(), 1);
    assert_eq!(soa.push(OrderId(8), Money(-5), Status::Cancelled, 2), 1);
    assert_eq!(soa.len(), 2);
    assert_eq!(soa.push(OrderId(7), Money(0), Status::Pending, 3), 2);
    assert_eq!(soa.len(), 3);
    assert!(!soa.is_empty());
}

#[test]
fn sum_of_empty_store_is_zero() {
    let soa = OrderSoA::with_capacity(8);
    assert_eq!(soa.sum_by_status(Status::Pending).0, 0);
    assert_eq!(soa.sum_by_status(Status::Completed).0, 0);
    assert_eq!(soa.sum_by_status(Status::Cancelled).0, 0);
}

#[test]
fn sum_by_status_sums_exactly_the_matching_rows() {
    let soa = three_row_store();
    assert_eq!(soa.sum_by_status(Status::Completed).0, 40);
    assert_eq!(soa.sum_by_status(Status::Pending).0, 20);
    assert_eq!(soa.sum_by_status(Status::Cancelled).0, 0);
}

#[test]
fn sum_by_status_handles_negative_amounts() {
    let mut soa = OrderSoA::with_capacity(2);
    soa.push(OrderId(1), Money(-15), Status::Pending, 10);
    soa.push(OrderId(2), Money(40), Status::Pending, 20);
    assert_eq!(soa.sum_by_status(Status::Pending).0, 25);
}

#[test]
fn filter_indices_scenario() {
    let soa = three_row_store();
    assert_eq!(soa.filter_indices(Money(15), Status::Pending), vec![1]);
}

#[test]
fn filter_indices_is_ascending_and_conjunctive() {
    let mut soa = OrderSoA::with_capacity(5);
    soa.push(OrderId(1), Money(50), Status::Pending, 1);
    soa.push(OrderId(2), Money(5), Status::Pending, 2);
    soa.push(OrderId(3), Money(50), Status::Completed, 3);
    soa.push(OrderId(4), Money(20), Status::Pending, 4);
    soa.push(OrderId(5), Money(20), Status::Pending, 5);
    // amount >= 20 AND status == Pending, positions ascending
    assert_eq!(soa.filter_indices(Money(20), Status::Pending), vec![0, 3, 4]);
    // boundary: >= is inclusive
    assert_eq!(soa.filter_indices(Money(50), Status::Pending), vec![0]);
    // no match at all
    assert_eq!(soa.filter_indices(Money(100), Status::Cancelled), Vec::<usize>::new());
}

#[test]
fn retain_scenario_keeps_relative_order() {
    let mut soa = three_row_store();
    soa.retain(|r: Record| r.status == Status::Completed);
    assert_eq!(soa.len(), 2);
    assert_eq!(soa.view(0).id(), OrderId(1));
    assert_eq!(soa.view(1).id(), OrderId(3));
    assert_eq!(soa.view(0).amount().0, 10);
    assert_eq!(soa.view(1).amount().0, 30);
}

#[test]
fn retain_keep_all_is_a_noop() {
    let mut soa = three_row_store();
    soa.retain(|_r: Record| true);
    assert_eq!(soa.len(), 3);
    soa.retain(|_r: Record| true);
    assert_eq!(soa.len(), 3);
    assert_eq!(soa.view(0).id(), OrderId(1));
    assert_eq!(soa.view(1).id(), OrderId(2));
    assert_eq!(soa.view(2).id(), OrderId(3));
    assert_eq!(soa.sum_by_status(Status::Completed).0, 40);
}

#[test]
fn retain_can_drop_everything() {
    let mut soa = three_row_store();
    soa.retain(|_r: Record| false);
    assert_eq!(soa.len(), 0);
    assert!(soa.is_empty());
    assert_eq!(soa.sum_by_status(Status::Completed).0, 0);
}

#[test]
fn retain_counts_predicate_truths() {
    let mut soa = three_row_store();
    soa.retain(|r: Record| r.amount.0 >= 20);
    assert_eq!(soa.len(), 2);
    assert_eq!(soa.view(0).id(), OrderId(2));
    assert_eq!(soa.view(1).id(), OrderId(3));
}

#[test]
fn views_read_all_four_columns() {
    let soa = three_row_store();
    let v = soa.view(1);
    assert_eq!(v.id(), OrderId(2));
    assert_eq!(v.amount().0, 20);
    assert_eq!(v.status(), Status::Pending);
    assert_eq!(v.timestamp(), 2000);
}

#[test]
fn iter_yields_one_view_per_row_in_order() {
    let soa = three_row_store();
    let vs = soa.iter();
    assert_eq!(vs.len(), 3);
    assert_eq!(vs[0].id(), OrderId(1));
    assert_eq!(vs[1].id(), OrderId(2));
    assert_eq!(vs[2].id(), OrderId(3));
    assert_eq!(vs[2].timestamp(), 3000);
}

#[test]
fn setters_write_through_to_the_columns() {
    let mut soa = three_row_store();
    soa.set_amount(0, Money(11));
    soa.set_status(1, Status::Cancelled);
    soa.set_timestamp(2, 9999);
    assert_eq!(soa.view(0).amount().0, 11);
    assert_eq!(soa.view(0).status(), Status::Completed);
    assert_eq!(soa.view(1).status(), Status::Cancelled);
    assert_eq!(soa.view(2).timestamp(), 9999);
    // the identifier column is never touched by a setter
    assert_eq!(soa.view(0).id(), OrderId(1));
    assert_eq!(soa.view(1).id(), OrderId(2));
    assert_eq!(soa.sum_by_status(Status::Pending).0, 0);
    assert_eq!(soa.sum_by_status(Status::Completed).0, 41);
}

#[test]
fn money_zero_and_add() {
    assert_eq!(Money::zero().0, 0);
    assert_eq!(Money(15).add(Money(-40)).0, -25);
    assert_eq!(Money::zero().add(Money(7)).0, 7);
}

#[test]
fn cloned_kernel_is_independent() {
    let soa = three_row_store();
    let mut copy = soa.clone();
    copy.set_status(0, Status::Cancelled);
    copy.push(OrderId(9), Money(1), Status::Pending, 1);
    assert_eq!(soa.len(), 3);
    assert_eq!(soa.view(0).status(), Status::Completed);
    assert_eq!(copy.len(), 4);
    assert_eq!(copy.view(0).status(), Status::Cancelled);
}
