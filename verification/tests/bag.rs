use ackulator::bag::QuantityBag;
use ackulator::power::Power;

#[test]
fn union_operation() {
    let mut set1 = QuantityBag::new();
    set1.add(7, Power::whole(10));
    set1.add(9, Power::whole(10));
    set1.add(3, Power::whole(1));
    set1.add(5, Power::whole(1));
    set1.add(2, Power::whole(1));
    let mut set2 = QuantityBag::new();
    set2.add(1, Power::whole(1));
    set2.add(2, Power::whole(1));
    set2.add(3, Power::whole(1));
    let set = set1.union(set2);
    assert_eq!(set.len(), 6);
    assert_eq!(set.get(2), Power::whole(2));
    assert_eq!(set.get(9), Power::whole(10));
}

#[test]
fn fully_disjoint_union_operation() {
    let mut set1 = QuantityBag::new();
    set1.add(1, Power::whole(10));
    let mut set2 = QuantityBag::new();
    set2.add(2, Power::whole(20));
    let set = set1.clone().union(set2.clone());
    assert_eq!(set.len(), 2);
    assert_eq!(set.get(1), Power::whole(10));
    assert_eq!(set.get(2), Power::whole(20));

    // Check that the operator is symmetric
    assert_eq!(set, set2.union(set1));
}

#[test]
fn union_operation_cancel_out() {
    let mut set1 = QuantityBag::new();
    set1.add(1, Power::whole(10));
    let mut set2 = set1.clone();
    set2.mul(Power::whole(-1));
    // The two sets should cancel out to make an empty set.
    let set = set1.union(set2);
    assert_eq!(set.len(), 0);
}
