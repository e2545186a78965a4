use capped_multiset::PositionalCappedMultiset;

#[test]
fn sum_honors_cap_per_element() {
    let mut set = PositionalCappedMultiset::from_elements(vec![1, 2, 3, 4, 5]);
    assert_eq!(set.sum(), 15);
    set.set_cap(Some(3));
    assert_eq!(set.sum(), 12);
    set.set_cap(None);
    assert_eq!(set.sum(), 15);
    set.set_cap(Some(1));
    assert_eq!(set.sum(), 5);
    set.set_cap(Some(0));
    assert_eq!(set.sum(), 0);
}

#[test]
fn union_and_intersection_sums() {
    let lhs = PositionalCappedMultiset::from_elements(vec![2, 4, 6, 8, 10]);
    let rhs = PositionalCappedMultiset::from_elements(vec![2, 3, 4, 10, 12]);
    assert_eq!(lhs.union_with(&rhs).sum(), 34);
    assert_eq!(lhs.intersect_with(&rhs).sum(), 27);
}

#[test]
fn combination_ignores_caps_and_reads_raw_values() {
    let mut lhs = PositionalCappedMultiset::from_elements(vec![2, 4, 6, 8, 10]);
    let mut rhs = PositionalCappedMultiset::from_elements(vec![2, 3, 4, 10, 12]);
    lhs.set_cap(Some(1));
    rhs.set_cap(Some(2));
    // the result is computed from the raw stored values and starts uncapped
    let union = lhs.union_with(&rhs);
    assert_eq!(union.sum(), 34);
    let inter = lhs.intersect_with(&rhs);
    assert_eq!(inter.sum(), 27);
}

#[test]
fn in_place_combination_keeps_own_cap() {
    let mut lhs = PositionalCappedMultiset::from_elements(vec![2, 4]);
    lhs.set_cap(Some(1));
    let rhs = PositionalCappedMultiset::from_elements(vec![3, 3]);
    lhs.intersect_assign(&rhs);
    // raw values are now [2, 3]; the kept cap of 1 bounds each read
    assert_eq!(lhs.sum(), 2);
    lhs.set_cap(None);
    assert_eq!(lhs.sum(), 5);
    let rhs2 = PositionalCappedMultiset::from_elements(vec![9, 1, 7]);
    lhs.union_assign(&rhs2);
    // zipped to the shorter length: raw values are now [9, 3]
    assert_eq!(lhs.sum(), 12);
    assert_eq!(lhs.len(), 2);
}

#[test]
fn intersection_with_self_is_identity() {
    let a = PositionalCappedMultiset::from_elements(vec![3, 1, 4, 1, 5]);
    let b = a.intersect_with(&a);
    assert_eq!(b.len(), a.len());
    for i in 0..a.len() {
        assert_eq!(b.value_at(i), a.value_at(i));
    }
}

#[test]
fn union_with_self_is_identity() {
    let a = PositionalCappedMultiset::from_elements(vec![3, 1, 4, 1, 5]);
    let b = a.union_with(&a);
    assert_eq!(b.len(), a.len());
    for i in 0..a.len() {
        assert_eq!(b.value_at(i), a.value_at(i));
    }
}

#[test]
fn union_and_intersection_are_commutative() {
    let a = PositionalCappedMultiset::from_elements(vec![2, 9, 4]);
    let b = PositionalCappedMultiset::from_elements(vec![7, 1, 4]);
    let ab = a.union_with(&b);
    let ba = b.union_with(&a);
    assert_eq!(ab.len(), ba.len());
    for i in 0..ab.len() {
        assert_eq!(ab.value_at(i), ba.value_at(i));
    }
    let ab = a.intersect_with(&b);
    let ba = b.intersect_with(&a);
    assert_eq!(ab.len(), ba.len());
    for i in 0..ab.len() {
        assert_eq!(ab.value_at(i), ba.value_at(i));
    }
}

#[test]
fn mismatched_lengths_zip_to_the_shorter() {
    let long = PositionalCappedMultiset::from_elements(vec![1, 2, 3]);
    let short = PositionalCappedMultiset::from_elements(vec![5]);
    let union = long.union_with(&short);
    assert_eq!(union.len(), 1);
    assert_eq!(union.value_at(0), 5);
    let inter = long.intersect_with(&short);
    assert_eq!(inter.len(), 1);
    assert_eq!(inter.value_at(0), 1);
}

#[test]
fn value_at_honors_cap() {
    let mut set = PositionalCappedMultiset::from_elements(vec![10, 2]);
    set.set_cap(Some(3));
    assert_eq!(set.value_at(0), 3);
    assert_eq!(set.value_at(1), 2);
    set.set_cap(None);
    assert_eq!(set.value_at(0), 10);
}

#[test]
fn sum_saturates_at_usize_max() {
    let mut set = PositionalCappedMultiset::from_elements(vec![usize::MAX, usize::MAX]);
    assert_eq!(set.sum(), usize::MAX);
    set.set_cap(Some(1));
    assert_eq!(set.sum(), 2);
}

#[test]
fn from_slice_copies_the_values() {
    let values: [usize; 2] = [4, 5];
    let set = PositionalCappedMultiset::from_slice(&values);
    assert_eq!(set.sum(), 9);
    assert_eq!(set.len(), 2);
}

#[test]
fn empty_multiset_sums_to_zero() {
    let set = PositionalCappedMultiset::new(Some(3));
    assert_eq!(set.len(), 0);
    assert_eq!(set.sum(), 0);
}

#[test]
fn cap_at_largest_value_is_exact() {
    let mut set = PositionalCappedMultiset::from_elements(vec![1, 2, 3]);
    set.set_cap(Some(3));
    assert_eq!(set.sum(), 6);
}

#[test]
fn clone_copies_values_and_cap() {
    let mut set = PositionalCappedMultiset::from_elements(vec![7, 1]);
    set.set_cap(Some(2));
    let copy = set.clone();
    assert_eq!(copy.sum(), 3);
    let mut copy = copy;
    copy.set_cap(None);
    assert_eq!(copy.sum(), 8);
    assert_eq!(set.sum(), 3);
}
