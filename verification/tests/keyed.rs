use capped_multiset::CappedMultiset;

#[test]
fn new_multiset_counts_nothing() {
    let mset: CappedMultiset<u32> = CappedMultiset::new(None);
    assert_eq!(mset.count_of(5), 0);
    assert_eq!(mset.sum(), 0);
}

#[test]
fn insert_counts_once() {
    let mut mset: CappedMultiset<u32> = CappedMultiset::new(None);
    mset.insert(5);
    assert_eq!(mset.count_of(5), 1);
}

#[test]
fn insert_multiple_honors_cap_on_read() {
    let mut mset: CappedMultiset<u32> = CappedMultiset::new(Some(5));
    mset.insert_multiple(3, 2);
    mset.insert_multiple(4, 8);
    assert_eq!(mset.count_of(3), 2);
    assert_eq!(mset.count_of(4), 5);
}

#[test]
fn set_cap_is_reversible() {
    let mut mset: CappedMultiset<u32> = CappedMultiset::new(None);
    mset.insert_multiple(0, 10);
    assert_eq!(mset.count_of(0), 10);
    mset.set_cap(Some(5));
    assert_eq!(mset.count_of(0), 5);
    mset.set_cap(Some(15));
    assert_eq!(mset.count_of(0), 10);
    mset.set_cap(None);
    assert_eq!(mset.count_of(0), 10);
}

#[test]
fn cap_applies_to_aggregated_count() {
    // insert key 0 with multiplicity 7, then once more: aggregated count is 8
    let mut mset: CappedMultiset<u32> = CappedMultiset::new(None);
    mset.insert_multiple(0, 7);
    mset.insert(0);
    assert_eq!(mset.count_of(0), 8);
    mset.set_cap(Some(5));
    assert_eq!(mset.count_of(0), 5);
    mset.insert_multiple(1, 4);
    // cap 5 has no effect since 4 < 5
    assert_eq!(mset.count_of(1), 4);
}

#[test]
fn repeated_insertion_accumulates() {
    let mut mset: CappedMultiset<u64> = CappedMultiset::new(None);
    mset.insert_multiple(2, 3);
    mset.insert_multiple(2, 4);
    assert_eq!(mset.count_of(2), 7);
}

#[test]
fn absent_key_counts_zero_regardless_of_cap() {
    let mut mset: CappedMultiset<u64> = CappedMultiset::new(Some(3));
    mset.insert_multiple(1, 9);
    assert_eq!(mset.count_of(42), 0);
    mset.set_cap(Some(0));
    assert_eq!(mset.count_of(42), 0);
    mset.set_cap(None);
    assert_eq!(mset.count_of(42), 0);
}

#[test]
fn sum_caps_each_key_once() {
    let mut mset: CappedMultiset<u32> = CappedMultiset::new(None);
    mset.insert_multiple(1, 7);
    mset.insert_multiple(2, 4);
    assert_eq!(mset.sum(), 11);
    mset.set_cap(Some(5));
    assert_eq!(mset.sum(), 9);
    mset.set_cap(Some(0));
    assert_eq!(mset.sum(), 0);
    mset.set_cap(None);
    assert_eq!(mset.sum(), 11);
}

#[test]
fn sum_is_exact_when_cap_is_high_enough() {
    let mut mset: CappedMultiset<u32> = CappedMultiset::new(None);
    mset.insert_multiple(1, 7);
    mset.insert_multiple(2, 4);
    // cap equal to the largest stored multiplicity does not bite
    mset.set_cap(Some(7));
    assert_eq!(mset.sum(), 11);
    mset.set_cap(Some(100));
    assert_eq!(mset.sum(), 11);
}

#[test]
fn unit_insertions_aggregate_under_one_key() {
    // seven unit insertions of one key aggregate to 7, then the cap applies
    // to that aggregated count, not to each inserted unit
    let mut mset: CappedMultiset<u32> = CappedMultiset::new(Some(5));
    for _ in 0..7 {
        mset.insert(0);
    }
    mset.insert(1);
    assert_eq!(mset.count_of(0), 5);
    assert_eq!(mset.sum(), 6);
    mset.set_cap(None);
    assert_eq!(mset.count_of(0), 7);
    assert_eq!(mset.sum(), 8);
}

#[test]
fn insertion_saturates_at_usize_max() {
    let mut mset: CappedMultiset<u32> = CappedMultiset::new(None);
    mset.insert_multiple(9, usize::MAX);
    mset.insert(9);
    assert_eq!(mset.count_of(9), usize::MAX);
    mset.insert_multiple(9, usize::MAX);
    assert_eq!(mset.count_of(9), usize::MAX);
}

#[test]
fn clone_copies_counts_and_cap() {
    let mut mset: CappedMultiset<u64> = CappedMultiset::new(Some(2));
    mset.insert_multiple(8, 5);
    let copy = mset.clone();
    assert_eq!(copy.count_of(8), 2);
    let mut copy = copy;
    copy.set_cap(None);
    assert_eq!(copy.count_of(8), 5);
    // the copy is independent of the original
    copy.insert(8);
    assert_eq!(copy.count_of(8), 6);
    assert_eq!(mset.count_of(8), 2);
}

#[test]
fn string_slice_keys_work() {
    let mut mset: CappedMultiset<&str> = CappedMultiset::new(None);
    mset.insert_multiple("apple", 3);
    mset.insert("pear");
    mset.insert("apple");
    assert_eq!(mset.count_of("apple"), 4);
    assert_eq!(mset.count_of("pear"), 1);
    assert_eq!(mset.count_of("plum"), 0);
    assert_eq!(mset.sum(), 5);
}
