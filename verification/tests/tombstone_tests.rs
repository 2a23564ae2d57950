use vector_store::tombstones::Tombstones;

#[test]
fn deleted_db_add_and_search() {
    let mut set = Tombstones::new();

    set.add(1).unwrap();
    set.add(2).unwrap();
    set.add(3).unwrap();
    set.add(256).unwrap();

    assert!(set.contains(1));
    assert!(set.contains(256));
}

#[test]
fn add_is_idempotent() {
    let mut set = Tombstones::new();
    set.add(7).unwrap();
    set.add(7).unwrap();
    set.add_batch(&vec![7, 7, 8]).unwrap();
    assert!(set.contains(7));
    assert!(set.contains(8));
    assert!(!set.contains(9));
    assert_eq!(set.filter(&vec![7, 8, 9]), vec![9]);
}

#[test]
fn filter_preserves_order() {
    let mut set = Tombstones::new();
    set.add_batch(&vec![2, 5]).unwrap();
    let out = set.filter(&vec![5, 1, 2, 3, 2, 4]);
    assert_eq!(out, vec![1, 3, 4]);
}

#[test]
fn filter_on_empty_set_is_identity() {
    let set = Tombstones::new();
    assert_eq!(set.filter(&vec![3, 1, 2]), vec![3, 1, 2]);
}
