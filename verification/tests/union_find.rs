use libprocon::DisjointSet;

#[test]
fn test_disjoint_set() {
    let mut s = DisjointSet::new(10);

    s.unite(0, 1);
    for i in 0..=1 {
        assert_eq!(s.size(i), Some(2));
    }
    for i in 2..10 {
        assert_eq!(s.size(i), Some(1));
    }
    assert_eq!(s.size(10), None);
    assert!(s.same(0, 1));
    assert!(!s.same(0, 2));

    s.unite(2, 3);
    for i in 0..=3 {
        assert_eq!(s.size(i), Some(2));
    }
    for i in 4..10 {
        assert_eq!(s.size(i), Some(1));
    }
    assert_eq!(s.size(10), None);
    assert!(s.same(2, 3));
    assert!(!s.same(0, 2));

    s.unite(1, 3);
    for i in 0..=3 {
        assert_eq!(s.size(i), Some(4));
    }
    for i in 4..10 {
        assert_eq!(s.size(i), Some(1));
    }
    assert_eq!(s.size(10), None);
    assert!(s.same(0, 2));
    assert!(s.same(1, 2));
    assert!(s.same(0, 3));
    assert!(!s.same(0, 4));

    assert!(!s.same(11, 12)); // out of range
}

#[test]
fn disjoint_set_root_is_shared_within_a_set() {
    let mut s = DisjointSet::new(6);
    for i in 0..6 {
        assert_eq!(s.root(i), Some(i));
    }
    assert_eq!(s.root(6), None);
    s.unite(0, 1);
    s.unite(2, 3);
    s.unite(1, 2);
    let r = s.root(0).unwrap();
    assert!(r < 4);
    for i in 0..4 {
        assert_eq!(s.root(i), Some(r));
    }
    assert_eq!(s.root(r), Some(r));
    assert_eq!(s.root(4), Some(4));
    assert_eq!(s.root(5), Some(5));
}

#[test]
fn disjoint_set_unite_out_of_range_changes_nothing() {
    let mut s = DisjointSet::new(3);
    s.unite(0, 3);
    s.unite(7, 1);
    s.unite(2, 2);
    for i in 0..3 {
        assert_eq!(s.size(i), Some(1));
        assert_eq!(s.root(i), Some(i));
    }
}

#[test]
fn disjoint_set_long_chain() {
    let n = 1000;
    let mut s = DisjointSet::new(n);
    for i in 1..n {
        s.unite(i - 1, i);
    }
    for i in 0..n {
        assert_eq!(s.size(i), Some(n as i64));
        assert!(s.same(0, i));
    }
}

#[test]
fn disjoint_set_of_nothing() {
    let mut s = DisjointSet::new(0);
    assert_eq!(s.root(0), None);
    assert_eq!(s.size(0), None);
    assert!(!s.same(0, 0));
    s.unite(0, 0);
}
