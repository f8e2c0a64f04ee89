use libprocon::rolling_hash::RollingHash;

#[test]
fn test_rolling_hash() {
    let target: Vec<char> = "abcabcddd".chars().collect();
    let rh = RollingHash::new(&target);
    assert_eq!(rh.get(0, 3), rh.get(3, 6));
    assert!(rh.equal(0, 3, 3, 6));
    assert_eq!(rh.get(1, 3), rh.get(4, 6));
    assert!(rh.equal(1, 3, 4, 6));
    assert_eq!(rh.get(6, 7), rh.get(7, 8));
    assert!(rh.equal(6, 7, 7, 8));
    assert_eq!(rh.get(7, 8), rh.get(8, 9));
    assert!(rh.equal(7, 8, 8, 9));
    assert_ne!(rh.get(0, 4), rh.get(3, 7));
    assert!(!rh.equal(0, 4, 3, 7));
    assert_ne!(rh.get(0, 3), rh.get(4, 7));
    assert!(!rh.equal(0, 3, 4, 7));

    let target: Vec<char> = "strangeorange".chars().collect();
    let rh = RollingHash::new(&target);
    assert_eq!(rh.get(2, 7), rh.get(8, 13));
    assert!(rh.equal(2, 7, 8, 13));
    assert_ne!(rh.get(1, 7), rh.get(7, 13));
    assert!(!rh.equal(1, 7, 7, 13));
    assert_ne!(rh.get(0, 7), rh.get(6, 13));
    assert!(!rh.equal(0, 7, 6, 13));
}

#[test]
fn rolling_hash_exact_values() {
    let target: Vec<char> = "ab".chars().collect();
    let rh = RollingHash::new(&target);
    // under (1009, 1_000_000_007): h("a") = 97 * 1009, h("ab") = (h("a") + 98) * 1009
    let a: u64 = 97 * 1009;
    let ab: u64 = (a + 98) * 1009 % 1_000_000_007;
    assert_eq!(rh.get(0, 1)[2], a);
    assert_eq!(rh.get(0, 2)[2], ab);
    assert_eq!(rh.get(1, 2)[2], 98 * 1009);
    assert_eq!(rh.get(0, 1)[0], 97 * 2315961251 % 4294966367);
    assert_eq!(rh.get(0, 1)[1], 97 * 1692999586 % 4294959359);
    assert_eq!(rh.get(0, 1).len(), 3);
}

#[test]
fn rolling_hash_empty_window_is_zero() {
    let target: Vec<char> = "xyz".chars().collect();
    let rh = RollingHash::new(&target);
    for k in 0..=3 {
        assert_eq!(rh.get(k, k), vec![0, 0, 0]);
    }
    assert!(rh.equal(0, 0, 3, 3));
    let empty: Vec<char> = Vec::new();
    let rh = RollingHash::new(&empty);
    assert_eq!(rh.get(0, 0), vec![0, 0, 0]);
}

#[test]
fn rolling_hash_largest_scalar_values() {
    let target: Vec<char> = vec!['\u{10FFFF}'; 64];
    let rh = RollingHash::new(&target);
    assert!(rh.equal(0, 32, 32, 64));
    assert!(rh.equal(5, 9, 50, 54));
    assert!(!rh.equal(0, 32, 32, 63));
}
