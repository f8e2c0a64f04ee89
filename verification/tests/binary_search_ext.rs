use libprocon::binary_search_ext::BinarySearchExt;

#[test]
fn binary_search_ext_test_lower_bound() {
    let v = vec![2, 2, 5, 5, 9];
    assert_eq!(v.lower_bound(&1), 0);
    assert_eq!(v.lower_bound(&2), 0);
    assert_eq!(v.lower_bound(&3), 2);
    assert_eq!(v.lower_bound(&5), 2);
    assert_eq!(v.lower_bound(&8), 4);
    assert_eq!(v.lower_bound(&9), 4);
    assert_eq!(v.lower_bound(&10), 5);

    // The number of elements greater than or equal to `4`.
    assert_eq!(v.len() - v.lower_bound(&4), 3);
    // In case of `9`
    assert_eq!(v.len() - v.lower_bound(&9), 1);
}

#[test]
fn binary_search_ext_test_upper_bound() {
    let v = vec![2, 2, 5, 5, 9];
    assert_eq!(v.upper_bound(&1), 0);
    assert_eq!(v.upper_bound(&2), 2);
    assert_eq!(v.upper_bound(&3), 2);
    assert_eq!(v.upper_bound(&5), 4);
    assert_eq!(v.upper_bound(&8), 4);
    assert_eq!(v.upper_bound(&9), 5);
    assert_eq!(v.upper_bound(&10), 5);

    // The number of elements greater than `4`.
    assert_eq!(v.len() - v.upper_bound(&4), 3);
    // In case of `5`
    assert_eq!(v.len() - v.upper_bound(&5), 1);
}

#[test]
fn test_lower_bound_by() {
    let v = vec![
        "abc",
        "def",
        "ghi",
        "THIS_IS_LONG_STRING",
        "THIS_IS_ALSO_LONG_STRING",
    ];
    assert_eq!(v.lower_bound_by(|s| s.len() >= 2), 0);
    assert_eq!(v.lower_bound_by(|s| s.len() >= 3), 0);
    assert_eq!(v.lower_bound_by(|s| s.len() >= 4), 3);
    assert_eq!(v.lower_bound_by(|s| s.len() >= 19), 3);
    assert_eq!(v.lower_bound_by(|s| s.len() >= 20), 4);
    assert_eq!(v.lower_bound_by(|s| s.len() >= 24), 4);
    assert_eq!(v.lower_bound_by(|s| s.len() >= 25), 5);
}

#[test]
fn binary_search_on_empty_and_single() {
    let empty: Vec<u8> = Vec::new();
    assert_eq!(empty.lower_bound(&3), 0);
    assert_eq!(empty.upper_bound(&3), 0);
    assert_eq!(empty.lower_bound_by(|_| true), 0);
    let one = vec![7u8];
    assert_eq!(one.lower_bound(&7), 0);
    assert_eq!(one.upper_bound(&7), 1);
    assert_eq!(one.lower_bound(&8), 1);
    assert_eq!(one.lower_bound_by(|x| *x > 7), 1);
}

#[test]
fn binary_search_matches_linear_scan() {
    let v: Vec<i32> = vec![-5, -5, -2, 0, 0, 0, 3, 8, 8, 13];
    for value in -7..16 {
        let lower = v.iter().position(|x| *x >= value).unwrap_or(v.len());
        let upper = v.iter().position(|x| *x > value).unwrap_or(v.len());
        assert_eq!(v.lower_bound(&value), lower);
        assert_eq!(v.upper_bound(&value), upper);
        assert_eq!(v.lower_bound_by(|x| *x >= value), lower);
    }
}
