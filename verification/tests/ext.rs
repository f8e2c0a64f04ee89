use libprocon::ext::{SliceExt, TwoDimensionVectorExt};

#[test]
fn ext_test_lower_bound() {
    let v = vec![2, 2, 5, 5, 9];
    assert_eq!(v.lower_bound(&1), 0);
    assert_eq!(v.lower_bound(&2), 0);
    assert_eq!(v.lower_bound(&3), 2);
    assert_eq!(v.lower_bound(&5), 2);
    assert_eq!(v.lower_bound(&8), 4);
    assert_eq!(v.lower_bound(&9), 4);
    assert_eq!(v.lower_bound(&10), 5);

    // The number of elements greater than or equal to `4`.
    assert_eq!(v.len() - v.lower_bound(&4), 3);
    // In case of `9`
    assert_eq!(v.len() - v.lower_bound(&9), 1);
}

#[test]
fn ext_test_upper_bound() {
    let v = vec![2, 2, 5, 5, 9];
    assert_eq!(v.upper_bound(&1), 0);
    assert_eq!(v.upper_bound(&2), 2);
    assert_eq!(v.upper_bound(&3), 2);
    assert_eq!(v.upper_bound(&5), 4);
    assert_eq!(v.upper_bound(&8), 4);
    assert_eq!(v.upper_bound(&9), 5);
    assert_eq!(v.upper_bound(&10), 5);

    // The number of elements greater than `4`.
    assert_eq!(v.len() - v.upper_bound(&4), 3);
    // In case of `5`
    assert_eq!(v.len() - v.upper_bound(&5), 1);
}

#[test]
fn ext_test_adj4() {
    let v = vec![vec![1, 2, 3], vec![4, 5, 6], vec![7, 8, 9]];

    // |o|x| |
    // |x| | |
    // | | | |
    let mut expected = [(0, 1), (1, 0)];
    expected.sort();
    let mut actual: Vec<_> = v.adj4(0, 0).into_iter().collect();
    actual.sort();
    assert_eq!(actual, expected);

    // | |x| |
    // |x|o|x|
    // | |x| |
    let mut expected = [(0, 1), (1, 0), (1, 2), (2, 1)];
    expected.sort();
    let mut actual: Vec<_> = v.adj4(1, 1).into_iter().collect();
    actual.sort();
    assert_eq!(actual, expected);

    // |x|o|x|
    // | |x| |
    // | | | |
    let mut expected = [(0, 0), (0, 2), (1, 1)];
    expected.sort();
    let mut actual: Vec<_> = v.adj4(0, 1).into_iter().collect();
    actual.sort();
    assert_eq!(actual, expected);

    // | | |x|
    // | |x|o|
    // | | |x|
    let mut expected = [(0, 2), (1, 1), (2, 2)];
    expected.sort();
    let mut actual: Vec<_> = v.adj4(1, 2).into_iter().collect();
    actual.sort();
    assert_eq!(actual, expected);
}

#[test]
fn ext_test_adj8() {
    let v = vec![vec![1, 2, 3], vec![4, 5, 6], vec![7, 8, 9]];

    // |o|x| |
    // |x|x| |
    // | | | |
    let mut expected = [(0, 1), (1, 0), (1, 1)];
    expected.sort();
    let mut actual: Vec<_> = v.adj8(0, 0).into_iter().collect();
    actual.sort();
    assert_eq!(actual, expected);

    // |x|x|x|
    // |x|o|x|
    // |x|x|x|
    let mut expected = [
        (0, 1),
        (1, 0),
        (1, 2),
        (2, 1),
        (0, 0),
        (0, 2),
        (2, 0),
        (2, 2),
    ];
    expected.sort();
    let mut actual: Vec<_> = v.adj8(1, 1).into_iter().collect();
    actual.sort();
    assert_eq!(actual, expected);

    // |x|o|x|
    // |x|x|x|
    // | | | |
    let mut expected = [(0, 0), (0, 2), (1, 1), (1, 0), (1, 2)];
    expected.sort();
    let mut actual: Vec<_> = v.adj8(0, 1).into_iter().collect();
    actual.sort();
    assert_eq!(actual, expected);

    // | |x|x|
    // | |x|o|
    // | |x|x|
    let mut expected = [(0, 2), (1, 1), (2, 2), (0, 1), (2, 1)];
    expected.sort();
    let mut actual: Vec<_> = v.adj8(1, 2).into_iter().collect();
    actual.sort();
    assert_eq!(actual, expected);
}
