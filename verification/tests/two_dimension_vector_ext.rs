use libprocon::two_dimension_vector_ext::TwoDimensionVectorExt;

#[test]
fn two_dimension_vector_ext_test_adj4() {
    let v = vec![vec![1, 2, 3], vec![4, 5, 6], vec![7, 8, 9]];

    // |o|x| |
    // |x| | |
    // | | | |
    let mut expected = [(0, 1), (1, 0)];
    expected.sort();
    let mut actual: Vec<_> = v.adj4(0, 0).into_iter().collect();
    actual.sort();
    assert_eq!(actual, expected);

    // | |x| |
    // |x|o|x|
    // | |x| |
    let mut expected = [(0, 1), (1, 0), (1, 2), (2, 1)];
    expected.sort();
    let mut actual: Vec<_> = v.adj4(1, 1).into_iter().collect();
    actual.sort();
    assert_eq!(actual, expected);

    // |x|o|x|
    // | |x| |
    // | | | |
    let mut expected = [(0, 0), (0, 2), (1, 1)];
    expected.sort();
    let mut actual: Vec<_> = v.adj4(0, 1).into_iter().collect();
    actual.sort();
    assert_eq!(actual, expected);

    // | | |x|
    // | |x|o|
    // | | |x|
    let mut expected = [(0, 2), (1, 1), (2, 2)];
    expected.sort();
    let mut actual: Vec<_> = v.adj4(1, 2).into_iter().collect();
    actual.sort();
    assert_eq!(actual, expected);
}

#[test]
fn two_dimension_vector_ext_test_adj8() {
    let v = vec![vec![1, 2, 3], vec![4, 5, 6], vec![7, 8, 9]];

    // |o|x| |
    // |x|x| |
    // | | | |
    let mut expected = [(0, 1), (1, 0), (1, 1)];
    expected.sort();
    let mut actual: Vec<_> = v.adj8(0, 0).into_iter().collect();
    actual.sort();
    assert_eq!(actual, expected);

    // |x|x|x|
    // |x|o|x|
    // |x|x|x|
    let mut expected = [
        (0, 1),
        (1, 0),
        (1, 2),
        (2, 1),
        (0, 0),
        (0, 2),
        (2, 0),
        (2, 2),
    ];
    expected.sort();
    let mut actual: Vec<_> = v.adj8(1, 1).into_iter().collect();
    actual.sort();
    assert_eq!(actual, expected);

    // |x|o|x|
    // |x|x|x|
    // | | | |
    let mut expected = [(0, 0), (0, 2), (1, 1), (1, 0), (1, 2)];
    expected.sort();
    let mut actual: Vec<_> = v.adj8(0, 1).into_iter().collect();
    actual.sort();
    assert_eq!(actual, expected);

    // | |x|x|
    // | |x|o|
    // | |x|x|
    let mut expected = [(0, 2), (1, 1), (2, 2), (0, 1), (2, 1)];
    expected.sort();
    let mut actual: Vec<_> = v.adj8(1, 2).into_iter().collect();
    actual.sort();
    assert_eq!(actual, expected);
}

#[test]
fn adj_keeps_the_order_of_the_steps() {
    let v = vec![vec![0u8; 3]; 3];
    assert_eq!(v.adj4(1, 1), vec![(0, 1), (2, 1), (1, 0), (1, 2)]);
    assert_eq!(
        v.adj8(1, 1),
        vec![(0, 1), (2, 1), (1, 0), (1, 2), (0, 0), (0, 2), (2, 0), (2, 2)]
    );
}

#[test]
fn adj_from_outside_the_grid() {
    let v = vec![vec![0u8; 2]; 2];
    assert_eq!(v.adj4(2, 0), vec![(1, 0)]);
    assert_eq!(v.adj4(0, 2), vec![(0, 1)]);
    assert_eq!(v.adj8(2, 2), vec![(1, 1)]);
    assert_eq!(v.adj4(5, 5), vec![]);
}

#[test]
fn adj_goes_by_the_first_row_width() {
    let v = vec![vec![0u8; 1], vec![0u8; 4]];
    assert_eq!(v.adj4(1, 0), vec![(0, 0)]);
    let single = vec![vec![0u8]];
    assert_eq!(single.adj4(0, 0), vec![]);
    assert_eq!(single.adj8(0, 0), vec![]);
}
