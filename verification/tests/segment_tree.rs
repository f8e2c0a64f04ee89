use libprocon::SegmentTree;

#[test]
fn test_segment_tree_min() {
    let ident: usize = 1 << 60;
    let mut st = SegmentTree::new(ident, 4, std::cmp::min);
    st.update(0, 2);
    st.update(1, 4);
    st.update(2, 3);
    st.update(3, 0);
    assert_eq!(2, st.query(0, 3));
}

#[test]
fn test_segment_tree_max() {
    let ident: usize = 0;
    let mut st = SegmentTree::new(ident, 4, std::cmp::max);
    st.update(0, 2);
    st.update(1, 4);
    st.update(2, 3);
    st.update(3, 0);
    assert_eq!(4, st.query(0, 3));
}

#[test]
fn test_segment_tree_sum() {
    let ident: usize = 0;
    let mut st = SegmentTree::new(ident, 4, |x, y| x + y);
    st.update(0, 2);
    st.update(1, 4);
    st.update(2, 3);
    st.update(3, 0);
    assert_eq!(9, st.query(0, 3));
    assert_eq!(6, st.query(0, 2));
    assert_eq!(7, st.query(1, 3));
    assert_eq!(7, st.query(1, 4));
}

fn naive(leaves: &[u64], begin: usize, end: usize) -> u64 {
    let mut acc: u64 = 0;
    for k in begin..end {
        acc = acc.wrapping_mul(31).wrapping_add(leaves[k]);
    }
    acc
}

#[test]
fn segment_tree_padding_acts_as_identity() {
    let ident: i64 = i64::MAX;
    let mut st = SegmentTree::new(ident, 5, std::cmp::min);
    let values: [i64; 5] = [7, -3, 12, 5, 9];
    for (i, v) in values.iter().enumerate() {
        st.update(i, *v);
    }
    for begin in 0..=5 {
        for end in begin..=5 {
            let expected = values[begin..end].iter().copied().min().unwrap_or(ident);
            assert_eq!(expected, st.query(begin, end));
        }
    }
    assert_eq!(-3, st.query(0, 8));
    assert_eq!(ident, st.query(5, 8));
}

#[test]
fn segment_tree_empty_range_is_identity() {
    let mut st = SegmentTree::new(0u32, 8, |x, y| x + y);
    for i in 0..8 {
        st.update(i, (i as u32) + 1);
    }
    for k in 0..=8 {
        assert_eq!(0, st.query(k, k));
    }
}

#[test]
fn segment_tree_update_is_visible() {
    let mut st = SegmentTree::new(0u32, 8, |x, y| x + y);
    for i in 0..8 {
        st.update(i, 100 + i as u32);
        assert_eq!(100 + i as u32, st.query(i, i + 1));
    }
    st.update(3, 7);
    assert_eq!(7, st.query(3, 4));
    assert_eq!(100 + 101 + 102 + 7, st.query(0, 4));
}

#[test]
fn segment_tree_repeated_query_agrees() {
    let mut st = SegmentTree::new(0u32, 4, |x, y| x + y);
    st.update(1, 5);
    st.update(2, 6);
    let first = st.query(0, 4);
    let second = st.query(0, 4);
    assert_eq!(first, second);
    assert_eq!(11, first);
}

#[test]
fn segment_tree_keeps_left_to_right_order() {
    // String concatenation by a polynomial hash is associative only when the
    // pieces carry their length, so combine pairs of (hash, 31^len).
    let ident: (u64, u64) = (0, 1);
    let mut st = SegmentTree::new(ident, 6, |a: (u64, u64), b: (u64, u64)| {
        (a.0.wrapping_mul(b.1).wrapping_add(b.0), a.1.wrapping_mul(b.1))
    });
    let leaves: [u64; 6] = [3, 1, 4, 1, 5, 9];
    for (i, v) in leaves.iter().enumerate() {
        st.update(i, (*v, 31));
    }
    for begin in 0..=6 {
        for end in begin..=6 {
            assert_eq!(naive(&leaves, begin, end), st.query(begin, end).0);
        }
    }
}

#[test]
fn segment_tree_of_size_zero_has_one_leaf() {
    let mut st = SegmentTree::new(0i32, 0, |x, y| x + y);
    assert_eq!(0, st.query(0, 1));
    st.update(0, 42);
    assert_eq!(42, st.query(0, 1));
    assert_eq!(0, st.query(0, 0));
}
