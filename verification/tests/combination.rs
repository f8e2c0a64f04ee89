use libprocon::combination::Comb;

#[test]
fn test_comb() {
    let modulo = 1_000_000_007;
    let comb = Comb::new(1_000_000, modulo);
    let tests = [
        (2, 1, 2),
        (20, 15, 15504),
        (20, 5, 15504),
        (25, 15, 3268760),
        (50, 10, 272278100),
        (666666, 333333, 151840682),
        (10, 9999, 0),
    ];

    for test in tests.iter() {
        assert_eq!(test.2, comb.calc(test.0, test.1));
    }
}

#[test]
fn comb_small_table_has_ten_entries() {
    let comb = Comb::new(0, 13);
    assert_eq!(comb.calc(9, 4), 126 % 13);
    assert_eq!(comb.calc(9, 0), 1);
    assert_eq!(comb.calc(9, 9), 1);
    assert_eq!(comb.calc(0, 0), 1);
    assert_eq!(comb.calc(3, 4), 0);
}

#[test]
fn comb_pascal_rule() {
    let modulo = 998_244_353;
    let comb = Comb::new(200, modulo);
    for n in 1..199 {
        for k in 1..=n {
            let left = comb.calc(n, k);
            let right = (comb.calc(n - 1, k - 1) + comb.calc(n - 1, k)) % modulo;
            assert_eq!(left, right);
        }
    }
}

#[test]
fn comb_modulo_one_is_all_zero() {
    let comb = Comb::new(12, 1);
    assert_eq!(comb.calc(5, 2), 0);
    assert_eq!(comb.calc(2, 5), 0);
}
