use mosaic::error::MosaicError;
use mosaic::grid::{largest_two_factors, plan, GridShape};

#[test]
fn plan_of_small_counts() {
    assert_eq!(plan(1), Ok(GridShape { columns: 1, rows: 1 }));
    assert_eq!(plan(6), Ok(GridShape { columns: 3, rows: 2 }));
    assert_eq!(plan(7), Ok(GridShape { columns: 7, rows: 1 }));
    assert_eq!(plan(12), Ok(GridShape { columns: 4, rows: 3 }));
}

#[test]
fn plan_of_zero_fails() {
    assert_eq!(plan(0), Err(MosaicError::NoFactorization));
    assert_eq!(largest_two_factors(0), None);
}

#[test]
fn plan_of_squares_and_primes() {
    assert_eq!(largest_two_factors(4), Some((2, 2)));
    assert_eq!(largest_two_factors(16), Some((4, 4)));
    assert_eq!(largest_two_factors(13), Some((13, 1)));
    assert_eq!(largest_two_factors(18), Some((6, 3)));
    assert_eq!(largest_two_factors(1_000_000), Some((1000, 1000)));
}

#[test]
fn plan_is_the_squarest_factor_pair() {
    for n in 1usize..=2000 {
        let (c, r) = largest_two_factors(n).unwrap();
        assert_eq!(c * r, n);
        assert!(r <= c);
        let mut best = 1;
        let mut f = 1;
        while f * f <= n {
            if n % f == 0 {
                best = f;
            }
            f += 1;
        }
        assert_eq!(r, best, "rows for {}", n);
    }
}

#[test]
fn plan_of_large_count() {
    assert_eq!(largest_two_factors(1 << 40), Some((1 << 20, 1 << 20)));
    assert_eq!(largest_two_factors(1 << 41), Some((1 << 21, 1 << 20)));
}
