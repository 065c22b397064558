use vstd::prelude::*;

use crate::error::MosaicError;

verus! {

/// `f` divides `n` and is at most the square root of `n`.
pub open spec fn is_low_factor(n: int, f: int) -> bool {
    1 <= f && f * f <= n && n % f == 0
}

/// `r` is the largest divisor of `n` that does not exceed the square root of `n`.
pub open spec fn is_best_rows(n: int, r: int) -> bool {
    &&& is_low_factor(n, r)
    &&& forall|f: int| #[trigger] is_low_factor(n, f) ==> f <= r
}

/// `(columns, rows)` is the near-square grid for `n` cells.
pub open spec fn is_grid_for(n: int, columns: int, rows: int) -> bool {
    &&& is_best_rows(n, rows)
    &&& columns * rows == n
    &&& rows <= columns
}

/// A grid of `columns` by `rows` cells.
#[derive(Debug, Clone, Copy, PartialEq, Eq, Structural)]
pub struct GridShape {
    pub columns: usize,
    pub rows: usize,
}

proof fn lemma_square_bound(n: int, f: int)
    requires
        1 <= f,
        0 <= n,
    ensures
        (f <= n / f) <==> (f * f <= n),
{
    let q = n / f;
    let m = n % f;
    vstd::arithmetic::div_mod::lemma_fundamental_div_mod(n, f);
    assert((f <= q) <==> (f * f <= n)) by (nonlinear_arith)
        requires
            1 <= f,
            n == f * q + m,
            0 <= m < f,
    {
        if f <= q {
            assert(f * f <= f * q);
        } else {
            assert(f * (q + 1) <= f * f);
        }
    }
}

/// The two factors of `num` closest to a square: `Some((num / f, f))` with `f`
/// the largest divisor of `num` not above its square root, or `None` for zero.
pub fn largest_two_factors(num: usize) -> (r: Option<(usize, usize)>)
    ensures
        r is None <==> num == 0,
        r matches Some((c, rows)) ==> is_grid_for(num as int, c as int, rows as int),
{
    if num == 0 {
        return None;
    }
    let mut best: usize = 1;
    let mut f: usize = 1;
    proof {
        lemma_square_bound(num as int, 1);
    }
    while f <= num / f
        invariant
            num >= 1,
            1 <= f <= num + 1,
            is_low_factor(num as int, best as int),
            forall|g: int| #[trigger] is_low_factor(num as int, g) && g < f ==> g <= best,
        decreases num + 1 - f,
    {
        proof {
            lemma_square_bound(num as int, f as int);
            assert(f <= f * f && f < usize::MAX) by (nonlinear_arith)
                requires
                    1 <= f,
                    f * f <= num,
                    num <= usize::MAX,
            ;
        }
        if num % f == 0 {
            best = f;
        }
        f = f + 1;
    }
    proof {
        lemma_square_bound(num as int, f as int);
        assert forall|g: int| #[trigger] is_low_factor(num as int, g) implies g <= best by {
            if g >= f {
                assert(f * f <= g * g) by (nonlinear_arith)
                    requires
                        1 <= f <= g,
                ;
            }
        }
    }
    let c = num / best;
    proof {
        let b = best as int;
        let n = num as int;
        vstd::arithmetic::div_mod::lemma_fundamental_div_mod(n, b);
        assert(c * b == n) by (nonlinear_arith)
            requires
                n == b * (n / b) + n % b,
                n % b == 0,
                c == n / b,
        ;
        assert(b <= c) by (nonlinear_arith)
            requires
                1 <= b,
                b * b <= n,
                c * b == n,
        ;
    }
    Some((c, best))
}

/// The grid shape for `count` images: columns times rows is `count`, rows at
/// most columns, and rows the largest divisor of `count` not above its square root.
pub fn plan(count: usize) -> (r: Result<GridShape, MosaicError>)
    ensures
        count == 0 <==> r == Err::<GridShape, MosaicError>(MosaicError::NoFactorization),
        r matches Ok(g) ==> is_grid_for(count as int, g.columns as int, g.rows as int),
        count > 0 ==> r is Ok,
{
    match largest_two_factors(count) {
        Some((columns, rows)) => Ok(GridShape { columns, rows }),
        None => Err(MosaicError::NoFactorization),
    }
}

} // verus!
