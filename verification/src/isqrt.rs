//! Integer square roots.
use vstd::prelude::*;

verus! {

/// The largest integer whose square does not exceed `n` (0 for negative `n`).
pub open spec fn isqrt(n: int) -> int
    decreases n,
{
    if n <= 0 {
        0
    } else {
        let r = 2 * isqrt(n / 4);
        if (r + 1) * (r + 1) <= n {
            r + 1
        } else {
            r
        }
    }
}

/// `r` is the floor of the square root of `n`.
pub open spec fn is_floor_sqrt(n: int, r: int) -> bool {
    0 <= r && r * r <= n && n < (r + 1) * (r + 1)
}

/// Squaring is monotone on the non-negative integers.
pub proof fn lemma_square_le(a: int, b: int)
    requires
        0 <= a <= b,
    ensures
        a * a <= b * b,
{
    assert(a * a <= b * b) by (nonlinear_arith)
        requires
            0 <= a <= b,
    ;
}

/// Squaring is strictly monotone on the non-negative integers.
pub proof fn lemma_square_lt(a: int, b: int)
    requires
        0 <= a < b,
    ensures
        a * a < b * b,
{
    assert(a * a < b * b) by (nonlinear_arith)
        requires
            0 <= a < b,
    ;
}

/// `isqrt(n)` is the floor of the square root of every non-negative `n`.
pub proof fn lemma_isqrt_floor(n: int)
    requires
        0 <= n,
    ensures
        is_floor_sqrt(n, isqrt(n)),
    decreases n,
{
    if n > 0 {
        let q = n / 4;
        let h = isqrt(q);
        lemma_isqrt_floor(q);
        let r = 2 * h;
        assert(r * r == 4 * (h * h)) by (nonlinear_arith)
            requires
                r == 2 * h,
        ;
        assert((r + 2) * (r + 2) == 4 * ((h + 1) * (h + 1))) by (nonlinear_arith)
            requires
                r == 2 * h,
        ;
        assert((r + 1) * (r + 1) < (r + 2) * (r + 2)) by {
            lemma_square_lt(r + 1, r + 2);
        }
    }
}

/// The floor of the square root is unique.
pub proof fn lemma_isqrt_unique(n: int, r: int)
    requires
        is_floor_sqrt(n, r),
    ensures
        r == isqrt(n),
{
    let s = isqrt(n);
    lemma_isqrt_floor(n);
    if r < s {
        lemma_square_le(r + 1, s);
    } else if s < r {
        lemma_square_le(s + 1, r);
    }
}

/// The integer square root is monotone.
pub proof fn lemma_isqrt_monotone(a: int, b: int)
    requires
        0 <= a <= b,
    ensures
        isqrt(a) <= isqrt(b),
{
    lemma_isqrt_floor(a);
    lemma_isqrt_floor(b);
    if isqrt(b) < isqrt(a) {
        lemma_square_le(isqrt(b) + 1, isqrt(a));
    }
}

/// The integer square root of a perfect square is its root.
pub proof fn lemma_isqrt_of_square(r: int)
    requires
        0 <= r,
    ensures
        isqrt(r * r) == r,
{
    lemma_square_lt(r, r + 1);
    lemma_isqrt_unique(r * r, r);
}

/// Computes the floor of the square root of `n` by bisection.
pub fn isqrt_u128(n: u128) -> (r: u128)
    ensures
        r == isqrt(n as int),
        r < 0x1_0000_0000_0000_0000,
{
    let mut lo: u128 = 0;
    let mut hi: u128 = 0x1_0000_0000_0000_0000;
    assert(0x1_0000_0000_0000_0000int * 0x1_0000_0000_0000_0000int
        == 0x1_0000_0000_0000_0000_0000_0000_0000_0000int) by (nonlinear_arith);
    while hi - lo > 1
        invariant
            lo < hi <= 0x1_0000_0000_0000_0000,
            lo * lo <= n,
            n < hi * hi,
        decreases hi - lo,
    {
        let mid: u128 = lo + (hi - lo) / 2;
        proof {
            lemma_square_le(mid as int, 0xFFFF_FFFF_FFFF_FFFFint);
            assert(0xFFFF_FFFF_FFFF_FFFFint * 0xFFFF_FFFF_FFFF_FFFFint < 0x1_0000_0000_0000_0000_0000_0000_0000_0000int) by (nonlinear_arith);
        }
        if mid * mid <= n {
            lo = mid;
        } else {
            hi = mid;
        }
    }
    proof {
        lemma_isqrt_unique(n as int, lo as int);
    }
    lo
}

} // verus!
