//! Fixed-point Euclidean distances between grid coordinates.
//!
//! Distances are measured in thousandths of a cell and rounded down, so
//! that costs are exact integers.
use vstd::prelude::*;

verus! {

/// Largest value of a `u128`, as a mathematical integer.
pub open spec fn u128_max() -> int {
    u128::MAX as int
}

/// Square of the distance scale: a distance is `SCALE` times the true one.
pub const SCALE_SQ: u128 = 1_000_000;

/// `r` is the integer square root of `n`.
pub open spec fn is_root(n: int, r: int) -> bool {
    0 <= r && r * r <= n && n < (r + 1) * (r + 1)
}

/// The integer square root of `n` (the largest `r` with `r * r <= n`).
pub open spec fn root(n: int) -> int {
    choose|r: int| is_root(n, r)
}

/// A non-negative integer has at most one integer square root.
pub proof fn lemma_root_unique(n: int, a: int, b: int)
    requires
        is_root(n, a),
        is_root(n, b),
    ensures
        a == b,
{
    if a < b {
        assert((a + 1) * (a + 1) <= b * b) by (nonlinear_arith)
            requires
                0 <= a,
                a + 1 <= b,
        ;
    } else if b < a {
        assert((b + 1) * (b + 1) <= a * a) by (nonlinear_arith)
            requires
                0 <= b,
                b + 1 <= a,
        ;
    }
}

/// Squared Euclidean distance between two grid coordinates.
pub open spec fn sq_dist(a: (usize, usize), b: (usize, usize)) -> int {
    (a.0 - b.0) * (a.0 - b.0) + (a.1 - b.1) * (a.1 - b.1)
}

/// `x`, saturated at the largest `u128`.
pub open spec fn clamp128(x: int) -> int {
    if x > u128_max() {
        u128_max()
    } else {
        x
    }
}

/// Euclidean distance between `a` and `b` in thousandths of a cell, rounded
/// down (computed on a radicand saturated at the largest `u128`).
pub open spec fn scaled_dist(a: (usize, usize), b: (usize, usize)) -> int {
    root(clamp128(SCALE_SQ * sq_dist(a, b)))
}

/// Integer square root by bisection.
pub fn isqrt(n: u128) -> (r: u128)
    ensures
        is_root(n as int, r as int),
        r as int == root(n as int),
        r <= u64::MAX,
{
    let mut lo: u128 = 0;
    let mut hi: u128 = 0x1_0000_0000_0000_0000;
    assert(n < hi * hi) by (nonlinear_arith)
        requires
            hi == 0x1_0000_0000_0000_0000u128,
            n <= u128::MAX,
    ;
    while lo + 1 < hi
        invariant
            lo < hi <= 0x1_0000_0000_0000_0000u128,
            lo * lo <= n,
            n < hi * hi,
        decreases hi - lo,
    {
        let mid = lo + (hi - lo) / 2;
        assert(mid * mid <= 0xFFFF_FFFF_FFFF_FFFE_0000_0000_0000_0001u128) by (nonlinear_arith)
            requires
                mid < 0x1_0000_0000_0000_0000u128,
        ;
        if mid * mid <= n {
            lo = mid;
        } else {
            hi = mid;
        }
    }
    proof {
        assert(is_root(n as int, lo as int));
        let c = root(n as int);
        assert(is_root(n as int, c));
        lemma_root_unique(n as int, c, lo as int);
    }
    lo
}

fn abs_diff(a: usize, b: usize) -> (r: u128)
    ensures
        r as int * r as int == (a - b) * (a - b),
        r < 0x1_0000_0000_0000_0000u128,
{
    let r = if a >= b {
        (a - b) as u128
    } else {
        (b - a) as u128
    };
    assert(r as int * r as int == (a - b) * (a - b)) by (nonlinear_arith)
        requires
            r as int == a - b || r as int == b - a,
    ;
    r
}

/// Distance between two grid coordinates in thousandths of a cell.
pub fn scaled_distance(a: (usize, usize), b: (usize, usize)) -> (r: u128)
    ensures
        r as int == scaled_dist(a, b),
        r <= u64::MAX,
{
    let dr = abs_diff(a.0, b.0);
    let dc = abs_diff(a.1, b.1);
    assert(dr * dr <= 0xFFFF_FFFF_FFFF_FFFE_0000_0000_0000_0001u128) by (nonlinear_arith)
        requires
            dr < 0x1_0000_0000_0000_0000u128,
    ;
    assert(dc * dc <= 0xFFFF_FFFF_FFFF_FFFE_0000_0000_0000_0001u128) by (nonlinear_arith)
        requires
            dc < 0x1_0000_0000_0000_0000u128,
    ;
    let dr2 = dr * dr;
    let dc2 = dc * dc;
    let n: u128 = if dr2 > u128::MAX - dc2 {
        u128::MAX
    } else {
        let s = dr2 + dc2;
        if s > u128::MAX / SCALE_SQ {
            assert(s * SCALE_SQ > u128::MAX) by (nonlinear_arith)
                requires
                    s > u128::MAX / 1_000_000u128,
            ;
            u128::MAX
        } else {
            assert(s * SCALE_SQ <= u128::MAX) by (nonlinear_arith)
                requires
                    s <= u128::MAX / 1_000_000u128,
            ;
            s * SCALE_SQ
        }
    };
    assert(n as int == clamp128(SCALE_SQ * sq_dist(a, b))) by (nonlinear_arith)
        requires
            sq_dist(a, b) == dr2 as int + dc2 as int,
            n == u128::MAX || n as int == SCALE_SQ * (dr2 as int + dc2 as int),
            n == u128::MAX ==> dr2 as int + dc2 as int > u128::MAX / 1_000_000u128,
            SCALE_SQ == 1_000_000u128,
    ;
    isqrt(n)
}

} // verus!
