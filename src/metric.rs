//! Euclidean colour distance between two samples.
use crate::pixel::Pixel;
use vstd::prelude::*;

verus! {

pub open spec fn abs_diff(a: int, b: int) -> int {
    if a > b {
        a - b
    } else {
        b - a
    }
}

/// Squared Euclidean distance between two samples in RGB space.
pub open spec fn sq_dist(a: Pixel, b: Pixel) -> nat {
    let dr = abs_diff(a.r as int, b.r as int);
    let dg = abs_diff(a.g as int, b.g as int);
    let db = abs_diff(a.b as int, b.b as int);
    (dr * dr + dg * dg + db * db) as nat
}

/// `r` is the integer square root of `n`, rounded down.
pub open spec fn is_isqrt(n: int, r: int) -> bool {
    0 <= r && r * r <= n && n < (r + 1) * (r + 1)
}

pub open spec fn isqrt(n: nat) -> nat {
    choose|r: nat| #[trigger] is_isqrt(n as int, r as int)
}

/// Euclidean distance between two samples, truncated to an integer.
pub open spec fn color_distance(a: Pixel, b: Pixel) -> nat {
    isqrt(sq_dist(a, b))
}

/// The floor square root is unique.
pub proof fn lemma_isqrt_unique(n: int, r1: int, r2: int)
    requires
        is_isqrt(n, r1),
        is_isqrt(n, r2),
    ensures
        r1 == r2,
{
    if r1 < r2 {
        assert((r1 + 1) * (r1 + 1) <= r2 * r2) by (nonlinear_arith)
            requires
                0 <= r1 < r2,
        ;
    } else if r2 < r1 {
        assert((r2 + 1) * (r2 + 1) <= r1 * r1) by (nonlinear_arith)
            requires
                0 <= r2 < r1,
        ;
    }
}

/// Any witness of the floor square root is the one `isqrt` picks.
pub proof fn lemma_isqrt_is(n: nat, r: nat)
    requires
        is_isqrt(n as int, r as int),
    ensures
        isqrt(n) == r,
{
    let q = isqrt(n);
    assert(is_isqrt(n as int, q as int));
    lemma_isqrt_unique(n as int, q as int, r as int);
}

/// The distance exceeds `t` exactly when the squared distance reaches `(t + 1)^2`.
pub proof fn lemma_distance_exceeds(a: Pixel, b: Pixel, t: nat)
    ensures
        color_distance(a, b) > t <==> sq_dist(a, b) >= (t + 1) * (t + 1),
{
    let n = sq_dist(a, b);
    let r = isqrt(n);
    lemma_isqrt_exists(n);
    assert(is_isqrt(n as int, r as int));
    if r > t {
        assert((t + 1) * (t + 1) <= r * r) by (nonlinear_arith)
            requires
                r >= t + 1,
                t >= 0,
        ;
    } else {
        assert((r + 1) * (r + 1) <= (t + 1) * (t + 1)) by (nonlinear_arith)
            requires
                r <= t,
                r >= 0,
        ;
    }
}

/// Every natural number has a floor square root.
pub proof fn lemma_isqrt_exists(n: nat)
    ensures
        exists|r: nat| #[trigger] is_isqrt(n as int, r as int),
    decreases n,
{
    if n == 0 {
        assert(is_isqrt(0, 0));
    } else {
        lemma_isqrt_exists((n - 1) as nat);
        let r = choose|r: nat| #[trigger] is_isqrt(n - 1, r as int);
        if (r + 1) * (r + 1) <= n {
            assert(n < (r + 2) * (r + 2)) by (nonlinear_arith)
                requires
                    n - 1 < (r + 1) * (r + 1),
                    r >= 0,
            ;
            assert(is_isqrt(n as int, (r + 1) as int));
        } else {
            assert(is_isqrt(n as int, r as int));
        }
    }
}

/// Colour distance is symmetric, and zero from a sample to itself.
pub proof fn lemma_distance_symmetric(a: Pixel, b: Pixel)
    ensures
        color_distance(a, b) == color_distance(b, a),
        color_distance(a, a) == 0,
{
    assert(sq_dist(a, b) == sq_dist(b, a));
    assert(sq_dist(a, a) == 0);
    lemma_isqrt_is(0, 0);
}

/// Absolute difference of two channel values, computed without wrapping.
pub fn super_safe_sub(x: u8, y: u8) -> (r: u8)
    ensures
        r == abs_diff(x as int, y as int),
{
    if x > y {
        x - y
    } else {
        y - x
    }
}

/// Euclidean distance of two samples in RGB space, truncated to an integer.
pub fn color_dist(this: &Pixel, other: &Pixel) -> (r: u32)
    ensures
        r == color_distance(*this, *other),
{
    let n = squared_dist(this, other);
    let mut lo: u64 = 0;
    let mut hi: u64 = 512;
    assert(n < 512 * 512);
    while hi - lo > 1
        invariant
            n == sq_dist(*this, *other),
            n < 512 * 512,
            lo < hi <= 512,
            lo * lo <= n,
            n < hi * hi,
        decreases hi - lo,
    {
        let mid = lo + (hi - lo) / 2;
        assert(mid * mid <= 512 * 512) by (nonlinear_arith)
            requires
                mid <= 512,
        ;
        if mid * mid <= n {
            lo = mid;
        } else {
            hi = mid;
        }
    }
    proof {
        assert(hi == lo + 1);
        lemma_isqrt_is(n as nat, lo as nat);
    }
    lo as u32
}

/// Squared Euclidean distance of two samples.
pub fn squared_dist(this: &Pixel, other: &Pixel) -> (r: u64)
    ensures
        r == sq_dist(*this, *other),
        r <= 3 * 255 * 255,
{
    let dr = super_safe_sub(this.r, other.r) as u64;
    let dg = super_safe_sub(this.g, other.g) as u64;
    let db = super_safe_sub(this.b, other.b) as u64;
    assert(dr * dr <= 255 * 255 && dg * dg <= 255 * 255 && db * db <= 255 * 255)
        by (nonlinear_arith)
        requires
            dr <= 255,
            dg <= 255,
            db <= 255,
    ;
    dr * dr + dg * dg + db * db
}

} // verus!
