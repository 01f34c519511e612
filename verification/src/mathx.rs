use vstd::prelude::*;

verus! {

// ---------------------------------------------------------------------------
// Integer square root.
// ---------------------------------------------------------------------------

/// The integer square root: the largest `r` with `r * r <= n` (0 for a
/// negative argument).
pub open spec fn isqrt_spec(n: int) -> int
    decreases n,
{
    if n <= 0 {
        0
    } else {
        let r = isqrt_spec(n - 1);
        if (r + 1) * (r + 1) <= n {
            r + 1
        } else {
            r
        }
    }
}

/// `isqrt_spec(n)` squares to at most `n` and is the largest such value.
pub proof fn lemma_isqrt_bounds(n: int)
    requires
        n >= 0,
    ensures
        isqrt_spec(n) >= 0,
        isqrt_spec(n) * isqrt_spec(n) <= n,
        n < (isqrt_spec(n) + 1) * (isqrt_spec(n) + 1),
    decreases n,
{
    if n == 0 {
    } else {
        lemma_isqrt_bounds(n - 1);
        let r = isqrt_spec(n - 1);
        if (r + 1) * (r + 1) <= n {
            assert(isqrt_spec(n) == r + 1);
            assert((r + 2) * (r + 2) > (r + 1) * (r + 1)) by (nonlinear_arith)
                requires
                    r >= 0,
            ;
        } else {
            assert(isqrt_spec(n) == r);
        }
    }
}

/// Any `r` within the square-root bounds is `isqrt_spec(n)`.
pub proof fn lemma_isqrt_unique(n: int, r: int)
    requires
        n >= 0,
        r >= 0,
        r * r <= n,
        n < (r + 1) * (r + 1),
    ensures
        isqrt_spec(n) == r,
{
    lemma_isqrt_bounds(n);
    let s = isqrt_spec(n);
    if s < r {
        assert(r * r > (s + 1) * (s + 1) - 1 ==> r * r > n - 1) by (nonlinear_arith)
            requires
                n < (s + 1) * (s + 1),
        ;
        assert((s + 1) * (s + 1) <= r * r) by (nonlinear_arith)
            requires
                0 <= s,
                s + 1 <= r,
        ;
        assert(false);
    }
    if s > r {
        assert((r + 1) * (r + 1) <= s * s) by (nonlinear_arith)
            requires
                0 <= r,
                r + 1 <= s,
        ;
        assert(false);
    }
}

/// `isqrt_spec` never decreases as its argument grows.
pub proof fn lemma_isqrt_monotone(a: int, b: int)
    requires
        0 <= a <= b,
    ensures
        isqrt_spec(a) <= isqrt_spec(b),
{
    lemma_isqrt_bounds(a);
    lemma_isqrt_bounds(b);
    let ra = isqrt_spec(a);
    let rb = isqrt_spec(b);
    if ra > rb {
        assert((rb + 1) * (rb + 1) <= ra * ra) by (nonlinear_arith)
            requires
                0 <= rb,
                rb + 1 <= ra,
        ;
        assert(false);
    }
}

/// The integer square root of a 128-bit value, by binary search.
pub fn isqrt128(n: u128) -> (r: u128)
    ensures
        r == isqrt_spec(n as int),
        r <= 0xFFFF_FFFF_FFFF_FFFF,
{
    let mut lo: u128 = 0;
    let mut hi: u128 = 0x1_0000_0000_0000_0000;
    proof {
        assert((n as int) < hi * hi) by (nonlinear_arith)
            requires
                n <= u128::MAX,
                hi == 0x1_0000_0000_0000_0000,
        ;
    }
    while lo + 1 < hi
        invariant
            0 <= lo < hi <= 0x1_0000_0000_0000_0000,
            lo * lo <= n,
            (n as int) < hi * hi,
        decreases hi - lo,
    {
        let mid = lo + (hi - lo) / 2;
        proof {
            assert(lo < mid < hi);
            assert(mid * mid < 0x1_0000_0000_0000_0000 * 0x1_0000_0000_0000_0000)
                by (nonlinear_arith)
                requires
                    0 <= mid < 0x1_0000_0000_0000_0000u128,
            ;
        }
        if mid <= n / mid {
            proof {
                assert(mid * mid <= n) by (nonlinear_arith)
                    requires
                        mid >= 1,
                        mid <= n / mid,
                        n / mid == (n as int) / (mid as int),
                ;
            }
            lo = mid;
        } else {
            proof {
                assert((n as int) < mid * mid) by (nonlinear_arith)
                    requires
                        mid >= 1,
                        mid > n / mid,
                        n / mid == (n as int) / (mid as int),
                ;
            }
            hi = mid;
        }
    }
    proof {
        lemma_isqrt_unique(n as int, lo as int);
    }
    lo
}

/// The integer square root of a 64-bit value.
pub fn isqrt64(n: u64) -> (r: u64)
    ensures
        r == isqrt_spec(n as int),
        r <= 0xFFFF_FFFF,
{
    let r = isqrt128(n as u128);
    proof {
        lemma_isqrt_bounds(n as int);
        let s = isqrt_spec(n as int);
        if s > 0xFFFF_FFFF {
            assert(0x1_0000_0000 * 0x1_0000_0000 <= s * s) by (nonlinear_arith)
                requires
                    s >= 0x1_0000_0000,
            ;
            assert(false);
        }
    }
    r as u64
}

// ---------------------------------------------------------------------------
// Division facts the force computations lean on.
// ---------------------------------------------------------------------------

/// Division of non-negative values by a positive divisor keeps order and
/// bounds: `(a * f) / d <= f` whenever `a <= d`.
pub proof fn lemma_scaled_div_le(a: int, f: int, d: int)
    requires
        0 <= a <= d,
        0 <= f,
        1 <= d,
    ensures
        0 <= (a * f) / d <= f,
{
    assert(0 <= a * f) by (nonlinear_arith)
        requires
            0 <= a,
            0 <= f,
    ;
    assert(a * f <= d * f) by (nonlinear_arith)
        requires
            a <= d,
            0 <= f,
    ;
    assert((a * f) / d >= 0) by (nonlinear_arith)
        requires
            0 <= a * f,
            1 <= d,
    ;
    assert((a * f) / d <= f) by (nonlinear_arith)
        requires
            a * f <= d * f,
            1 <= d,
            0 <= f,
    ;
}

/// A component never exceeds the rounded length of its vector.
pub proof fn lemma_component_le_isqrt(a: int, b: int)
    requires
        a >= 0,
        b >= 0,
    ensures
        a <= isqrt_spec(a * a + b * b),
        isqrt_spec(a * a + b * b) >= 0,
{
    assert(b * b >= 0) by (nonlinear_arith);
    assert(a * a >= 0) by (nonlinear_arith);
    lemma_isqrt_monotone(a * a, a * a + b * b);
    assert(a * a < (a + 1) * (a + 1)) by (nonlinear_arith)
        requires
            a >= 0,
    ;
    lemma_isqrt_unique(a * a, a);
    lemma_isqrt_bounds(a * a + b * b);
}

/// A quotient of non-negative values is bounded by the dividend's bound.
pub proof fn lemma_div_le_num(a: int, d: int)
    requires
        0 <= a,
        1 <= d,
    ensures
        0 <= a / d <= a,
{
    assert(0 <= a / d <= a) by (nonlinear_arith)
        requires
            0 <= a,
            1 <= d,
    ;
}

} // verus!
