//! Small integer helpers with exact specifications: the clamps, saturating
//! operations and rounding divisions the geometry is written in.

use vstd::prelude::*;

verus! {

/// `v` clamped into `lo..=hi`, as `Ord::clamp` computes it.
pub open spec fn clamp_spec(v: int, lo: int, hi: int) -> int {
    if v < lo {
        lo
    } else if v > hi {
        hi
    } else {
        v
    }
}

pub open spec fn min_spec(a: int, b: int) -> int {
    if a <= b {
        a
    } else {
        b
    }
}

pub open spec fn max_spec(a: int, b: int) -> int {
    if a >= b {
        a
    } else {
        b
    }
}

pub open spec fn abs_spec(a: int) -> int {
    if a < 0 {
        -a
    } else {
        a
    }
}

/// `v` saturated into the `i32` range.
pub open spec fn sat_i32(v: int) -> int {
    if v < i32::MIN {
        i32::MIN as int
    } else if v > i32::MAX {
        i32::MAX as int
    } else {
        v
    }
}

pub open spec fn fits_i32(v: int) -> bool {
    i32::MIN <= v <= i32::MAX
}

pub open spec fn fits_i64(v: int) -> bool {
    i64::MIN <= v <= i64::MAX
}

/// Division rounding toward zero, as Rust's `/` does on signed integers.
pub open spec fn trunc_div(a: int, b: int) -> int
    recommends
        b != 0,
{
    if b > 0 {
        if a >= 0 {
            a / b
        } else {
            -((-a) / b)
        }
    } else if a >= 0 {
        -(a / (-b))
    } else {
        (-a) / (-b)
    }
}

/// `num / den` rounded to the nearest integer, halves away from zero —
/// what `f64::round` does to the exact quotient.
pub open spec fn round_div(num: int, den: int) -> int
    recommends
        den > 0,
{
    if num >= 0 {
        (2 * num + den) / (2 * den)
    } else {
        -((-2 * num + den) / (2 * den))
    }
}

/// The largest `r >= 0` with `r * r <= n`.
pub open spec fn is_isqrt(n: int, r: int) -> bool {
    r >= 0 && r * r <= n && n < (r + 1) * (r + 1)
}

/// The integer square root of `n`, for `n >= 0`.
pub open spec fn isqrt(n: int) -> int {
    choose|r: int| is_isqrt(n, r)
}

pub proof fn lemma_isqrt_unique(n: int, r: int)
    requires
        is_isqrt(n, r),
    ensures
        isqrt(n) == r,
{
    let q = isqrt(n);
    assert(is_isqrt(n, q));
    if q < r {
        assert((q + 1) * (q + 1) <= r * r) by (nonlinear_arith)
            requires
                0 <= q < r,
        ;
    } else if q > r {
        assert((r + 1) * (r + 1) <= q * q) by (nonlinear_arith)
            requires
                0 <= r < q,
        ;
    }
}

/// A rounded quotient stays within any integer bound the exact one does.
pub proof fn lemma_round_div_bound(n: int, d: int, m: int)
    requires
        d > 0,
        m >= 0,
        -(m * d) <= n <= m * d,
    ensures
        -m <= round_div(n, d) <= m,
{
    if n >= 0 {
        assert((2 * n + d) / (2 * d) <= m) by (nonlinear_arith)
            requires
                d > 0,
                0 <= n <= m * d,
        ;
        assert((2 * n + d) / (2 * d) >= 0) by (nonlinear_arith)
            requires
                d > 0,
                0 <= n,
        ;
    } else {
        assert((-2 * n + d) / (2 * d) <= m) by (nonlinear_arith)
            requires
                d > 0,
                0 <= -n <= m * d,
        ;
        assert((-2 * n + d) / (2 * d) >= 0) by (nonlinear_arith)
            requires
                d > 0,
                0 <= -n,
        ;
    }
}

/// A rounded quotient stays at or below any integer the exact one does.
pub proof fn lemma_round_div_upper(n: int, d: int, m: int)
    requires
        d > 0,
        m >= 0,
        n <= m * d,
    ensures
        round_div(n, d) <= m,
{
    if n >= 0 {
        assert((2 * n + d) / (2 * d) <= m) by (nonlinear_arith)
            requires
                d > 0,
                0 <= n <= m * d,
        ;
    } else {
        assert((-2 * n + d) / (2 * d) >= 0) by (nonlinear_arith)
            requires
                d > 0,
                0 <= -n,
        ;
    }
}

/// Rounding a whole quotient gives it back.
pub proof fn lemma_round_div_exact(q: int, d: int)
    requires
        d > 0,
    ensures
        round_div(q * d, d) == q,
{
    if q >= 0 {
        assert(q * d >= 0) by (nonlinear_arith)
            requires
                d > 0,
                q >= 0,
        ;
        assert((2 * (q * d) + d) / (2 * d) == q) by (nonlinear_arith)
            requires
                d > 0,
                q >= 0,
        ;
    } else {
        assert(q * d < 0) by (nonlinear_arith)
            requires
                d > 0,
                q < 0,
        ;
        assert((-2 * (q * d) + d) / (2 * d) == -q) by (nonlinear_arith)
            requires
                d > 0,
                q < 0,
        ;
    }
}

pub fn min_i32(a: i32, b: i32) -> (r: i32)
    ensures
        r == min_spec(a as int, b as int),
{
    if a <= b {
        a
    } else {
        b
    }
}

pub fn max_i32(a: i32, b: i32) -> (r: i32)
    ensures
        r == max_spec(a as int, b as int),
{
    if a >= b {
        a
    } else {
        b
    }
}

/// `Ord::clamp` on `i32`; like it, refuses an empty range.
pub fn clamp_i32(v: i32, lo: i32, hi: i32) -> (r: i32)
    requires
        lo <= hi,
    ensures
        r == clamp_spec(v as int, lo as int, hi as int),
        lo <= r <= hi,
{
    if v < lo {
        lo
    } else if v > hi {
        hi
    } else {
        v
    }
}

pub fn abs_i32(a: i32) -> (r: i32)
    requires
        a > i32::MIN,
    ensures
        r == abs_spec(a as int),
{
    if a < 0 {
        -a
    } else {
        a
    }
}

pub fn sat_add_i32(a: i32, b: i32) -> (r: i32)
    ensures
        r == sat_i32(a + b),
{
    let s: i64 = a as i64 + b as i64;
    if s < i32::MIN as i64 {
        i32::MIN
    } else if s > i32::MAX as i64 {
        i32::MAX
    } else {
        s as i32
    }
}

pub fn sat_sub_i32(a: i32, b: i32) -> (r: i32)
    ensures
        r == sat_i32(a - b),
{
    let s: i64 = a as i64 - b as i64;
    if s < i32::MIN as i64 {
        i32::MIN
    } else if s > i32::MAX as i64 {
        i32::MAX
    } else {
        s as i32
    }
}

pub fn sat_double_i32(a: i32) -> (r: i32)
    ensures
        r == sat_i32(2 * a),
{
    let s: i64 = 2 * (a as i64);
    if s < i32::MIN as i64 {
        i32::MIN
    } else if s > i32::MAX as i64 {
        i32::MAX
    } else {
        s as i32
    }
}

/// `num / den` rounded half away from zero.
pub fn round_div_i64(num: i64, den: i64) -> (r: i64)
    requires
        den > 0,
        -0x1000_0000_0000_0000 <= num <= 0x1000_0000_0000_0000,
        den <= 0x1000_0000_0000_0000,
    ensures
        r == round_div(num as int, den as int),
{
    if num >= 0 {
        (2 * num + den) / (2 * den)
    } else {
        let m: i64 = -num;
        -((2 * m + den) / (2 * den))
    }
}

/// The integer square root: the largest `r` with `r * r <= n`.
pub fn isqrt_u64(n: u64) -> (r: u64)
    requires
        n <= 0x4000_0000_0000_0000,
    ensures
        is_isqrt(n as int, r as int),
        r == isqrt(n as int),
{
    // Binary search over [lo, hi): lo * lo <= n < hi * hi.
    let mut lo: u64 = 0;
    let mut hi: u64 = 0x8000_0001;
    assert(0x8000_0001 * 0x8000_0001 > 0x4000_0000_0000_0000) by (nonlinear_arith);
    while lo + 1 < hi
        invariant
            lo < hi <= 0x8000_0001,
            lo * lo <= n,
            n < hi * hi,
        decreases hi - lo,
    {
        let mid = lo + (hi - lo) / 2;
        assert(mid * mid <= 0x8000_0001 * 0x8000_0001) by (nonlinear_arith)
            requires
                mid <= 0x8000_0001,
        ;
        if mid * mid <= n {
            lo = mid;
        } else {
            hi = mid;
        }
    }
    assert(hi == lo + 1);
    proof {
        lemma_isqrt_unique(n as int, lo as int);
    }
    lo
}

} // verus!
