//! Fixed-point scalars: an `i64` holds `value * SCALE`, so one world unit is
//! `SCALE` steps. All rounding is truncation toward zero, stated exactly by
//! the spec functions here.

use vstd::prelude::*;

verus! {

/// Steps per world unit: a scalar is stored as `value * SCALE` in an `i64`.
pub const SCALE: i64 = 65536;

/// Truncated (round-toward-zero) division; the rounding every fixed-point
/// operation uses. Meaningful for `d > 0`.
pub open spec fn tdiv(x: int, d: int) -> int {
    if x >= 0 {
        x / d
    } else {
        -((-x) / d)
    }
}

/// A product of two fixed-point scalars, rescaled back.
pub open spec fn fmul(a: int, b: int) -> int {
    tdiv(a * b, SCALE as int)
}

/// A quotient of two fixed-point scalars, rescaled up. Meaningful for `b > 0`.
pub open spec fn fdiv(a: int, b: int) -> int {
    tdiv(a * SCALE, b)
}

/// `r` is the integer square root of `n`.
pub open spec fn sqrt_property(n: int, r: int) -> bool {
    0 <= r && r * r <= n && n < (r + 1) * (r + 1)
}

/// The integer square root of `n`; meaningful for `n >= 0`.
pub closed spec fn isqrt(n: int) -> int {
    choose|r: int| sqrt_property(n, r)
}

/// The square root of a fixed-point scalar: `sqrt(a / SCALE) * SCALE`
/// truncated, which is the integer square root of `a * SCALE`.
pub open spec fn fsqrt(a: int) -> int {
    isqrt(a * SCALE)
}

/// A fixed-point power with a natural exponent; the base is rescaled at each
/// step, so `fpow(b, 0) == SCALE` (one) and `fpow(b, e) == fmul(b, fpow(b, e - 1))`.
pub open spec fn fpow(b: int, e: nat) -> int
    decreases e,
{
    if e == 0 {
        SCALE as int
    } else {
        fmul(b, fpow(b, (e - 1) as nat))
    }
}

/// Every nonnegative integer has an integer square root.
proof fn lemma_sqrt_exists(n: nat) -> (r: int)
    ensures
        sqrt_property(n as int, r),
    decreases n,
{
    if n == 0 {
        assert(sqrt_property(0, 0));
        0
    } else {
        let q = lemma_sqrt_exists((n - 1) as nat);
        if (q + 1) * (q + 1) <= n {
            assert(n - 1 < (q + 1) * (q + 1));
            assert(n == (q + 1) * (q + 1));
            assert((q + 2) * (q + 2) > (q + 1) * (q + 1)) by (nonlinear_arith)
                requires
                    q >= 0,
            ;
            assert(sqrt_property(n as int, q + 1));
            q + 1
        } else {
            assert(sqrt_property(n as int, q));
            q
        }
    }
}

/// The integer square root is unique, so `isqrt(n)` is the one value with
/// `sqrt_property`.
pub proof fn lemma_isqrt(n: int, r: int)
    requires
        sqrt_property(n, r),
    ensures
        isqrt(n) == r,
{
    assert(sqrt_property(n, isqrt(n)));
    let s = isqrt(n);
    assert(s == r) by (nonlinear_arith)
        requires
            0 <= r && r * r <= n && n < (r + 1) * (r + 1),
            0 <= s && s * s <= n && n < (s + 1) * (s + 1),
    ;
}

/// `isqrt(n)` itself satisfies `sqrt_property` for any nonnegative `n`.
pub proof fn lemma_isqrt_property(n: int)
    requires
        n >= 0,
    ensures
        sqrt_property(n, isqrt(n)),
{
    let r = lemma_sqrt_exists(n as nat);
    assert(sqrt_property(n, isqrt(n)));
}

/// A product is bounded by the product of the factors' bounds.
pub proof fn lemma_prod_bound(x: int, y: int, bx: int, by: int)
    requires
        -bx <= x <= bx,
        -by <= y <= by,
        bx >= 0,
        by >= 0,
    ensures
        -(bx * by) <= x * y <= bx * by,
{
    assert(-(bx * by) <= x * y <= bx * by) by (nonlinear_arith)
        requires
            -bx <= x <= bx,
            -by <= y <= by,
            bx >= 0,
            by >= 0,
    ;
}

/// A product of nonnegative scalars rescales to a nonnegative scalar.
pub proof fn lemma_fmul_nonneg(a: int, b: int)
    requires
        a >= 0,
        b >= 0,
    ensures
        fmul(a, b) >= 0,
{
    assert(a * b >= 0) by (nonlinear_arith)
        requires
            a >= 0,
            b >= 0,
    ;
}

/// A truncated quotient of a bounded numerator by a denominator of at least
/// `dmin` stays within any `q` with `bx <= q * dmin`.
pub proof fn lemma_tdiv_le(x: int, d: int, bx: int, dmin: int, q: int)
    requires
        d >= dmin,
        dmin > 0,
        -bx <= x <= bx,
        q >= 0,
        bx <= q * dmin,
    ensures
        -q <= tdiv(x, d) <= q,
{
    if x >= 0 {
        assert(x / d <= q) by (nonlinear_arith)
            requires
                d >= dmin > 0,
                0 <= x <= bx,
                q >= 0,
                bx <= q * dmin,
        ;
        assert(x / d >= 0) by (nonlinear_arith)
            requires
                d > 0,
                x >= 0,
        ;
    } else {
        assert((-x) / d <= q) by (nonlinear_arith)
            requires
                d >= dmin > 0,
                0 < -x <= bx,
                q >= 0,
                bx <= q * dmin,
        ;
        assert((-x) / d >= 0) by (nonlinear_arith)
            requires
                d > 0,
                -x > 0,
        ;
    }
}

/// Fixed-point multiplication.
pub fn fx_mul(a: i64, b: i64) -> (r: i64)
    requires
        i64::MIN * (SCALE as int) <= a * b <= i64::MAX * (SCALE as int),
    ensures
        r == fmul(a as int, b as int),
{
    let p: i128 = (a as i128) * (b as i128);
    proof {
        assert(p == a * b);
        assert(tdiv(p as int, SCALE as int) == fmul(a as int, b as int));
        if p >= 0 {
            assert(p / 65536 <= p);
            assert(p / 65536 <= i64::MAX) by {
                assert(p <= i64::MAX * 65536);
            }
        } else {
            assert((-p) / 65536 <= -p);
            assert((-p) / 65536 <= -(i64::MIN as int)) by {
                assert(-p <= -(i64::MIN * 65536));
            }
        }
    }
    let q: i128 = p.checked_div(65536).unwrap();
    q as i64
}

/// Fixed-point division by a positive scalar.
pub fn fx_div(a: i64, b: i64) -> (r: i64)
    requires
        b > 0,
        i64::MIN * (b as int) <= a * (SCALE as int) <= i64::MAX * (b as int),
    ensures
        r == fdiv(a as int, b as int),
{
    let p: i128 = (a as i128) * 65536;
    proof {
        if p >= 0 {
            assert((p as int) / (b as int) <= i64::MAX) by (nonlinear_arith)
                requires
                    b > 0,
                    p <= i64::MAX * (b as int),
                    p >= 0,
            ;
            assert((p as int) / (b as int) >= 0) by (nonlinear_arith)
                requires
                    b > 0,
                    p >= 0,
            ;
        } else {
            assert((-(p as int)) / (b as int) <= -(i64::MIN as int)) by (nonlinear_arith)
                requires
                    b > 0,
                    i64::MIN * (b as int) <= p < 0,
            ;
            assert((-(p as int)) / (b as int) >= 0) by (nonlinear_arith)
                requires
                    b > 0,
                    p < 0,
            ;
        }
    }
    let q: i128 = p.checked_div(b as i128).unwrap();
    q as i64
}

/// The integer square root, by binary search.
pub fn isqrt128(n: u128) -> (r: u128)
    requires
        n < 0x1000000000000000000000000000000,
    ensures
        r == isqrt(n as int),
        sqrt_property(n as int, r as int),
{
    let mut lo: u128 = 0;
    let mut hi: u128 = 0x1000000000000000;
    proof {
        assert((hi as int) * (hi as int) == 0x1000000000000000000000000000000);
    }
    while lo + 1 < hi
        invariant
            0 <= lo < hi <= 0x1000000000000000,
            (lo as int) * (lo as int) <= n as int,
            (n as int) < (hi as int) * (hi as int),
        decreases hi - lo,
    {
        let mid: u128 = lo + (hi - lo) / 2;
        proof {
            assert(lo < mid < hi);
            assert((mid as int) * (mid as int) < 0x100000000000000000000000000000000) by (nonlinear_arith)
                requires
                    0 <= mid <= 0x1000000000000000,
            ;
        }
        if mid * mid <= n {
            lo = mid;
        } else {
            hi = mid;
        }
    }
    proof {
        assert(hi == lo + 1);
        lemma_isqrt(n as int, lo as int);
    }
    lo
}

/// The square root of a nonnegative fixed-point scalar.
pub fn fx_sqrt(a: i64) -> (r: i64)
    requires
        a >= 0,
    ensures
        r == fsqrt(a as int),
        sqrt_property(a * SCALE, r as int),
        r >= 0,
{
    let n: u128 = (a as u128) * 65536;
    let s: u128 = isqrt128(n);
    proof {
        assert((s as int) * (s as int) <= n as int);
        assert(s < 0x10000000000) by (nonlinear_arith)
            requires
                (s as int) * (s as int) <= n as int,
                n < 0x100000000000000000000,
                s >= 0,
        ;
    }
    s as i64
}

/// A fixed-point power with a natural exponent; the base must lie in
/// `[0, SCALE]` (zero to one), so the result does too.
pub fn fx_pow(base: i64, e: u32) -> (r: i64)
    requires
        0 <= base <= SCALE,
    ensures
        r == fpow(base as int, e as nat),
        0 <= r <= SCALE,
{
    let mut acc: i64 = SCALE;
    let mut i: u32 = 0;
    while i < e
        invariant
            0 <= base <= SCALE,
            0 <= i <= e,
            0 <= acc <= SCALE,
            acc == fpow(base as int, i as nat),
        decreases e - i,
    {
        proof {
            lemma_fmul_unit_range(base as int, acc as int);
            assert(base * acc <= i64::MAX * (SCALE as int)) by (nonlinear_arith)
                requires
                    0 <= base <= SCALE,
                    0 <= acc <= SCALE,
                    SCALE == 65536,
            ;
        }
        acc = fx_mul(base, acc);
        i = i + 1;
    }
    acc
}

/// A product of two scalars in `[0, SCALE]` stays in `[0, SCALE]`.
pub proof fn lemma_fmul_unit_range(a: int, b: int)
    requires
        0 <= a <= SCALE,
        0 <= b <= SCALE,
    ensures
        0 <= fmul(a, b) <= SCALE,
{
    assert(0 <= a * b <= (SCALE as int) * (SCALE as int)) by (nonlinear_arith)
        requires
            0 <= a <= SCALE,
            0 <= b <= SCALE,
    ;
    assert(a * b / (SCALE as int) <= SCALE);
}

/// Every power of a base in `[0, SCALE]` stays in `[0, SCALE]`.
pub proof fn lemma_fpow_range(b: int, e: nat)
    requires
        0 <= b <= SCALE,
    ensures
        0 <= fpow(b, e) <= SCALE,
    decreases e,
{
    if e > 0 {
        lemma_fpow_range(b, (e - 1) as nat);
        lemma_fmul_unit_range(b, fpow(b, (e - 1) as nat));
    }
}

} // verus!
