//! Fixed-point scalar arithmetic.
//!
//! Every scalar of this library is an `i64` counting units of `1 / SCALE`,
//! so the value `1.0` is represented by `SCALE`.  Products and quotients are
//! rescaled with Euclidean (floor-towards-minus-infinity for positive
//! divisors) division, and intermediate results are taken through `i128` so
//! that geometric formulas never overflow for scene data within `VMAX`.

use vstd::prelude::*;

verus! {

use vstd::arithmetic::div_mod::lemma_fundamental_div_mod;

/// Number of sub-unit steps per unit: the scalar `SCALE` stands for `1.0`.
pub const SCALE: i64 = 65536;

/// Magnitude bound on the scalars that scene geometry may hold
/// (`VMAX / SCALE` whole units); it keeps every intermediate of the
/// intersection formulas inside `i128`.
pub const VMAX: i64 = 0x8_0000_0000;

/// Scaled product of two fixed-point scalars.
pub open spec fn fmul_s(a: int, b: int) -> int {
    (a * b) / (SCALE as int)
}

/// Scaled quotient of two fixed-point scalars.
pub open spec fn fdiv_s(a: int, b: int) -> int {
    (a * (SCALE as int)) / b
}

/// A scalar small enough to take part in intersection arithmetic.
pub open spec fn scalar_ok(a: int) -> bool {
    -(VMAX as int) <= a <= VMAX as int
}

/// Quotient bounds for a positive divisor: dividing never grows a magnitude.
pub proof fn lemma_div_bounds(p: int, d: int)
    requires
        d >= 1,
    ensures
        p >= 0 ==> 0 <= p / d <= p,
        p < 0 ==> p <= p / d <= 0,
{
    lemma_fundamental_div_mod(p, d);
    let q = p / d;
    let r = p % d;
    assert(p >= 0 ==> 0 <= q <= p) by (nonlinear_arith)
        requires
            d >= 1,
            p == d * q + r,
            0 <= r < d,
    ;
    assert(p < 0 ==> p <= q <= 0) by (nonlinear_arith)
        requires
            d >= 1,
            p == d * q + r,
            0 <= r < d,
    ;
}

/// Euclidean division of `a` by a negative divisor is the negated quotient
/// by the negated divisor.
pub proof fn lemma_div_neg_divisor(a: int, b: int)
    requires
        b < 0,
    ensures
        a / b == -(a / (-b)),
{
    lemma_fundamental_div_mod(a, b);
    lemma_fundamental_div_mod(a, -b);
    let q1 = a / b;
    let r1 = a % b;
    let q2 = a / (-b);
    let r2 = a % (-b);
    assert(0 <= r1 < -b) by (nonlinear_arith)
        requires
            b < 0,
            r1 == a % b,
    ;
    assert(0 <= r2 < -b) by (nonlinear_arith)
        requires
            b < 0,
            r2 == a % (-b),
    ;
    assert(q1 == -q2) by (nonlinear_arith)
        requires
            b < 0,
            a == b * q1 + r1,
            a == (-b) * q2 + r2,
            0 <= r1 < -b,
            0 <= r2 < -b,
    ;
}

/// Negating a numerator rounds the Euclidean quotient the other way.
pub proof fn lemma_div_neg_numerator(p: int, d: int)
    requires
        d >= 1,
    ensures
        (-p) / d <= -(p / d),
        -(p / d) <= (-p) / d + 1,
{
    lemma_fundamental_div_mod(p, d);
    let q = p / d;
    let r = p % d;
    if r == 0 {
        assert((-q) * d == -(d * q)) by (nonlinear_arith);
        vstd::arithmetic::div_mod::lemma_fundamental_div_mod_converse(-p, d, -q, 0);
    } else {
        assert((-q - 1) * d == -(d * q) - d) by (nonlinear_arith);
        vstd::arithmetic::div_mod::lemma_fundamental_div_mod_converse(-p, d, -q - 1, d - r);
    }
}

/// The scaled product is monotone in its first factor, with the direction
/// set by the second factor's sign.
pub proof fn lemma_fmul_s_monotone(a1: int, a2: int, b: int)
    requires
        a1 <= a2,
    ensures
        b >= 0 ==> fmul_s(a1, b) <= fmul_s(a2, b),
        b < 0 ==> fmul_s(a2, b) <= fmul_s(a1, b),
{
    assert(b >= 0 ==> a1 * b <= a2 * b) by (nonlinear_arith)
        requires
            a1 <= a2,
    ;
    assert(b < 0 ==> a2 * b <= a1 * b) by (nonlinear_arith)
        requires
            a1 <= a2,
    ;
    if b >= 0 {
        vstd::arithmetic::div_mod::lemma_div_is_ordered(a1 * b, a2 * b, SCALE as int);
    } else {
        vstd::arithmetic::div_mod::lemma_div_is_ordered(a2 * b, a1 * b, SCALE as int);
    }
}

/// The scaled quotient is monotone in its numerator for a positive divisor.
pub proof fn lemma_fdiv_s_monotone(a1: int, a2: int, b: int)
    requires
        a1 <= a2,
        b >= 1,
    ensures
        fdiv_s(a1, b) <= fdiv_s(a2, b),
{
    vstd::arithmetic::div_mod::lemma_div_is_ordered(a1 * (SCALE as int), a2 * (SCALE as int), b);
}

/// Scaled product, computed without overflow for any two `i64` scalars.
pub fn fmul_wide(a: i64, b: i64) -> (r: i128)
    ensures
        r as int == fmul_s(a as int, b as int),
{
    proof {
        assert(-0x4000_0000_0000_0000_0000_0000_0000_0000 <= (a as int) * (b as int)
            <= 0x4000_0000_0000_0000_0000_0000_0000_0000) by (nonlinear_arith)
            requires
                -0x8000_0000_0000_0000 <= a as int <= 0x7fff_ffff_ffff_ffff,
                -0x8000_0000_0000_0000 <= b as int <= 0x7fff_ffff_ffff_ffff,
        ;
    }
    let p: i128 = (a as i128) * (b as i128);
    proof {
        lemma_div_bounds(p as int, SCALE as int);
    }
    let q: i128 = p.checked_div_euclid(65536).unwrap();
    q
}

/// Scaled quotient with a wide numerator; total for every nonzero divisor.
pub fn fdiv_wide(a: i128, b: i64) -> (r: i128)
    requires
        b != 0,
        -0x4000_0000_0000_0000_0000_0000_0000 <= a <= 0x4000_0000_0000_0000_0000_0000_0000,
    ensures
        r as int == (a * (SCALE as int)) / (b as int),
{
    let p: i128 = a * 65536;
    let bb: i128 = b as i128;
    if b > 0 {
        proof {
            lemma_div_bounds(p as int, bb as int);
        }
        p.checked_div_euclid(bb).unwrap()
    } else {
        proof {
            lemma_div_bounds(p as int, -bb as int);
            lemma_div_neg_divisor(p as int, bb as int);
        }
        let q: i128 = p.checked_div_euclid(-bb).unwrap();
        -q
    }
}

/// Scaled product of two wide scalars of moderate size.
pub fn fmul_ww(a: i128, b: i128) -> (r: i128)
    requires
        -0x1000_0000_0000_0000 <= a <= 0x1000_0000_0000_0000,
        -0x1000_0000_0000_0000 <= b <= 0x1000_0000_0000_0000,
    ensures
        r as int == (a * b) / (SCALE as int),
{
    proof {
        assert(-0x1000_0000_0000_0000 * 0x1000_0000_0000_0000 <= a * b <= 0x1000_0000_0000_0000
            * 0x1000_0000_0000_0000) by (nonlinear_arith)
            requires
                -0x1000_0000_0000_0000 <= a <= 0x1000_0000_0000_0000,
                -0x1000_0000_0000_0000 <= b <= 0x1000_0000_0000_0000,
        ;
    }
    let p: i128 = a * b;
    proof {
        lemma_div_bounds(p as int, SCALE as int);
    }
    p.checked_div_euclid(65536).unwrap()
}

/// Scaled product of two scalars whose result stays in `i64`.
pub fn fmul(a: i64, b: i64) -> (r: i64)
    requires
        i64::MIN <= fmul_s(a as int, b as int) <= i64::MAX,
    ensures
        r as int == fmul_s(a as int, b as int),
{
    let q: i128 = fmul_wide(a, b);
    q as i64
}

/// Scaled quotient of two scalars whose result stays in `i64`.
pub fn fdiv(a: i64, b: i64) -> (r: i64)
    requires
        b != 0,
        i64::MIN <= fdiv_s(a as int, b as int) <= i64::MAX,
    ensures
        r as int == fdiv_s(a as int, b as int),
{
    let q: i128 = fdiv_wide(a as i128, b);
    q as i64
}

/// Clamp a scalar into `[min, max]`.
pub fn clamp(value: i64, min: i64, max: i64) -> (r: i64)
    ensures
        r == clamp_s(value as int, min as int, max as int),
{
    if value < min {
        min
    } else if value > max {
        max
    } else {
        value
    }
}

/// What `clamp` returns.
pub open spec fn clamp_s(value: int, min: int, max: int) -> int {
    if value < min {
        min
    } else if value > max {
        max
    } else {
        value
    }
}

/// The integer square root, defined by counting up.
pub open spec fn isqrt_s(n: int) -> int
    decreases n,
{
    if n <= 0 {
        0
    } else {
        let r = isqrt_s(n - 1);
        if (r + 1) * (r + 1) <= n {
            r + 1
        } else {
            r
        }
    }
}

/// `isqrt_s(n)` is the rounded-down square root of `n`.
pub proof fn lemma_isqrt(n: int)
    requires
        n >= 0,
    ensures
        isqrt_s(n) >= 0,
        isqrt_s(n) * isqrt_s(n) <= n,
        n < (isqrt_s(n) + 1) * (isqrt_s(n) + 1),
    decreases n,
{
    if n == 0 {
    } else {
        lemma_isqrt(n - 1);
        let r = isqrt_s(n - 1);
        assert(r * r <= n - 1 < n);
        if (r + 1) * (r + 1) <= n {
            assert(n - 1 < (r + 1) * (r + 1));
            assert((r + 2) * (r + 2) > (r + 1) * (r + 1) + 1) by (nonlinear_arith)
                requires
                    r >= 0,
            ;
        }
    }
}

/// Any value with the rounded-down-square-root property is `isqrt_s(n)`.
pub proof fn lemma_isqrt_unique(n: int, r: int)
    requires
        n >= 0,
        r >= 0,
        r * r <= n,
        n < (r + 1) * (r + 1),
    ensures
        r == isqrt_s(n),
{
    lemma_isqrt(n);
    let q = isqrt_s(n);
    if r < q {
        assert((r + 1) * (r + 1) <= q * q) by (nonlinear_arith)
            requires
                0 <= r,
                r + 1 <= q,
        ;
    }
    if q < r {
        assert((q + 1) * (q + 1) <= r * r) by (nonlinear_arith)
            requires
                0 <= q,
                q + 1 <= r,
        ;
    }
}

/// Square root of a wide scaled value: `fsqrt_wide(a)` is the fixed-point
/// root of the fixed-point scalar `a`, found as `isqrt_s(a * SCALE)`.
pub fn fsqrt_wide(a: i128) -> (r: i128)
    requires
        0 <= a <= 0x4000_0000_0000_0000_0000_0000_0000,
    ensures
        r as int == isqrt_s(a * (SCALE as int)),
        0 <= r,
        r * r <= a * (SCALE as int),
        a * (SCALE as int) < (r + 1) * (r + 1),
{
    let n: i128 = a * 65536;
    let mut lo: i128 = 0;
    let mut hi: i128 = 0x8000_0000_0000_0001;
    proof {
        assert(hi * hi > n) by (nonlinear_arith)
            requires
                hi == 0x8000_0000_0000_0001,
                n <= 0x4000_0000_0000_0000_0000_0000_0000 * 65536,
        ;
    }
    while lo + 1 < hi
        invariant
            0 <= lo < hi <= 0x8000_0000_0000_0001,
            lo * lo <= n,
            n < hi * hi,
            n == a * (SCALE as int),
        decreases hi - lo,
    {
        let mid: i128 = lo + (hi - lo) / 2;
        proof {
            assert(lo < mid < hi);
            assert(mid * mid <= 0x8000_0000_0000_0001 * 0x8000_0000_0000_0001) by (nonlinear_arith)
                requires
                    0 <= mid <= 0x8000_0000_0000_0001,
            ;
        }
        if mid * mid <= n {
            lo = mid;
        } else {
            hi = mid;
        }
    }
    proof {
        lemma_isqrt_unique(n as int, lo as int);
    }
    lo
}

/// Square root of an `i64` scalar.
pub fn fsqrt(a: i64) -> (r: i64)
    requires
        a >= 0,
    ensures
        r as int == isqrt_s(a * (SCALE as int)),
        0 <= r,
        r * r <= a * (SCALE as int),
        a * (SCALE as int) < (r + 1) * (r + 1),
{
    let w: i128 = fsqrt_wide(a as i128);
    proof {
        assert(w <= 0x1_0000_0000_0000) by (nonlinear_arith)
            requires
                0 <= w,
                w * w <= (a as int) * 65536,
                a <= 0x7fff_ffff_ffff_ffff,
        ;
    }
    w as i64
}

} // verus!
