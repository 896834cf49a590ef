//! Integer helpers for the fixed-point vector arithmetic: truncating
//! division and the integer square root, with the lemmas the vector
//! operations and their laws are proved from.

use vstd::prelude::*;

verus! {

use vstd::arithmetic::div_mod::{lemma_fundamental_div_mod, lemma_mod_division_less_than_divisor};
use vstd::math::abs;

/// Division rounded toward zero, the rounding used by every fixed-point
/// operation in this crate.
pub open spec fn tdiv(a: int, b: int) -> int
    recommends
        b != 0,
{
    if (a < 0) == (b < 0) {
        abs(a) as int / abs(b) as int
    } else {
        -(abs(a) as int / abs(b) as int)
    }
}

/// Truncating division leaves a remainder smaller in magnitude than the
/// divisor, and a quotient no larger in magnitude than the dividend.
pub proof fn lemma_tdiv_fundamental(a: int, b: int)
    requires
        b != 0,
    ensures
        abs(a - tdiv(a, b) * b) < abs(b),
        abs(tdiv(a, b)) <= abs(a),
        a >= 0 && b > 0 ==> tdiv(a, b) == a / b,
{
    let aa: int = abs(a) as int;
    let bb: int = abs(b) as int;
    let q: int = aa / bb;
    lemma_fundamental_div_mod(aa, bb);
    lemma_mod_division_less_than_divisor(aa, bb);
    let m: int = aa % bb;
    assert(aa == bb * q + m);
    assert(0 <= m < bb);
    assert(q >= 0 && q <= aa) by (nonlinear_arith)
        requires
            aa == bb * q + m,
            0 <= m < bb,
            aa >= 0,
            bb >= 1,
    {
    }
    if a >= 0 {
        if b > 0 {
            assert(a - tdiv(a, b) * b == m) by (nonlinear_arith)
                requires
                    aa == bb * q + m,
                    a == aa,
                    b == bb,
                    tdiv(a, b) == q,
            {
            }
        } else {
            assert(a - tdiv(a, b) * b == m) by (nonlinear_arith)
                requires
                    aa == bb * q + m,
                    a == aa,
                    b == -bb,
                    tdiv(a, b) == -q,
            {
            }
        }
    } else {
        if b > 0 {
            assert(a - tdiv(a, b) * b == -m) by (nonlinear_arith)
                requires
                    aa == bb * q + m,
                    a == -aa,
                    b == bb,
                    tdiv(a, b) == -q,
            {
            }
        } else {
            assert(a - tdiv(a, b) * b == -m) by (nonlinear_arith)
                requires
                    aa == bb * q + m,
                    a == -aa,
                    b == -bb,
                    tdiv(a, b) == q,
            {
            }
        }
    }
}

/// Dividing an exact multiple gives back the factor: `tdiv(k * b, b) == k`.
pub proof fn lemma_tdiv_multiple(k: int, b: int)
    requires
        b != 0,
    ensures
        tdiv(k * b, b) == k,
{
    lemma_tdiv_fundamental(k * b, b);
    let t: int = tdiv(k * b, b);
    let rem: int = k * b - t * b;
    assert(k == t) by (nonlinear_arith)
        requires
            rem == k * b - t * b,
            -abs(b) < rem < abs(b),
            abs(b) == if b >= 0 { b } else { -b },
            b != 0,
    {
    }
}

/// A dividend of magnitude at most `c * d` has a truncated quotient of
/// magnitude at most `c`.
pub proof fn lemma_tdiv_bounded(n: int, d: int, c: int)
    requires
        d > 0,
        c >= 0,
        abs(n) <= c * d,
    ensures
        -c <= tdiv(n, d) <= c,
{
    lemma_tdiv_fundamental(n, d);
    let t: int = tdiv(n, d);
    let rem: int = n - t * d;
    assert(-c <= t <= c) by (nonlinear_arith)
        requires
            rem == n - t * d,
            -d < rem < d,
            -(c * d) <= n <= c * d,
            d > 0,
            c >= 0,
    {
    }
}

/// The product of two values in 64-bit signed range stays within
/// 128-bit signed range.
pub proof fn lemma_i64_mul_fits(a: int, b: int) by (nonlinear_arith)
    requires
        i64::MIN <= a <= i64::MAX,
        i64::MIN <= b <= i64::MAX,
    ensures
        -0x4000_0000_0000_0000_0000_0000_0000_0000 <= a * b,
        a * b <= 0x4000_0000_0000_0000_0000_0000_0000_0000,
{
}

/// Like `lemma_tdiv_bounded`, but for a divisor of either sign.
pub proof fn lemma_tdiv_bounded_signed(n: int, d: int, c: int)
    requires
        d != 0,
        c >= 0,
        abs(n) <= c * abs(d),
    ensures
        -c <= tdiv(n, d) <= c,
{
    lemma_tdiv_fundamental(n, d);
    let t: int = tdiv(n, d);
    let rem: int = n - t * d;
    assert(-c <= t <= c) by (nonlinear_arith)
        requires
            rem == n - t * d,
            -abs(d) < rem < abs(d),
            -(c * abs(d)) <= n <= c * abs(d),
            abs(d) == if d >= 0 { d } else { -d },
            d != 0,
            c >= 0,
    {
    }
}

/// Dividing one 64-bit-range value by another stays in 64-bit range,
/// except for the lone wrapping case of the smallest value and `-1`.
pub proof fn lemma_divi_fits(a: int, b: int)
    requires
        i64::MIN <= a <= i64::MAX,
        i64::MIN <= b <= i64::MAX,
        b != 0,
        !(a == i64::MIN && b == -1),
    ensures
        i64::MIN <= tdiv(a, b) <= i64::MAX,
{
    lemma_tdiv_fundamental(a, b);
    let t: int = tdiv(a, b);
    if a > i64::MIN {
        assert(abs(t) <= abs(a));
    } else if b == 1 {
        lemma_tdiv_multiple(a, 1);
        assert(t == a);
    } else {
        let aa: int = abs(a) as int;
        let bb: int = abs(b) as int;
        let q: int = aa / bb;
        lemma_fundamental_div_mod(aa, bb);
        lemma_mod_division_less_than_divisor(aa, bb);
        let m: int = aa % bb;
        assert(0 <= q <= 0x4000_0000_0000_0000) by (nonlinear_arith)
            requires
                aa == bb * q + m,
                0 <= m < bb,
                2 <= bb,
                0 <= aa <= 0x8000_0000_0000_0000,
        {
        }
    }
}

/// Truncating division on 128-bit operands, verified against `tdiv`.
pub fn div_trunc(n: i128, d: i128) -> (r: i128)
    requires
        d != 0,
        n > i128::MIN,
        d > i128::MIN,
    ensures
        r == tdiv(n as int, d as int),
{
    let nn: u128 = if n < 0 {
        (-n) as u128
    } else {
        n as u128
    };
    let dd: u128 = if d < 0 {
        (-d) as u128
    } else {
        d as u128
    };
    let q: u128 = nn / dd;
    proof {
        lemma_fundamental_div_mod(nn as int, dd as int);
        lemma_mod_division_less_than_divisor(nn as int, dd as int);
        assert(q <= nn) by (nonlinear_arith)
            requires
                nn as int == dd as int * (q as int) + nn as int % dd as int,
                0 <= nn as int % dd as int,
                dd >= 1,
                q >= 0,
        {
        }
    }
    let qi: i128 = q as i128;
    if (n < 0) != (d < 0) {
        -qi
    } else {
        qi
    }
}

/// The floor of the square root of a non-negative integer, as a spec value.
pub open spec fn isqrt(n: int) -> int {
    choose|r: int| 0 <= r && #[trigger] (r * r) <= n && n < (r + 1) * (r + 1)
}

/// Every non-negative integer has a floor square root, and `isqrt` is it.
pub proof fn lemma_isqrt_exists(n: int)
    requires
        n >= 0,
    ensures
        0 <= isqrt(n),
        isqrt(n) * isqrt(n) <= n,
        n < (isqrt(n) + 1) * (isqrt(n) + 1),
    decreases n,
{
    if n == 0 {
        assert(0 <= 0 && 0 * 0 <= 0 && 0 < (0 + 1) * (0 + 1));
        assert(exists|r: int| 0 <= r && #[trigger] (r * r) <= n && n < (r + 1) * (r + 1));
    } else {
        lemma_isqrt_exists(n - 1);
        let r0: int = isqrt(n - 1);
        if n < (r0 + 1) * (r0 + 1) {
            assert(0 <= r0 && r0 * r0 <= n && n < (r0 + 1) * (r0 + 1));
            assert(exists|r: int| 0 <= r && #[trigger] (r * r) <= n && n < (r + 1) * (r + 1));
        } else {
            assert(n == (r0 + 1) * (r0 + 1));
            assert(n < (r0 + 2) * (r0 + 2)) by (nonlinear_arith)
                requires
                    n == (r0 + 1) * (r0 + 1),
                    r0 >= 0,
            {
            }
            assert(0 <= r0 + 1 && (r0 + 1) * (r0 + 1) <= n && n < ((r0 + 1) + 1) * ((r0 + 1)
                + 1));
            assert(exists|r: int| 0 <= r && #[trigger] (r * r) <= n && n < (r + 1) * (r + 1));
        }
    }
}

/// The floor square root is unique: anything that brackets `n` the same
/// way equals `isqrt(n)`.
pub proof fn lemma_isqrt_unique(n: int, r: int)
    requires
        0 <= r,
        r * r <= n,
        n < (r + 1) * (r + 1),
    ensures
        r == isqrt(n),
{
    assert(n >= 0) by (nonlinear_arith)
        requires
            0 <= r,
            r * r <= n,
    {
    }
    lemma_isqrt_exists(n);
    let s: int = isqrt(n);
    assert(r == s) by (nonlinear_arith)
        requires
            0 <= r,
            r * r <= n,
            n < (r + 1) * (r + 1),
            0 <= s,
            s * s <= n,
            n < (s + 1) * (s + 1),
    {
    }
}

/// The floor square root of a 128-bit value, by binary search.
pub fn isqrt_u128(n: u128) -> (r: u128)
    ensures
        r * r <= n,
        n < (r + 1) * (r + 1),
        r == isqrt(n as int),
{
    let mut lo: u128 = 0;
    let mut hi: u128 = 0x1_0000_0000_0000_0000;
    assert(hi * hi > n);
    while lo + 1 < hi
        invariant
            lo < hi,
            hi <= 0x1_0000_0000_0000_0000,
            lo * lo <= n,
            n < hi * hi,
        decreases hi - lo,
    {
        let mid: u128 = lo + (hi - lo) / 2;
        assert(lo < mid < hi);
        assert(mid * mid <= u128::MAX) by (nonlinear_arith)
            requires
                mid < 0x1_0000_0000_0000_0000u128,
        {
        }
        let sq: u128 = mid * mid;
        if sq <= n {
            lo = mid;
        } else {
            hi = mid;
        }
    }
    proof {
        assert(n < (lo + 1) * (lo + 1)) by (nonlinear_arith)
            requires
                n < hi * hi,
                hi <= lo + 1,
                lo >= 0,
                hi > lo,
        {
        }
        lemma_isqrt_unique(n as int, lo as int);
    }
    lo
}

} // verus!
