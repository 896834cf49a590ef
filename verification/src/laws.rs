//! Algebraic laws of the vector operations, stated over the same spec
//! functions that the operations' contracts use and proved for every
//! input those contracts allow.

use vstd::prelude::*;

verus! {

use vstd::math::abs;

use crate::arith::{isqrt, lemma_tdiv_fundamental, lemma_tdiv_multiple, tdiv};
use crate::vector::{approx, SCALE, TOLERANCE, Vector};

/// Vector addition is commutative: adding `a` to `b` and `b` to `a`
/// gives the same vector.
pub proof fn lemma_add_commutative(a: Vector, b: Vector, ab: Vector, ba: Vector)
    requires
        ab.x == a.x + b.x,
        ab.y == a.y + b.y,
        ba.x == b.x + a.x,
        ba.y == b.y + a.y,
    ensures
        ab == ba,
{
}

/// Subtraction undoes addition exactly: `(a + b) - b == a`, so in
/// particular the difference is within tolerance of `a`.
pub proof fn lemma_add_sub_cancels(a: Vector, b: Vector, s: Vector, d: Vector)
    requires
        s.x == a.x + b.x,
        s.y == a.y + b.y,
        d.x == s.x - b.x,
        d.y == s.y - b.y,
    ensures
        d == a,
        approx(d, a),
{
}

/// Scaling by a whole-unit integer and dividing by the same integer
/// gives back the original vector exactly, for every nonzero scalar.
pub proof fn lemma_scale_divide_exact_int(v: Vector, s: int, m: Vector, r: Vector)
    requires
        s != 0,
        m.x == v.x * s,
        m.y == v.y * s,
        r.x == tdiv(m.x as int, s),
        r.y == tdiv(m.y as int, s),
    ensures
        r == v,
        approx(r, v),
{
    lemma_tdiv_multiple(v.x as int, s);
    lemma_tdiv_multiple(v.y as int, s);
}

/// One component of a fixed-point scale followed by a divide by the
/// same scalar: the round trip is off by less than `SCALE / abs(s) + 1`
/// steps, stated multiplied through by `abs(s)`.
proof fn lemma_scale_divide_component(x: int, s: int, m: int, r: int)
    requires
        s != 0,
        m == tdiv(x * s, SCALE as int),
        r == tdiv(m * SCALE, s),
    ensures
        abs((x - r) * s) < SCALE + abs(s),
{
    lemma_tdiv_fundamental(x * s, SCALE as int);
    lemma_tdiv_fundamental(m * SCALE, s);
    let e1: int = x * s - m * SCALE;
    let e2: int = m * SCALE - r * s;
    assert(abs((x - r) * s) < SCALE + abs(s)) by (nonlinear_arith)
        requires
            e1 == x * s - m * SCALE,
            e2 == m * SCALE - r * s,
            -SCALE < e1 < SCALE,
            -(abs(s) as int) < e2 < abs(s) as int,
            abs(s) == (if s >= 0 { s } else { -s }),
            abs((x - r) * s) == (if (x - r) * s >= 0 { (x - r) * s } else { -((x - r) * s) }),
    {
    }
}

/// Scaling by a fixed-point scalar and dividing by the same scalar
/// comes back to within `SCALE / abs(s) + 1` steps of the original on
/// each component, for every nonzero scalar; the bound is stated
/// multiplied through by `abs(s)`.
pub proof fn lemma_scale_divide_error(v: Vector, s: int, m: Vector, r: Vector)
    requires
        s != 0,
        m.x == tdiv(v.x * s, SCALE as int),
        m.y == tdiv(v.y * s, SCALE as int),
        r.x == tdiv(m.x * SCALE, s),
        r.y == tdiv(m.y * SCALE, s),
    ensures
        abs((v.x - r.x) * s) < SCALE + abs(s),
        abs((v.y - r.y) * s) < SCALE + abs(s),
{
    lemma_scale_divide_component(v.x as int, s, m.x as int, r.x as int);
    lemma_scale_divide_component(v.y as int, s, m.y as int, r.y as int);
}

/// For scalars of at least one unit, the fixed-point scale-then-divide
/// round trip lands within tolerance of the original vector.  (For tiny
/// scalars the first truncation can lose whole units, and the round
/// trip can miss by more than the tolerance.)
pub proof fn lemma_scale_divide_inverse(v: Vector, s: int, m: Vector, r: Vector)
    requires
        s != 0,
        abs(s) >= SCALE,
        m.x == tdiv(v.x * s, SCALE as int),
        m.y == tdiv(v.y * s, SCALE as int),
        r.x == tdiv(m.x * SCALE, s),
        r.y == tdiv(m.y * SCALE, s),
    ensures
        approx(r, v),
{
    lemma_scale_divide_error(v, s, m, r);
    assert(abs(r.x - v.x) < 2) by (nonlinear_arith)
        requires
            abs((v.x - r.x) * s) < SCALE + abs(s),
            abs(s) >= SCALE,
            SCALE > 0,
            abs(s) == (if s >= 0 { s } else { -s }),
            abs((v.x - r.x) * s) == (if (v.x - r.x) * s >= 0 {
                (v.x - r.x) * s
            } else {
                -((v.x - r.x) * s)
            }),
            abs(r.x - v.x) == (if r.x - v.x >= 0 { r.x - v.x } else { -(r.x - v.x) }),
    {
    }
    assert(abs(r.y - v.y) < 2) by (nonlinear_arith)
        requires
            abs((v.y - r.y) * s) < SCALE + abs(s),
            abs(s) >= SCALE,
            SCALE > 0,
            abs(s) == (if s >= 0 { s } else { -s }),
            abs((v.y - r.y) * s) == (if (v.y - r.y) * s >= 0 {
                (v.y - r.y) * s
            } else {
                -((v.y - r.y) * s)
            }),
            abs(r.y - v.y) == (if r.y - v.y >= 0 { r.y - v.y } else { -(r.y - v.y) }),
    {
    }
}

/// The squared length agrees with the square of the length to within
/// tolerance, and both are non-negative, for vectors up to 499 units
/// long.  (For much longer vectors the floor in the square root can
/// cost more steps than the tolerance.)
pub proof fn lemma_length_consistent(v: Vector, q: int, l: int)
    requires
        q == tdiv(v.x * v.x + v.y * v.y, SCALE as int),
        l == isqrt(v.x * v.x + v.y * v.y),
        l <= 499 * SCALE,
    ensures
        q >= 0,
        l >= 0,
        abs(q - tdiv(l * l, SCALE as int)) < TOLERANCE,
{
    let n: int = v.x * v.x + v.y * v.y;
    assert(v.x * v.x >= 0 && v.y * v.y >= 0) by (nonlinear_arith);
    crate::arith::lemma_isqrt_exists(n);
    assert(l * l >= 0) by (nonlinear_arith)
        requires
            l >= 0,
    {
    }
    assert(n <= l * l + 2 * l) by (nonlinear_arith)
        requires
            n < (l + 1) * (l + 1),
    {
    }
    lemma_tdiv_fundamental(n, SCALE as int);
    lemma_tdiv_fundamental(l * l, SCALE as int);
    let t: int = tdiv(l * l, SCALE as int);
    vstd::arithmetic::div_mod::lemma_fundamental_div_mod(n, SCALE as int);
    vstd::arithmetic::div_mod::lemma_fundamental_div_mod(l * l, SCALE as int);
    vstd::arithmetic::div_mod::lemma_mod_division_less_than_divisor(n, SCALE as int);
    vstd::arithmetic::div_mod::lemma_mod_division_less_than_divisor(l * l, SCALE as int);
    assert(0 <= q - t <= 999) by (nonlinear_arith)
        requires
            n == SCALE * q + n % (SCALE as int),
            l * l == SCALE * t + (l * l) % (SCALE as int),
            0 <= n % (SCALE as int) < SCALE,
            0 <= (l * l) % (SCALE as int) < SCALE,
            l * l <= n <= l * l + 2 * l,
            0 <= l <= 499 * SCALE,
            SCALE == 1_000_000_000,
    {
    }
}

/// Taking the reciprocal twice comes back to within tolerance of the
/// original on one component, for nonzero components up to 30 units in
/// magnitude.  (For much larger components the first reciprocal has too
/// few steps left to carry the value back.)
proof fn lemma_recip_twice_component(x: int, w: int, r: int)
    requires
        x != 0,
        abs(x) <= 30 * SCALE,
        w == tdiv(SCALE * SCALE, x),
        r == tdiv(SCALE * SCALE, w),
    ensures
        w != 0,
        abs(r - x) < TOLERANCE,
{
    lemma_tdiv_fundamental(SCALE * SCALE, x);
    let e1: int = SCALE * SCALE - w * x;
    assert(abs(w) >= 33333333) by (nonlinear_arith)
        requires
            e1 == SCALE * SCALE - w * x,
            -(abs(x) as int) < e1 < abs(x) as int,
            1 <= abs(x) <= 30 * SCALE,
            SCALE == 1_000_000_000,
            abs(x) == (if x >= 0 { x } else { -x }),
            abs(w) == (if w >= 0 { w } else { -w }),
    {
    }
    lemma_tdiv_fundamental(SCALE * SCALE, w);
    let e2: int = SCALE * SCALE - r * w;
    assert(abs(r - x) < TOLERANCE) by (nonlinear_arith)
        requires
            e1 == SCALE * SCALE - w * x,
            e2 == SCALE * SCALE - r * w,
            -(abs(x) as int) < e1 < abs(x) as int,
            -(abs(w) as int) < e2 < abs(w) as int,
            1 <= abs(x) <= 30 * SCALE,
            abs(w) >= 33333333,
            SCALE == 1_000_000_000,
            TOLERANCE == 1_000,
            abs(x) == (if x >= 0 { x } else { -x }),
            abs(w) == (if w >= 0 { w } else { -w }),
            abs(r - x) == (if r - x >= 0 { r - x } else { -(r - x) }),
    {
    }
}

/// The reciprocal is its own inverse under the component-wise product:
/// taking it twice comes back to within tolerance of the original, for
/// vectors whose components are nonzero and at most 30 units in
/// magnitude.
pub proof fn lemma_recip_involution(v: Vector, w: Vector, r: Vector)
    requires
        v.x != 0,
        v.y != 0,
        abs(v.x as int) <= 30 * SCALE,
        abs(v.y as int) <= 30 * SCALE,
        w.x == tdiv(SCALE * SCALE, v.x as int),
        w.y == tdiv(SCALE * SCALE, v.y as int),
        r.x == tdiv(SCALE * SCALE, w.x as int),
        r.y == tdiv(SCALE * SCALE, w.y as int),
    ensures
        w.x != 0,
        w.y != 0,
        approx(r, v),
{
    lemma_recip_twice_component(v.x as int, w.x as int, r.x as int);
    lemma_recip_twice_component(v.y as int, w.y as int, r.y as int);
}

/// Scaling the all-ones vector by `k` and taking the component-wise
/// product with `v` is exactly the same as scaling `v` by `k`.
pub proof fn lemma_times_one_scaled(v: Vector, k: int, m: Vector, h: Vector, g: Vector)
    requires
        m.x == tdiv(SCALE * k, SCALE as int),
        m.y == tdiv(SCALE * k, SCALE as int),
        h.x == tdiv(v.x * m.x, SCALE as int),
        h.y == tdiv(v.y * m.y, SCALE as int),
        g.x == tdiv(v.x * k, SCALE as int),
        g.y == tdiv(v.y * k, SCALE as int),
    ensures
        h == g,
{
    lemma_tdiv_multiple(k, SCALE as int);
    assert(k * SCALE == SCALE * k);
    assert(m.x == k && m.y == k);
}

/// Scaling the all-ones vector by a whole-unit integer `k` and taking
/// the component-wise product with `v` is exactly the same as scaling
/// `v` by `k`.
pub proof fn lemma_times_one_scaled_int(v: Vector, k: int, m: Vector, h: Vector, g: Vector)
    requires
        m.x == SCALE * k,
        m.y == SCALE * k,
        h.x == tdiv(v.x * m.x, SCALE as int),
        h.y == tdiv(v.y * m.y, SCALE as int),
        g.x == v.x * k,
        g.y == v.y * k,
    ensures
        h == g,
{
    assert(v.x * (SCALE * k) == (v.x * k) * SCALE && v.y * (SCALE * k) == (v.y * k) * SCALE)
        by (nonlinear_arith);
    lemma_tdiv_multiple(v.x * k, SCALE as int);
    lemma_tdiv_multiple(v.y * k, SCALE as int);
}

/// Tolerance-based equality is reflexive: every vector equals itself.
pub proof fn lemma_approx_reflexive(v: Vector)
    ensures
        approx(v, v),
{
}

/// Tolerance-based equality is symmetric: it does not matter which
/// side each vector stands on.
pub proof fn lemma_approx_symmetric(a: Vector, b: Vector)
    ensures
        approx(a, b) == approx(b, a),
{
}

} // verus!
