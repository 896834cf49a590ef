//! An immutable 2D vector with fixed-point components.
//!
//! A component is a signed 64-bit count of `SCALE`-ths of a unit
//! (billionths), so `newi(5, 10)` holds `(5 * SCALE, 10 * SCALE)`.
//! Every operation returns a new vector and states its result exactly,
//! over the mathematical integers, using truncating division `tdiv`
//! where a product or quotient is scaled back down.

use vstd::prelude::*;

verus! {

use vstd::math::abs;

use crate::arith::{
    div_trunc, isqrt, isqrt_u128, lemma_divi_fits, lemma_i64_mul_fits, lemma_tdiv_bounded,
    lemma_tdiv_bounded_signed, tdiv,
};

/// Fixed-point steps per unit: components count billionths of a unit.
pub const SCALE: i64 = 1_000_000_000;

/// Two vectors are equal when each pair of components differs by fewer
/// than this many steps: one millionth of a unit.
pub const TOLERANCE: i64 = 1_000;

/// A 2D vector; each component is a count of `SCALE`-ths of a unit.
#[derive(Copy, Clone, Debug)]
pub struct Vector {
    pub x: i64,
    pub y: i64,
}

/// The tolerance-based equality relation on vectors: each pair of
/// components differs by less than `TOLERANCE` steps.  This is what
/// `==` on vectors means; it is reflexive and symmetric but not
/// transitive for values clustered at the tolerance boundary.
pub open spec fn approx(a: Vector, b: Vector) -> bool {
    abs(a.x - b.x) < TOLERANCE && abs(a.y - b.y) < TOLERANCE
}

/// One component clamped to `[lo, hi]` as `max(lo, min(hi, v))`:
/// capped at `hi` first, then raised to `lo`, so with crossed bounds
/// the lower bound wins.
pub open spec fn clamp_one(v: int, lo: int, hi: int) -> int {
    let capped = if v > hi {
        hi
    } else {
        v
    };
    if capped < lo {
        lo
    } else {
        capped
    }
}

impl Vector {
    /// The zero vector.
    pub fn zero() -> (r: Vector)
        ensures
            r.x == 0,
            r.y == 0,
    {
        Vector { x: 0, y: 0 }
    }

    /// The unit vector along the x axis.
    pub fn x() -> (r: Vector)
        ensures
            r.x == SCALE,
            r.y == 0,
    {
        Vector { x: SCALE, y: 0 }
    }

    /// The unit vector along the y axis.
    pub fn y() -> (r: Vector)
        ensures
            r.x == 0,
            r.y == SCALE,
    {
        Vector { x: 0, y: SCALE }
    }

    /// The vector with both components one unit.
    pub fn one() -> (r: Vector)
        ensures
            r.x == SCALE,
            r.y == SCALE,
    {
        Vector { x: SCALE, y: SCALE }
    }

    /// A vector from raw fixed-point components, in steps.
    pub fn new(x: i64, y: i64) -> (r: Vector)
        ensures
            r.x == x,
            r.y == y,
    {
        Vector { x, y }
    }

    /// A vector from whole-unit integer components.
    pub fn newi(x: i32, y: i32) -> (r: Vector)
        ensures
            r.x == x * SCALE,
            r.y == y * SCALE,
    {
        Vector::new((x as i64) * SCALE, (y as i64) * SCALE)
    }

    /// The squared length, in steps: `(x * x + y * y) / SCALE`, rounded
    /// toward zero.  Never negative.  Cheaper than `len` when only
    /// relative magnitudes matter: no square root is taken.
    pub fn len2(self) -> (r: i64)
        requires
            self.x * self.x + self.y * self.y <= i64::MAX * SCALE,
        ensures
            r == tdiv(self.x * self.x + self.y * self.y, SCALE as int),
            r >= 0,
    {
        proof {
            lemma_i64_mul_fits(self.x as int, self.x as int);
            lemma_i64_mul_fits(self.y as int, self.y as int);
            assert(self.x * self.x >= 0 && self.y * self.y >= 0) by (nonlinear_arith);
            lemma_tdiv_bounded(
                self.x * self.x + self.y * self.y,
                SCALE as int,
                i64::MAX as int,
            );
        }
        let n: i128 = (self.x as i128) * (self.x as i128) + (self.y as i128) * (self.y as i128);
        let r: i128 = div_trunc(n, SCALE as i128);
        r as i64
    }

    /// The length, in steps: the floor of the square root of
    /// `x * x + y * y`.  Never negative, and zero exactly for the zero
    /// vector.
    pub fn len(self) -> (r: i64)
        requires
            self.x * self.x + self.y * self.y <= i64::MAX * i64::MAX,
        ensures
            r == isqrt(self.x * self.x + self.y * self.y),
            r >= 0,
            r == 0 <==> self.x == 0 && self.y == 0,
    {
        proof {
            lemma_i64_mul_fits(self.x as int, self.x as int);
            lemma_i64_mul_fits(self.y as int, self.y as int);
            assert(self.x * self.x >= 0 && self.y * self.y >= 0) by (nonlinear_arith);
            assert(self.x != 0 ==> self.x * self.x >= 1) by (nonlinear_arith);
            assert(self.y != 0 ==> self.y * self.y >= 1) by (nonlinear_arith);
        }
        let n: i128 = (self.x as i128) * (self.x as i128) + (self.y as i128) * (self.y as i128);
        let s: u128 = isqrt_u128(n as u128);
        proof {
            assert(s <= i64::MAX) by (nonlinear_arith)
                requires
                    (s as int) * (s as int) <= i64::MAX * i64::MAX,
                    s >= 0,
            {
            }
            let m: int = self.x * self.x + self.y * self.y;
            assert(s == 0 ==> m == 0) by (nonlinear_arith)
                requires
                    m < ((s as int) + 1) * ((s as int) + 1),
                    m >= 0,
            {
            }
            assert(m == 0 ==> s == 0) by (nonlinear_arith)
                requires
                    (s as int) * (s as int) <= m,
                    s >= 0,
            {
            }
        }
        s as i64
    }

    /// Each component clamped independently to the matching components
    /// of the bounds, as `max(min_bound, min(max_bound, value))`:
    /// capped at the upper bound first, then raised to the lower one.
    /// When the bounds are ordered, the result lies between them.
    pub fn clamp(self, min_bound: Vector, max_bound: Vector) -> (r: Vector)
        ensures
            r.x == clamp_one(self.x as int, min_bound.x as int, max_bound.x as int),
            r.y == clamp_one(self.y as int, min_bound.y as int, max_bound.y as int),
            min_bound.x <= max_bound.x ==> min_bound.x <= r.x <= max_bound.x,
            min_bound.y <= max_bound.y ==> min_bound.y <= r.y <= max_bound.y,
    {
        let cx: i64 = if self.x > max_bound.x {
            max_bound.x
        } else {
            self.x
        };
        let cy: i64 = if self.y > max_bound.y {
            max_bound.y
        } else {
            self.y
        };
        Vector::new(
            if cx < min_bound.x {
                min_bound.x
            } else {
                cx
            },
            if cy < min_bound.y {
                min_bound.y
            } else {
                cy
            },
        )
    }

    /// The scalar 2D cross product `x * other.y - y * other.x`, in
    /// steps; its sign gives the rotational orientation of `other`
    /// relative to `self`.
    pub fn cross(self, other: Vector) -> (r: i64)
        requires
            abs(self.x * other.y - self.y * other.x) <= i64::MAX * SCALE,
        ensures
            r == tdiv(self.x * other.y - self.y * other.x, SCALE as int),
    {
        proof {
            lemma_i64_mul_fits(self.x as int, other.y as int);
            lemma_i64_mul_fits(self.y as int, other.x as int);
            lemma_tdiv_bounded(
                self.x * other.y - self.y * other.x,
                SCALE as int,
                i64::MAX as int,
            );
        }
        let n: i128 = (self.x as i128) * (other.y as i128) - (self.y as i128) * (other.x as i128);
        let r: i128 = div_trunc(n, SCALE as i128);
        r as i64
    }

    /// The dot product `x * other.x + y * other.y`, in steps.
    pub fn dot(self, other: Vector) -> (r: i64)
        requires
            abs(self.x * other.x + self.y * other.y) <= i64::MAX * SCALE,
        ensures
            r == tdiv(self.x * other.x + self.y * other.y, SCALE as int),
    {
        proof {
            lemma_i64_mul_fits(self.x as int, other.x as int);
            lemma_i64_mul_fits(self.y as int, other.y as int);
            lemma_tdiv_bounded(
                self.x * other.x + self.y * other.y,
                SCALE as int,
                i64::MAX as int,
            );
        }
        let n: i128 = (self.x as i128) * (other.x as i128) + (self.y as i128) * (other.y as i128);
        let r: i128 = div_trunc(n, SCALE as i128);
        r as i64
    }

    /// The vector scaled to length one unit: each component is
    /// `x * SCALE / len`, rounded toward zero.  The result's components
    /// never exceed one unit in magnitude.
    pub fn normalize(self) -> (r: Vector)
        requires
            1 <= self.x * self.x + self.y * self.y,
            self.x * self.x + self.y * self.y <= i64::MAX * i64::MAX,
        ensures
            r.x == tdiv(self.x * SCALE, isqrt(self.x * self.x + self.y * self.y)),
            r.y == tdiv(self.y * SCALE, isqrt(self.x * self.x + self.y * self.y)),
            abs(r.x as int) <= SCALE,
            abs(r.y as int) <= SCALE,
    {
        let l: i64 = self.len();
        proof {
            let n: int = self.x * self.x + self.y * self.y;
            assert(self.x * self.x >= 0 && self.y * self.y >= 0) by (nonlinear_arith);
            crate::arith::lemma_isqrt_exists(n);
            assert(l >= 1);
            assert(-l <= self.x <= l && -l <= self.y <= l) by (nonlinear_arith)
                requires
                    self.x * self.x <= n,
                    self.y * self.y <= n,
                    n < (l + 1) * (l + 1),
                    l >= 0,
            {
            }
            assert(-(SCALE * (l as int)) <= self.x * SCALE <= SCALE * (l as int))
                by (nonlinear_arith)
                requires
                    -l <= self.x <= l,
                    SCALE > 0,
            {
            }
            assert(-(SCALE * (l as int)) <= self.y * SCALE <= SCALE * (l as int))
                by (nonlinear_arith)
                requires
                    -l <= self.y <= l,
                    SCALE > 0,
            {
            }
            lemma_tdiv_bounded(self.x * SCALE, l as int, SCALE as int);
            lemma_tdiv_bounded(self.y * SCALE, l as int, SCALE as int);
        }
        let rx: i128 = div_trunc((self.x as i128) * (SCALE as i128), l as i128);
        let ry: i128 = div_trunc((self.y as i128) * (SCALE as i128), l as i128);
        Vector::new(rx as i64, ry as i64)
    }

    /// Only the x component, as a vector.
    pub fn x_comp(self) -> (r: Vector)
        ensures
            r.x == self.x,
            r.y == 0,
    {
        Vector::new(self.x, 0)
    }

    /// Only the y component, as a vector.
    pub fn y_comp(self) -> (r: Vector)
        ensures
            r.x == 0,
            r.y == self.y,
    {
        Vector::new(0, self.y)
    }

    /// The component-wise reciprocal `(1 / x, 1 / y)`: each component
    /// becomes `SCALE * SCALE / component`, rounded toward zero.  Both
    /// components must be nonzero; this fixed-point form has no infinity
    /// to return for a zero component.
    pub fn recip(self) -> (r: Vector)
        requires
            self.x != 0,
            self.y != 0,
        ensures
            r.x == tdiv(SCALE * SCALE, self.x as int),
            r.y == tdiv(SCALE * SCALE, self.y as int),
    {
        proof {
            let ax: int = abs(self.x as int) as int;
            let ay: int = abs(self.y as int) as int;
            assert(SCALE * SCALE <= (SCALE * SCALE) * ax) by (nonlinear_arith)
                requires
                    ax >= 1,
            {
            }
            assert(SCALE * SCALE <= (SCALE * SCALE) * ay) by (nonlinear_arith)
                requires
                    ay >= 1,
            {
            }
            lemma_tdiv_bounded_signed(SCALE * SCALE, self.x as int, SCALE * SCALE);
            lemma_tdiv_bounded_signed(SCALE * SCALE, self.y as int, SCALE * SCALE);
        }
        let s2: i128 = (SCALE as i128) * (SCALE as i128);
        Vector::new(
            div_trunc(s2, self.x as i128) as i64,
            div_trunc(s2, self.y as i128) as i64,
        )
    }

    /// The negation `(-x, -y)`.
    pub fn neg(self) -> (r: Vector)
        requires
            self.x > i64::MIN,
            self.y > i64::MIN,
        ensures
            r.x == -self.x,
            r.y == -self.y,
    {
        Vector::new(-self.x, -self.y)
    }

    /// The component-wise sum.
    pub fn add(self, rhs: Vector) -> (r: Vector)
        requires
            i64::MIN <= self.x + rhs.x <= i64::MAX,
            i64::MIN <= self.y + rhs.y <= i64::MAX,
        ensures
            r.x == self.x + rhs.x,
            r.y == self.y + rhs.y,
    {
        Vector::new(self.x + rhs.x, self.y + rhs.y)
    }

    /// The compound form of `add`: computes the sum, then overwrites.
    pub fn add_assign(&mut self, rhs: Vector)
        requires
            i64::MIN <= old(self).x + rhs.x <= i64::MAX,
            i64::MIN <= old(self).y + rhs.y <= i64::MAX,
        ensures
            final(self).x == old(self).x + rhs.x,
            final(self).y == old(self).y + rhs.y,
    {
        *self = (*self).add(rhs);
    }

    /// The component-wise difference, computed as `self + (-rhs)`.
    pub fn sub(self, rhs: Vector) -> (r: Vector)
        requires
            rhs.x > i64::MIN,
            rhs.y > i64::MIN,
            i64::MIN <= self.x - rhs.x <= i64::MAX,
            i64::MIN <= self.y - rhs.y <= i64::MAX,
        ensures
            r.x == self.x - rhs.x,
            r.y == self.y - rhs.y,
    {
        self.add(rhs.neg())
    }

    /// The compound form of `sub`: computes the difference, then
    /// overwrites.
    pub fn sub_assign(&mut self, rhs: Vector)
        requires
            rhs.x > i64::MIN,
            rhs.y > i64::MIN,
            i64::MIN <= old(self).x - rhs.x <= i64::MAX,
            i64::MIN <= old(self).y - rhs.y <= i64::MAX,
        ensures
            final(self).x == old(self).x - rhs.x,
            final(self).y == old(self).y - rhs.y,
    {
        *self = (*self).sub(rhs);
    }

    /// The vector scaled by a fixed-point scalar, in steps:
    /// `(x * s / SCALE, y * s / SCALE)`, rounded toward zero.
    pub fn mul(self, s: i64) -> (r: Vector)
        requires
            abs(self.x * s) <= i64::MAX * SCALE,
            abs(self.y * s) <= i64::MAX * SCALE,
        ensures
            r.x == tdiv(self.x * s, SCALE as int),
            r.y == tdiv(self.y * s, SCALE as int),
    {
        proof {
            lemma_i64_mul_fits(self.x as int, s as int);
            lemma_i64_mul_fits(self.y as int, s as int);
            lemma_tdiv_bounded(self.x * s, SCALE as int, i64::MAX as int);
            lemma_tdiv_bounded(self.y * s, SCALE as int, i64::MAX as int);
        }
        Vector::new(
            div_trunc((self.x as i128) * (s as i128), SCALE as i128) as i64,
            div_trunc((self.y as i128) * (s as i128), SCALE as i128) as i64,
        )
    }

    /// The compound form of `mul`: computes the product, then overwrites.
    pub fn mul_assign(&mut self, s: i64)
        requires
            abs(old(self).x * s) <= i64::MAX * SCALE,
            abs(old(self).y * s) <= i64::MAX * SCALE,
        ensures
            final(self).x == tdiv(old(self).x * s, SCALE as int),
            final(self).y == tdiv(old(self).y * s, SCALE as int),
    {
        *self = (*self).mul(s);
    }

    /// The vector scaled by a whole-unit integer scalar: exact, the
    /// fixed-point counterpart of converting the integer and then
    /// scaling.
    pub fn muli(self, s: i64) -> (r: Vector)
        requires
            i64::MIN <= self.x * s <= i64::MAX,
            i64::MIN <= self.y * s <= i64::MAX,
        ensures
            r.x == self.x * s,
            r.y == self.y * s,
    {
        proof {
            lemma_i64_mul_fits(self.x as int, s as int);
            lemma_i64_mul_fits(self.y as int, s as int);
        }
        Vector::new(
            ((self.x as i128) * (s as i128)) as i64,
            ((self.y as i128) * (s as i128)) as i64,
        )
    }

    /// The compound form of `muli`.
    pub fn muli_assign(&mut self, s: i64)
        requires
            i64::MIN <= old(self).x * s <= i64::MAX,
            i64::MIN <= old(self).y * s <= i64::MAX,
        ensures
            final(self).x == old(self).x * s,
            final(self).y == old(self).y * s,
    {
        *self = (*self).muli(s);
    }

    /// The vector divided by a fixed-point scalar, in steps:
    /// `(x * SCALE / s, y * SCALE / s)`, rounded toward zero.  The
    /// scalar must be nonzero; this fixed-point form has no infinity to
    /// return for a zero divisor.
    pub fn div(self, s: i64) -> (r: Vector)
        requires
            s != 0,
            abs(self.x as int) * SCALE <= i64::MAX * abs(s as int),
            abs(self.y as int) * SCALE <= i64::MAX * abs(s as int),
        ensures
            r.x == tdiv(self.x * SCALE, s as int),
            r.y == tdiv(self.y * SCALE, s as int),
    {
        proof {
            lemma_i64_mul_fits(self.x as int, SCALE as int);
            lemma_i64_mul_fits(self.y as int, SCALE as int);
            assert(abs(self.x * SCALE) == abs(self.x as int) * SCALE && abs(self.y * SCALE)
                == abs(self.y as int) * SCALE) by (nonlinear_arith)
                requires
                    SCALE > 0,
                    abs(self.x * SCALE) == if self.x * SCALE >= 0 { self.x * SCALE } else { -(self.x * SCALE) },
                    abs(self.y * SCALE) == if self.y * SCALE >= 0 { self.y * SCALE } else { -(self.y * SCALE) },
                    abs(self.x as int) == if self.x >= 0 { self.x as int } else { -(self.x as int) },
                    abs(self.y as int) == if self.y >= 0 { self.y as int } else { -(self.y as int) },
            {
            }
            lemma_tdiv_bounded_signed(self.x * SCALE, s as int, i64::MAX as int);
            lemma_tdiv_bounded_signed(self.y * SCALE, s as int, i64::MAX as int);
        }
        Vector::new(
            div_trunc((self.x as i128) * (SCALE as i128), s as i128) as i64,
            div_trunc((self.y as i128) * (SCALE as i128), s as i128) as i64,
        )
    }

    /// The compound form of `div`.
    pub fn div_assign(&mut self, s: i64)
        requires
            s != 0,
            abs(old(self).x as int) * SCALE <= i64::MAX * abs(s as int),
            abs(old(self).y as int) * SCALE <= i64::MAX * abs(s as int),
        ensures
            final(self).x == tdiv(old(self).x * SCALE, s as int),
            final(self).y == tdiv(old(self).y * SCALE, s as int),
    {
        *self = (*self).div(s);
    }

    /// The vector divided by a whole-unit integer scalar:
    /// `(x / s, y / s)` in steps, rounded toward zero.
    pub fn divi(self, s: i64) -> (r: Vector)
        requires
            s != 0,
            !(self.x == i64::MIN && s == -1),
            !(self.y == i64::MIN && s == -1),
        ensures
            r.x == tdiv(self.x as int, s as int),
            r.y == tdiv(self.y as int, s as int),
    {
        proof {
            lemma_divi_fits(self.x as int, s as int);
            lemma_divi_fits(self.y as int, s as int);
        }
        Vector::new(
            div_trunc(self.x as i128, s as i128) as i64,
            div_trunc(self.y as i128, s as i128) as i64,
        )
    }

    /// The compound form of `divi`.
    pub fn divi_assign(&mut self, s: i64)
        requires
            s != 0,
            !(old(self).x == i64::MIN && s == -1),
            !(old(self).y == i64::MIN && s == -1),
        ensures
            final(self).x == tdiv(old(self).x as int, s as int),
            final(self).y == tdiv(old(self).y as int, s as int),
    {
        *self = (*self).divi(s);
    }

    /// The component-wise (Hadamard) product, in steps:
    /// `(x * other.x / SCALE, y * other.y / SCALE)`, rounded toward zero.
    pub fn times(self, other: Vector) -> (r: Vector)
        requires
            abs(self.x * other.x) <= i64::MAX * SCALE,
            abs(self.y * other.y) <= i64::MAX * SCALE,
        ensures
            r.x == tdiv(self.x * other.x, SCALE as int),
            r.y == tdiv(self.y * other.y, SCALE as int),
    {
        proof {
            lemma_i64_mul_fits(self.x as int, other.x as int);
            lemma_i64_mul_fits(self.y as int, other.y as int);
            lemma_tdiv_bounded(self.x * other.x, SCALE as int, i64::MAX as int);
            lemma_tdiv_bounded(self.y * other.y, SCALE as int, i64::MAX as int);
        }
        Vector::new(
            div_trunc((self.x as i128) * (other.x as i128), SCALE as i128) as i64,
            div_trunc((self.y as i128) * (other.y as i128), SCALE as i128) as i64,
        )
    }
}

impl PartialEq for Vector {
    /// Tolerance-based equality: true when each pair of components
    /// differs by less than `TOLERANCE` steps.
    fn eq(&self, other: &Vector) -> (r: bool) {
        let dx: i128 = self.x as i128 - other.x as i128;
        let dy: i128 = self.y as i128 - other.y as i128;
        let adx: i128 = if dx < 0 {
            -dx
        } else {
            dx
        };
        let ady: i128 = if dy < 0 {
            -dy
        } else {
            dy
        };
        adx < TOLERANCE as i128 && ady < TOLERANCE as i128
    }
}

impl vstd::std_specs::cmp::PartialEqSpecImpl for Vector {
    open spec fn obeys_eq_spec() -> bool {
        true
    }

    open spec fn eq_spec(&self, other: &Vector) -> bool {
        approx(*self, *other)
    }
}

} // verus!
