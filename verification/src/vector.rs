use crate::fixed::{abs_v, fp_mul, tdiv, FP_ONE};
use vstd::arithmetic::mul::lemma_mul_upper_bound;
use crate::gamestate::Direction;
use vstd::prelude::*;

verus! {

/// A 2D vector with fixed-point components (`FP_ONE` units per world unit).
#[derive(Clone, Copy, PartialEq, Eq, Structural, Debug)]
pub struct Vector {
    pub x: i64,
    pub y: i64,
}

/// The cosine and sine of a turn angle, in fixed-point units. The
/// trigonometry itself is evaluated outside the library and handed in as
/// plain values; a proper rotation has `cos^2 + sin^2 == FP_ONE^2` up to
/// rounding.
#[derive(Clone, Copy, PartialEq, Eq, Structural, Debug)]
pub struct Rotation {
    pub cos: i64,
    pub sin: i64,
}

/// Squared length of a vector, in squared fixed-point units.
pub open spec fn len2(x: int, y: int) -> int {
    x * x + y * y
}

/// The +90-degree rotation of `v` (the player's right-hand side on a
/// y-down screen).
pub open spec fn orthogonal_right_spec(v: Vector) -> (int, int) {
    (-v.y as int, v.x as int)
}

/// The -90-degree rotation of `v` (the player's left-hand side on a
/// y-down screen).
pub open spec fn orthogonal_left_spec(v: Vector) -> (int, int) {
    (v.y as int, -v.x as int)
}

impl Vector {
    pub fn new(x: i64, y: i64) -> (v: Vector)
        ensures
            v == (Vector { x, y }),
    {
        Vector { x, y }
    }

    /// Componentwise sum.
    pub fn add(self, rhs: Vector) -> (v: Vector)
        requires
            i64::MIN <= self.x + rhs.x <= i64::MAX,
            i64::MIN <= self.y + rhs.y <= i64::MAX,
        ensures
            v.x == self.x + rhs.x,
            v.y == self.y + rhs.y,
    {
        Vector { x: self.x + rhs.x, y: self.y + rhs.y }
    }

    /// Componentwise difference.
    pub fn sub(self, rhs: Vector) -> (v: Vector)
        requires
            i64::MIN <= self.x - rhs.x <= i64::MAX,
            i64::MIN <= self.y - rhs.y <= i64::MAX,
        ensures
            v.x == self.x - rhs.x,
            v.y == self.y - rhs.y,
    {
        Vector { x: self.x - rhs.x, y: self.y - rhs.y }
    }

    /// In-place componentwise sum.
    pub fn add_assign(&mut self, rhs: Vector)
        requires
            i64::MIN <= old(self).x + rhs.x <= i64::MAX,
            i64::MIN <= old(self).y + rhs.y <= i64::MAX,
        ensures
            final(self).x == old(self).x + rhs.x,
            final(self).y == old(self).y + rhs.y,
    {
        self.x = self.x + rhs.x;
        self.y = self.y + rhs.y;
    }

    /// Product with an integer scalar.
    pub fn scale(self, k: i64) -> (v: Vector)
        requires
            abs_v(self.x as int) <= 0x8000_0000,
            abs_v(self.y as int) <= 0x8000_0000,
            abs_v(k as int) <= 0x8000_0000,
        ensures
            v.x == self.x * k,
            v.y == self.y * k,
    {
        proof {
            crate::fixed::lemma_abs_mul(self.x as int, k as int);
            crate::fixed::lemma_abs_mul(self.y as int, k as int);
            lemma_mul_upper_bound(abs_v(self.x as int), 0x8000_0000, abs_v(k as int), 0x8000_0000);
            lemma_mul_upper_bound(abs_v(self.y as int), 0x8000_0000, abs_v(k as int), 0x8000_0000);
        }
        let px: i128 = (self.x as i128) * (k as i128);
        let py: i128 = (self.y as i128) * (k as i128);
        Vector { x: px as i64, y: py as i64 }
    }

    /// Product with a fixed-point scalar (`FP_ONE` is 1.0).
    pub fn mul_fp(self, s: i64) -> (v: Vector)
        requires
            abs_v(self.x as int) <= 0x8000_0000,
            abs_v(self.y as int) <= 0x8000_0000,
            abs_v(s as int) <= 0x8000_0000,
        ensures
            v.x == tdiv(self.x as int * s as int, FP_ONE as int),
            v.y == tdiv(self.y as int * s as int, FP_ONE as int),
    {
        Vector { x: fp_mul(self.x, s), y: fp_mul(self.y, s) }
    }

    /// Dot product, in squared fixed-point units.
    pub fn dot(self, rhs: Vector) -> (d: i64)
        requires
            abs_v(self.x as int) <= 0x4000_0000,
            abs_v(self.y as int) <= 0x4000_0000,
            abs_v(rhs.x as int) <= 0x4000_0000,
            abs_v(rhs.y as int) <= 0x4000_0000,
        ensures
            d == self.x * rhs.x + self.y * rhs.y,
    {
        proof {
            crate::fixed::lemma_abs_mul(self.x as int, rhs.x as int);
            crate::fixed::lemma_abs_mul(self.y as int, rhs.y as int);
            lemma_mul_upper_bound(abs_v(self.x as int), 0x4000_0000, abs_v(rhs.x as int), 0x4000_0000);
            lemma_mul_upper_bound(abs_v(self.y as int), 0x4000_0000, abs_v(rhs.y as int), 0x4000_0000);
        }
        let px: i128 = (self.x as i128) * (rhs.x as i128);
        let py: i128 = (self.y as i128) * (rhs.y as i128);
        (px + py) as i64
    }

    /// Rotate by the angle whose cosine and sine `r` holds:
    /// `x' = x cos - y sin`, `y' = x sin + y cos`, rescaled into fixed point.
    pub fn rotate(&self, r: Rotation) -> (v: Vector)
        requires
            abs_v(self.x as int) <= 0x4000_0000,
            abs_v(self.y as int) <= 0x4000_0000,
            abs_v(r.cos as int) <= 0x2_0000,
            abs_v(r.sin as int) <= 0x2_0000,
        ensures
            v.x == tdiv(self.x * r.cos - self.y * r.sin, FP_ONE as int),
            v.y == tdiv(self.x * r.sin + self.y * r.cos, FP_ONE as int),
    {
        proof {
            crate::fixed::lemma_abs_mul(self.x as int, r.cos as int);
            crate::fixed::lemma_abs_mul(self.x as int, r.sin as int);
            crate::fixed::lemma_abs_mul(self.y as int, r.cos as int);
            crate::fixed::lemma_abs_mul(self.y as int, r.sin as int);
            lemma_mul_upper_bound(abs_v(self.x as int), 0x4000_0000, abs_v(r.cos as int), 0x2_0000);
            lemma_mul_upper_bound(abs_v(self.x as int), 0x4000_0000, abs_v(r.sin as int), 0x2_0000);
            lemma_mul_upper_bound(abs_v(self.y as int), 0x4000_0000, abs_v(r.cos as int), 0x2_0000);
            lemma_mul_upper_bound(abs_v(self.y as int), 0x4000_0000, abs_v(r.sin as int), 0x2_0000);
        }
        let xc: i128 = (self.x as i128) * (r.cos as i128);
        let xs: i128 = (self.x as i128) * (r.sin as i128);
        let yc: i128 = (self.y as i128) * (r.cos as i128);
        let ys: i128 = (self.y as i128) * (r.sin as i128);
        let nx: i64 = crate::fixed::div_fp((xc - ys) as i64, FP_ONE);
        let ny: i64 = crate::fixed::div_fp((xs + yc) as i64, FP_ONE);
        Vector { x: nx, y: ny }
    }

    /// The +/-90-degree rotation of the vector: `Left` turns it to the
    /// player's left on a y-down screen, `Right` to the player's right.
    pub fn orthogonal(&self, side: Direction) -> (v: Vector)
        requires
            self.x > i64::MIN,
            self.y > i64::MIN,
            matches!(side, Direction::Left | Direction::Right),
        ensures
            side is Left ==> (v.x as int, v.y as int) == orthogonal_left_spec(*self),
            side is Right ==> (v.x as int, v.y as int) == orthogonal_right_spec(*self),
    {
        match side {
            Direction::Left => Vector { x: self.y, y: -self.x },
            _ => Vector { x: -self.y, y: self.x },
        }
    }
}

/// Rotating never changes a vector's length: before the fixed-point
/// rescaling, the squared length of the rotated vector is the squared length
/// of the input times `cos^2 + sin^2`, so a rotation with
/// `cos^2 + sin^2 == FP_ONE^2` scales every squared length by exactly
/// `FP_ONE^2` -- the fixed-point rendering of `|rotate(v, r)| == |v|`.
pub proof fn lemma_rotate_preserves_length(v: Vector, c: int, s: int)
    ensures
        len2(v.x * c - v.y * s, v.x * s + v.y * c) == (c * c + s * s) * len2(v.x as int, v.y as int),
{
    let x = v.x as int;
    let y = v.y as int;
    let xc = x * c;
    let xs = x * s;
    let yc = y * c;
    let ys = y * s;
    assert((xc - ys) * (xc - ys) == xc * xc - 2 * (xc * ys) + ys * ys) by (nonlinear_arith);
    assert((xs + yc) * (xs + yc) == xs * xs + 2 * (xs * yc) + yc * yc) by (nonlinear_arith);
    assert((x * c) * (x * c) == (x * x) * (c * c)) by (nonlinear_arith);
    assert((x * s) * (x * s) == (x * x) * (s * s)) by (nonlinear_arith);
    assert((y * c) * (y * c) == (y * y) * (c * c)) by (nonlinear_arith);
    assert((y * s) * (y * s) == (y * y) * (s * s)) by (nonlinear_arith);
    assert((x * c) * (y * s) == (x * s) * (y * c)) by (nonlinear_arith);
    assert((c * c + s * s) * (x * x + y * y) == (x * x) * (c * c) + (x * x) * (s * s) + (y * y) * (c
        * c) + (y * y) * (s * s)) by (nonlinear_arith);
}

/// The two orthogonal directions of a heading are each perpendicular to it
/// (dot product zero) and antiparallel to one another.
pub proof fn lemma_orthogonal_sides(v: Vector)
    ensures
        v.x * orthogonal_left_spec(v).0 + v.y * orthogonal_left_spec(v).1 == 0,
        v.x * orthogonal_right_spec(v).0 + v.y * orthogonal_right_spec(v).1 == 0,
        orthogonal_left_spec(v).0 == -orthogonal_right_spec(v).0,
        orthogonal_left_spec(v).1 == -orthogonal_right_spec(v).1,
{
    assert(v.x * (v.y as int) + v.y * (-v.x as int) == 0) by (nonlinear_arith);
    assert(v.x * (-v.y as int) + v.y * (v.x as int) == 0) by (nonlinear_arith);
}

} // verus!
