use vstd::arithmetic::div_mod::{lemma_div_nonincreasing, lemma_div_pos_is_pos};
use vstd::arithmetic::mul::lemma_mul_upper_bound;
use vstd::prelude::*;

verus! {

/// Number of fixed-point units in one world unit. Every coordinate, direction
/// component, velocity and trigonometric value in this crate is an `i64` count
/// of 1/65536ths of a world unit.
pub const FP_ONE: i64 = 65536;

/// Coordinates handed to the geometry are kept within this many fixed-point
/// units (8192 world units on either side of the origin), so that every
/// intermediate product in the projection fits in an `i64`.
pub const COORD_LIMIT: i64 = 0x2000_0000;

/// Direction and rotation vectors are kept within 4.0 world units per
/// component; a unit heading rotated by unit cosines stays far inside this.
pub const DIR_LIMIT: i64 = 0x4_0000;

/// Magnitude of an integer.
pub open spec fn abs_v(a: int) -> int {
    if a >= 0 {
        a
    } else {
        -a
    }
}

/// Division rounding toward zero -- what `/` does on machine integers -- for a
/// positive divisor. Spec-mode `/` is Euclidean, so contracts about executable
/// division on possibly negative values go through this function.
pub open spec fn tdiv(a: int, b: int) -> int {
    if a >= 0 {
        a / b
    } else {
        -((-a) / b)
    }
}


pub proof fn lemma_abs_mul(a: int, b: int)
    ensures
        abs_v(a * b) == abs_v(a) * abs_v(b),
{
    assert(abs_v(a * b) == abs_v(a) * abs_v(b)) by (nonlinear_arith);
}

/// The magnitude of a truncating quotient never exceeds the dividend's.
pub proof fn lemma_tdiv_bound(a: int, b: int)
    requires
        b > 0,
    ensures
        abs_v(tdiv(a, b)) <= abs_v(a),
        abs_v(tdiv(a, b)) == abs_v(a) / b,
        a >= 0 ==> 0 <= tdiv(a, b) <= a,
        a < 0 ==> a <= tdiv(a, b) <= 0,
{
    if a >= 0 {
        lemma_div_nonincreasing(a, b);
        lemma_div_pos_is_pos(a, b);
    } else {
        lemma_div_nonincreasing(-a, b);
        lemma_div_pos_is_pos(-a, b);
    }
}

/// Truncating division of `a` by a positive `b`, with the exec rounding
/// direction pinned down in the contract.
pub fn div_fp(a: i64, b: i64) -> (q: i64)
    requires
        b > 0,
        a > i64::MIN,
    ensures
        q == tdiv(a as int, b as int),
{
    proof {
        lemma_tdiv_bound(a as int, b as int);
    }
    match a.checked_div(b) {
        Some(v) => v,
        None => {
            proof {
                assert(false);
            }
            0
        },
    }
}

/// `(a * b) / FP_ONE`, the product of two fixed-point values.
pub fn fp_mul(a: i64, b: i64) -> (r: i64)
    requires
        abs_v(a as int) <= 0x8000_0000,
        abs_v(b as int) <= 0x8000_0000,
    ensures
        r == tdiv(a as int * b as int, FP_ONE as int),
        abs_v(r as int) <= 0x4000_0000_0000,
{
    proof {
        lemma_abs_mul(a as int, b as int);
        lemma_mul_upper_bound(abs_v(a as int), 0x8000_0000, abs_v(b as int), 0x8000_0000);
        lemma_tdiv_bound(a as int * b as int, FP_ONE as int);
        vstd::arithmetic::div_mod::lemma_div_is_ordered(
            abs_v(a as int * b as int),
            0x4000_0000_0000_0000,
            FP_ONE as int,
        );
        assert(0x4000_0000_0000_0000int / (FP_ONE as int) == 0x4000_0000_0000);
    }
    let wide: i128 = (a as i128) * (b as i128);
    let p: i64 = wide as i64;
    div_fp(p, FP_ONE)
}

/// Truncating division for any nonzero divisor: both signs flipped leaves
/// the quotient unchanged, so it reduces to `tdiv`.
pub open spec fn tdiv_any(a: int, b: int) -> int {
    if b > 0 {
        tdiv(a, b)
    } else {
        tdiv(-a, -b)
    }
}

/// Truncating division of `a` by any nonzero `b`.
pub fn div_signed(a: i64, b: i64) -> (q: i64)
    requires
        b != 0,
        a > i64::MIN,
        b > i64::MIN,
    ensures
        q == tdiv_any(a as int, b as int),
{
    if b > 0 {
        div_fp(a, b)
    } else {
        div_fp(-a, -b)
    }
}

/// Flooring division of `a` by a positive `b` -- the quotient of Euclidean
/// division, which spec-mode `/` means. This is what truncating an exact
/// real quotient downward gives, the cell index under a possibly negative
/// coordinate.
pub fn floor_div(a: i64, b: i64) -> (q: i64)
    requires
        0 < b <= 0x1_0000_0000,
        abs_v(a as int) <= 0x4000_0000_0000_0000,
    ensures
        q == a as int / b as int,
{
    if a >= 0 {
        div_fp(a, b)
    } else {
        let n = -a;
        let q1 = div_fp(n + (b - 1), b);
        proof {
            let ni = n as int;
            let bi = b as int;
            let k = ni / bi;
            let r = ni % bi;
            vstd::arithmetic::div_mod::lemma_fundamental_div_mod(ni, bi);
            vstd::arithmetic::div_mod::lemma_mod_division_less_than_divisor(ni, bi);
            lemma_div_pos_is_pos(ni, bi);
            lemma_div_pos_is_pos(ni + bi - 1, bi);
            assert((-k) * bi == -(bi * k)) by (nonlinear_arith);
            assert(k * bi == bi * k) by (nonlinear_arith);
            assert((k + 1) * bi == bi * k + bi) by (nonlinear_arith);
            assert((-k - 1) * bi == -(bi * k) - bi) by (nonlinear_arith);
            if r == 0 {
                vstd::arithmetic::div_mod::lemma_fundamental_div_mod_converse(
                    ni + bi - 1,
                    bi,
                    k,
                    bi - 1,
                );
                vstd::arithmetic::div_mod::lemma_fundamental_div_mod_converse(
                    a as int,
                    bi,
                    -k,
                    0,
                );
            } else {
                vstd::arithmetic::div_mod::lemma_fundamental_div_mod_converse(
                    ni + bi - 1,
                    bi,
                    k + 1,
                    r - 1,
                );
                vstd::arithmetic::div_mod::lemma_fundamental_div_mod_converse(
                    a as int,
                    bi,
                    -k - 1,
                    bi - r,
                );
            }
        }
        -q1
    }
}

} // verus!
