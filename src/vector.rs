//! Integer vectors and the integer arithmetic shared by the physical models.
use vstd::prelude::*;

verus! {

/// A point or a vector of three signed integer components.
#[derive(Clone, Copy, Debug, PartialEq, Eq, Structural)]
pub struct Vec3 {
    pub x: i64,
    pub y: i64,
    pub z: i64,
}

pub open spec fn abs(a: int) -> int {
    if a < 0 { -a } else { a }
}

/// Holds `a` to the range `[-lim, lim]`.
pub open spec fn clamp(a: int, lim: int) -> int {
    if a > lim {
        lim
    } else if a < -lim {
        -lim
    } else {
        a
    }
}

/// Division rounded toward zero, for a positive divisor.
pub open spec fn tdiv(a: int, b: int) -> int {
    if a >= 0 { a / b } else { -((-a) / b) }
}

/// `a - b`, component by component, over the integers.
pub open spec fn diff_x(a: Vec3, b: Vec3) -> int { a.x - b.x }

pub open spec fn diff_y(a: Vec3, b: Vec3) -> int { a.y - b.y }

pub open spec fn diff_z(a: Vec3, b: Vec3) -> int { a.z - b.z }

/// The square of the Euclidean length of `a - b`.
pub open spec fn dist_sq(a: Vec3, b: Vec3) -> int {
    diff_x(a, b) * diff_x(a, b) + diff_y(a, b) * diff_y(a, b) + diff_z(a, b) * diff_z(a, b)
}

/// Every component of `v` lies in `[-lim, lim]`.
pub open spec fn within(v: Vec3, lim: int) -> bool {
    abs(v.x as int) <= lim && abs(v.y as int) <= lim && abs(v.z as int) <= lim
}

impl Vec3 {
    pub fn new(x: i64, y: i64, z: i64) -> (r: Vec3)
        ensures
            r == (Vec3 { x, y, z }),
    {
        Vec3 { x, y, z }
    }

    pub fn zero() -> (r: Vec3)
        ensures
            r == (Vec3 { x: 0, y: 0, z: 0 }),
    {
        Vec3 { x: 0, y: 0, z: 0 }
    }
}

pub proof fn lemma_mul_abs_bound(a: int, b: int, ba: int, bb: int)
    requires
        abs(a) <= ba,
        abs(b) <= bb,
    ensures
        abs(a * b) <= ba * bb,
        -(ba * bb) <= a * b <= ba * bb,
{
    assert(abs(a * b) == abs(a) * abs(b)) by (nonlinear_arith);
    assert(abs(a) * abs(b) <= ba * bb) by (nonlinear_arith)
        requires
            0 <= abs(a) <= ba,
            0 <= abs(b) <= bb,
    ;
}

/// A quotient rounded toward zero is no larger in size than the dividend
/// over the divisor: where `|a| <= k * b`, the quotient lies in `[-k, k]`.
pub proof fn lemma_tdiv_bound(a: int, b: int, k: int)
    requires
        b > 0,
        k >= 0,
        abs(a) <= k * b,
    ensures
        abs(tdiv(a, b)) <= k,
        abs(tdiv(a, b)) <= abs(a),
{
    let m = abs(a);
    vstd::arithmetic::div_mod::lemma_div_is_ordered(m, k * b, b);
    vstd::arithmetic::div_mod::lemma_div_by_multiple(k, b);
    vstd::arithmetic::div_mod::lemma_div_is_ordered_by_denominator(m, 1, b);
    assert(m / 1 == m);
    assert(m / b >= 0) by {
        vstd::arithmetic::div_mod::lemma_div_pos_is_pos(m, b);
    }
}

/// Division rounded toward zero, computed on the magnitude.
pub fn tdiv_exec(a: i128, b: i128) -> (r: i128)
    requires
        b > 0,
        a > i128::MIN,
    ensures
        r == tdiv(a as int, b as int),
{
    if a >= 0 {
        ((a as u128) / (b as u128)) as i128
    } else {
        let m: u128 = (-a) as u128;
        let q: u128 = m / (b as u128);
        assert(q <= m) by {
            vstd::arithmetic::div_mod::lemma_div_is_ordered_by_denominator(m as int, 1, b as int);
        }
        -(q as i128)
    }
}

/// Holds `a` to `[-lim, lim]`, as `clamp` states.
pub fn clamp_exec(a: i128, lim: i64) -> (r: i64)
    requires
        lim >= 0,
    ensures
        r == clamp(a as int, lim as int),
{
    if a > lim as i128 {
        lim
    } else if a < -(lim as i128) {
        -lim
    } else {
        a as i64
    }
}

} // verus!
