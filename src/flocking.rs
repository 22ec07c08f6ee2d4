//! The flocking model: a softened inverse-square repulsion field between
//! particles, a repulsion from nearby walls, and a blend of that field into
//! each particle's momentum.
use vstd::prelude::*;

use crate::particle::{Particle, all_valid, POS_LIMIT, VEL_LIMIT, WORLD_SIZE};
use crate::vector::{Vec3, abs, clamp, tdiv, dist_sq, within, lemma_mul_abs_bound, tdiv_exec, clamp_exec};

verus! {

/// The field is softened by one metre (in nanometres) so that it stays
/// finite where two particles meet.
pub const SOFTENING: i64 = 1_000_000_000;

/// Distance from a wall below which the wall repels, in nanometres (two metres).
pub const NEAR_WALL: i64 = 2_000_000_000;

/// `r` is the integer square root of `n`, rounded down.
pub open spec fn is_floor_sqrt(n: int, r: int) -> bool {
    0 <= r && r * r <= n < (r + 1) * (r + 1)
}

/// The integer square root of `n`, rounded down.
pub open spec fn floor_sqrt(n: int) -> int {
    choose|r: int| is_floor_sqrt(n, r)
}

/// The component of `v` on axis 0 (x), 1 (y) or 2 (z).
pub open spec fn comp(v: Vec3, axis: int) -> int {
    if axis == 0 {
        v.x as int
    } else if axis == 1 {
        v.y as int
    } else {
        v.z as int
    }
}

/// `x / (r + 1 m)^2` with the exponent ALPHA = 2, in micrometres per second:
/// with `x` and `r` in nanometres the field in SI units is scaled by
/// `10^9 * 10^6`. The quotient is rounded toward zero.
pub open spec fn repulsion(x: int, r: int) -> int {
    tdiv(1_000_000_000_000_000 * x, (r + 1_000_000_000) * (r + 1_000_000_000))
}

/// The repulsion of particle `b` on particle `a`, along `axis`.
pub open spec fn pair_field(a: Particle, b: Particle, axis: int) -> int {
    repulsion(comp(a.pos(), axis) - comp(b.pos(), axis), floor_sqrt(dist_sq(a.pos(), b.pos())))
}

/// The sum of the repulsions on particle `i` from the particles `j < m`, `j != i`.
pub open spec fn field_sum(ps: Seq<Particle>, i: int, axis: int, m: int) -> int
    decreases m,
{
    if m <= 0 {
        0
    } else {
        field_sum(ps, i, axis, m - 1) + if m - 1 != i {
            pair_field(ps[i], ps[m - 1], axis)
        } else {
            0
        }
    }
}

/// The field component `d` replaced near a wall of its axis: within
/// `NEAR_WALL` of the upper wall by a push downward, within `NEAR_WALL` of
/// the lower wall by a push upward, each of size `|gap| / (|gap| + 1 m)^2`.
pub open spec fn wall_field(c: int, d: int) -> int {
    let hi = abs(c - WORLD_SIZE);
    let lo = abs(c + WORLD_SIZE);
    let d1 = if hi < NEAR_WALL { -repulsion(hi, hi) } else { d };
    if lo < NEAR_WALL { repulsion(lo, lo) } else { d1 }
}

/// The field component of particle `i` along `axis`.
pub open spec fn field_component(ps: Seq<Particle>, boundary: bool, i: int, axis: int) -> int {
    let d = field_sum(ps, i, axis, ps.len() as int);
    if boundary { wall_field(comp(ps[i].pos(), axis), d) } else { d }
}

/// `(1 - BETA) v + BETA d` with BETA = 0.1, rounded toward zero and held to
/// the velocity range.
pub open spec fn blend(v: int, d: int) -> int {
    clamp(tdiv(9 * v + d, 10), VEL_LIMIT as int)
}

/// The pending velocity of particle `i` under the flocking model.
pub open spec fn flocking_pending(ps: Seq<Particle>, boundary: bool, i: int) -> Vec3 {
    let v = ps[i].vel();
    Vec3 {
        x: blend(v.x as int, field_component(ps, boundary, i, 0)) as i64,
        y: blend(v.y as int, field_component(ps, boundary, i, 1)) as i64,
        z: blend(v.z as int, field_component(ps, boundary, i, 2)) as i64,
    }
}

/// The integer square root is unique.
pub proof fn lemma_floor_sqrt_unique(n: int, r: int)
    requires
        is_floor_sqrt(n, r),
    ensures
        floor_sqrt(n) == r,
{
    let s = floor_sqrt(n);
    assert(is_floor_sqrt(n, s));
    if s < r {
        assert((s + 1) * (s + 1) <= r * r) by (nonlinear_arith)
            requires
                0 <= s + 1 <= r,
        ;
    }
    if r < s {
        assert((r + 1) * (r + 1) <= s * s) by (nonlinear_arith)
            requires
                0 <= r + 1 <= s,
        ;
    }
}

/// The integer square root of `n`, for `n < 2^86`.
pub fn isqrt(n: u128) -> (r: u128)
    requires
        n < 0x40_0000_0000_0000_0000_0000,
    ensures
        is_floor_sqrt(n as int, r as int),
        r as int == floor_sqrt(n as int),
{
    let mut lo: u128 = 0;
    let mut hi: u128 = 0x800_0000_0000;
    assert(hi * hi == 0x40_0000_0000_0000_0000_0000);
    while hi - lo > 1
        invariant
            lo < hi <= 0x800_0000_0000,
            lo * lo <= n,
            n < hi * hi,
        decreases hi - lo,
    {
        let mid = lo + (hi - lo) / 2;
        proof {
            lemma_mul_abs_bound(mid as int, mid as int, 0x800_0000_0000, 0x800_0000_0000);
        }
        if mid * mid <= n {
            lo = mid;
        } else {
            hi = mid;
        }
    }
    proof {
        lemma_floor_sqrt_unique(n as int, lo as int);
    }
    lo
}

/// Each repulsion term lies in `[-10^6, 10^6]` where `|x| <= r`.
pub proof fn lemma_repulsion_bound(x: int, r: int)
    requires
        0 <= r,
        abs(x) <= r,
    ensures
        abs(repulsion(x, r)) <= 1_000_000,
{
    let den = (r + 1_000_000_000) * (r + 1_000_000_000);
    assert(den > 0) by (nonlinear_arith)
        requires
            r >= 0,
            den == (r + 1_000_000_000) * (r + 1_000_000_000),
    ;
    assert(abs(1_000_000_000_000_000 * x) <= 1_000_000 * den) by (nonlinear_arith)
        requires
            r >= 0,
            abs(x) <= r,
            den == (r + 1_000_000_000) * (r + 1_000_000_000),
    ;
    crate::vector::lemma_tdiv_bound(1_000_000_000_000_000 * x, den, 1_000_000);
}

fn repulsion_exec(x: i128, r: i128) -> (q: i128)
    requires
        0 <= r < 0x800_0000_0000,
        abs(x as int) <= r,
    ensures
        q == repulsion(x as int, r as int),
        abs(q as int) <= 1_000_000,
{
    proof {
        lemma_repulsion_bound(x as int, r as int);
        lemma_mul_abs_bound(x as int, 1_000_000_000_000_000, 0x800_0000_0000, 1_000_000_000_000_000);
        lemma_mul_abs_bound(
            r + 1_000_000_000,
            r + 1_000_000_000,
            0x800_3B9A_CA00,
            0x800_3B9A_CA00,
        );
        assert((r + 1_000_000_000) * (r + 1_000_000_000) > 0) by (nonlinear_arith)
            requires
                r >= 0,
        ;
    }
    let s = r + 1_000_000_000;
    tdiv_exec(1_000_000_000_000_000 * x, s * s)
}

/// A component of a difference is no larger than the rounded-down length.
proof fn lemma_component_within_length(dx: int, dy: int, dz: int, dist: int)
    requires
        is_floor_sqrt(dx * dx + dy * dy + dz * dz, dist),
    ensures
        abs(dx) <= dist,
        abs(dy) <= dist,
        abs(dz) <= dist,
{
    assert(dx * dx >= 0 && dy * dy >= 0 && dz * dz >= 0) by (nonlinear_arith);
    assert forall|c: int| c * c < (dist + 1) * (dist + 1) && dist >= 0 implies abs(c) <= dist by {
        if abs(c) > dist {
            assert(c * c >= (dist + 1) * (dist + 1)) by (nonlinear_arith)
                requires
                    abs(c) >= dist + 1,
                    dist >= 0,
            ;
        }
    }
}

fn wall_field_exec(c: i64, d: i128) -> (r: i128)
    requires
        abs(c as int) <= POS_LIMIT,
    ensures
        r == wall_field(c as int, d as int),
        abs(r as int) <= abs(d as int) || abs(r as int) <= 1_000_000,
{
    let hi: i128 = if c as i128 >= WORLD_SIZE as i128 {
        c as i128 - WORLD_SIZE as i128
    } else {
        WORLD_SIZE as i128 - c as i128
    };
    let lo: i128 = if c as i128 >= -(WORLD_SIZE as i128) {
        c as i128 + WORLD_SIZE as i128
    } else {
        -(WORLD_SIZE as i128) - c as i128
    };
    let mut r = d;
    if hi < NEAR_WALL as i128 {
        r = -repulsion_exec(hi, hi);
    }
    if lo < NEAR_WALL as i128 {
        r = repulsion_exec(lo, lo);
    }
    r
}

/// The pending velocities of the flocking model, one per particle.
pub fn flocking_pass(ps: &Vec<Particle>, boundary: bool) -> (r: Vec<Vec3>)
    requires
        all_valid(ps@),
    ensures
        r@.len() == ps@.len(),
        forall|i: int| 0 <= i < ps@.len() ==> #[trigger] r@[i] == flocking_pending(ps@, boundary, i),
        forall|i: int| 0 <= i < ps@.len() ==> within(#[trigger] r@[i], VEL_LIMIT as int),
{
    let n = ps.len();
    let mut out: Vec<Vec3> = Vec::new();
    let mut i: usize = 0;
    while i < n
        invariant
            n == ps@.len(),
            i <= n,
            all_valid(ps@),
            out@.len() == i,
            forall|k: int| 0 <= k < i ==> #[trigger] out@[k] == flocking_pending(ps@, boundary, k),
            forall|k: int| 0 <= k < i ==> within(#[trigger] out@[k], VEL_LIMIT as int),
        decreases n - i,
    {
        let p = ps[i].position;
        let mut sx: i128 = 0;
        let mut sy: i128 = 0;
        let mut sz: i128 = 0;
        let mut j: usize = 0;
        while j < n
            invariant
                n == ps@.len(),
                i < n,
                j <= n,
                all_valid(ps@),
                p == ps@[i as int].pos(),
                sx == field_sum(ps@, i as int, 0, j as int),
                sy == field_sum(ps@, i as int, 1, j as int),
                sz == field_sum(ps@, i as int, 2, j as int),
                abs(sx as int) <= 1_000_000 * j,
                abs(sy as int) <= 1_000_000 * j,
                abs(sz as int) <= 1_000_000 * j,
            decreases n - j,
        {
            if j != i {
                let q = ps[j].position;
                let dx = p.x as i128 - q.x as i128;
                let dy = p.y as i128 - q.y as i128;
                let dz = p.z as i128 - q.z as i128;
                proof {
                    lemma_mul_abs_bound(dx as int, dx as int, 2_199_023_255_552, 2_199_023_255_552);
                    lemma_mul_abs_bound(dy as int, dy as int, 2_199_023_255_552, 2_199_023_255_552);
                    lemma_mul_abs_bound(dz as int, dz as int, 2_199_023_255_552, 2_199_023_255_552);
                    assert(dx * dx >= 0 && dy * dy >= 0 && dz * dz >= 0) by (nonlinear_arith);
                }
                let dd = (dx * dx + dy * dy + dz * dz) as u128;
                let dist = isqrt(dd);
                proof {
                    lemma_component_within_length(dx as int, dy as int, dz as int, dist as int);
                    assert(dist * dist <= dd);
                    if dist >= 0x800_0000_0000 {
                        lemma_mul_abs_bound(0x800_0000_0000, 0x800_0000_0000, dist as int, dist as int);
                        assert(0x800_0000_0000 * 0x800_0000_0000 <= dist * dist) by (nonlinear_arith)
                            requires
                                dist >= 0x800_0000_0000,
                        ;
                    }
                }
                let fx = repulsion_exec(dx, dist as i128);
                let fy = repulsion_exec(dy, dist as i128);
                let fz = repulsion_exec(dz, dist as i128);
                sx = sx + fx;
                sy = sy + fy;
                sz = sz + fz;
            }
            j += 1;
        }
        if boundary {
            sx = wall_field_exec(p.x, sx);
            sy = wall_field_exec(p.y, sy);
            sz = wall_field_exec(p.z, sz);
        }
        let v = ps[i].velocity.velocity;
        let x = clamp_exec(tdiv_exec(9 * v.x as i128 + sx, 10), VEL_LIMIT);
        let y = clamp_exec(tdiv_exec(9 * v.y as i128 + sy, 10), VEL_LIMIT);
        let z = clamp_exec(tdiv_exec(9 * v.z as i128 + sz, 10), VEL_LIMIT);
        out.push(Vec3 { x, y, z });
        i += 1;
    }
    out
}

} // verus!

verus! {

/// Near the x+ wall, with walls on, the x component of the field is the wall
/// term alone: the repulsion from other particles is replaced, not added to.
pub proof fn lemma_near_wall_replaces(ps: Seq<Particle>, i: int)
    requires
        0 <= i < ps.len(),
        abs(ps[i].pos().x - WORLD_SIZE) < NEAR_WALL,
    ensures
        ({
            let gap = abs(ps[i].pos().x - WORLD_SIZE);
            field_component(ps, true, i, 0) == -repulsion(gap, gap)
        }),
        forall|d: int| #[trigger] wall_field(ps[i].pos().x as int, d) == wall_field(ps[i].pos().x as int, 0),
{
}

} // verus!
