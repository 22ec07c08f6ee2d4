//! The collision model: contact detection between particle pairs, the
//! damped elastic response, and reflection off the walls of the world cube.
use vstd::prelude::*;

use crate::particle::{Particle, all_valid, POS_LIMIT, VEL_LIMIT, WORLD_SIZE};
use crate::vector::{
    Vec3, abs, clamp, tdiv, dist_sq, diff_x, diff_y, diff_z, within, lemma_mul_abs_bound,
    tdiv_exec, clamp_exec,
};

verus! {

/// Dot product of the relative position and the relative velocity of `a` against `b`.
pub open spec fn closing(a: Particle, b: Particle) -> int {
    diff_x(a.pos(), b.pos()) * diff_x(a.vel(), b.vel()) + diff_y(a.pos(), b.pos()) * diff_y(
        a.vel(),
        b.vel(),
    ) + diff_z(a.pos(), b.pos()) * diff_z(a.vel(), b.vel())
}

/// The two particles move toward each other.
pub open spec fn approaching(a: Particle, b: Particle) -> bool {
    closing(a, b) < 0
}

/// The two spheres overlap: their distance is below the sum of their radii.
pub open spec fn overlapping(a: Particle, b: Particle) -> bool {
    dist_sq(a.pos(), b.pos()) < (a.size.size + b.size.size) * (a.size.size + b.size.size)
}

/// A contact: the particles approach and overlap. Particles at one point
/// never approach, so a contact always has a nonzero normal
/// (`lemma_contact_apart`).
pub open spec fn collides(a: Particle, b: Particle) -> bool {
    approaching(a, b) && overlapping(a, b)
}

/// One component of `v - (1 + DAMPING) (n . v) n` with `n` the unit vector of
/// `d`, where `along` is `d . v`, `dk` the component of `d` and `dd` is `d . d`;
/// the quotient is rounded toward zero and the result held to the velocity range.
/// With the damping coefficient 0.8, the factor `1 + DAMPING` is `9 / 5`.
pub open spec fn bounce_component(vk: int, along: int, dk: int, dd: int) -> int {
    clamp(
        vk - tdiv(9 * along * dk, 5 * dd),
        VEL_LIMIT as int,
    )
}

/// `d . v` for `d = p - q`.
pub open spec fn along(v: Vec3, p: Vec3, q: Vec3) -> int {
    diff_x(p, q) * v.x + diff_y(p, q) * v.y + diff_z(p, q) * v.z
}

/// The velocity after contact of a particle at `p` moving with `v` against
/// one at `q`. The normal enters twice, so its sign does not matter.
pub open spec fn bounce(v: Vec3, p: Vec3, q: Vec3) -> Vec3 {
    Vec3 {
        x: bounce_component(v.x as int, along(v, p, q), diff_x(p, q), dist_sq(p, q)) as i64,
        y: bounce_component(v.y as int, along(v, p, q), diff_y(p, q), dist_sq(p, q)) as i64,
        z: bounce_component(v.z as int, along(v, p, q), diff_z(p, q), dist_sq(p, q)) as i64,
    }
}

/// The smallest index `k >= j`, other than `i`, of a particle in contact with `ps[i]`.
pub open spec fn first_contact(ps: Seq<Particle>, i: int, j: int) -> Option<int>
    decreases ps.len() - j,
{
    if j >= ps.len() || j < 0 {
        None
    } else if j != i && collides(ps[i], ps[j]) {
        Some(j)
    } else {
        first_contact(ps, i, j + 1)
    }
}

/// The velocity that contacts give particle `i` in this tick, if any.
///
/// Pairs are taken in increasing index order and a particle keeps the response
/// of the first pair that touches it. Among the pairs `{i, k}` the first in that
/// order is the one with the smallest `k`, so this is the response to the
/// partner of smallest index; later contacts leave it as it is.
pub open spec fn contact_velocity(ps: Seq<Particle>, i: int) -> Option<Vec3> {
    match first_contact(ps, i, 0) {
        Some(k) => Some(bounce(ps[i].vel(), ps[i].pos(), ps[k].pos())),
        None => None,
    }
}

/// A velocity component after reflection off a wall normal to its axis:
/// `c - (1 + DAMPING) c`, with `1 + DAMPING = 9 / 5` and the quotient
/// rounded toward zero.
pub open spec fn reflect(c: int) -> int {
    c - tdiv(9 * c, 5)
}

/// The coordinate lies beyond one of the two walls normal to its axis.
pub open spec fn beyond(c: int) -> bool {
    c < -WORLD_SIZE || c > WORLD_SIZE
}

/// `v` reflected off every wall that `p` has crossed. The walls are taken in
/// the order x-, x+, z-, z+, y-, y+; each changes only the component along its
/// own normal, and a position is beyond at most one wall of each axis.
pub open spec fn wall_velocity(v: Vec3, p: Vec3) -> Vec3 {
    Vec3 {
        x: if beyond(p.x as int) { reflect(v.x as int) as i64 } else { v.x },
        y: if beyond(p.y as int) { reflect(v.y as int) as i64 } else { v.y },
        z: if beyond(p.z as int) { reflect(v.z as int) as i64 } else { v.z },
    }
}

/// The pending velocity of particle `i` under the collision model.
pub open spec fn collision_pending(ps: Seq<Particle>, boundary: bool, i: int) -> Option<Vec3> {
    if boundary {
        Some(
            wall_velocity(
                match contact_velocity(ps, i) {
                    Some(v) => v,
                    None => ps[i].vel(),
                },
                ps[i].pos(),
            ),
        )
    } else {
        contact_velocity(ps, i)
    }
}

/// What `first_contact` finds is a contact, and nothing before it is.
pub proof fn lemma_first_contact(ps: Seq<Particle>, i: int, j: int)
    requires
        0 <= j,
    ensures
        match first_contact(ps, i, j) {
            Some(k) => {
                &&& j <= k < ps.len()
                &&& k != i
                &&& collides(ps[i], ps[k])
                &&& forall|m: int| j <= m < k && m != i ==> !collides(ps[i], #[trigger] ps[m])
            },
            None => forall|m: int|
                j <= m < ps.len() && m != i ==> !collides(ps[i], #[trigger] ps[m]),
        },
    decreases ps.len() - j,
{
    if j < ps.len() && !(j != i && collides(ps[i], ps[j])) {
        lemma_first_contact(ps, i, j + 1);
    }
}

/// Particles in contact are apart: their positions differ.
pub proof fn lemma_contact_apart(a: Particle, b: Particle)
    requires
        collides(a, b),
    ensures
        dist_sq(a.pos(), b.pos()) > 0,
{
    let dx = diff_x(a.pos(), b.pos());
    let dy = diff_y(a.pos(), b.pos());
    let dz = diff_z(a.pos(), b.pos());
    assert(dx * dx >= 0 && dy * dy >= 0 && dz * dz >= 0) by (nonlinear_arith);
    if dist_sq(a.pos(), b.pos()) == 0 {
        assert(dx == 0 && dy == 0 && dz == 0) by (nonlinear_arith)
            requires
                dx * dx + dy * dy + dz * dz == 0,
                dx * dx >= 0,
                dy * dy >= 0,
                dz * dz >= 0,
        ;
        assert(closing(a, b) == 0);
    }
}

fn collides_exec(a: &Particle, b: &Particle) -> (r: bool)
    requires
        a.valid(),
        b.valid(),
    ensures
        r == collides(*a, *b),
{
    let dx = a.position.x as i128 - b.position.x as i128;
    let dy = a.position.y as i128 - b.position.y as i128;
    let dz = a.position.z as i128 - b.position.z as i128;
    let ux = a.velocity.velocity.x as i128 - b.velocity.velocity.x as i128;
    let uy = a.velocity.velocity.y as i128 - b.velocity.velocity.y as i128;
    let uz = a.velocity.velocity.z as i128 - b.velocity.velocity.z as i128;
    // Bounds on the differences of two valid particles: twice the limits.
    let ghost pl: int = 2_199_023_255_552;
    let ghost vl: int = 137_438_953_472;
    proof {
        lemma_mul_abs_bound(dx as int, ux as int, pl, vl);
        lemma_mul_abs_bound(dy as int, uy as int, pl, vl);
        lemma_mul_abs_bound(dz as int, uz as int, pl, vl);
        lemma_mul_abs_bound(dx as int, dx as int, pl, pl);
        lemma_mul_abs_bound(dy as int, dy as int, pl, pl);
        lemma_mul_abs_bound(dz as int, dz as int, pl, pl);
    }
    let c = dx * ux + dy * uy + dz * uz;
    let dd = dx * dx + dy * dy + dz * dz;
    let s = a.size.size as i128 + b.size.size as i128;
    proof {
        lemma_mul_abs_bound(s as int, s as int, 2_199_023_255_552, 2_199_023_255_552);
    }
    c < 0 && dd < s * s
}

fn bounce_component_exec(vk: i64, along: i128, dk: i128, dd: i128) -> (r: i64)
    requires
        abs(vk as int) <= VEL_LIMIT,
        abs(along as int) <= 453_347_182_355_485_940_514_816,
        abs(dk as int) <= 2_199_023_255_552,
        0 < dd <= 14_507_109_835_375_550_096_474_112,
    ensures
        r == bounce_component(vk as int, along as int, dk as int, dd as int),
        abs(r as int) <= VEL_LIMIT,
{
    let a9 = 9 * along;
    proof {
        lemma_mul_abs_bound(a9 as int, dk as int, 4_080_124_641_199_373_464_633_344, 2_199_023_255_552);
    }
    let num = a9 * dk;
    let den = 5 * dd;
    let q = tdiv_exec(num, den);
    proof {
        assert(abs(num as int) <= abs(num as int) * den) by (nonlinear_arith)
            requires
                den >= 1,
        ;
        crate::vector::lemma_tdiv_bound(num as int, den as int, abs(num as int));
    }
    clamp_exec(vk as i128 - q, VEL_LIMIT)
}

fn bounce_exec(v: Vec3, p: Vec3, q: Vec3) -> (r: Vec3)
    requires
        within(v, VEL_LIMIT as int),
        within(p, POS_LIMIT as int),
        within(q, POS_LIMIT as int),
        dist_sq(p, q) > 0,
    ensures
        r == bounce(v, p, q),
        within(r, VEL_LIMIT as int),
{
    let dx = p.x as i128 - q.x as i128;
    let dy = p.y as i128 - q.y as i128;
    let dz = p.z as i128 - q.z as i128;
    let ghost pl: int = 2_199_023_255_552;
    let ghost vl: int = 68_719_476_736;
    proof {
        lemma_mul_abs_bound(dx as int, v.x as int, pl, vl);
        lemma_mul_abs_bound(dy as int, v.y as int, pl, vl);
        lemma_mul_abs_bound(dz as int, v.z as int, pl, vl);
        lemma_mul_abs_bound(dx as int, dx as int, pl, pl);
        lemma_mul_abs_bound(dy as int, dy as int, pl, pl);
        lemma_mul_abs_bound(dz as int, dz as int, pl, pl);
    }
    let al = dx * v.x as i128 + dy * v.y as i128 + dz * v.z as i128;
    let dd = dx * dx + dy * dy + dz * dz;
    let x = bounce_component_exec(v.x, al, dx, dd);
    let y = bounce_component_exec(v.y, al, dy, dd);
    let z = bounce_component_exec(v.z, al, dz, dd);
    Vec3 { x, y, z }
}

fn first_contact_exec(ps: &Vec<Particle>, i: usize) -> (r: Option<usize>)
    requires
        all_valid(ps@),
        i < ps@.len(),
    ensures
        r == (match first_contact(ps@, i as int, 0) {
            Some(k) => Some(k as usize),
            None => None::<usize>,
        }),
{
    let n = ps.len();
    let mut j: usize = 0;
    while j < n
        invariant
            n == ps@.len(),
            j <= n,
            i < n,
            all_valid(ps@),
            first_contact(ps@, i as int, 0) == first_contact(ps@, i as int, j as int),
        decreases n - j,
    {
        if j != i && collides_exec(&ps[i], &ps[j]) {
            return Some(j);
        }
        j += 1;
    }
    None
}

fn reflect_exec(c: i64) -> (r: i64)
    requires
        abs(c as int) <= VEL_LIMIT,
    ensures
        r == reflect(c as int),
        abs(r as int) <= abs(c as int),
{
    let q = tdiv_exec(9 * c as i128, 5);
    (c as i128 - q) as i64
}

fn wall_velocity_exec(v: Vec3, p: Vec3) -> (r: Vec3)
    requires
        within(v, VEL_LIMIT as int),
    ensures
        r == wall_velocity(v, p),
        within(r, VEL_LIMIT as int),
{
    let mut r = v;
    if p.x < -WORLD_SIZE || p.x > WORLD_SIZE {
        r.x = reflect_exec(v.x);
    }
    if p.z < -WORLD_SIZE || p.z > WORLD_SIZE {
        r.z = reflect_exec(v.z);
    }
    if p.y < -WORLD_SIZE || p.y > WORLD_SIZE {
        r.y = reflect_exec(v.y);
    }
    r
}

/// The pending velocities of the collision model, one slot per particle:
/// `None` where the particle keeps its velocity into integration.
pub fn collision_pass(ps: &Vec<Particle>, boundary: bool) -> (r: Vec<Option<Vec3>>)
    requires
        all_valid(ps@),
    ensures
        r@.len() == ps@.len(),
        forall|i: int| 0 <= i < ps@.len() ==> #[trigger] r@[i] == collision_pending(ps@, boundary, i),
        forall|i: int|
            0 <= i < ps@.len() && (#[trigger] r@[i]) is Some ==> within(r@[i]->Some_0, VEL_LIMIT as int),
{
    let n = ps.len();
    let mut out: Vec<Option<Vec3>> = Vec::new();
    let mut i: usize = 0;
    while i < n
        invariant
            n == ps@.len(),
            i <= n,
            all_valid(ps@),
            out@.len() == i,
            forall|k: int| 0 <= k < i ==> #[trigger] out@[k] == collision_pending(ps@, boundary, k),
            forall|k: int|
                0 <= k < i && (#[trigger] out@[k]) is Some ==> within(out@[k]->Some_0, VEL_LIMIT as int),
        decreases n - i,
    {
        proof {
            lemma_first_contact(ps@, i as int, 0);
        }
        let contact = match first_contact_exec(ps, i) {
            Some(k) => {
                proof {
                    lemma_contact_apart(ps@[i as int], ps@[k as int]);
                }
                Some(bounce_exec(ps[i].velocity.velocity, ps[i].position, ps[k].position))
            },
            None => None,
        };
        let pending = if boundary {
            let seed = match contact {
                Some(v) => v,
                None => ps[i].velocity.velocity,
            };
            Some(wall_velocity_exec(seed, ps[i].position))
        } else {
            contact
        };
        out.push(pending);
        i += 1;
    }
    out
}

} // verus!

verus! {

/// A particle in contact with no other gets no pending velocity from the
/// collision model without walls: it keeps its velocity.
pub proof fn lemma_no_contact_no_entry(ps: Seq<Particle>, i: int)
    requires
        0 <= i < ps.len(),
        forall|j: int|
            0 <= j < ps.len() && j != i ==> !approaching(ps[i], #[trigger] ps[j]) || !overlapping(ps[i], ps[j]),
    ensures
        collision_pending(ps, false, i) is None,
{
    lemma_first_contact(ps, i, 0);
}

/// Contact is symmetric: `a` touches `b` exactly when `b` touches `a`.
pub proof fn lemma_collides_symmetric(a: Particle, b: Particle)
    ensures
        collides(a, b) == collides(b, a),
{
    assert(closing(a, b) == closing(b, a)) by (nonlinear_arith);
    assert(dist_sq(a.pos(), b.pos()) == dist_sq(b.pos(), a.pos())) by (nonlinear_arith);
}

/// Where particle `i` touches both `j1` and `j2`, and `j1` is its partner of
/// smallest index, its pending velocity is the response to `j1`; the later
/// contact with `j2` does not overwrite it.
pub proof fn lemma_first_write_wins(ps: Seq<Particle>, i: int, j1: int, j2: int)
    requires
        0 <= i < ps.len(),
        0 <= j1 < j2 < ps.len(),
        j1 != i,
        j2 != i,
        collides(ps[i], ps[j1]),
        collides(ps[i], ps[j2]),
        forall|m: int| 0 <= m < j1 && m != i ==> !collides(ps[i], #[trigger] ps[m]),
    ensures
        collision_pending(ps, false, i) == Some(bounce(ps[i].vel(), ps[i].pos(), ps[j1].pos())),
        contact_velocity(ps, i) == Some(bounce(ps[i].vel(), ps[i].pos(), ps[j1].pos())),
{
    lemma_first_contact(ps, i, 0);
    let k = first_contact(ps, i, 0)->Some_0;
    assert(first_contact(ps, i, 0) is Some) by {
        assert(!(j1 != i ==> !collides(ps[i], ps[j1])));
    }
    if k < j1 {
        assert(!collides(ps[i], ps[k]));
    }
    if k > j1 {
        assert(!collides(ps[i], ps[j1]));
    }
}

/// Two particles of equal size meeting head on along x with equal and
/// opposite speeds `u` leave with speed `DAMPING * u`, each turned back.
/// The result is exact where `u` is a multiple of 5.
pub proof fn lemma_head_on(a: Particle, b: Particle, u: i64)
    requires
        a.valid(),
        b.valid(),
        a.size == b.size,
        a.pos().y == b.pos().y,
        a.pos().z == b.pos().z,
        a.pos().x < b.pos().x,
        b.pos().x - a.pos().x < a.size.size + b.size.size,
        0 < u,
        u % 5 == 0,
        a.vel() == (Vec3 { x: u, y: 0, z: 0 }),
        b.vel() == (Vec3 { x: (-u) as i64, y: 0, z: 0 }),
    ensures
        collides(a, b),
        bounce(a.vel(), a.pos(), b.pos()) == (Vec3 { x: (-(4 * u / 5)) as i64, y: 0, z: 0 }),
        bounce(b.vel(), b.pos(), a.pos()) == (Vec3 { x: (4 * u / 5) as i64, y: 0, z: 0 }),
        contact_velocity(seq![a, b], 0) == Some(Vec3 { x: (-(4 * u / 5)) as i64, y: 0, z: 0 }),
        contact_velocity(seq![a, b], 1) == Some(Vec3 { x: (4 * u / 5) as i64, y: 0, z: 0 }),
{
    let l = b.pos().x - a.pos().x;
    let s = a.size.size + b.size.size;
    let k = u / 5;
    assert(u == 5 * k);
    let dx = diff_x(a.pos(), b.pos());
    assert(dx == -l);
    assert(diff_y(a.pos(), b.pos()) == 0 && diff_z(a.pos(), b.pos()) == 0);
    assert(diff_x(a.vel(), b.vel()) == 2 * u && diff_y(a.vel(), b.vel()) == 0 && diff_z(a.vel(), b.vel()) == 0);
    assert(closing(a, b) == dx * (2 * u));
    assert(dx * (2 * u) < 0) by (nonlinear_arith)
        requires
            dx < 0,
            u > 0,
    ;
    assert(dist_sq(a.pos(), b.pos()) == dx * dx);
    assert(dx * dx == l * l) by (nonlinear_arith)
        requires
            dx == -l,
    ;
    assert(l * l < s * s) by (nonlinear_arith)
        requires
            0 < l < s,
    ;
    assert(collides(a, b));
    lemma_collides_symmetric(a, b);
    // Along x the projection of the velocity on the normal is the velocity itself.
    let dd = l * l;
    assert(dd > 0) by (nonlinear_arith)
        requires
            l > 0,
            dd == l * l,
    ;
    assert(diff_y(b.pos(), a.pos()) == 0 && diff_z(b.pos(), a.pos()) == 0);
    assert(along(a.vel(), a.pos(), b.pos()) == -l * u);
    assert(along(b.vel(), b.pos(), a.pos()) == l * (-u));
    assert(l * (-u) == -l * u) by (nonlinear_arith);
    assert(dist_sq(b.pos(), a.pos()) == dd) by (nonlinear_arith)
        requires
            dist_sq(b.pos(), a.pos()) == l * l + diff_y(b.pos(), a.pos()) * diff_y(b.pos(), a.pos()) + diff_z(b.pos(), a.pos()) * diff_z(b.pos(), a.pos()),
            diff_y(b.pos(), a.pos()) == 0,
            diff_z(b.pos(), a.pos()) == 0,
            dd == l * l,
    ;
    assert(9 * (-l * u) * (-l) == (9 * k) * (5 * dd)) by (nonlinear_arith)
        requires
            u == 5 * k,
            dd == l * l,
    ;
    assert(9 * (-l * u) * l == -((9 * k) * (5 * dd))) by (nonlinear_arith)
        requires
            u == 5 * k,
            dd == l * l,
    ;
    assert(k >= 0);
    vstd::arithmetic::div_mod::lemma_div_by_multiple(9 * k, 5 * dd);
    assert(tdiv(9 * (-l * u) * (-l), 5 * dd) == 9 * k);
    assert(tdiv(9 * (-l * u) * l, 5 * dd) == -(9 * k));
    assert(9 * (-l * u) * 0 == 0);
    assert(tdiv(0, 5 * dd) == 0) by {
        vstd::arithmetic::div_mod::lemma_div_by_multiple(0, 5 * dd);
    }
    assert(4 * u / 5 == 4 * k);
    assert(bounce(a.vel(), a.pos(), b.pos()) == (Vec3 { x: (-(4 * u / 5)) as i64, y: 0, z: 0 }));
    assert(bounce(b.vel(), b.pos(), a.pos()) == (Vec3 { x: (4 * u / 5) as i64, y: 0, z: 0 }));
    let ps = seq![a, b];
    assert(first_contact(ps, 0, 0) == first_contact(ps, 0, 1));
    assert(first_contact(ps, 0, 1) == Some(1int));
    assert(first_contact(ps, 1, 0) == Some(0int));
}

/// A reflected velocity component is no larger in size than before.
pub proof fn lemma_reflect_bound(c: int)
    ensures
        abs(reflect(c)) <= abs(c),
{
}

/// A particle beyond the x+ and z+ walls, between the y walls and in contact
/// with no other particle, has both its x and z velocity reflected in the
/// same tick, and its y velocity untouched.
pub proof fn lemma_corner_compounds(ps: Seq<Particle>, i: int)
    requires
        0 <= i < ps.len(),
        all_valid(ps),
        ps[i].pos().x > WORLD_SIZE,
        ps[i].pos().z > WORLD_SIZE,
        -WORLD_SIZE <= ps[i].pos().y <= WORLD_SIZE,
        forall|j: int| 0 <= j < ps.len() && j != i ==> !collides(ps[i], #[trigger] ps[j]),
    ensures
        ({
            let v = ps[i].vel();
            let w = collision_pending(ps, true, i)->Some_0;
            &&& collision_pending(ps, true, i) is Some
            &&& w.x == reflect(v.x as int)
            &&& w.y == v.y
            &&& w.z == reflect(v.z as int)
        }),
{
    lemma_first_contact(ps, i, 0);
    assert(ps[i].valid());
    lemma_reflect_bound(ps[i].vel().x as int);
    lemma_reflect_bound(ps[i].vel().z as int);
}

} // verus!

verus! {

/// Records `v` for particle `i` unless it already has a pending velocity.
pub open spec fn record(slots: Seq<Option<Vec3>>, i: int, v: Vec3) -> Seq<Option<Vec3>> {
    if slots[i] is None { slots.update(i, Some(v)) } else { slots }
}

/// The pair `(a, b)` resolved into `slots`: on contact each particle gets its
/// response, first write winning.
pub open spec fn pair_step(ps: Seq<Particle>, slots: Seq<Option<Vec3>>, a: int, b: int) -> Seq<
    Option<Vec3>,
> {
    if collides(ps[a], ps[b]) {
        record(
            record(slots, a, bounce(ps[a].vel(), ps[a].pos(), ps[b].pos())),
            b,
            bounce(ps[b].vel(), ps[b].pos(), ps[a].pos()),
        )
    } else {
        slots
    }
}

/// The pairs `(a, b), (a, b + 1), ...` resolved in turn.
pub open spec fn pair_row(ps: Seq<Particle>, slots: Seq<Option<Vec3>>, a: int, b: int) -> Seq<
    Option<Vec3>,
>
    decreases ps.len() - b,
{
    if b < 0 || b >= ps.len() {
        slots
    } else {
        pair_row(ps, pair_step(ps, slots, a, b), a, b + 1)
    }
}

/// Every pair `(a, b)` with `a < b` and `a < rows` resolved in increasing
/// order, from empty slots.
pub open spec fn pair_rows(ps: Seq<Particle>, rows: nat) -> Seq<Option<Vec3>>
    decreases rows,
{
    if rows == 0 {
        Seq::new(ps.len(), |i: int| None)
    } else {
        pair_row(ps, pair_rows(ps, (rows - 1) as nat), rows - 1, rows as int)
    }
}

/// The pair `(x, y)`, `x < y`, comes before position `(a, b)` of the enumeration.
pub open spec fn pair_done(x: int, y: int, a: int, b: int) -> bool {
    x < a || (x == a && y < b)
}

/// What the slot of particle `i` holds at position `(a, b)`: the response to
/// its first partner once that pair is done, nothing before.
pub open spec fn slot_at(ps: Seq<Particle>, i: int, a: int, b: int) -> Option<Vec3> {
    match first_contact(ps, i, 0) {
        Some(k) => if (i < k && pair_done(i, k, a, b)) || (k < i && pair_done(k, i, a, b)) {
            Some(bounce(ps[i].vel(), ps[i].pos(), ps[k].pos()))
        } else {
            None
        },
        None => None,
    }
}

pub open spec fn slots_at(ps: Seq<Particle>, slots: Seq<Option<Vec3>>, a: int, b: int) -> bool {
    &&& slots.len() == ps.len()
    &&& forall|i: int| 0 <= i < ps.len() ==> #[trigger] slots[i] == slot_at(ps, i, a, b)
}

proof fn lemma_pair_step(ps: Seq<Particle>, slots: Seq<Option<Vec3>>, a: int, b: int)
    requires
        0 <= a < b < ps.len(),
        slots_at(ps, slots, a, b),
    ensures
        slots_at(ps, pair_step(ps, slots, a, b), a, b + 1),
{
    let next = pair_step(ps, slots, a, b);
    lemma_collides_symmetric(ps[a], ps[b]);
    assert forall|i: int| 0 <= i < ps.len() implies #[trigger] next[i] == slot_at(ps, i, a, b + 1) by {
        lemma_first_contact(ps, i, 0);
        if i == a {
            lemma_first_contact(ps, a, 0);
        } else if i == b {
            lemma_first_contact(ps, b, 0);
        }
    }
}

proof fn lemma_pair_row(ps: Seq<Particle>, slots: Seq<Option<Vec3>>, a: int, b: int)
    requires
        0 <= a < b <= ps.len(),
        slots_at(ps, slots, a, b),
    ensures
        slots_at(ps, pair_row(ps, slots, a, b), a, ps.len() as int),
    decreases ps.len() - b,
{
    if b < ps.len() {
        lemma_pair_step(ps, slots, a, b);
        lemma_pair_row(ps, pair_step(ps, slots, a, b), a, b + 1);
    }
}

proof fn lemma_pair_rows(ps: Seq<Particle>, rows: nat)
    requires
        0 < rows <= ps.len(),
    ensures
        slots_at(ps, pair_rows(ps, rows), rows - 1, ps.len() as int),
    decreases rows,
{
    let a = rows - 1;
    let before = pair_rows(ps, (rows - 1) as nat);
    if rows == 1 {
        assert forall|i: int| 0 <= i < ps.len() implies #[trigger] before[i] == slot_at(ps, i, 0, 1) by {
            lemma_first_contact(ps, i, 0);
        }
    } else {
        lemma_pair_rows(ps, (rows - 1) as nat);
        assert forall|i: int| 0 <= i < ps.len() implies #[trigger] before[i] == slot_at(ps, i, a, a + 1) by {
            assert(before[i] == slot_at(ps, i, a - 1, ps.len() as int));
            lemma_first_contact(ps, i, 0);
        }
    }
    lemma_pair_row(ps, before, a, a + 1);
}

/// Resolving every pair in increasing index order, a particle keeping the
/// response of the first pair that touches it, leaves in each slot exactly
/// the response to the particle's partner of smallest index.
pub proof fn lemma_pair_order(ps: Seq<Particle>)
    ensures
        pair_rows(ps, ps.len()).len() == ps.len(),
        forall|i: int| 0 <= i < ps.len() ==> #[trigger] pair_rows(ps, ps.len())[i] == contact_velocity(ps, i),
{
    if ps.len() > 0 {
        lemma_pair_rows(ps, ps.len());
        let s = pair_rows(ps, ps.len());
        assert forall|i: int| 0 <= i < ps.len() implies #[trigger] s[i] == contact_velocity(ps, i) by {
            lemma_first_contact(ps, i, 0);
        }
    }
}

} // verus!
