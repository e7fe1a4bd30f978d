//! The softened gravitational force law and the symplectic-Euler
//! integrator.
//!
//! The force between two point masses separated by `d = pos_a - pos_b` is
//! `-d * G*mass_a*mass_b / (|d|^2 + EPSILON)^1.5`, evaluated in fixed point:
//! magnitudes are computed over unsigned 128-bit intermediates with explicit
//! saturation, the sign is applied last, so equal and opposite contributions
//! are exact.
use vstd::prelude::*;

use crate::body::Body;
use crate::fixed::{abs_u128, iabs, sat64, tdiv, Scalar, MAX_RAW, SCALE};
use crate::vec2::Vec2;

verus! {

/// The gravitational constant, in raw units (5.0).
pub const G_RAW: i64 = 5_000_000;

/// The integration timestep the drivers use, in raw units (0.01).
pub const DT_RAW: i64 = 10_000;

/// The softening constant, in raw units (1.0).
pub const EPSILON_RAW: i64 = 1_000_000;

/// The softening term on the squared-distance scale.
pub const EPS_TERM: u128 = 1_000_000_000_000;

/// The saturation cap of unsigned 128-bit intermediates.
pub const U128_CAP: u128 = 0xffff_ffff_ffff_ffff_ffff_ffff_ffff_ffff;

/// Addition saturating at the 128-bit cap.
pub open spec fn satadd_u(a: int, b: int) -> int {
    if a + b > U128_CAP as int {
        U128_CAP as int
    } else {
        a + b
    }
}

/// Multiplication saturating at the 128-bit cap.
pub open spec fn satmul_u(a: int, b: int) -> int {
    if a * b > U128_CAP as int {
        U128_CAP as int
    } else {
        a * b
    }
}

/// `r` is the integer square root of `n`, rounded down.
pub open spec fn is_isqrt(n: int, r: int) -> bool {
    0 <= r && r * r <= n && n < (r + 1) * (r + 1)
}

/// The integer square root, rounded down.
pub open spec fn isqrt_spec(n: int) -> int {
    choose|r: int| is_isqrt(n, r)
}

/// The integer square root is unique.
pub proof fn lemma_isqrt_unique(n: int, r: int)
    requires
        is_isqrt(n, r),
    ensures
        isqrt_spec(n) == r,
{
    let w = choose|w: int| is_isqrt(n, w);
    assert(is_isqrt(n, w));
    assert(w == r) by (nonlinear_arith)
        requires
            is_isqrt(n, w),
            is_isqrt(n, r),
    ;
}

/// The softened squared distance between two positions, on the raw-squared
/// scale.
pub open spec fn dist2_spec(pa: Vec2, pb: Vec2) -> int {
    let dx = iabs(pa.x.v() - pb.x.v());
    let dy = iabs(pa.y.v() - pb.y.v());
    satadd_u(satadd_u(dx * dx, dy * dy), EPS_TERM as int)
}

/// The force denominator `(|d|^2 + EPSILON)^1.5`, on the raw-squared scale.
pub open spec fn force_denom(d2: int) -> int {
    satmul_u(d2, isqrt_spec(d2)) / (SCALE as int)
}

/// The magnitude of one axis of the force contribution, in raw units.
pub open spec fn force_mag_axis(delta: int, ma: int, mb: int, d2: int) -> int {
    let gm = (G_RAW as int) * iabs(ma) / (SCALE as int);
    let gmm = satmul_u(gm, iabs(mb)) / (SCALE as int);
    let num = satmul_u(satmul_u(iabs(delta), gmm), SCALE as int);
    sat64(num / force_denom(d2))
}

/// The force vector added to the accumulator of a body of mass `ma` at `pa`
/// by a point mass `mb` at `pb`: attraction, so each component points from
/// `pa` toward `pb`.
pub open spec fn pair_force(pa: Vec2, ma: Scalar, pb: Vec2, mb: Scalar) -> Vec2 {
    let d2 = dist2_spec(pa, pb);
    let fx = force_mag_axis(pa.x.v() - pb.x.v(), ma.v(), mb.v(), d2);
    let fy = force_mag_axis(pa.y.v() - pb.y.v(), ma.v(), mb.v(), d2);
    Vec2 {
        x: Scalar {
            raw: (if pa.x.v() >= pb.x.v() {
                -fx
            } else {
                fx
            }) as i64,
        },
        y: Scalar {
            raw: (if pa.y.v() >= pb.y.v() {
                -fy
            } else {
                fy
            }) as i64,
        },
    }
}

/// Component-wise saturating vector addition.
pub open spec fn vec2_add(a: Vec2, b: Vec2) -> Vec2 {
    Vec2 {
        x: Scalar { raw: sat64(a.x.v() + b.x.v()) as i64 },
        y: Scalar { raw: sat64(a.y.v() + b.y.v()) as i64 },
    }
}

/// Component-wise saturating vector subtraction.
pub open spec fn vec2_sub(a: Vec2, b: Vec2) -> Vec2 {
    Vec2 {
        x: Scalar { raw: sat64(a.x.v() - b.x.v()) as i64 },
        y: Scalar { raw: sat64(a.y.v() - b.y.v()) as i64 },
    }
}

/// What one integration step does: acceleration from the accumulated force,
/// position advanced with the pre-update velocity, velocity advanced with
/// the new acceleration, accumulator cleared.
pub open spec fn integrate_model(b: Body, dt: Scalar) -> Body {
    let ax = sat64(tdiv(b.force.x.v() * (SCALE as int), b.mass.v()));
    let ay = sat64(tdiv(b.force.y.v() * (SCALE as int), b.mass.v()));
    let px = sat64(b.pos.x.v() + sat64(tdiv(b.velocity.x.v() * dt.v(), SCALE as int)));
    let py = sat64(b.pos.y.v() + sat64(tdiv(b.velocity.y.v() * dt.v(), SCALE as int)));
    let vx = sat64(b.velocity.x.v() + sat64(tdiv(ax * dt.v(), SCALE as int)));
    let vy = sat64(b.velocity.y.v() + sat64(tdiv(ay * dt.v(), SCALE as int)));
    Body {
        pos: Vec2 { x: Scalar { raw: px as i64 }, y: Scalar { raw: py as i64 } },
        acceleration: Vec2 { x: Scalar { raw: ax as i64 }, y: Scalar { raw: ay as i64 } },
        velocity: Vec2 { x: Scalar { raw: vx as i64 }, y: Scalar { raw: vy as i64 } },
        force: Vec2 { x: Scalar { raw: 0 }, y: Scalar { raw: 0 } },
        ..b
    }
}

/// Magnitude of the difference of two raw coordinates.
pub(crate) fn diff_mag(a: i64, b: i64) -> (r: u128)
    ensures
        r as int == iabs(a as int - b as int),
{
    let d: i128 = (a as i128) - (b as i128);
    if d >= 0 {
        d as u128
    } else {
        (-d) as u128
    }
}

/// Saturating unsigned addition.
pub(crate) fn satadd_u128(a: u128, b: u128) -> (r: u128)
    ensures
        r as int == satadd_u(a as int, b as int),
{
    match a.checked_add(b) {
        Some(x) => x,
        None => U128_CAP,
    }
}

/// Saturating unsigned multiplication.
pub(crate) fn satmul_u128(a: u128, b: u128) -> (r: u128)
    ensures
        r as int == satmul_u(a as int, b as int),
{
    match a.checked_mul(b) {
        Some(x) => x,
        None => U128_CAP,
    }
}

/// Integer square root by binary search.
fn isqrt_u128(n: u128) -> (r: u128)
    ensures
        is_isqrt(n as int, r as int),
{
    let mut lo: u128 = 0;
    let mut hi: u128 = 0x1_0000_0000_0000_0000;
    proof {
        assert((hi as int) * (hi as int) > n as int) by (nonlinear_arith)
            requires
                hi == 0x1_0000_0000_0000_0000u128,
                n <= 0xffff_ffff_ffff_ffff_ffff_ffff_ffff_ffffu128,
        ;
    }
    while lo + 1 < hi
        invariant
            lo < hi <= 0x1_0000_0000_0000_0000,
            (lo as int) * (lo as int) <= n as int,
            (n as int) < (hi as int) * (hi as int),
        decreases hi - lo,
    {
        let mid = lo + (hi - lo) / 2;
        proof {
            assert(lo < mid < hi);
            assert((mid as int) * (mid as int) < 0xffff_ffff_ffff_ffff_ffff_ffff_ffff_ffffu128)
                by (nonlinear_arith)
                requires
                    mid < 0x1_0000_0000_0000_0000u128,
            ;
        }
        if mid * mid <= n {
            lo = mid;
        } else {
            hi = mid;
        }
    }
    lo
}

/// Clamp a nonnegative 128-bit magnitude into the raw scalar range.
fn sat64_mag(q: u128) -> (r: i64)
    ensures
        r as int == sat64(q as int),
{
    if q > MAX_RAW as u128 {
        MAX_RAW
    } else {
        q as i64
    }
}

/// The force vector one pairing adds to the first body's accumulator.
fn pair_force_exec(pa: Vec2, ma: Scalar, pb: Vec2, mb: Scalar) -> (f: Vec2)
    ensures
        f == pair_force(pa, ma, pb, mb),
{
    let dxm = diff_mag(pa.x.raw, pb.x.raw);
    let dym = diff_mag(pa.y.raw, pb.y.raw);
    proof {
        assert(dxm * dxm <= 0xffff_ffff_ffff_ffff_ffff_ffff_ffff_ffffu128) by (nonlinear_arith)
            requires
                dxm < 0x1_0000_0000_0000_0000u128,
        ;
        assert(dym * dym <= 0xffff_ffff_ffff_ffff_ffff_ffff_ffff_ffffu128) by (nonlinear_arith)
            requires
                dym < 0x1_0000_0000_0000_0000u128,
        ;
    }
    let d2 = satadd_u128(satadd_u128(dxm * dxm, dym * dym), EPS_TERM);
    let rt = isqrt_u128(d2);
    proof {
        lemma_isqrt_unique(d2 as int, rt as int);
    }
    let den = satmul_u128(d2, rt);
    let dens = den / 1_000_000u128;
    proof {
        assert(d2 >= EPS_TERM);
        assert(rt as int >= SCALE as int) by (nonlinear_arith)
            requires
                is_isqrt(d2 as int, rt as int),
                d2 >= 1_000_000_000_000u128,
        ;
        assert(den as int >= 1_000_000_000_000_000_000int) by (nonlinear_arith)
            requires
                den as int == satmul_u(d2 as int, rt as int),
                d2 >= 1_000_000_000_000u128,
                rt as int >= 1_000_000int,
        ;
        assert(dens >= 1);
    }
    let g1: u128 = (G_RAW as u128) * abs_u128(ma.raw);
    let gm = g1 / 1_000_000u128;
    let g2 = satmul_u128(gm, abs_u128(mb.raw));
    let gmm = g2 / 1_000_000u128;
    let numx = satmul_u128(satmul_u128(dxm, gmm), 1_000_000u128);
    let numy = satmul_u128(satmul_u128(dym, gmm), 1_000_000u128);
    let fx = sat64_mag(numx / dens);
    let fy = sat64_mag(numy / dens);
    Vec2 {
        x: Scalar {
            raw: if pa.x.raw >= pb.x.raw {
                -fx
            } else {
                fx
            },
        },
        y: Scalar {
            raw: if pa.y.raw >= pb.y.raw {
                -fy
            } else {
                fy
            },
        },
    }
}

/// Add the softened pairwise force to the accumulators of the first two
/// bodies of the collection: attraction on the first, the exact opposite on
/// the second.
pub fn calculate_force(bodies: &mut Vec<Body>)
    requires
        old(bodies).len() >= 2,
    ensures
        ({
            let f = pair_force(
                old(bodies)@[0].pos,
                old(bodies)@[0].mass,
                old(bodies)@[1].pos,
                old(bodies)@[1].mass,
            );
            final(bodies)@ == old(bodies)@.update(
                0,
                Body { force: vec2_add(old(bodies)@[0].force, f), ..old(bodies)@[0] },
            ).update(1, Body { force: vec2_sub(old(bodies)@[1].force, f), ..old(bodies)@[1] })
        }),
{
    let mut a = bodies[0];
    let mut b = bodies[1];
    calculate_force_single(&mut a, &mut b);
    bodies[0] = a;
    bodies[1] = b;
}

/// Add the softened pairwise force to both bodies' accumulators: attraction
/// on `body_a`, the exact opposite contribution on `body_b`.
pub fn calculate_force_single(body_a: &mut Body, body_b: &mut Body)
    ensures
        ({
            let f = pair_force(
                old(body_a).pos,
                old(body_a).mass,
                old(body_b).pos,
                old(body_b).mass,
            );
            &&& *final(body_a) == (Body {
                force: vec2_add(old(body_a).force, f),
                ..*old(body_a)
            })
            &&& *final(body_b) == (Body {
                force: vec2_sub(old(body_b).force, f),
                ..*old(body_b)
            })
        }),
{
    let f = pair_force_exec(body_a.pos, body_a.mass, body_b.pos, body_b.mass);
    body_a.force = Vec2 { x: body_a.force.x.add(f.x), y: body_a.force.y.add(f.y) };
    body_b.force = Vec2 { x: body_b.force.x.sub(f.x), y: body_b.force.y.sub(f.y) };
}

/// Add the softened force from an aggregate point mass (a subtree's center
/// of mass) to one body's accumulator; the aggregate has no accumulator of
/// its own.
pub fn calculate_force_mass_center(body_a: &mut Body, center: Vec2, mass: Scalar)
    ensures
        *final(body_a) == (Body {
            force: vec2_add(
                old(body_a).force,
                pair_force(old(body_a).pos, old(body_a).mass, center, mass),
            ),
            ..*old(body_a)
        }),
{
    let f = pair_force_exec(body_a.pos, body_a.mass, center, mass);
    body_a.force = Vec2 { x: body_a.force.x.add(f.x), y: body_a.force.y.add(f.y) };
}

/// One symplectic-Euler step: acceleration from the accumulated force,
/// position advanced with the pre-update velocity, velocity advanced with
/// the new acceleration, accumulator cleared.
pub fn apply_force(body_a: &mut Body, dt: Scalar)
    requires
        old(body_a).mass.v() > 0,
    ensures
        *final(body_a) == integrate_model(*old(body_a), dt),
{
    let acceleration = Vec2 {
        x: body_a.force.x.div(body_a.mass),
        y: body_a.force.y.div(body_a.mass),
    };
    body_a.acceleration = acceleration;
    body_a.pos = Vec2 {
        x: body_a.pos.x.add(body_a.velocity.x.mul(dt)),
        y: body_a.pos.y.add(body_a.velocity.y.mul(dt)),
    };
    body_a.velocity = Vec2 {
        x: body_a.velocity.x.add(acceleration.x.mul(dt)),
        y: body_a.velocity.y.add(acceleration.y.mul(dt)),
    };
    body_a.force = Vec2 { x: Scalar { raw: 0 }, y: Scalar { raw: 0 } };
}

/// Symplectic ordering: the position advances with the pre-update velocity
/// alone, and a body with an empty accumulator keeps its velocity; the
/// accumulator is always cleared by the step.
pub proof fn lemma_integrator_ordering(b: Body, dt: Scalar)
    requires
        b.mass.v() > 0,
    ensures
        integrate_model(b, dt).pos.x.v() == sat64(
            b.pos.x.v() + sat64(tdiv(b.velocity.x.v() * dt.v(), SCALE as int)),
        ),
        integrate_model(b, dt).pos.y.v() == sat64(
            b.pos.y.v() + sat64(tdiv(b.velocity.y.v() * dt.v(), SCALE as int)),
        ),
        integrate_model(b, dt).force.x.v() == 0,
        integrate_model(b, dt).force.y.v() == 0,
        (b.force.x.v() == 0 && b.force.y.v() == 0 && -(MAX_RAW as int) <= b.velocity.x.v()
            && -(MAX_RAW as int) <= b.velocity.y.v()) ==> integrate_model(b, dt).velocity
            == b.velocity,
{
}

/// Truncating division and symmetric saturation are odd functions.
pub proof fn lemma_sat_tdiv_odd(n: int, d: int)
    requires
        d > 0,
    ensures
        tdiv(-n, d) == -tdiv(n, d),
        sat64(-n) == -sat64(n),
{
}

/// Momentum conservation for a mirrored pair: two bodies of equal mass with
/// exactly opposite accumulated forces and opposite velocities keep exactly
/// opposite velocities after one integration step, and the displacements the
/// step adds to their positions are exactly opposite, so the pair's center
/// of mass does not move.
pub proof fn lemma_pair_momentum(a: Body, b: Body, dt: Scalar)
    requires
        a.mass == b.mass,
        a.mass.v() > 0,
        a.force.x.v() == -b.force.x.v(),
        a.force.y.v() == -b.force.y.v(),
        a.velocity.x.v() == -b.velocity.x.v(),
        a.velocity.y.v() == -b.velocity.y.v(),
    ensures
        integrate_model(a, dt).velocity.x.v() == -integrate_model(b, dt).velocity.x.v(),
        integrate_model(a, dt).velocity.y.v() == -integrate_model(b, dt).velocity.y.v(),
        sat64(tdiv(a.velocity.x.v() * dt.v(), SCALE as int)) == -sat64(
            tdiv(b.velocity.x.v() * dt.v(), SCALE as int),
        ),
        sat64(tdiv(a.velocity.y.v() * dt.v(), SCALE as int)) == -sat64(
            tdiv(b.velocity.y.v() * dt.v(), SCALE as int),
        ),
{
    let m = a.mass.v();
    let s = SCALE as int;
    assert(a.force.x.v() * s == -(b.force.x.v() * s)) by (nonlinear_arith)
        requires
            a.force.x.v() == -b.force.x.v(),
    ;
    assert(a.force.y.v() * s == -(b.force.y.v() * s)) by (nonlinear_arith)
        requires
            a.force.y.v() == -b.force.y.v(),
    ;
    lemma_sat_tdiv_odd(b.force.x.v() * s, m);
    lemma_sat_tdiv_odd(b.force.y.v() * s, m);
    let ax = sat64(tdiv(a.force.x.v() * s, m));
    let ay = sat64(tdiv(a.force.y.v() * s, m));
    let bx = sat64(tdiv(b.force.x.v() * s, m));
    let by = sat64(tdiv(b.force.y.v() * s, m));
    assert(ax == -bx && ay == -by);
    assert(ax * dt.v() == -(bx * dt.v())) by (nonlinear_arith)
        requires
            ax == -bx,
    ;
    assert(ay * dt.v() == -(by * dt.v())) by (nonlinear_arith)
        requires
            ay == -by,
    ;
    lemma_sat_tdiv_odd(bx * dt.v(), s);
    lemma_sat_tdiv_odd(by * dt.v(), s);
    assert(a.velocity.x.v() * dt.v() == -(b.velocity.x.v() * dt.v())) by (nonlinear_arith)
        requires
            a.velocity.x.v() == -b.velocity.x.v(),
    ;
    assert(a.velocity.y.v() * dt.v() == -(b.velocity.y.v() * dt.v())) by (nonlinear_arith)
        requires
            a.velocity.y.v() == -b.velocity.y.v(),
    ;
    lemma_sat_tdiv_odd(b.velocity.x.v() * dt.v(), s);
    lemma_sat_tdiv_odd(b.velocity.y.v() * dt.v(), s);
    let dvx = sat64(tdiv(ax * dt.v(), s));
    let dvy = sat64(tdiv(ay * dt.v(), s));
    assert(a.velocity.x.v() + dvx == -(b.velocity.x.v() + sat64(tdiv(bx * dt.v(), s))));
    lemma_sat_tdiv_odd(b.velocity.x.v() + sat64(tdiv(bx * dt.v(), s)), 1);
    lemma_sat_tdiv_odd(b.velocity.y.v() + sat64(tdiv(by * dt.v(), s)), 1);
}

} // verus!
