//! Pairwise circle-circle separation.
//!
//! Two overlapping balls are pushed apart along the line between their
//! centers, each by half the penetration depth; equal-mass, purely
//! positional correction with no impulse model. Coincident centers are
//! special-cased: the pair is nudged apart along a fixed axis, so no
//! undefined direction ever enters the state.

use vstd::prelude::*;
use crate::ball::Ball;
use crate::num::POS_LIMIT;
use crate::num::RADIUS_LIMIT;
use crate::num::clamp_coord;
use crate::num::div_toward_zero;
use crate::num::clamp_coord_exec;
use crate::num::isqrt;
use crate::num::lemma_scaled_mag_bounded;
use crate::num::lemma_sqrt_ceil_bounds;
use crate::num::lemma_sqrt_floor_below;
use crate::num::mag_sq;
use crate::num::mag_sq_exec;
use crate::num::sqrt_ceil;
use crate::num::sqrt_floor;
use crate::point_2d::Point2D;
use crate::point_2d::dist_sq;
use crate::vector_2d::Vector2D;

verus! {

/// The positions of an overlapping pair after separation, or `None` when
/// the pair does not overlap: when the centers are at least the sum of the
/// radii apart (in the exact squared sense), the balls are untouched.
/// Coincident centers are pushed apart along the x axis.
pub open spec fn spec_postcollision(b1: Ball, b2: Ball) -> Option<(Point2D, Point2D)> {
    let p1 = b1.verlet_object.position_current;
    let p2 = b2.verlet_object.position_current;
    let d2 = dist_sq(p1, p2);
    let min_d = b1.characteristics.radius + b2.characteristics.radius;
    if d2 >= min_d * min_d {
        None
    } else if d2 == 0 {
        let h = min_d / 2;
        Some(
            (
                Point2D { x: clamp_coord(p1.x - h) as i64, y: p1.y },
                Point2D { x: clamp_coord(p2.x + h) as i64, y: p2.y },
            ),
        )
    } else {
        let len = sqrt_floor(d2 as nat) as int;
        let h = (min_d - len) / 2;
        let v = Vector2D { x: (p2.x - p1.x) as i64, y: (p2.y - p1.y) as i64 };
        let s = v.spec_scaled_to(h);
        Some(
            (
                Point2D {
                    x: clamp_coord(p1.x - s.x) as i64,
                    y: clamp_coord(p1.y - s.y) as i64,
                },
                Point2D {
                    x: clamp_coord(p2.x + s.x) as i64,
                    y: clamp_coord(p2.y + s.y) as i64,
                },
            ),
        )
    }
}

/// The separated positions for an overlapping pair, `None` for a pair that
/// does not overlap.
pub fn calculate_postcollision_positions(ball_1: &Ball, ball_2: &Ball) -> (r: Option<
    (Point2D, Point2D),
>)
    requires
        ball_1.wf(),
        ball_2.wf(),
    ensures
        r == spec_postcollision(*ball_1, *ball_2),
        match r {
            Some(pp) => pp.0.in_world() && pp.1.in_world(),
            None => true,
        },
{
    let p1 = ball_1.verlet_object.position_current;
    let p2 = ball_2.verlet_object.position_current;
    let v = p1.vector_to(&p2);
    let d2 = mag_sq_exec(v.x, v.y);
    let min_d = ball_1.characteristics.radius + ball_2.characteristics.radius;
    proof {
        assert(min_d as u128 as int * (min_d as u128 as int) == min_d as int * min_d as int
            && min_d as int * min_d as int <= 4_000_000_000_000_000_000)
            by (nonlinear_arith)
            requires 2 <= min_d as int <= 2_000_000_000;
    }
    let min_d2: u128 = (min_d as u128) * (min_d as u128);
    if d2 >= min_d2 {
        None
    } else if d2 == 0 {
        let h = min_d / 2;
        let q1 = Point2D { x: clamp_coord_exec(p1.x as i128 - h as i128), y: p1.y };
        let q2 = Point2D { x: clamp_coord_exec(p2.x as i128 + h as i128), y: p2.y };
        Some((q1, q2))
    } else {
        let len = isqrt(d2);
        proof {
            lemma_sqrt_floor_below(d2 as nat, min_d as nat);
            assert(min_d as nat * min_d as nat == min_d as int * min_d as int);
            vstd::arithmetic::div_mod::lemma_div_nonincreasing(min_d as int - len as int, 2);
            vstd::arithmetic::div_mod::lemma_div_pos_is_pos(min_d as int - len as int, 2);
        }
        let h: i64 = ((min_d as u128 - len) / 2) as i64;
        proof {
            assert(!(v.x == 0 && v.y == 0)) by (nonlinear_arith)
                requires
                    mag_sq(v.x as int, v.y as int) > 0,
                    mag_sq(v.x as int, v.y as int) == v.x as int * v.x as int
                        + v.y as int * v.y as int;
        }
        let s = v.scaled_to(h);
        let q1 = Point2D {
            x: clamp_coord_exec(p1.x as i128 - s.x as i128),
            y: clamp_coord_exec(p1.y as i128 - s.y as i128),
        };
        let q2 = Point2D {
            x: clamp_coord_exec(p2.x as i128 + s.x as i128),
            y: clamp_coord_exec(p2.y as i128 + s.y as i128),
        };
        Some((q1, q2))
    }
}

/// Law: a pair whose centers are at least the sum of the radii apart is
/// left untouched; the resolver returns `None` exactly then.
pub proof fn lemma_no_op_when_separated(b1: Ball, b2: Ball)
    ensures
        spec_postcollision(b1, b2) is None <==> dist_sq(
            b1.verlet_object.position_current,
            b2.verlet_object.position_current,
        ) >= (b1.characteristics.radius + b2.characteristics.radius) * (
        b1.characteristics.radius + b2.characteristics.radius),
{
}

/// The world box shrunk by the largest possible pair of radii: a pair of
/// centers in here is never clamped by the resolver.
pub const POS_LIMIT_INTERIOR: i64 = POS_LIMIT - 2 * RADIUS_LIMIT;

/// Law: an overlapping pair with distinct centers, away from the world
/// box's edge, is moved symmetrically: the two displacements are exact
/// negations of each other, each has magnitude at most half the penetration
/// depth (the sum of the radii less the rounded-down distance), and the
/// centers never end up closer than they began.
pub proof fn lemma_collision_symmetry(b1: Ball, b2: Ball)
    requires
        b1.wf(),
        b2.wf(),
        ({
            let p1 = b1.verlet_object.position_current;
            let p2 = b2.verlet_object.position_current;
            let min_d = b1.characteristics.radius + b2.characteristics.radius;
            &&& 0 < dist_sq(p1, p2) < min_d * min_d
            &&& -POS_LIMIT_INTERIOR <= p1.x <= POS_LIMIT_INTERIOR
            &&& -POS_LIMIT_INTERIOR <= p1.y <= POS_LIMIT_INTERIOR
            &&& -POS_LIMIT_INTERIOR <= p2.x <= POS_LIMIT_INTERIOR
            &&& -POS_LIMIT_INTERIOR <= p2.y <= POS_LIMIT_INTERIOR
        }),
    ensures
        spec_postcollision(b1, b2) is Some,
        ({
            let p1 = b1.verlet_object.position_current;
            let p2 = b2.verlet_object.position_current;
            let d2 = dist_sq(p1, p2);
            let min_d = b1.characteristics.radius + b2.characteristics.radius;
            let h = (min_d - sqrt_floor(d2 as nat)) / 2;
            let pp = spec_postcollision(b1, b2)->Some_0;
            &&& p1.x - pp.0.x == -(p2.x - pp.1.x)
            &&& p1.y - pp.0.y == -(p2.y - pp.1.y)
            &&& mag_sq(pp.0.x - p1.x, pp.0.y - p1.y) <= h * h
            &&& dist_sq(pp.0, pp.1) >= dist_sq(p1, p2)
        }),
{
    let p1 = b1.verlet_object.position_current;
    let p2 = b2.verlet_object.position_current;
    let d2 = dist_sq(p1, p2);
    let min_d = b1.characteristics.radius + b2.characteristics.radius;
    let len = sqrt_floor(d2 as nat) as int;
    let h = (min_d - len) / 2;
    let v = Vector2D { x: (p2.x - p1.x) as i64, y: (p2.y - p1.y) as i64 };
    assert(v.x == p2.x - p1.x && v.y == p2.y - p1.y);
    assert(v.spec_mag_sq() == d2);
    lemma_sqrt_floor_below(d2 as nat, min_d as nat);
    assert(min_d as nat * min_d as nat == min_d * min_d);
    assert(0 <= len < min_d);
    vstd::arithmetic::div_mod::lemma_div_nonincreasing(min_d - len, 2);
    vstd::arithmetic::div_mod::lemma_div_pos_is_pos(min_d - len, 2);
    assert(0 <= h <= min_d);
    let l = sqrt_ceil(d2 as nat) as int;
    lemma_sqrt_ceil_bounds(d2 as nat);
    lemma_scaled_mag_bounded(v.x as int, v.y as int, h, l);
    let s = v.spec_scaled_to(h);
    assert(-min_d <= s.x <= min_d && -min_d <= s.y <= min_d);
    let pp = spec_postcollision(b1, b2)->Some_0;
    assert(pp.0.x == clamp_coord(p1.x - s.x) as i64);
    assert(clamp_coord(p1.x - s.x) == p1.x - s.x);
    assert(pp.0.x == p1.x - s.x && pp.0.y == p1.y - s.y);
    assert(pp.1.x == p2.x + s.x && pp.1.y == p2.y + s.y);
    assert(mag_sq(pp.0.x - p1.x, pp.0.y - p1.y) == mag_sq(s.x as int, s.y as int))
        by (nonlinear_arith)
        requires
            pp.0.x - p1.x == -(s.x as int),
            pp.0.y - p1.y == -(s.y as int),
            mag_sq(pp.0.x - p1.x, pp.0.y - p1.y) == (pp.0.x - p1.x) * (pp.0.x - p1.x) + (
            pp.0.y - p1.y) * (pp.0.y - p1.y),
            mag_sq(s.x as int, s.y as int) == s.x as int * s.x as int + s.y as int * s.y as int;
    lemma_push_does_not_approach(v.x as int, s.x as int, h, l);
    lemma_push_does_not_approach(v.y as int, s.y as int, h, l);
    let nx = pp.1.x - pp.0.x;
    let ny = pp.1.y - pp.0.y;
    assert(nx == v.x + 2 * s.x && ny == v.y + 2 * s.y);
    assert(nx * nx >= v.x as int * v.x as int) by (nonlinear_arith)
        requires (0 <= v.x as int && v.x as int <= nx) || (nx <= v.x as int && v.x as int <= 0);
    assert(ny * ny >= v.y as int * v.y as int) by (nonlinear_arith)
        requires (0 <= v.y as int && v.y as int <= ny) || (ny <= v.y as int && v.y as int <= 0);
    assert(dist_sq(pp.0, pp.1) == nx * nx + ny * ny);
}

/// Pushing a component outward along its own sign never shrinks it: the
/// scaled component has the sign of the original, so adding twice of it
/// moves the difference away from zero.
proof fn lemma_push_does_not_approach(d: int, q: int, h: int, l: int)
    requires
        l >= 1,
        h >= 0,
        q == div_toward_zero(d * h, l),
    ensures
        d >= 0 ==> d <= d + 2 * q,
        d <= 0 ==> d + 2 * q <= d,
{
    if d >= 0 {
        assert(d * h >= 0) by (nonlinear_arith)
            requires d >= 0, h >= 0;
        vstd::arithmetic::div_mod::lemma_div_pos_is_pos(d * h, l);
    } else {
        assert(d * h <= 0 && -(d * h) >= 0) by (nonlinear_arith)
            requires d <= 0, h >= 0;
        vstd::arithmetic::div_mod::lemma_div_pos_is_pos(-(d * h), l);
    }
}

} // verus!
