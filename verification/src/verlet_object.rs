//! Positional (Verlet) integration of one body.
//!
//! A body carries its current and previous position; the difference is its
//! implicit per-step displacement, so velocity inference is exact only while
//! the step duration stays constant. The acceleration field is a per-step
//! accumulator, reset to zero by every integration step.

use vstd::prelude::*;
use crate::num::ACC_LIMIT;
use crate::num::DT_MAX_MICROS;
use crate::num::MICROS_PER_SECOND;
use crate::num::VEL_LIMIT;
use crate::num::accel_delta;
use crate::num::accel_delta_exec;
use crate::num::clamp_accel;
use crate::num::clamp_accel_exec;
use crate::num::clamp_coord;
use crate::num::clamp_coord_exec;
use crate::num::div_toward_zero;
use crate::num::div_tz;
use crate::point_2d::Point2D;
use crate::vector_2d::Vector2D;

verus! {

/// Where a body starts and how fast it is already moving, in coordinate
/// units and coordinate units per second.
#[derive(Clone, Copy, Debug, PartialEq, Eq, Structural)]
pub struct StartConditions {
    pub position: Point2D,
    pub velocity: Vector2D,
}

impl StartConditions {
    /// The position lies in the world box and the velocity components are
    /// within the supported bound.
    pub open spec fn wf(self) -> bool {
        &&& self.position.in_world()
        &&& -VEL_LIMIT <= self.velocity.x <= VEL_LIMIT
        &&& -VEL_LIMIT <= self.velocity.y <= VEL_LIMIT
    }
}

/// Integrator state of one body.
#[derive(Clone, Copy, Debug, PartialEq, Eq, Structural)]
pub struct VerletObject {
    pub position_current: Point2D,
    pub position_old: Point2D,
    pub acceleration: Vector2D,
}

/// The initial integrator state for the given start conditions: the previous
/// position is backdated by one step's worth of the requested velocity, so
/// the first integration step reproduces that velocity exactly.
pub open spec fn spec_backdated(start: StartConditions, dt: int) -> VerletObject {
    VerletObject {
        position_current: start.position,
        position_old: Point2D {
            x: clamp_coord(
                start.position.x - div_toward_zero(
                    start.velocity.x * dt,
                    MICROS_PER_SECOND as int,
                ),
            ) as i64,
            y: clamp_coord(
                start.position.y - div_toward_zero(
                    start.velocity.y * dt,
                    MICROS_PER_SECOND as int,
                ),
            ) as i64,
        },
        acceleration: Vector2D { x: 0, y: 0 },
    }
}

impl VerletObject {
    /// Positions in the world box, acceleration within the saturation bound.
    pub open spec fn wf(self) -> bool {
        &&& self.position_current.in_world()
        &&& self.position_old.in_world()
        &&& -ACC_LIMIT <= self.acceleration.x <= ACC_LIMIT
        &&& -ACC_LIMIT <= self.acceleration.y <= ACC_LIMIT
    }

    /// The state after one integration step of `dt` microseconds: the
    /// implicit displacement carries over, the accumulated acceleration
    /// contributes `a * dt^2`, the result is clamped into the world box and
    /// the accumulator is reset.
    pub open spec fn spec_updated(self, dt: int) -> VerletObject {
        VerletObject {
            position_current: Point2D {
                x: clamp_coord(
                    self.position_current.x + (self.position_current.x - self.position_old.x)
                        + accel_delta(self.acceleration.x as int, dt),
                ) as i64,
                y: clamp_coord(
                    self.position_current.y + (self.position_current.y - self.position_old.y)
                        + accel_delta(self.acceleration.y as int, dt),
                ) as i64,
            },
            position_old: self.position_current,
            acceleration: Vector2D { x: 0, y: 0 },
        }
    }

    /// The state with `a` added to the acceleration accumulator,
    /// saturating at the supported bound.
    pub open spec fn spec_accelerated(self, a: Vector2D) -> VerletObject {
        VerletObject {
            position_current: self.position_current,
            position_old: self.position_old,
            acceleration: Vector2D {
                x: clamp_accel(self.acceleration.x + a.x) as i64,
                y: clamp_accel(self.acceleration.y + a.y) as i64,
            },
        }
    }

    pub fn new(start_conditions: StartConditions, dt: u32) -> (o: VerletObject)
        requires
            start_conditions.wf(),
            1 <= dt <= DT_MAX_MICROS,
        ensures
            o == spec_backdated(start_conditions, dt as int),
            o.wf(),
            o.position_current == start_conditions.position,
    {
        proof {
            assert(start_conditions.velocity.x as int * dt as int
                <= 1_000_000_000_000_000_000
                && start_conditions.velocity.x as int * dt as int
                >= -1_000_000_000_000_000_000
                && start_conditions.velocity.y as int * dt as int
                <= 1_000_000_000_000_000_000
                && start_conditions.velocity.y as int * dt as int
                >= -1_000_000_000_000_000_000) by (nonlinear_arith)
                requires
                    -VEL_LIMIT as int <= start_conditions.velocity.x as int <= VEL_LIMIT as int,
                    -VEL_LIMIT as int <= start_conditions.velocity.y as int <= VEL_LIMIT as int,
                    1 <= dt as int <= 1_000_000,
                    VEL_LIMIT == 1_000_000_000_000i64;
        }
        let vx = div_tz(start_conditions.velocity.x as i128 * dt as i128, 1_000_000);
        let vy = div_tz(start_conditions.velocity.y as i128 * dt as i128, 1_000_000);
        let ox = clamp_coord_exec(start_conditions.position.x as i128 - vx);
        let oy = clamp_coord_exec(start_conditions.position.y as i128 - vy);
        VerletObject {
            position_current: start_conditions.position,
            position_old: Point2D { x: ox, y: oy },
            acceleration: Vector2D { x: 0, y: 0 },
        }
    }

    /// One integration step of `dt` microseconds.
    pub fn update_position(&mut self, dt: u32)
        requires
            old(self).wf(),
            1 <= dt <= DT_MAX_MICROS,
        ensures
            *final(self) == old(self).spec_updated(dt as int),
            final(self).wf(),
    {
        let cx = self.position_current.x as i128;
        let cy = self.position_current.y as i128;
        let ox = self.position_old.x as i128;
        let oy = self.position_old.y as i128;
        let dx = accel_delta_exec(self.acceleration.x, dt);
        let dy = accel_delta_exec(self.acceleration.y, dt);
        let nx = clamp_coord_exec(cx + (cx - ox) + dx);
        let ny = clamp_coord_exec(cy + (cy - oy) + dy);
        self.position_old = self.position_current;
        self.position_current = Point2D { x: nx, y: ny };
        self.acceleration = Vector2D { x: 0, y: 0 };
    }

    /// Adds `a` to the acceleration accumulator; contributions from
    /// repeated calls within one step sum, saturating at the bound.
    pub fn accelerate(&mut self, a: Vector2D)
        ensures
            *final(self) == old(self).spec_accelerated(a),
            old(self).wf() ==> final(self).wf(),
    {
        let ax = clamp_accel_exec(self.acceleration.x as i128 + a.x as i128);
        let ay = clamp_accel_exec(self.acceleration.y as i128 + a.y as i128);
        self.acceleration = Vector2D { x: ax, y: ay };
    }
}

} // verus!
