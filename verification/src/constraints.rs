//! Boundary constraints: a corrected position for a ball that has left the
//! allowed region.
//!
//! A constraint is a closed sum of the two supported boundary shapes. Its
//! one operation returns `None` when the ball's whole disc already lies
//! inside the boundary, and otherwise the position the ball's center must be
//! moved to. The correction is a single projective pass per sub-step, not an
//! iterative solver; sub-stepping approximates convergence over a frame.

use vstd::prelude::*;
use crate::ball::Ball;
use crate::num::POS_LIMIT;
use crate::num::clamp_coord;
use crate::num::clamp_coord_exec;
use crate::num::lemma_scaled_mag_bounded;
use crate::num::lemma_sqrt_ceil_bounds;
use crate::num::mag_sq;
use crate::num::mag_sq_exec;
use crate::num::sqrt_ceil;
use crate::point_2d::Point2D;
use crate::point_2d::dist_sq;
use crate::vector_2d::Vector2D;
use crate::verlet_object::VerletObject;

verus! {

/// A circular boundary: the discs of all balls must stay inside the circle.
#[derive(Clone, Copy, Debug, PartialEq, Eq, Structural)]
pub struct CircularConstraint {
    pub center: Point2D,
    /// Radius in coordinate units.
    pub radius: i64,
}

impl CircularConstraint {
    /// The whole boundary disc lies in the world box.
    pub open spec fn wf(self) -> bool {
        &&& 1 <= self.radius
        &&& -POS_LIMIT <= self.center.x - self.radius
        &&& self.center.x + self.radius <= POS_LIMIT
        &&& -POS_LIMIT <= self.center.y - self.radius
        &&& self.center.y + self.radius <= POS_LIMIT
    }

    pub fn new(center: Point2D, radius: i64) -> (c: CircularConstraint)
        ensures
            c == (CircularConstraint { center, radius }),
    {
        CircularConstraint { center, radius }
    }

    /// The corrected center for `ball`, if its disc is not fully inside:
    /// the ball center is pulled onto the circle of radius
    /// `radius - ball radius` around the boundary center, along the line
    /// from the boundary center to the ball (rounding toward the center).
    /// A ball wider than the boundary is pulled to the center itself; a
    /// ball concentric with the boundary is never moved.
    pub open spec fn spec_new_position(self, ball: Ball) -> Option<Point2D> {
        let p = ball.verlet_object.position_current;
        let v = Vector2D { x: (p.x - self.center.x) as i64, y: (p.y - self.center.y) as i64 };
        let m = if self.radius >= ball.characteristics.radius {
            self.radius - ball.characteristics.radius
        } else {
            0
        };
        if v.spec_mag_sq() <= m * m {
            None
        } else {
            let s = v.spec_scaled_to(m);
            Some(
                Point2D {
                    x: (self.center.x + s.x) as i64,
                    y: (self.center.y + s.y) as i64,
                },
            )
        }
    }

    pub fn calculate_new_position(&self, ball: &Ball) -> (r: Option<Point2D>)
        requires
            self.wf(),
            ball.wf(),
        ensures
            r == self.spec_new_position(*ball),
            match r {
                Some(p) => p.in_world(),
                None => true,
            },
    {
        let p = ball.verlet_object.position_current;
        let v = self.center.vector_to(&p);
        let m: i64 = if self.radius >= ball.characteristics.radius {
            self.radius - ball.characteristics.radius
        } else {
            0
        };
        let d2 = mag_sq_exec(v.x, v.y);
        proof {
            assert(m as u128 as int * (m as u128 as int) == m as int * m as int
                && m as int * m as int <= 1_000_000_000_000_000_000_000_000)
                by (nonlinear_arith)
                requires 0 <= m as int <= 1_000_000_000_000;
        }
        let m2: u128 = (m as u128) * (m as u128);
        if d2 <= m2 {
            None
        } else {
            proof {
                assert(!(v.x == 0 && v.y == 0)) by (nonlinear_arith)
                    requires
                        mag_sq(v.x as int, v.y as int) > 0,
                        mag_sq(v.x as int, v.y as int) == v.x as int * v.x as int
                            + v.y as int * v.y as int;
            }
            let s = v.scaled_to(m);
            Some(Point2D { x: self.center.x + s.x, y: self.center.y + s.y })
        }
    }
}

/// A rectangular boundary: the discs of all balls must stay inside the
/// axis-aligned rectangle.
#[derive(Clone, Copy, Debug, PartialEq, Eq, Structural)]
pub struct RectangularConstraint {
    pub top_left: Point2D,
    pub width: i64,
    pub height: i64,
}

impl RectangularConstraint {
    /// The whole rectangle lies in the world box.
    pub open spec fn wf(self) -> bool {
        &&& 1 <= self.width
        &&& 1 <= self.height
        &&& self.top_left.in_world()
        &&& self.top_left.x + self.width <= POS_LIMIT
        &&& self.top_left.y + self.height <= POS_LIMIT
    }

    pub fn new(top_left: Point2D, width: i64, height: i64) -> (c: RectangularConstraint)
        ensures
            c == (RectangularConstraint { top_left, width, height }),
    {
        RectangularConstraint { top_left, width, height }
    }

    /// The corrected center for `ball`, if its disc is not fully inside:
    /// each axis is clamped independently so the disc fits between the two
    /// walls of that axis; an axis that needs no change keeps the ball's
    /// current value.
    pub open spec fn spec_new_position(self, ball: Ball) -> Option<Point2D> {
        let p = ball.verlet_object.position_current;
        let r = ball.characteristics.radius;
        let new_x: Option<int> = if p.x - r < self.top_left.x {
            Some(clamp_coord(self.top_left.x + r))
        } else if p.x + r > self.top_left.x + self.width {
            Some(clamp_coord(self.top_left.x + self.width - r))
        } else {
            None
        };
        let new_y: Option<int> = if p.y - r < self.top_left.y {
            Some(clamp_coord(self.top_left.y + r))
        } else if p.y + r > self.top_left.y + self.height {
            Some(clamp_coord(self.top_left.y + self.height - r))
        } else {
            None
        };
        if new_x is None && new_y is None {
            None
        } else {
            Some(
                Point2D {
                    x: (match new_x {
                        Some(v) => v,
                        None => p.x as int,
                    }) as i64,
                    y: (match new_y {
                        Some(v) => v,
                        None => p.y as int,
                    }) as i64,
                },
            )
        }
    }

    pub fn calculate_new_position(&self, ball: &Ball) -> (r: Option<Point2D>)
        requires
            self.wf(),
            ball.wf(),
        ensures
            r == self.spec_new_position(*ball),
            match r {
                Some(p) => p.in_world(),
                None => true,
            },
    {
        let p = ball.verlet_object.position_current;
        let rad = ball.characteristics.radius;
        let new_x: Option<i64> = if p.x - rad < self.top_left.x {
            Some(clamp_coord_exec(self.top_left.x as i128 + rad as i128))
        } else if p.x + rad > self.top_left.x + self.width {
            Some(clamp_coord_exec(self.top_left.x as i128 + self.width as i128 - rad as i128))
        } else {
            None
        };
        let new_y: Option<i64> = if p.y - rad < self.top_left.y {
            Some(clamp_coord_exec(self.top_left.y as i128 + rad as i128))
        } else if p.y + rad > self.top_left.y + self.height {
            Some(clamp_coord_exec(self.top_left.y as i128 + self.height as i128 - rad as i128))
        } else {
            None
        };
        if new_x.is_none() && new_y.is_none() {
            None
        } else {
            let x = match new_x {
                Some(v) => v,
                None => p.x,
            };
            let y = match new_y {
                Some(v) => v,
                None => p.y,
            };
            Some(Point2D { x, y })
        }
    }
}

/// The active boundary of an experiment: one of the two supported shapes.
#[derive(Clone, Copy, Debug, PartialEq, Eq, Structural)]
pub enum Constraint {
    Circular(CircularConstraint),
    Rectangular(RectangularConstraint),
}

impl Constraint {
    pub open spec fn wf(self) -> bool {
        match self {
            Constraint::Circular(c) => c.wf(),
            Constraint::Rectangular(c) => c.wf(),
        }
    }

    pub open spec fn spec_new_position(self, ball: Ball) -> Option<Point2D> {
        match self {
            Constraint::Circular(c) => c.spec_new_position(ball),
            Constraint::Rectangular(c) => c.spec_new_position(ball),
        }
    }

    /// The corrected center for `ball`, or `None` when its disc already
    /// lies inside the boundary.
    pub fn calculate_new_position(&self, ball: &Ball) -> (r: Option<Point2D>)
        requires
            self.wf(),
            ball.wf(),
        ensures
            r == self.spec_new_position(*ball),
            match r {
                Some(p) => p.in_world(),
                None => true,
            },
    {
        match self {
            Constraint::Circular(c) => c.calculate_new_position(ball),
            Constraint::Rectangular(c) => c.calculate_new_position(ball),
        }
    }
}

/// Law: one circular correction contains the ball's disc, and a second
/// application is a no-op. If a correction is returned, the corrected
/// center is within `radius - ball radius` of the boundary center (in the
/// exact squared-distance sense) and correcting again from there returns
/// `None`; if no correction is returned the current center already is.
pub proof fn lemma_circular_containment(c: CircularConstraint, b: Ball)
    requires
        c.wf(),
        b.wf(),
        b.characteristics.radius <= c.radius,
    ensures
        ({
            let m = c.radius - b.characteristics.radius;
            match c.spec_new_position(b) {
                Some(p) => {
                    &&& dist_sq(c.center, p) <= m * m
                    &&& c.spec_new_position(ball_at(b, p)) is None
                },
                None => dist_sq(c.center, b.verlet_object.position_current) <= m * m,
            }
        }),
{
    let p = b.verlet_object.position_current;
    let m = c.radius - b.characteristics.radius;
    let v = Vector2D { x: (p.x - c.center.x) as i64, y: (p.y - c.center.y) as i64 };
    assert(-POS_LIMIT <= p.x <= POS_LIMIT && -POS_LIMIT <= p.y <= POS_LIMIT);
    assert(v.x == p.x - c.center.x && v.y == p.y - c.center.y);
    assert(v.spec_mag_sq() == dist_sq(c.center, p));
    if v.spec_mag_sq() <= m * m {
    } else {
        let d2 = v.spec_mag_sq();
        assert(d2 >= 0) by (nonlinear_arith)
            requires d2 == mag_sq(v.x as int, v.y as int);
        assert(m * m >= 0) by (nonlinear_arith);
        let l = sqrt_ceil(d2 as nat) as int;
        lemma_sqrt_ceil_bounds(d2 as nat);
        lemma_scaled_mag_bounded(v.x as int, v.y as int, m as int, l);
        let s = v.spec_scaled_to(m as int);
        let q = c.spec_new_position(b)->Some_0;
        assert(q.x == c.center.x + s.x && q.y == c.center.y + s.y);
        assert(dist_sq(c.center, q) == mag_sq(s.x as int, s.y as int));
        let b2 = ball_at(b, q);
        let v2 = Vector2D {
            x: (q.x - c.center.x) as i64,
            y: (q.y - c.center.y) as i64,
        };
        assert(v2.x == s.x && v2.y == s.y);
        assert(v2.spec_mag_sq() <= m * m);
    }
}

/// The same ball with its center moved to `p`.
pub open spec fn ball_at(b: Ball, p: Point2D) -> Ball {
    Ball {
        characteristics: b.characteristics,
        verlet_object: VerletObject {
            position_current: p,
            position_old: b.verlet_object.position_old,
            acceleration: b.verlet_object.acceleration,
        },
    }
}

/// Law: one rectangular correction contains the ball's disc, and a second
/// application is a no-op, for a ball that fits between the walls.
pub proof fn lemma_rectangular_containment(c: RectangularConstraint, b: Ball)
    requires
        c.wf(),
        b.wf(),
        2 * b.characteristics.radius <= c.width,
        2 * b.characteristics.radius <= c.height,
    ensures
        ({
            let r = b.characteristics.radius;
            match c.spec_new_position(b) {
                Some(p) => {
                    &&& c.top_left.x + r <= p.x <= c.top_left.x + c.width - r
                    &&& c.top_left.y + r <= p.y <= c.top_left.y + c.height - r
                    &&& c.spec_new_position(ball_at(b, p)) is None
                },
                None => {
                    let p = b.verlet_object.position_current;
                    &&& c.top_left.x + r <= p.x <= c.top_left.x + c.width - r
                    &&& c.top_left.y + r <= p.y <= c.top_left.y + c.height - r
                },
            }
        }),
{
}

} // verus!
