//! Displacements and directions in the fixed-point plane.

use vstd::prelude::*;
use crate::num::COORD_SCALE;
use crate::num::MAG_LIMIT;
use crate::num::div_toward_zero;
use crate::num::div_tz;
use crate::num::isqrt;
use crate::num::isqrt_up;
use crate::num::lemma_scaled_mag_bounded;
use crate::num::mag_sq;
use crate::num::mag_sq_exec;
use crate::num::sqrt_ceil;
use crate::num::sqrt_floor;

verus! {

/// A 2D displacement or direction, in coordinate units.
#[derive(Clone, Copy, Debug, PartialEq, Eq, Structural)]
pub struct Vector2D {
    pub x: i64,
    pub y: i64,
}

impl Vector2D {
    /// Both components within the magnitude bound the numeric kernel
    /// accepts; a difference of two world positions always is.
    pub open spec fn in_range(self) -> bool {
        &&& -MAG_LIMIT <= self.x <= MAG_LIMIT
        &&& -MAG_LIMIT <= self.y <= MAG_LIMIT
    }

    /// The squared magnitude.
    pub open spec fn spec_mag_sq(self) -> int {
        mag_sq(self.x as int, self.y as int)
    }

    /// The vector rescaled toward magnitude `m`: each component is
    /// `component * m / l` rounded toward zero, where `l` is the magnitude
    /// rounded up, so the result never exceeds magnitude `m`.
    pub open spec fn spec_scaled_to(self, m: int) -> Vector2D {
        let l = sqrt_ceil(self.spec_mag_sq() as nat) as int;
        Vector2D {
            x: div_toward_zero(self.x * m, l) as i64,
            y: div_toward_zero(self.y * m, l) as i64,
        }
    }

    pub fn new(x: i64, y: i64) -> (v: Vector2D)
        ensures
            v == (Vector2D { x, y }),
    {
        Vector2D { x, y }
    }

    /// The magnitude, rounded down.
    pub fn length(&self) -> (r: i64)
        requires
            self.in_range(),
        ensures
            r as nat == sqrt_floor(self.spec_mag_sq() as nat),
            r >= 0,
    {
        let d2 = mag_sq_exec(self.x, self.y);
        let r = isqrt(d2);
        proof {
            assert(r <= 6_000_000_000_000) by (nonlinear_arith)
                requires
                    r * r <= d2,
                    d2 <= 32_000_000_000_000_000_000_000_000,
                    r >= 0;
        }
        r as i64
    }

    /// The vector rescaled toward magnitude `m`, rounding toward zero.
    pub fn scaled_to(&self, m: i64) -> (v: Vector2D)
        requires
            self.in_range(),
            0 <= m <= MAG_LIMIT,
            !(self.x == 0 && self.y == 0),
        ensures
            v == self.spec_scaled_to(m as int),
            v.spec_mag_sq() <= m * m,
            -m <= v.x <= m,
            -m <= v.y <= m,
    {
        let d2 = mag_sq_exec(self.x, self.y);
        proof {
            assert(d2 >= 1) by (nonlinear_arith)
                requires
                    d2 == mag_sq(self.x as int, self.y as int),
                    mag_sq(self.x as int, self.y as int) == self.x as int * self.x as int
                        + self.y as int * self.y as int,
                    !(self.x == 0 && self.y == 0);
        }
        let l = isqrt_up(d2);
        proof {
            lemma_scaled_mag_bounded(self.x as int, self.y as int, m as int, l as int);
            assert(self.x as int * m as int <= MAG_LIMIT as int * MAG_LIMIT as int
                && self.x as int * m as int >= -(MAG_LIMIT as int * MAG_LIMIT as int)
                && self.y as int * m as int <= MAG_LIMIT as int * MAG_LIMIT as int
                && self.y as int * m as int >= -(MAG_LIMIT as int * MAG_LIMIT as int))
                by (nonlinear_arith)
                requires
                    -MAG_LIMIT as int <= self.x as int <= MAG_LIMIT as int,
                    -MAG_LIMIT as int <= self.y as int <= MAG_LIMIT as int,
                    0 <= m as int <= MAG_LIMIT as int;
            assert(MAG_LIMIT as int * MAG_LIMIT as int == 16_000_000_000_000_000_000_000_000);
        }
        let qx = div_tz(self.x as i128 * m as i128, l);
        let qy = div_tz(self.y as i128 * m as i128, l);
        Vector2D { x: qx as i64, y: qy as i64 }
    }

    /// The vector rescaled toward one world unit of length
    /// (`COORD_SCALE` coordinate units), rounding toward zero.
    pub fn to_normalized(&self) -> (v: Vector2D)
        requires
            self.in_range(),
            !(self.x == 0 && self.y == 0),
        ensures
            v == self.spec_scaled_to(COORD_SCALE as int),
            v.spec_mag_sq() <= COORD_SCALE * COORD_SCALE,
    {
        self.scaled_to(COORD_SCALE)
    }
}

} // verus!
