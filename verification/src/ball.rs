//! A ball: one integrated body plus its immutable characteristics.

use vstd::prelude::*;
use crate::num::DT_MAX_MICROS;
use crate::num::RADIUS_LIMIT;
use crate::verlet_object::StartConditions;
use crate::verlet_object::VerletObject;
use crate::verlet_object::spec_backdated;

verus! {

/// A display color, one byte per channel; the engine only carries it.
#[derive(Clone, Copy, Debug, PartialEq, Eq, Structural)]
pub struct Rgba {
    pub r: u8,
    pub g: u8,
    pub b: u8,
    pub a: u8,
}

/// Immutable traits of a ball, fixed at spawn time.
#[derive(Clone, Copy, Debug, PartialEq, Eq, Structural)]
pub struct BallCharacteristics {
    /// Radius in coordinate units.
    pub radius: i64,
    pub color: Rgba,
    /// Caller-assigned identity, unique within one experiment.
    pub id: u32,
}

impl BallCharacteristics {
    /// The radius is positive and within the supported bound.
    pub open spec fn wf(self) -> bool {
        1 <= self.radius <= RADIUS_LIMIT
    }
}

/// One simulated body.
#[derive(Clone, Copy, Debug, PartialEq, Eq, Structural)]
pub struct Ball {
    pub characteristics: BallCharacteristics,
    pub verlet_object: VerletObject,
}

impl Ball {
    pub open spec fn wf(self) -> bool {
        &&& self.characteristics.wf()
        &&& self.verlet_object.wf()
    }

    pub fn new(
        ball_characteristics: BallCharacteristics,
        start_conditions: StartConditions,
        dt: u32,
    ) -> (b: Ball)
        requires
            ball_characteristics.wf(),
            start_conditions.wf(),
            1 <= dt <= DT_MAX_MICROS,
        ensures
            b.characteristics == ball_characteristics,
            b.verlet_object == spec_backdated(start_conditions, dt as int),
            b.wf(),
    {
        Ball {
            verlet_object: VerletObject::new(start_conditions, dt),
            characteristics: ball_characteristics,
        }
    }
}

} // verus!
