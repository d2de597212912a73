//! A 2D particle simulation built on positional (Verlet) integration.
//!
//! Bodies are circular balls confined by a geometric boundary and separated
//! pairwise when they interpenetrate. All coordinates are fixed-point
//! integers: `COORD_SCALE` coordinate units make one world unit, durations
//! are microseconds, and every operation of the engine has an exact,
//! machine-checked contract over that integer model.

pub mod ball;
pub mod collisions;
pub mod constraints;
pub mod experiment;
pub mod frame_limiter;
pub mod grid;
pub mod num;
pub mod point_2d;
pub mod vector_2d;
pub mod verlet_object;
