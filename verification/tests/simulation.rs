//! End-to-end checks of the simulation engine on concrete values.
//!
//! Coordinates are fixed-point: 1000 coordinate units per world unit.

use verlet_sim::ball::Ball;
use verlet_sim::ball::BallCharacteristics;
use verlet_sim::ball::Rgba;
use verlet_sim::collisions::calculate_postcollision_positions;
use verlet_sim::constraints::CircularConstraint;
use verlet_sim::constraints::Constraint;
use verlet_sim::constraints::RectangularConstraint;
use verlet_sim::experiment::Experiment;
use verlet_sim::point_2d::Point2D;
use verlet_sim::vector_2d::Vector2D;
use verlet_sim::verlet_object::StartConditions;
use verlet_sim::verlet_object::VerletObject;

const FRAME_MICROS: u32 = 16_666;

fn gray() -> Rgba {
    Rgba { r: 128, g: 128, b: 128, a: 255 }
}

fn ball_at(x: i64, y: i64, radius: i64, id: u32) -> Ball {
    Ball::new(
        BallCharacteristics { radius, color: gray(), id },
        StartConditions {
            position: Point2D { x, y },
            velocity: Vector2D { x: 0, y: 0 },
        },
        4_166,
    )
}

#[test]
fn free_fall_one_frame_matches_closed_form() {
    // One ball at rest, no constraint: after one frame of 4 sub-steps at
    // dt = 4166 us, the per-step delta is q = 1e6 * 4166^2 / 1e12 = 17
    // coordinate units, and the displacement is q * tri(4) = 17 * 10.
    let mut e = Experiment::new(FRAME_MICROS, None, 4);
    e.add_ball(
        BallCharacteristics { radius: 10_000, color: gray(), id: 0 },
        StartConditions {
            position: Point2D { x: 500_000, y: 100_000 },
            velocity: Vector2D { x: 0, y: 0 },
        },
    );
    e.update();
    assert_eq!(e.balls[0].verlet_object.position_current.x, 500_000);
    assert_eq!(e.balls[0].verlet_object.position_current.y, 100_170);
    // After a second frame (8 sub-steps total): q * tri(8) = 17 * 36.
    e.update();
    assert_eq!(e.balls[0].verlet_object.position_current.y, 100_612);
}

#[test]
fn backdating_reproduces_initial_velocity() {
    // vel = 240_000 units/s, dt = 4166 us: the previous position is
    // backdated by 240_000 * 4166 / 1e6 = 999 units.
    let mut e = Experiment::new(FRAME_MICROS, None, 4);
    e.add_ball(
        BallCharacteristics { radius: 10_000, color: gray(), id: 0 },
        StartConditions {
            position: Point2D { x: 500_000, y: 100_000 },
            velocity: Vector2D { x: 0, y: 240_000 },
        },
    );
    let vo = &e.balls[0].verlet_object;
    assert_eq!(vo.position_current.y, 100_000);
    assert_eq!(vo.position_old.y, 100_000 - 999);
}

#[test]
fn circular_containment_and_idempotence() {
    let c = CircularConstraint::new(Point2D { x: 500_000, y: 500_000 }, 300_000);
    let b = ball_at(900_000, 500_000, 10_000, 0);
    let p = c.calculate_new_position(&b).expect("ball is outside");
    assert_eq!(p, Point2D { x: 790_000, y: 500_000 });
    // Re-applying to the corrected ball is a no-op.
    let mut b2 = b;
    b2.verlet_object.position_current = p;
    assert!(c.calculate_new_position(&b2).is_none());
    // A ball already inside is untouched.
    let inside = ball_at(600_000, 500_000, 10_000, 1);
    assert!(c.calculate_new_position(&inside).is_none());
}

#[test]
fn circular_containment_diagonal() {
    // Center-to-ball displacement (300_000, 400_000): length 500_000,
    // clamped onto radius 290_000: scaled components (174_000, 232_000).
    let c = CircularConstraint::new(Point2D { x: 500_000, y: 500_000 }, 300_000);
    let b = ball_at(800_000, 900_000, 10_000, 0);
    let p = c.calculate_new_position(&b).expect("ball is outside");
    assert_eq!(p, Point2D { x: 674_000, y: 732_000 });
    let dx = (p.x - 500_000) as i128;
    let dy = (p.y - 500_000) as i128;
    assert!(dx * dx + dy * dy <= 290_000i128 * 290_000);
    let mut b2 = b;
    b2.verlet_object.position_current = p;
    assert!(c.calculate_new_position(&b2).is_none());
}

#[test]
fn concentric_ball_is_not_moved() {
    // A ball concentric with the boundary has no defined push direction;
    // the engine leaves it in place instead of producing garbage.
    let c = CircularConstraint::new(Point2D { x: 500_000, y: 500_000 }, 300_000);
    let b = ball_at(500_000, 500_000, 10_000, 0);
    assert!(c.calculate_new_position(&b).is_none());
}

#[test]
fn rectangular_containment_and_idempotence() {
    let c = RectangularConstraint::new(Point2D { x: 100_000, y: 100_000 }, 700_000, 500_000);
    // Out on both axes: clamped to (left + r, top + r).
    let b = ball_at(50_000, 90_000, 10_000, 0);
    let p = c.calculate_new_position(&b).expect("ball is outside");
    assert_eq!(p, Point2D { x: 110_000, y: 110_000 });
    let mut b2 = b;
    b2.verlet_object.position_current = p;
    assert!(c.calculate_new_position(&b2).is_none());
    // Out on one axis: the other axis keeps its current value.
    let b3 = ball_at(400_000, 595_000, 10_000, 1);
    let p3 = c.calculate_new_position(&b3).expect("ball is below");
    assert_eq!(p3, Point2D { x: 400_000, y: 590_000 });
    // Fully inside: untouched.
    let b4 = ball_at(400_000, 300_000, 10_000, 2);
    assert!(c.calculate_new_position(&b4).is_none());
}

#[test]
fn collision_separates_to_exact_sum_of_radii() {
    // Axis-aligned: centers 12_000 apart, radii sum 20_000; each ball
    // moves half the penetration (4_000) in opposite directions.
    let b1 = ball_at(500_000, 500_000, 10_000, 0);
    let b2 = ball_at(512_000, 500_000, 10_000, 1);
    let (p1, p2) = calculate_postcollision_positions(&b1, &b2).expect("overlap");
    assert_eq!(p1, Point2D { x: 496_000, y: 500_000 });
    assert_eq!(p2, Point2D { x: 516_000, y: 500_000 });
    assert_eq!(p2.x - p1.x, 20_000);
}

#[test]
fn collision_symmetry_diagonal() {
    // Displacement (9_000, 12_000): distance 15_000, radii sum 20_000,
    // half depth 2_500, push (1_500, 2_000); the new distance is exactly
    // the radii sum and the two displacements are exact negations.
    let b1 = ball_at(500_000, 500_000, 10_000, 0);
    let b2 = ball_at(509_000, 512_000, 10_000, 1);
    let (p1, p2) = calculate_postcollision_positions(&b1, &b2).expect("overlap");
    let m1 = (p1.x - 500_000, p1.y - 500_000);
    let m2 = (p2.x - 509_000, p2.y - 512_000);
    assert_eq!(m1.0, -m2.0);
    assert_eq!(m1.1, -m2.1);
    assert_eq!((m1.0, m1.1), (-1_500, -2_000));
    let dx = (p2.x - p1.x) as i128;
    let dy = (p2.y - p1.y) as i128;
    assert_eq!(dx * dx + dy * dy, 20_000i128 * 20_000);
}

#[test]
fn no_op_when_separated() {
    // Exactly touching (distance == radii sum) and clearly apart: both None.
    let b1 = ball_at(500_000, 500_000, 10_000, 0);
    let touching = ball_at(520_000, 500_000, 10_000, 1);
    assert!(calculate_postcollision_positions(&b1, &touching).is_none());
    let far = ball_at(700_000, 500_000, 10_000, 2);
    assert!(calculate_postcollision_positions(&b1, &far).is_none());
}

#[test]
fn coincident_centers_are_nudged_apart() {
    let b1 = ball_at(500_000, 500_000, 10_000, 0);
    let b2 = ball_at(500_000, 500_000, 10_000, 1);
    let (p1, p2) = calculate_postcollision_positions(&b1, &b2).expect("overlap");
    // Pushed apart along the x axis by half the radii sum each.
    assert_eq!(p1, Point2D { x: 490_000, y: 500_000 });
    assert_eq!(p2, Point2D { x: 510_000, y: 500_000 });
}

#[test]
fn determinism_two_runs_bit_identical() {
    let make = || {
        let constraint = Some(Constraint::Circular(CircularConstraint::new(
            Point2D { x: 500_000, y: 500_000 },
            300_000,
        )));
        let mut e = Experiment::new(FRAME_MICROS, constraint, 4);
        for i in 0..5u32 {
            e.add_ball(
                BallCharacteristics { radius: 10_000 + 2_000 * i as i64, color: gray(), id: i },
                StartConditions {
                    position: Point2D { x: 480_000 + 13_000 * i as i64, y: 300_000 },
                    velocity: Vector2D { x: 50_000 * i as i64 - 100_000, y: 0 },
                },
            );
        }
        e
    };
    let mut a = make();
    let mut b = make();
    for _ in 0..60 {
        a.update();
        b.update();
        for (ba, bb) in a.balls.iter().zip(b.balls.iter()) {
            assert_eq!(ba.verlet_object.position_current, bb.verlet_object.position_current);
            assert_eq!(ba.verlet_object.position_old, bb.verlet_object.position_old);
        }
    }
}

#[test]
fn settles_on_circular_boundary() {
    // One ball, radius 10 world units, dropped from (500, 100) inside a
    // circular boundary of radius 300 at (500, 500): it comes to rest with
    // its center 290 world units below the boundary center, at (500, 790).
    let constraint = Some(Constraint::Circular(CircularConstraint::new(
        Point2D { x: 500_000, y: 500_000 },
        300_000,
    )));
    let mut e = Experiment::new(FRAME_MICROS, constraint, 4);
    e.add_ball(
        BallCharacteristics { radius: 10_000, color: gray(), id: 0 },
        StartConditions {
            position: Point2D { x: 500_000, y: 100_000 },
            velocity: Vector2D { x: 0, y: 0 },
        },
    );
    for _ in 0..300 {
        e.update();
    }
    let rest = e.balls[0].verlet_object.position_current;
    assert_eq!(rest.x, 500_000);
    assert!((rest.y - 790_000).abs() <= 50, "not settled: y = {}", rest.y);
    // And it stays there.
    for _ in 0..100 {
        e.update();
        let p = e.balls[0].verlet_object.position_current;
        assert_eq!(p.x, 500_000);
        assert!((p.y - 790_000).abs() <= 50, "drifted: y = {}", p.y);
    }
}

fn max_rest_penetration(sub_steps: u8) -> i64 {
    let constraint = Some(Constraint::Circular(CircularConstraint::new(
        Point2D { x: 500_000, y: 500_000 },
        300_000,
    )));
    let mut e = Experiment::new(FRAME_MICROS, constraint, sub_steps);
    e.add_ball(
        BallCharacteristics { radius: 10_000, color: gray(), id: 0 },
        StartConditions {
            position: Point2D { x: 500_000, y: 100_000 },
            velocity: Vector2D { x: 0, y: 0 },
        },
    );
    for _ in 0..200 {
        e.update();
    }
    let mut worst: i64 = 0;
    for _ in 0..200 {
        e.update();
        let p = e.balls[0].verlet_object.position_current;
        let over = p.y - 790_000;
        if over > worst {
            worst = over;
        }
    }
    worst
}

#[test]
fn more_sub_steps_reduce_residual_penetration() {
    let p1 = max_rest_penetration(1);
    let p4 = max_rest_penetration(4);
    let p8 = max_rest_penetration(8);
    assert!(p1 >= p4 && p4 >= p8, "penetration {} {} {}", p1, p4, p8);
    assert!(p8 < p1, "penetration did not shrink: {} vs {}", p1, p8);
}

#[test]
fn update_with_no_balls_is_a_no_op() {
    let mut e = Experiment::new(FRAME_MICROS, None, 4);
    e.update();
    assert!(e.balls.is_empty());
    assert_eq!(e.step_dt, 4_166);
}

#[test]
fn positions_saturate_at_world_edge() {
    // A body driven past the supported world box sticks to its edge
    // instead of overflowing.
    let mut e = Experiment::new(FRAME_MICROS, None, 4);
    e.add_ball(
        BallCharacteristics { radius: 10_000, color: gray(), id: 0 },
        StartConditions {
            position: Point2D { x: 0, y: 999_999_900_000 },
            velocity: Vector2D { x: 0, y: 1_000_000_000 },
        },
    );
    for _ in 0..5 {
        e.update();
    }
    assert_eq!(e.balls[0].verlet_object.position_current.y, 1_000_000_000_000);
    e.update();
    assert_eq!(e.balls[0].verlet_object.position_current.y, 1_000_000_000_000);
}

#[test]
fn experiment_new_derives_step_dt() {
    let e = Experiment::new(FRAME_MICROS, None, 4);
    assert_eq!(e.sub_steps, 4);
    assert_eq!(e.step_dt, 4_166);
    assert_eq!(e.gravity, Vector2D { x: 0, y: 1_000_000 });
    assert!(e.balls.is_empty());
}

#[test]
fn verlet_object_accumulates_and_resets_acceleration() {
    let mut vo = VerletObject::new(
        StartConditions {
            position: Point2D { x: 0, y: 0 },
            velocity: Vector2D { x: 0, y: 0 },
        },
        4_166,
    );
    vo.accelerate(Vector2D { x: 0, y: 500_000 });
    vo.accelerate(Vector2D { x: 0, y: 500_000 });
    assert_eq!(vo.acceleration, Vector2D { x: 0, y: 1_000_000 });
    vo.update_position(4_166);
    // Contributions summed linearly, then the accumulator was reset.
    assert_eq!(vo.acceleration, Vector2D { x: 0, y: 0 });
    assert_eq!(vo.position_current.y, 17);
    assert_eq!(vo.position_old.y, 0);
}
