//! Checks of the numeric and geometric primitives and the spatial grid.

use verlet_sim::ball::Ball;
use verlet_sim::ball::BallCharacteristics;
use verlet_sim::ball::Rgba;
use verlet_sim::frame_limiter::FramesLimiter;
use verlet_sim::verlet_object::StartConditions;
use verlet_sim::grid::Grid;
use verlet_sim::num::isqrt;
use verlet_sim::num::isqrt_up;
use verlet_sim::point_2d::Point2D;
use verlet_sim::vector_2d::Vector2D;

#[test]
fn integer_square_roots() {
    assert_eq!(isqrt(0), 0);
    assert_eq!(isqrt(1), 1);
    assert_eq!(isqrt(2), 1);
    assert_eq!(isqrt(144_000_000), 12_000);
    assert_eq!(isqrt(144_000_001), 12_000);
    assert_eq!(isqrt(u128::MAX), 0xFFFF_FFFF_FFFF_FFFF);
    assert_eq!(isqrt_up(0), 0);
    assert_eq!(isqrt_up(1), 1);
    assert_eq!(isqrt_up(2), 2);
    assert_eq!(isqrt_up(144_000_000), 12_000);
    assert_eq!(isqrt_up(144_000_001), 12_001);
}

#[test]
fn vector_length_is_floor_of_euclidean_length() {
    assert_eq!(Vector2D::new(3_000, 4_000).length(), 5_000);
    assert_eq!(Vector2D::new(-3_000, 4_000).length(), 5_000);
    assert_eq!(Vector2D::new(1, 1).length(), 1);
    assert_eq!(Vector2D::new(0, 0).length(), 0);
}

#[test]
fn to_normalized_scales_to_one_world_unit() {
    // 1000 coordinate units make one world unit.
    let v = Vector2D::new(3_000, 4_000).to_normalized();
    assert_eq!(v, Vector2D { x: 600, y: 800 });
    assert_eq!(v.length(), 1_000);
    // Rounding is toward zero, so the result never exceeds unit length.
    let w = Vector2D::new(1_000, 1_000).to_normalized();
    assert!(w.length() <= 1_000);
    assert_eq!(w, Vector2D { x: 706, y: 706 });
}

#[test]
fn scaled_to_bounds_magnitude() {
    let v = Vector2D::new(9_000, 12_000).scaled_to(2_500);
    assert_eq!(v, Vector2D { x: 1_500, y: 2_000 });
    assert_eq!(v.length(), 2_500);
}

#[test]
fn point_distance_and_vector() {
    let a = Point2D { x: 1_000, y: 2_000 };
    let b = Point2D { x: 4_000, y: 6_000 };
    assert_eq!(a.distance_to(&b), 5_000);
    assert_eq!(b.distance_to(&a), 5_000);
    let v = a.vector_to(&b);
    assert_eq!(v, Vector2D { x: 3_000, y: 4_000 });
}

#[test]
fn grid_dimensions_round_up() {
    let g = Grid::new(1_000, 800, 100);
    // 10 columns x 8 rows, all empty.
    assert_eq!(g.cells.len(), 80);
    assert!(g.cells.iter().all(|c| c.balls.is_empty()));
    let g2 = Grid::new(1_050, 801, 100);
    // Partial cells still get a column and a row: 11 x 9.
    assert_eq!(g2.cells.len(), 99);
}

fn grid_ball(id: u32, x: i64, y: i64) -> Ball {
    Ball::new(
        BallCharacteristics { radius: 50, color: Rgba { r: 0, g: 0, b: 0, a: 255 }, id },
        StartConditions {
            position: Point2D { x, y },
            velocity: Vector2D { x: 0, y: 0 },
        },
        4_166,
    )
}

#[test]
fn grid_buckets_by_cell_and_keeps_others() {
    let mut g = Grid::new(1_000, 800, 100);
    g.add_ball(&grid_ball(7, 250, 399));
    // Column 2, row 3, row-major entry 3 * 10 + 2.
    assert_eq!(g.cells[32].balls, vec![7]);
    assert_eq!(g.cells.iter().map(|c| c.balls.len()).sum::<usize>(), 1);
    // Out-of-region positions land in the border cells.
    g.add_ball(&grid_ball(8, -50, 399));
    assert_eq!(g.cells[30].balls, vec![8]);
    g.add_ball(&grid_ball(9, 5_000, 399));
    assert_eq!(g.cells[39].balls, vec![9]);
}

#[test]
fn grid_neighbors_cover_adjacent_cells_only() {
    let mut g = Grid::new(1_000, 800, 100);
    g.add_ball(&grid_ball(1, 250, 350));
    g.add_ball(&grid_ball(2, 340, 440));
    g.add_ball(&grid_ball(3, 950, 50));
    // Ball 2 is in an adjacent cell of ball 1's, ball 3 far away.
    let near = g.neighbors_of(Point2D { x: 250, y: 350 });
    assert!(near.contains(&1));
    assert!(near.contains(&2));
    assert!(!near.contains(&3));
    // A corner position has a truncated neighborhood but still sees itself.
    let corner = g.neighbors_of(Point2D { x: 950, y: 50 });
    assert!(corner.contains(&3));
    assert!(!corner.contains(&1));
}

#[test]
fn grid_build_buckets_every_ball() {
    let balls = vec![
        grid_ball(1, 250, 350),
        grid_ball(2, 340, 440),
        grid_ball(3, 950, 50),
    ];
    let g = Grid::build(&balls, 1_000, 800, 100);
    assert_eq!(g.cells[3 * 10 + 2].balls, vec![1]);
    assert_eq!(g.cells[4 * 10 + 3].balls, vec![2]);
    assert_eq!(g.cells[9].balls, vec![3]);
    assert_eq!(g.cells.iter().map(|c| c.balls.len()).sum::<usize>(), 3);
}

#[test]
fn frames_limiter_budget() {
    let f = FramesLimiter::new(60);
    assert_eq!(f.max_frames_per_second, 60);
    assert_eq!(f.min_frame_time_in_nanoseconds, 16_666_666);
    let f2 = FramesLimiter::new(1_000);
    assert_eq!(f2.min_frame_time_in_nanoseconds, 1_000_000);
}
