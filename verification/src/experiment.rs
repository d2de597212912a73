//! The per-frame orchestrator: owns the bodies, the gravity field, the
//! active constraint and the sub-step count, and runs the fixed-step
//! pipeline gravity -> constraint -> collisions -> integrate, `sub_steps`
//! times per frame at the fixed duration `step_dt = frame_time / sub_steps`.
//!
//! Every stage has an exact functional specification over the sequence of
//! balls, so one `update` call is a pure function of the starting state:
//! two experiments in equal states stay equal under equal call sequences.

use vstd::prelude::*;
use crate::ball::Ball;
use crate::ball::BallCharacteristics;
use crate::collisions::calculate_postcollision_positions;
use crate::collisions::spec_postcollision;
use crate::constraints::Constraint;
use crate::num::ACC_LIMIT;
use crate::num::COORD_SCALE;
use crate::num::DT_MAX_MICROS;
use crate::num::POS_LIMIT;
use crate::num::accel_delta;
use crate::vector_2d::Vector2D;
use crate::verlet_object::StartConditions;
use crate::verlet_object::VerletObject;
use crate::verlet_object::spec_backdated;

verus! {

/// Default gravity: 1000 world units per second squared, downward.
pub const DEFAULT_GRAVITY_Y: i64 = 1000 * COORD_SCALE;

/// Every ball in the sequence is well-formed.
pub open spec fn balls_wf(s: Seq<Ball>) -> bool {
    forall|k: int| 0 <= k < s.len() ==> (#[trigger] s[k]).wf()
}

/// No two balls share an identity.
pub open spec fn ids_unique(s: Seq<Ball>) -> bool {
    forall|k: int, l: int|
        0 <= k < l < s.len() ==> s[k].characteristics.id != s[l].characteristics.id
}

/// `b` with gravity `g` added to its acceleration accumulator.
pub open spec fn grav_ball(b: Ball, g: Vector2D) -> Ball {
    Ball { characteristics: b.characteristics, verlet_object: b.verlet_object.spec_accelerated(g) }
}

/// The gravity stage: every ball accumulates `g`.
pub open spec fn spec_apply_gravity(s: Seq<Ball>, g: Vector2D) -> Seq<Ball> {
    Seq::new(s.len(), |i: int| grav_ball(s[i], g))
}

/// `b` moved to the constraint's corrected position, if one is due.
pub open spec fn constrain_ball(b: Ball, c: Constraint) -> Ball {
    match c.spec_new_position(b) {
        Some(p) => Ball {
            characteristics: b.characteristics,
            verlet_object: VerletObject {
                position_current: p,
                position_old: b.verlet_object.position_old,
                acceleration: b.verlet_object.acceleration,
            },
        },
        None => b,
    }
}

/// The constraint stage: every ball is projected back inside the boundary,
/// when one is active.
pub open spec fn spec_apply_constraint(s: Seq<Ball>, c: Option<Constraint>) -> Seq<Ball> {
    match c {
        Some(cc) => Seq::new(s.len(), |i: int| constrain_ball(s[i], cc)),
        None => s,
    }
}

/// One resolved pair: balls `i` and `j` take their separated positions, or
/// the sequence is unchanged when they do not overlap.
pub open spec fn collide_pair(s: Seq<Ball>, i: int, j: int) -> Seq<Ball> {
    match spec_postcollision(s[i], s[j]) {
        Some(pp) => s.update(
            i,
            Ball {
                characteristics: s[i].characteristics,
                verlet_object: VerletObject {
                    position_current: pp.0,
                    position_old: s[i].verlet_object.position_old,
                    acceleration: s[i].verlet_object.acceleration,
                },
            },
        ).update(
            j,
            Ball {
                characteristics: s[j].characteristics,
                verlet_object: VerletObject {
                    position_current: pp.1,
                    position_old: s[j].verlet_object.position_old,
                    acceleration: s[j].verlet_object.acceleration,
                },
            },
        ),
        None => s,
    }
}

/// The pairs `(i, j)` for `j` in `j0..n`, resolved in ascending order of `j`.
pub open spec fn collide_row(s: Seq<Ball>, i: int, j0: int, n: int) -> Seq<Ball>
    decreases n - j0,
{
    if j0 >= n {
        s
    } else {
        collide_row(collide_pair(s, i, j0), i, j0 + 1, n)
    }
}

/// All pairs `(i, j)` with `i0 <= i < j < n`, resolved once each in
/// ascending lexicographic order: the fixed, deterministic order of the
/// collision stage.
pub open spec fn collide_outer(s: Seq<Ball>, i0: int, n: int) -> Seq<Ball>
    decreases n - i0,
{
    if i0 >= n {
        s
    } else {
        collide_outer(collide_row(s, i0, i0 + 1, n), i0 + 1, n)
    }
}

/// The collision stage: every unordered pair once, in ascending index order.
pub open spec fn spec_handle_collisions(s: Seq<Ball>) -> Seq<Ball> {
    collide_outer(s, 0, s.len() as int)
}

/// `b` after one integration step.
pub open spec fn step_ball(b: Ball, dt: int) -> Ball {
    Ball { characteristics: b.characteristics, verlet_object: b.verlet_object.spec_updated(dt) }
}

/// The integration stage: every ball steps once at the fixed duration.
pub open spec fn spec_update_positions(s: Seq<Ball>, dt: int) -> Seq<Ball> {
    Seq::new(s.len(), |i: int| step_ball(s[i], dt))
}

/// One sub-step of the pipeline, in its fixed order.
pub open spec fn spec_substep(s: Seq<Ball>, g: Vector2D, c: Option<Constraint>, dt: int) -> Seq<
    Ball,
> {
    spec_update_positions(spec_handle_collisions(spec_apply_constraint(spec_apply_gravity(s, g), c)), dt)
}

/// `n` sub-steps of the pipeline.
pub open spec fn spec_steps(
    s: Seq<Ball>,
    g: Vector2D,
    c: Option<Constraint>,
    dt: int,
    n: nat,
) -> Seq<Ball>
    decreases n,
{
    if n == 0 {
        s
    } else {
        spec_steps(spec_substep(s, g, c, dt), g, c, dt, (n - 1) as nat)
    }
}

/// Equal characteristics position by position keep identities unique.
proof fn lemma_ids_preserved(s1: Seq<Ball>, s2: Seq<Ball>)
    requires
        s1.len() == s2.len(),
        forall|k: int| 0 <= k < s1.len() ==> (#[trigger] s2[k]).characteristics
            == s1[k].characteristics,
        ids_unique(s1),
    ensures
        ids_unique(s2),
{
    assert forall|k: int, l: int|
        0 <= k < l < s2.len() implies s2[k].characteristics.id != s2[l].characteristics.id by {
        assert(s2[k].characteristics == s1[k].characteristics);
        assert(s2[l].characteristics == s1[l].characteristics);
    }
}

/// The simulation: bodies, gravity, the active boundary and the fixed
/// sub-step schedule.
pub struct Experiment {
    pub balls: Vec<Ball>,
    pub constraint: Option<Constraint>,
    /// Pipeline iterations per frame; fixed at construction.
    pub sub_steps: u8,
    /// Fixed sub-step duration in microseconds, `frame_time / sub_steps`.
    pub step_dt: u32,
    /// Acceleration applied to every ball each sub-step.
    pub gravity: Vector2D,
}

impl Experiment {
    pub open spec fn wf(self) -> bool {
        &&& 1 <= self.sub_steps
        &&& 1 <= self.step_dt <= DT_MAX_MICROS
        &&& -ACC_LIMIT <= self.gravity.x <= ACC_LIMIT
        &&& -ACC_LIMIT <= self.gravity.y <= ACC_LIMIT
        &&& match self.constraint {
            Some(c) => c.wf(),
            None => true,
        }
        &&& balls_wf(self.balls@)
        &&& ids_unique(self.balls@)
    }

    /// A new experiment with no balls and the default downward gravity of
    /// 1000 world units per second squared. `frame_time_micros` is the
    /// fixed frame duration; the sub-step duration is derived once and
    /// never recomputed.
    pub fn new(frame_time_micros: u32, constraint: Option<Constraint>, sub_steps: u8) -> (e:
        Experiment)
        requires
            1 <= sub_steps,
            sub_steps as u32 <= frame_time_micros <= DT_MAX_MICROS,
            match constraint {
                Some(c) => c.wf(),
                None => true,
            },
        ensures
            e.balls@ == Seq::<Ball>::empty(),
            e.constraint == constraint,
            e.sub_steps == sub_steps,
            e.step_dt == frame_time_micros as int / sub_steps as int,
            e.gravity == (Vector2D { x: 0, y: DEFAULT_GRAVITY_Y }),
            e.wf(),
    {
        proof {
            vstd::arithmetic::div_mod::lemma_div_nonincreasing(
                frame_time_micros as int,
                sub_steps as int,
            );
            vstd::arithmetic::div_mod::lemma_div_is_ordered(
                sub_steps as int,
                frame_time_micros as int,
                sub_steps as int,
            );
            vstd::arithmetic::div_mod::lemma_div_by_self(sub_steps as int);
        }
        Experiment {
            gravity: Vector2D { x: 0, y: DEFAULT_GRAVITY_Y },
            balls: Vec::new(),
            constraint,
            sub_steps,
            step_dt: frame_time_micros / (sub_steps as u32),
        }
    }

    /// Appends a new ball with caller-assigned, never reused identity; its
    /// previous position is backdated so the first step reproduces the
    /// requested initial velocity.
    pub fn add_ball(
        &mut self,
        characteristics: BallCharacteristics,
        start_conditions: StartConditions,
    )
        requires
            old(self).wf(),
            characteristics.wf(),
            start_conditions.wf(),
            forall|k: int| 0 <= k < old(self).balls@.len() ==> (#[trigger] old(
                self,
            ).balls@[k]).characteristics.id != characteristics.id,
        ensures
            final(self).balls@ == old(self).balls@.push(
                Ball {
                    characteristics,
                    verlet_object: spec_backdated(start_conditions, old(self).step_dt as int),
                },
            ),
            final(self).constraint == old(self).constraint,
            final(self).sub_steps == old(self).sub_steps,
            final(self).step_dt == old(self).step_dt,
            final(self).gravity == old(self).gravity,
            final(self).wf(),
    {
        let ball = crate::ball::Ball::new(characteristics, start_conditions, self.step_dt);
        self.balls.push(ball);
        proof {
            let s = self.balls@;
            let s0 = old(self).balls@;
            assert(balls_wf(s)) by {
                assert forall|k: int| 0 <= k < s.len() implies (#[trigger] s[k]).wf() by {
                    if k < s0.len() {
                        assert(s[k] == s0[k]);
                    }
                }
            }
            assert(ids_unique(s)) by {
                assert forall|k: int, l: int|
                    0 <= k < l < s.len() implies s[k].characteristics.id
                    != s[l].characteristics.id by {
                    if l < s0.len() {
                        assert(s[k] == s0[k] && s[l] == s0[l]);
                    } else {
                        assert(s[k] == s0[k]);
                        assert(s[l].characteristics == characteristics);
                    }
                }
            }
        }
    }

    /// The gravity stage of one sub-step: every ball accumulates gravity.
    fn apply_gravity(&mut self)
        requires
            old(self).wf(),
        ensures
            final(self).balls@ == spec_apply_gravity(old(self).balls@, old(self).gravity),
            final(self).balls@.len() == old(self).balls@.len(),
            forall|k: int| 0 <= k < old(self).balls@.len() ==> (#[trigger] final(self).balls@[k]).characteristics == old(self).balls@[k].characteristics,
            final(self).constraint == old(self).constraint,
            final(self).sub_steps == old(self).sub_steps,
            final(self).step_dt == old(self).step_dt,
            final(self).gravity == old(self).gravity,
            final(self).wf(),
    {
        let ghost s0 = self.balls@;
        let ghost g0 = self.gravity;
        let ghost c0 = self.constraint;
        let ghost ss0 = self.sub_steps;
        let ghost dt0 = self.step_dt;
        let n = self.balls.len();
        let mut i: usize = 0;
        while i < n
            invariant
                i <= n,
                n == self.balls.len(),
                self.balls@.len() == s0.len(),
                self.gravity == g0,
                self.constraint == c0,
                self.sub_steps == ss0,
                self.step_dt == dt0,
                balls_wf(s0),
                forall|k: int| 0 <= k < i ==> self.balls@[k] == grav_ball(s0[k], g0),
                forall|k: int| i <= k < n ==> self.balls@[k] == s0[k],
                forall|k: int| 0 <= k < i ==> (#[trigger] self.balls@[k]).wf(),
            decreases n - i,
        {
            let mut b = self.balls[i];
            proof {
                assert(b == s0[i as int]);
                assert(s0[i as int].wf());
            }
            b.verlet_object.accelerate(self.gravity);
            self.balls[i] = b;
            i += 1;
        }
        proof {
            assert(self.balls@ =~= spec_apply_gravity(s0, g0));
            assert(balls_wf(self.balls@));
            lemma_ids_preserved(s0, self.balls@);
        }
    }

    /// The constraint stage of one sub-step: every ball is projected back
    /// inside the active boundary, if one is set.
    fn apply_constraint(&mut self)
        requires
            old(self).wf(),
        ensures
            final(self).balls@ == spec_apply_constraint(old(self).balls@, old(self).constraint),
            final(self).balls@.len() == old(self).balls@.len(),
            forall|k: int| 0 <= k < old(self).balls@.len() ==> (#[trigger] final(self).balls@[k]).characteristics == old(self).balls@[k].characteristics,
            final(self).constraint == old(self).constraint,
            final(self).sub_steps == old(self).sub_steps,
            final(self).step_dt == old(self).step_dt,
            final(self).gravity == old(self).gravity,
            final(self).wf(),
    {
        let ghost s0 = self.balls@;
        let ghost g0 = self.gravity;
        let ghost c0 = self.constraint;
        let ghost ss0 = self.sub_steps;
        let ghost dt0 = self.step_dt;
        if self.constraint.is_none() {
            return ;
        }
        let c = self.constraint.unwrap();
        let n = self.balls.len();
        let mut i: usize = 0;
        while i < n
            invariant
                i <= n,
                n == self.balls.len(),
                self.balls@.len() == s0.len(),
                self.gravity == g0,
                self.constraint == c0,
                self.sub_steps == ss0,
                self.step_dt == dt0,
                c0 == Some(c),
                c.wf(),
                balls_wf(s0),
                forall|k: int| 0 <= k < i ==> self.balls@[k] == constrain_ball(s0[k], c),
                forall|k: int| i <= k < n ==> self.balls@[k] == s0[k],
                forall|k: int| 0 <= k < i ==> (#[trigger] self.balls@[k]).wf(),
            decreases n - i,
        {
            let mut b = self.balls[i];
            proof {
                assert(b == s0[i as int]);
                assert(s0[i as int].wf());
            }
            let new_position = c.calculate_new_position(&b);
            if let Some(p) = new_position {
                b.verlet_object.position_current = p;
            }
            self.balls[i] = b;
            i += 1;
        }
        proof {
            assert(self.balls@ =~= spec_apply_constraint(s0, c0));
            assert(balls_wf(self.balls@));
            lemma_ids_preserved(s0, self.balls@);
        }
    }

    /// The collision stage of one sub-step: every unordered pair is
    /// resolved once, in ascending index order `(i, j)`, `i < j`.
    fn handle_collisions(&mut self)
        requires
            old(self).wf(),
        ensures
            final(self).balls@ == spec_handle_collisions(old(self).balls@),
            final(self).balls@.len() == old(self).balls@.len(),
            forall|k: int| 0 <= k < old(self).balls@.len() ==> (#[trigger] final(self).balls@[k]).characteristics == old(self).balls@[k].characteristics,
            final(self).constraint == old(self).constraint,
            final(self).sub_steps == old(self).sub_steps,
            final(self).step_dt == old(self).step_dt,
            final(self).gravity == old(self).gravity,
            final(self).wf(),
    {
        let ghost s0 = self.balls@;
        let ghost g0 = self.gravity;
        let ghost c0 = self.constraint;
        let ghost ss0 = self.sub_steps;
        let ghost dt0 = self.step_dt;
        let n = self.balls.len();
        let mut i: usize = 0;
        while i < n
            invariant
                i <= n,
                n == self.balls.len(),
                self.balls@.len() == s0.len(),
                self.gravity == g0,
                self.constraint == c0,
                self.sub_steps == ss0,
                self.step_dt == dt0,
                balls_wf(self.balls@),
                forall|k: int| 0 <= k < n ==> (#[trigger] self.balls@[k]).characteristics == s0[k].characteristics,
                collide_outer(self.balls@, i as int, n as int) == collide_outer(s0, 0, n as int),
            decreases n - i,
        {
            let mut j: usize = i + 1;
            proof {
                assert(collide_outer(self.balls@, i as int, n as int) == collide_outer(
                    collide_row(self.balls@, i as int, i as int + 1, n as int),
                    i as int + 1,
                    n as int,
                ));
            }
            while j < n
                invariant
                    i < n,
                    i + 1 <= j <= n,
                    n == self.balls.len(),
                    self.balls@.len() == s0.len(),
                    self.gravity == g0,
                    self.constraint == c0,
                    self.sub_steps == ss0,
                    self.step_dt == dt0,
                    balls_wf(self.balls@),
                    forall|k: int| 0 <= k < n ==> (#[trigger] self.balls@[k]).characteristics
                        == s0[k].characteristics,
                    collide_outer(
                        collide_row(self.balls@, i as int, j as int, n as int),
                        i as int + 1,
                        n as int,
                    ) == collide_outer(s0, 0, n as int),
                decreases n - j,
            {
                let ghost prev = self.balls@;
                let b1 = self.balls[i];
                let b2 = self.balls[j];
                let r = calculate_postcollision_positions(&b1, &b2);
                if let Some(pp) = r {
                    let mut nb1 = b1;
                    nb1.verlet_object.position_current = pp.0;
                    let mut nb2 = b2;
                    nb2.verlet_object.position_current = pp.1;
                    self.balls[i] = nb1;
                    self.balls[j] = nb2;
                }
                proof {
                    assert(self.balls@ =~= collide_pair(prev, i as int, j as int));
                    assert(collide_row(prev, i as int, j as int, n as int) == collide_row(
                        self.balls@,
                        i as int,
                        j as int + 1,
                        n as int,
                    ));
                }
                j += 1;
            }
            i += 1;
        }
        proof {
            assert(self.balls@ == collide_outer(s0, 0, n as int));
            assert(n as int == s0.len() as int);
            lemma_ids_preserved(s0, self.balls@);
        }
    }

    /// The integration stage of one sub-step: every ball steps once at the
    /// fixed sub-step duration.
    fn update_positions(&mut self)
        requires
            old(self).wf(),
        ensures
            final(self).balls@ == spec_update_positions(
                old(self).balls@,
                old(self).step_dt as int,
            ),
            final(self).balls@.len() == old(self).balls@.len(),
            forall|k: int| 0 <= k < old(self).balls@.len() ==> (#[trigger] final(self).balls@[k]).characteristics == old(self).balls@[k].characteristics,
            final(self).constraint == old(self).constraint,
            final(self).sub_steps == old(self).sub_steps,
            final(self).step_dt == old(self).step_dt,
            final(self).gravity == old(self).gravity,
            final(self).wf(),
    {
        let ghost s0 = self.balls@;
        let ghost g0 = self.gravity;
        let ghost c0 = self.constraint;
        let ghost ss0 = self.sub_steps;
        let ghost dt0 = self.step_dt;
        let n = self.balls.len();
        let mut i: usize = 0;
        while i < n
            invariant
                i <= n,
                n == self.balls.len(),
                self.balls@.len() == s0.len(),
                self.gravity == g0,
                self.constraint == c0,
                self.sub_steps == ss0,
                self.step_dt == dt0,
                1 <= dt0 <= DT_MAX_MICROS,
                balls_wf(s0),
                forall|k: int| 0 <= k < i ==> self.balls@[k] == step_ball(s0[k], dt0 as int),
                forall|k: int| i <= k < n ==> self.balls@[k] == s0[k],
                forall|k: int| 0 <= k < i ==> (#[trigger] self.balls@[k]).wf(),
            decreases n - i,
        {
            let mut b = self.balls[i];
            proof {
                assert(b == s0[i as int]);
                assert(s0[i as int].wf());
            }
            b.verlet_object.update_position(self.step_dt);
            self.balls[i] = b;
            i += 1;
        }
        proof {
            assert(self.balls@ =~= spec_update_positions(s0, dt0 as int));
            assert(balls_wf(self.balls@));
            lemma_ids_preserved(s0, self.balls@);
        }
    }

    /// One frame: `sub_steps` iterations of the fixed pipeline
    /// gravity -> constraint -> collisions -> integrate, each at the fixed
    /// duration `step_dt`. The resulting state is an exact function of the
    /// starting state.
    pub fn update(&mut self)
        requires
            old(self).wf(),
        ensures
            final(self).balls@ == spec_steps(
                old(self).balls@,
                old(self).gravity,
                old(self).constraint,
                old(self).step_dt as int,
                old(self).sub_steps as nat,
            ),
            final(self).balls@.len() == old(self).balls@.len(),
            forall|k: int| 0 <= k < old(self).balls@.len() ==> (#[trigger] final(self).balls@[k]).characteristics == old(self).balls@[k].characteristics,
            final(self).constraint == old(self).constraint,
            final(self).sub_steps == old(self).sub_steps,
            final(self).step_dt == old(self).step_dt,
            final(self).gravity == old(self).gravity,
            final(self).wf(),
    {
        let ghost s0 = self.balls@;
        let ghost g0 = self.gravity;
        let ghost c0 = self.constraint;
        let ghost dt0 = self.step_dt;
        let n = self.sub_steps;
        let mut k: u8 = 0;
        while k < n
            invariant
                k <= n,
                self.wf(),
                self.gravity == g0,
                self.constraint == c0,
                self.step_dt == dt0,
                self.sub_steps == n,
                self.balls@.len() == s0.len(),
                forall|t: int| 0 <= t < s0.len() ==> (#[trigger] self.balls@[t]).characteristics
                    == s0[t].characteristics,
                spec_steps(self.balls@, g0, c0, dt0 as int, (n - k) as nat) == spec_steps(
                    s0,
                    g0,
                    c0,
                    dt0 as int,
                    n as nat,
                ),
            decreases n - k,
        {
            let ghost sa = self.balls@;
            self.apply_gravity();
            self.apply_constraint();
            self.handle_collisions();
            self.update_positions();
            proof {
                assert(self.balls@ == spec_substep(sa, g0, c0, dt0 as int));
                assert(spec_steps(sa, g0, c0, dt0 as int, (n - k) as nat) == spec_steps(
                    self.balls@,
                    g0,
                    c0,
                    dt0 as int,
                    (n - k - 1) as nat,
                ));
            }
            k += 1;
        }
    }
}

/// Law (determinism): one frame of the pipeline is a function of the state
/// alone. Two experiments in equal states produce equal states, so together
/// with `update`'s exact contract, identical initial states and identical
/// call sequences give identical trajectories.
pub proof fn lemma_update_deterministic(
    s1: Seq<Ball>,
    s2: Seq<Ball>,
    g: Vector2D,
    c: Option<Constraint>,
    dt: int,
    n: nat,
)
    requires
        s1 == s2,
    ensures
        spec_steps(s1, g, c, dt, n) == spec_steps(s2, g, c, dt, n),
{
}

/// The `n`-th triangular number, the sum `1 + 2 + ... + n`.
pub open spec fn tri(n: nat) -> nat
    decreases n,
{
    if n == 0 {
        0
    } else {
        (n + tri((n - 1) as nat)) as nat
    }
}

/// The triangular numbers in closed form: `2 * tri(n) == n * (n + 1)`.
pub proof fn lemma_tri_closed_form(n: nat)
    ensures
        2 * tri(n) == n * (n + 1),
    decreases n,
{
    if n == 0 {
        assert(n * (n + 1) == 0) by (nonlinear_arith)
            requires n == 0;
    } else {
        let m = (n - 1) as nat;
        lemma_tri_closed_form(m);
        assert(n * (n + 1) == m * (m + 1) + 2 * n) by (nonlinear_arith)
            requires m == n - 1, n >= 1;
    }
}

/// Unrolling the sub-step recursion from the back.
proof fn lemma_spec_steps_succ(s: Seq<Ball>, g: Vector2D, c: Option<Constraint>, dt: int, n: nat)
    ensures
        spec_steps(s, g, c, dt, (n + 1) as nat) == spec_substep(
            spec_steps(s, g, c, dt, n),
            g,
            c,
            dt,
        ),
    decreases n,
{
    if n == 0 {
        assert(spec_steps(s, g, c, dt, 1) == spec_steps(spec_substep(s, g, c, dt), g, c, dt, 0));
    } else {
        lemma_spec_steps_succ(spec_substep(s, g, c, dt), g, c, dt, (n - 1) as nat);
    }
}

/// One pipeline sub-step of a lone, unconstrained ball: gravity then one
/// integration step; the constraint and collision stages are no-ops.
proof fn lemma_substep_single(b: Ball, g: Vector2D, dt: int)
    ensures
        spec_substep(seq![b], g, None::<Constraint>, dt) == seq![step_ball(grav_ball(b, g), dt)],
{
    let s0 = seq![b];
    let s1 = spec_apply_gravity(s0, g);
    assert(s1.len() == 1 && s1[0] == grav_ball(b, g));
    let s2 = spec_apply_constraint(s1, None::<Constraint>);
    assert(s2 == s1);
    assert(collide_row(s2, 0, 1, 1) == s2);
    assert(collide_outer(s2, 1, 1) == s2);
    assert(collide_outer(s2, 0, 1) == s2);
    let s3 = spec_handle_collisions(s2);
    assert(s3 == s2);
    let s4 = spec_update_positions(s3, dt);
    assert(s4.len() == 1 && s4[0] == step_ball(s1[0], dt));
    assert(s4 =~= seq![step_ball(grav_ball(b, g), dt)]);
}

/// Law (free fall): a lone ball at rest under constant downward gravity,
/// with no constraint, falls by exactly `q * tri(n)` after `n` sub-steps,
/// where `q = accel_delta(gravity, dt)` is the per-step contribution
/// `g * dt^2` of the acceleration. Since `2 * tri(n) == n * (n + 1)`, this
/// is the discrete counterpart of the continuous free-fall displacement
/// `g * (n * dt)^2 / 2`. The horizontal coordinate never moves.
pub proof fn lemma_free_fall(b: Ball, g: Vector2D, dt: int, n: nat)
    requires
        b.wf(),
        b.verlet_object.position_current == b.verlet_object.position_old,
        b.verlet_object.acceleration == (Vector2D { x: 0, y: 0 }),
        g.x == 0,
        0 <= g.y <= ACC_LIMIT,
        1 <= dt <= DT_MAX_MICROS as int,
        b.verlet_object.position_current.y + accel_delta(g.y as int, dt) * tri(n) <= POS_LIMIT,
    ensures
        ({
            let s = spec_steps(seq![b], g, None::<Constraint>, dt, n);
            let q = accel_delta(g.y as int, dt);
            let x0 = b.verlet_object.position_current.x as int;
            let y0 = b.verlet_object.position_current.y as int;
            &&& s.len() == 1
            &&& s[0].characteristics == b.characteristics
            &&& s[0].verlet_object.acceleration == (Vector2D { x: 0, y: 0 })
            &&& s[0].verlet_object.position_current.x == x0
            &&& s[0].verlet_object.position_old.x == x0
            &&& s[0].verlet_object.position_current.y == y0 + q * tri(n)
            &&& s[0].verlet_object.position_old.y == y0 + q * tri(n) - q * n
            &&& s[0].wf()
        }),
    decreases n,
{
    let q = accel_delta(g.y as int, dt);
    let x0 = b.verlet_object.position_current.x as int;
    let y0 = b.verlet_object.position_current.y as int;
    assert(g.y as int * dt * dt >= 0) by (nonlinear_arith)
        requires g.y as int >= 0, dt >= 1;
    assert(q >= 0) by {
        vstd::arithmetic::div_mod::lemma_div_pos_is_pos(
            g.y as int * dt * dt,
            (crate::num::MICROS_PER_SECOND * crate::num::MICROS_PER_SECOND) as int,
        );
    }
    if n == 0 {
        assert(q * tri(n) == 0) by (nonlinear_arith)
            requires tri(n) == 0;
        assert(q * n == 0) by (nonlinear_arith)
            requires n == 0;
    } else {
        let m = (n - 1) as nat;
        assert(tri(n) == n + tri(m));
        assert(q * tri(m) <= q * tri(n) && q * tri(m) >= 0 && q * tri(n) >= 0)
            by (nonlinear_arith)
            requires q >= 0, 0 <= tri(m) <= tri(n);
        lemma_free_fall(b, g, dt, m);
        lemma_spec_steps_succ(seq![b], g, None::<Constraint>, dt, m);
        let sm = spec_steps(seq![b], g, None::<Constraint>, dt, m);
        let bm = sm[0];
        assert(sm =~= seq![bm]);
        lemma_substep_single(bm, g, dt);
        let bg = grav_ball(bm, g);
        assert(bg.verlet_object.acceleration == (Vector2D { x: g.x, y: g.y }));
        let bn = step_ball(bg, dt);
        assert(spec_steps(seq![b], g, None::<Constraint>, dt, n) == seq![bn]);
        assert(accel_delta(0, dt) == 0) by {
            assert(0 * dt * dt == 0) by (nonlinear_arith);
            vstd::arithmetic::div_mod::lemma_div_of0(
                (crate::num::MICROS_PER_SECOND * crate::num::MICROS_PER_SECOND) as int,
            );
        }
        assert(q * tri(n) == q * n + q * tri(m)) by (nonlinear_arith)
            requires tri(n) == n + tri(m);
        assert(q * n == q * m + q) by (nonlinear_arith)
            requires n == m + 1;
        assert(bn.verlet_object.position_current.y == y0 + q * tri(n));
        assert(bn.verlet_object.position_current.x == x0);
    }
}

} // verus!
