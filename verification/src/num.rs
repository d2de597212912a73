//! Fixed-point numeric kernel of the simulation.
//!
//! Coordinates, radii, velocities and accelerations are plain integers:
//! `COORD_SCALE` coordinate units make one world unit, durations are in
//! microseconds, velocities in coordinate units per second and accelerations
//! in coordinate units per second squared. Every coordinate the engine
//! produces is clamped into the supported world box, so the arithmetic of a
//! simulation step can never overflow.

use vstd::prelude::*;
use vstd::arithmetic::div_mod::lemma_fundamental_div_mod;
use vstd::arithmetic::div_mod::lemma_mod_bound;
use vstd::arithmetic::div_mod::lemma_div_nonincreasing;
use vstd::arithmetic::div_mod::lemma_div_pos_is_pos;

verus! {

/// Coordinate units per world unit (the grain of the fixed-point model).
pub const COORD_SCALE: i64 = 1000;

/// Largest magnitude of a coordinate the engine keeps; every produced
/// position is clamped into `[-POS_LIMIT, POS_LIMIT]` on both axes.
pub const POS_LIMIT: i64 = 1_000_000_000_000;

/// Largest magnitude of an acceleration component, in coordinate units
/// per second squared; the per-body accumulator saturates here.
pub const ACC_LIMIT: i64 = 1_000_000_000_000;

/// Largest magnitude of an initial-velocity component, in coordinate units
/// per second.
pub const VEL_LIMIT: i64 = 1_000_000_000_000;

/// Largest ball radius, in coordinate units.
pub const RADIUS_LIMIT: i64 = 1_000_000_000;

/// Largest supported integration step: one second, in microseconds.
pub const DT_MAX_MICROS: u32 = 1_000_000;

/// Microseconds per second, the time grain of the model.
pub const MICROS_PER_SECOND: i64 = 1_000_000;

/// Largest component magnitude `scaled_to` and the square-root helpers
/// accept: a difference of two world coordinates always fits.
pub const MAG_LIMIT: i64 = 4_000_000_000_000;

/// A coordinate clamped into the supported world box.
pub open spec fn clamp_coord(x: int) -> int {
    if x > POS_LIMIT as int {
        POS_LIMIT as int
    } else if x < -(POS_LIMIT as int) {
        -(POS_LIMIT as int)
    } else {
        x
    }
}

/// An acceleration component clamped to the saturation bound.
pub open spec fn clamp_accel(x: int) -> int {
    if x > ACC_LIMIT as int {
        ACC_LIMIT as int
    } else if x < -(ACC_LIMIT as int) {
        -(ACC_LIMIT as int)
    } else {
        x
    }
}

/// Integer division rounding toward zero (the rounding the engine uses for
/// signed quantities), for a positive divisor.
pub open spec fn div_toward_zero(n: int, d: int) -> int {
    if n >= 0 {
        n / d
    } else {
        -((-n) / d)
    }
}

/// Squared magnitude of a displacement.
pub open spec fn mag_sq(x: int, y: int) -> int {
    x * x + y * y
}

/// The position change one acceleration component contributes over one step
/// of `dt` microseconds: `a * dt^2`, rescaled from squared microseconds to
/// squared seconds, rounded toward zero.
pub open spec fn accel_delta(a: int, dt: int) -> int {
    div_toward_zero(a * dt * dt, (MICROS_PER_SECOND * MICROS_PER_SECOND) as int)
}

/// The integer square root, rounded down.
pub open spec fn sqrt_floor(n: nat) -> nat
    decreases n,
{
    if n == 0 {
        0
    } else {
        let p = sqrt_floor((n - 1) as nat);
        if (p + 1) * (p + 1) <= n {
            p + 1
        } else {
            p
        }
    }
}

/// The integer square root, rounded up.
pub open spec fn sqrt_ceil(n: nat) -> nat {
    if sqrt_floor(n) * sqrt_floor(n) == n {
        sqrt_floor(n)
    } else {
        sqrt_floor(n) + 1
    }
}

/// `sqrt_floor(n)` is the unique integer whose square is at most `n` while
/// the next square exceeds `n`.
pub proof fn lemma_sqrt_floor_bounds(n: nat)
    ensures
        sqrt_floor(n) * sqrt_floor(n) <= n,
        n < (sqrt_floor(n) + 1) * (sqrt_floor(n) + 1),
    decreases n,
{
    let s = sqrt_floor(n);
    if n == 0 {
        assert(s == 0);
        assert(s * s <= n) by (nonlinear_arith)
            requires s == 0, n == 0;
        assert(n < (s + 1) * (s + 1)) by (nonlinear_arith)
            requires s == 0, n == 0;
    } else {
        let prev = (n - 1) as nat;
        lemma_sqrt_floor_bounds(prev);
        let p = sqrt_floor(prev);
        assert(p * p <= prev);
        assert(prev < (p + 1) * (p + 1));
        if (p + 1) * (p + 1) <= n {
            assert(s == p + 1);
            assert(n == (p + 1) * (p + 1));
            assert((p + 1) * (p + 1) < (p + 1 + 1) * (p + 1 + 1)) by (nonlinear_arith);
            assert(s * s <= n);
            assert(n < (s + 1) * (s + 1));
        } else {
            assert(s == p);
            assert(s * s <= n);
            assert(n < (s + 1) * (s + 1));
        }
    }
}

/// Any integer meeting the square-root bracketing equals `sqrt_floor(n)`.
pub proof fn lemma_sqrt_floor_unique(n: nat, r: nat)
    requires
        r * r <= n,
        n < (r + 1) * (r + 1),
    ensures
        r == sqrt_floor(n),
{
    lemma_sqrt_floor_bounds(n);
    let s = sqrt_floor(n);
    if r < s {
        assert((r + 1) * (r + 1) <= s * s) by (nonlinear_arith)
            requires r + 1 <= s;
    }
    if s < r {
        assert((s + 1) * (s + 1) <= r * r) by (nonlinear_arith)
            requires s + 1 <= r;
    }
}

/// If `n` is below a square, its floor square root is below the base.
pub proof fn lemma_sqrt_floor_below(n: nat, b: nat)
    requires
        n < b * b,
    ensures
        sqrt_floor(n) < b,
{
    lemma_sqrt_floor_bounds(n);
    let s = sqrt_floor(n);
    if s >= b {
        assert(b * b <= s * s) by (nonlinear_arith)
            requires b <= s;
    }
}

/// The ceiling square root brackets `n` from above.
pub proof fn lemma_sqrt_ceil_bounds(n: nat)
    ensures
        n <= sqrt_ceil(n) * sqrt_ceil(n),
        n >= 1 ==> sqrt_ceil(n) >= 1,
{
    lemma_sqrt_floor_bounds(n);
    let c = sqrt_ceil(n);
    if c == 0 {
        assert(n <= 0);
    }
}

/// The integer square root of `n`, rounded down.
pub fn isqrt(n: u128) -> (r: u128)
    ensures
        r as nat == sqrt_floor(n as nat),
        r * r <= n,
        n < (r + 1) * (r + 1),
        r <= 0xFFFF_FFFF_FFFF_FFFF,
{
    let mut lo: u128 = 0;
    let mut hi: u128 = 0x1_0000_0000_0000_0000;
    proof {
        assert(hi * hi > u128::MAX as int) by (nonlinear_arith)
            requires hi == 0x1_0000_0000_0000_0000u128;
    }
    while hi - lo > 1
        invariant
            lo < hi,
            hi <= 0x1_0000_0000_0000_0000,
            lo * lo <= n,
            n < hi * hi,
        decreases hi - lo,
    {
        let mid: u128 = lo + (hi - lo) / 2;
        proof {
            assert(mid * mid <= u128::MAX as int) by (nonlinear_arith)
                requires mid < 0x1_0000_0000_0000_0000u128;
        }
        if mid * mid <= n {
            lo = mid;
        } else {
            hi = mid;
        }
    }
    proof {
        assert(n < (lo + 1) * (lo + 1));
        lemma_sqrt_floor_unique(n as nat, lo as nat);
    }
    lo
}

/// The integer square root of `n`, rounded up.
pub fn isqrt_up(n: u128) -> (r: u128)
    ensures
        r as nat == sqrt_ceil(n as nat),
        n <= r * r,
        n >= 1 ==> r >= 1,
        r <= 0x1_0000_0000_0000_0000,
{
    let f = isqrt(n);
    proof {
        assert(f * f <= u128::MAX as int) by (nonlinear_arith)
            requires f <= 0xFFFF_FFFF_FFFF_FFFFu128;
        lemma_sqrt_ceil_bounds(n as nat);
    }
    if f * f == n {
        f
    } else {
        f + 1
    }
}

/// Integer division rounding toward zero, as the engine executes it.
pub fn div_tz(n: i128, d: u128) -> (q: i128)
    requires
        1 <= d <= i128::MAX as u128,
        n > i128::MIN,
    ensures
        q as int == div_toward_zero(n as int, d as int),
        n >= 0 ==> 0 <= q <= n,
        n < 0 ==> n <= q <= 0,
{
    if n >= 0 {
        let uq: u128 = (n as u128) / d;
        proof {
            lemma_div_nonincreasing(n as int, d as int);
            lemma_div_pos_is_pos(n as int, d as int);
        }
        uq as i128
    } else {
        let uq: u128 = ((-n) as u128) / d;
        proof {
            lemma_div_nonincreasing(-(n as int), d as int);
            lemma_div_pos_is_pos(-(n as int), d as int);
        }
        -(uq as i128)
    }
}

/// Clamps an intermediate coordinate into the world box.
pub fn clamp_coord_exec(x: i128) -> (r: i64)
    ensures
        r as int == clamp_coord(x as int),
{
    if x > POS_LIMIT as i128 {
        POS_LIMIT
    } else if x < -POS_LIMIT as i128 {
        -POS_LIMIT
    } else {
        x as i64
    }
}

/// Clamps an accumulated acceleration component to the saturation bound.
pub fn clamp_accel_exec(x: i128) -> (r: i64)
    ensures
        r as int == clamp_accel(x as int),
{
    if x > ACC_LIMIT as i128 {
        ACC_LIMIT
    } else if x < -ACC_LIMIT as i128 {
        -ACC_LIMIT
    } else {
        x as i64
    }
}

/// The position change one acceleration component contributes over one
/// step, as the engine executes it.
pub fn accel_delta_exec(a: i64, dt: u32) -> (r: i128)
    requires
        -ACC_LIMIT <= a <= ACC_LIMIT,
        1 <= dt <= DT_MAX_MICROS,
    ensures
        r as int == accel_delta(a as int, dt as int),
        -1_000_000_000_000_000_000_000_000 <= r <= 1_000_000_000_000_000_000_000_000,
{
    proof {
        assert(a as int * dt as int * dt as int <= 1_000_000_000_000_000_000_000_000
            && a as int * dt as int * dt as int >= -1_000_000_000_000_000_000_000_000
            && a as int * dt as int <= 1_000_000_000_000_000_000
            && a as int * dt as int >= -1_000_000_000_000_000_000)
            by (nonlinear_arith)
            requires
                -1_000_000_000_000 <= a as int <= 1_000_000_000_000,
                1 <= dt as int <= 1_000_000;
        assert((MICROS_PER_SECOND * MICROS_PER_SECOND) as int == 1_000_000_000_000);
    }
    let n: i128 = a as i128 * dt as i128 * dt as i128;
    div_tz(n, 1_000_000_000_000)
}

/// Squared magnitude of a displacement, as the engine executes it.
pub fn mag_sq_exec(x: i64, y: i64) -> (m: u128)
    requires
        -MAG_LIMIT <= x <= MAG_LIMIT,
        -MAG_LIMIT <= y <= MAG_LIMIT,
    ensures
        m as int == mag_sq(x as int, y as int),
        m <= 32_000_000_000_000_000_000_000_000,
{
    let ax: u128 = if x >= 0 { x as u128 } else { (-(x as i128)) as u128 };
    let ay: u128 = if y >= 0 { y as u128 } else { (-(y as i128)) as u128 };
    proof {
        assert(ax * ax == x as int * x as int && ax * ax <= MAG_LIMIT as int * MAG_LIMIT as int)
            by (nonlinear_arith)
            requires (ax == x || ax == -(x as int)) && 0 <= ax <= MAG_LIMIT as int;
        assert(ay * ay == y as int * y as int && ay * ay <= MAG_LIMIT as int * MAG_LIMIT as int)
            by (nonlinear_arith)
            requires (ay == y || ay == -(y as int)) && 0 <= ay <= MAG_LIMIT as int;
        assert(MAG_LIMIT as int * MAG_LIMIT as int == 16_000_000_000_000_000_000_000_000);
    }
    ax * ax + ay * ay
}

/// Scaling a displacement to magnitude `m` with a divisor at least the true
/// length keeps its magnitude at most `m`, componentwise rounding toward
/// zero.
pub proof fn lemma_scaled_mag_bounded(x: int, y: int, m: int, l: int)
    requires
        l >= 1,
        mag_sq(x, y) <= l * l,
        m >= 0,
    ensures
        mag_sq(div_toward_zero(x * m, l), div_toward_zero(y * m, l)) <= m * m,
        -m <= div_toward_zero(x * m, l) <= m,
        -m <= div_toward_zero(y * m, l) <= m,
{
    let a = if x >= 0 { x } else { -x };
    let b = if y >= 0 { y } else { -y };
    let qa = (a * m) / l;
    let qb = (b * m) / l;
    assert(a * m >= 0 && b * m >= 0) by (nonlinear_arith)
        requires a >= 0, b >= 0, m >= 0;
    lemma_fundamental_div_mod(a * m, l);
    lemma_mod_bound(a * m, l);
    lemma_fundamental_div_mod(b * m, l);
    lemma_mod_bound(b * m, l);
    assert(qa >= 0 && qa * l <= a * m) by (nonlinear_arith)
        requires
            l >= 1,
            a * m >= 0,
            a * m == l * qa + (a * m) % l,
            0 <= (a * m) % l < l;
    assert(qb >= 0 && qb * l <= b * m) by (nonlinear_arith)
        requires
            l >= 1,
            b * m >= 0,
            b * m == l * qb + (b * m) % l,
            0 <= (b * m) % l < l;
    assert(a * a == x * x) by (nonlinear_arith)
        requires a == x || a == -x;
    assert(b * b == y * y) by (nonlinear_arith)
        requires b == y || b == -y;
    assert(0 <= qa * l && 0 <= qb * l) by (nonlinear_arith)
        requires qa >= 0, qb >= 0, l >= 1;
    assert((qa * l) * (qa * l) <= (a * m) * (a * m)) by (nonlinear_arith)
        requires 0 <= qa * l, qa * l <= a * m;
    assert((qb * l) * (qb * l) <= (b * m) * (b * m)) by (nonlinear_arith)
        requires 0 <= qb * l, qb * l <= b * m;
    assert((qa * l) * (qa * l) == (qa * qa) * (l * l)) by (nonlinear_arith);
    assert((qb * l) * (qb * l) == (qb * qb) * (l * l)) by (nonlinear_arith);
    assert((a * m) * (a * m) == (a * a) * (m * m)) by (nonlinear_arith);
    assert((b * m) * (b * m) == (b * b) * (m * m)) by (nonlinear_arith);
    assert((qa * qa) * (l * l) + (qb * qb) * (l * l) <= (a * a) * (m * m) + (b * b) * (m * m));
    assert((qa * qa + qb * qb) * (l * l) == (qa * qa) * (l * l) + (qb * qb) * (l * l))
        by (nonlinear_arith);
    assert((a * a + b * b) * (m * m) == (a * a) * (m * m) + (b * b) * (m * m))
        by (nonlinear_arith);
    assert((qa * qa + qb * qb) * (l * l) <= (a * a + b * b) * (m * m));
    assert(qa * qa >= 0 && qb * qb >= 0 && m * m >= 0) by (nonlinear_arith);
    assert(qa * qa + qb * qb <= m * m) by (nonlinear_arith)
        requires
            l >= 1,
            (qa * qa + qb * qb) * (l * l) <= (a * a + b * b) * (m * m),
            a * a + b * b <= l * l,
            m * m >= 0,
            qa * qa + qb * qb >= 0;
    assert(qa <= m && qb <= m) by (nonlinear_arith)
        requires
            qa >= 0,
            qb >= 0,
            m >= 0,
            qa * qa + qb * qb <= m * m;
    if x >= 0 {
        assert(div_toward_zero(x * m, l) == qa);
    } else {
        assert(x * m == -(a * m)) by (nonlinear_arith)
            requires a == -x;
        assert(div_toward_zero(x * m, l) == -qa);
    }
    if y >= 0 {
        assert(div_toward_zero(y * m, l) == qb);
    } else {
        assert(y * m == -(b * m)) by (nonlinear_arith)
            requires b == -y;
        assert(div_toward_zero(y * m, l) == -qb);
    }
    assert(div_toward_zero(x * m, l) * div_toward_zero(x * m, l) == qa * qa) by (nonlinear_arith)
        requires div_toward_zero(x * m, l) == qa || div_toward_zero(x * m, l) == -qa;
    assert(div_toward_zero(y * m, l) * div_toward_zero(y * m, l) == qb * qb) by (nonlinear_arith)
        requires div_toward_zero(y * m, l) == qb || div_toward_zero(y * m, l) == -qb;
}

} // verus!
