//! Enemy steering: direct pursuit, and interception of a target that moves
//! at constant velocity.

use vstd::prelude::*;
use crate::geometry::{
    Point, COORD_LIMIT, norm_sq, floor_sqrt, is_floor_sqrt, isqrt, scaled, scale_to, smooth_toward,
    smoothed, lemma_floor_sqrt_exists, lemma_smoothing_keeps_speed,
};

verus! {

/// Cruising speed of an enemy: fifty pixels per second.
pub const ENEMY_SPEED: i64 = 500;

/// The quadratic `a t^2 + b t + c = 0` whose positive roots are the times at
/// which a shot at `speed` from the origin meets a target at `d` moving at `v`.
pub open spec fn quad_a(v: (int, int), speed: int) -> int {
    norm_sq(v.0, v.1) - speed * speed
}

pub open spec fn quad_b(d: (int, int), v: (int, int)) -> int {
    2 * (d.0 * v.0 + d.1 * v.1)
}

pub open spec fn quad_c(d: (int, int)) -> int {
    norm_sq(d.0, d.1)
}

pub open spec fn discriminant(d: (int, int), v: (int, int), speed: int) -> int {
    quad_b(d, v) * quad_b(d, v) - 4 * quad_a(v, speed) * quad_c(d)
}

/// A root `n / den` of the quadratic, written with a positive denominator.
pub open spec fn positive_den(n: int, den: int) -> (int, int) {
    if den > 0 {
        (n, den)
    } else {
        (-n, -den)
    }
}

/// The earliest strictly positive meeting time, as a fraction
/// `(numerator, denominator)` with a positive denominator; `None` when there
/// is none. Where `a == 0` the equation is linear, `b t + c = 0`. The square
/// root of the discriminant is rounded down.
pub open spec fn intercept_time(d: (int, int), v: (int, int), speed: int) -> Option<(int, int)> {
    let a = quad_a(v, speed);
    let b = quad_b(d, v);
    let c = quad_c(d);
    if a == 0 {
        if b < 0 && c > 0 {
            Some((c, -b))
        } else {
            None
        }
    } else {
        let disc = b * b - 4 * a * c;
        if disc < 0 {
            None
        } else {
            let sq = floor_sqrt(disc);
            let t1 = positive_den(-b - sq, 2 * a);
            let t2 = positive_den(-b + sq, 2 * a);
            if t1.0 > 0 && t2.0 > 0 {
                Some(if t1.0 <= t2.0 { t1 } else { t2 })
            } else if t1.0 > 0 {
                Some(t1)
            } else if t2.0 > 0 {
                Some(t2)
            } else {
                None
            }
        }
    }
}

/// The aim point, relative to the shooter, scaled by the time's denominator:
/// `den * (d + v * num / den)`.
pub open spec fn aim_vector(d: (int, int), v: (int, int), t: (int, int)) -> (int, int) {
    (d.0 * t.1 + v.0 * t.0, d.1 * t.1 + v.1 * t.0)
}

/// The velocity at `speed` toward the intercept point, if there is one.
pub open spec fn intercept_direction(d: (int, int), v: (int, int), speed: int) -> Option<(int, int)> {
    match intercept_time(d, v, speed) {
        Some(t) => {
            let w = aim_vector(d, v, t);
            Some(scaled(w.0, w.1, speed))
        },
        None => None,
    }
}

pub open spec fn offset(from: Point, to: Point) -> (int, int) {
    (to.x - from.x, to.y - from.y)
}

pub open spec fn pair(p: Point) -> (int, int) {
    (p.x as int, p.y as int)
}

proof fn lemma_bounds(d: (int, int), v: (int, int), speed: int)
    requires
        -2 * COORD_LIMIT <= d.0 <= 2 * COORD_LIMIT,
        -2 * COORD_LIMIT <= d.1 <= 2 * COORD_LIMIT,
        -COORD_LIMIT <= v.0 <= COORD_LIMIT,
        -COORD_LIMIT <= v.1 <= COORD_LIMIT,
        0 <= speed <= COORD_LIMIT,
    ensures
        0 <= v.0 * v.0 <= 0x10_0000_0000,
        0 <= v.1 * v.1 <= 0x10_0000_0000,
        0 <= speed * speed <= 0x10_0000_0000,
        0 <= d.0 * d.0 <= 0x40_0000_0000,
        0 <= d.1 * d.1 <= 0x40_0000_0000,
        -0x20_0000_0000 <= d.0 * v.0 <= 0x20_0000_0000,
        -0x20_0000_0000 <= d.1 * v.1 <= 0x20_0000_0000,
        -0x20_0000_0000 <= quad_a(v, speed) <= 0x20_0000_0000,
        -0x80_0000_0000 <= quad_b(d, v) <= 0x80_0000_0000,
        0 <= quad_c(d) <= 0x80_0000_0000,
        0 <= quad_b(d, v) * quad_b(d, v) <= 0x4000_0000_0000_0000_0000,
        -0x4000_0000_0000_0000_0000 <= 4 * quad_a(v, speed) * quad_c(d) <= 0x4000_0000_0000_0000_0000,
{
    let (d0, d1, v0, v1) = (d.0, d.1, v.0, v.1);
    assert(0 <= v0 * v0 <= 0x10_0000_0000 && 0 <= v1 * v1 <= 0x10_0000_0000
        && 0 <= speed * speed <= 0x10_0000_0000) by (nonlinear_arith)
        requires
            -0x4_0000 <= v0 <= 0x4_0000,
            -0x4_0000 <= v1 <= 0x4_0000,
            0 <= speed <= 0x4_0000,
    ;
    assert(0 <= d0 * d0 <= 0x40_0000_0000 && 0 <= d1 * d1 <= 0x40_0000_0000) by (nonlinear_arith)
        requires
            -0x8_0000 <= d0 <= 0x8_0000,
            -0x8_0000 <= d1 <= 0x8_0000,
    ;
    assert(-0x20_0000_0000 <= d0 * v0 <= 0x20_0000_0000 && -0x20_0000_0000 <= d1 * v1 <= 0x20_0000_0000)
        by (nonlinear_arith)
        requires
            -0x8_0000 <= d0 <= 0x8_0000,
            -0x8_0000 <= d1 <= 0x8_0000,
            -0x4_0000 <= v0 <= 0x4_0000,
            -0x4_0000 <= v1 <= 0x4_0000,
    ;
    let a = quad_a(v, speed);
    let b = quad_b(d, v);
    let c = quad_c(d);
    assert(0 <= b * b <= 0x4000_0000_0000_0000_0000) by (nonlinear_arith)
        requires
            -0x80_0000_0000 <= b <= 0x80_0000_0000,
    ;
    assert(-0x4000_0000_0000_0000_0000 <= 4 * a * c <= 0x4000_0000_0000_0000_0000) by (nonlinear_arith)
        requires
            -0x20_0000_0000 <= a <= 0x20_0000_0000,
            0 <= c <= 0x80_0000_0000,
    ;
}

/// The earliest positive time at which a shot from `shooter` at `speed` meets
/// a target at `target` moving at `target_vel`, as `(numerator, denominator)`
/// with a positive denominator.
pub fn solve_intercept_time(shooter: Point, target: Point, target_vel: Point, speed: i64) -> (r: Option<(i128, i128)>)
    requires
        shooter.in_bounds(),
        target.in_bounds(),
        target_vel.in_bounds(),
        0 <= speed <= COORD_LIMIT,
    ensures
        r matches Some(t) ==> intercept_time(offset(shooter, target), pair(target_vel), speed as int)
            == Some((t.0 as int, t.1 as int)),
        r is None ==> intercept_time(offset(shooter, target), pair(target_vel), speed as int) is None,
        r matches Some(t) ==> 0 < t.0 < 0x200_0000_0000 && 0 < t.1 <= 0x80_0000_0000,
{
    let ghost d = offset(shooter, target);
    let ghost v = pair(target_vel);
    let dx = (target.x as i128) - (shooter.x as i128);
    let dy = (target.y as i128) - (shooter.y as i128);
    let vx = target_vel.x as i128;
    let vy = target_vel.y as i128;
    let s = speed as i128;
    proof {
        lemma_bounds(d, v, speed as int);
    }
    let a: i128 = vx * vx + vy * vy - s * s;
    let b: i128 = 2 * (dx * vx + dy * vy);
    let c: i128 = dx * dx + dy * dy;
    assert(a == quad_a(v, speed as int) && b == quad_b(d, v) && c == quad_c(d));
    if a == 0 {
        if b < 0 && c > 0 {
            Some((c, -b))
        } else {
            None
        }
    } else {
        let disc: i128 = b * b - 4 * a * c;
        if disc < 0 {
            None
        } else {
            let root = isqrt(disc as u128);
            assert(root < 0x100_0000_0000) by (nonlinear_arith)
                requires
                    root * root <= disc,
                    disc <= 0x8000_0000_0000_0000_0000,
            ;
            let sq = root as i128;
            let (n1, n2, den) = if a > 0 {
                (-b - sq, -b + sq, 2 * a)
            } else {
                (b + sq, b - sq, 2 * (0 - a))
            };
            if n1 > 0 && n2 > 0 {
                if n1 <= n2 {
                    Some((n1, den))
                } else {
                    Some((n2, den))
                }
            } else if n1 > 0 {
                Some((n1, den))
            } else if n2 > 0 {
                Some((n2, den))
            } else {
                None
            }
        }
    }
}


/// The velocity at `projectile_speed` that heads for the point where it meets
/// the target, or `None` where no positive meeting time exists.
pub fn calculate_intercept_direction(
    shooter_pos: Point,
    target_pos: Point,
    target_vel: Point,
    projectile_speed: i64,
) -> (r: Option<Point>)
    requires
        shooter_pos.in_bounds(),
        target_pos.in_bounds(),
        target_vel.in_bounds(),
        0 <= projectile_speed <= COORD_LIMIT,
    ensures
        r matches Some(p) ==> intercept_direction(
            offset(shooter_pos, target_pos),
            pair(target_vel),
            projectile_speed as int,
        ) == Some(pair(p)),
        r is None <==> intercept_time(
            offset(shooter_pos, target_pos),
            pair(target_vel),
            projectile_speed as int,
        ) is None,
        r matches Some(p) ==> p.in_bounds()
            && norm_sq(p.x as int, p.y as int) <= projectile_speed * projectile_speed,
{
    match solve_intercept_time(shooter_pos, target_pos, target_vel, projectile_speed) {
        Some((n, den)) => {
            let dx = (target_pos.x as i128) - (shooter_pos.x as i128);
            let dy = (target_pos.y as i128) - (shooter_pos.y as i128);
            let vx = target_vel.x as i128;
            let vy = target_vel.y as i128;
            assert(-0x400_0000_0000_0000 <= dx * den <= 0x400_0000_0000_0000
                && -0x400_0000_0000_0000 <= dy * den <= 0x400_0000_0000_0000) by (nonlinear_arith)
                requires
                    -0x8_0000 <= dx <= 0x8_0000,
                    -0x8_0000 <= dy <= 0x8_0000,
                    0 < den <= 0x80_0000_0000,
            ;
            assert(-0x800_0000_0000_0000 <= vx * n <= 0x800_0000_0000_0000
                && -0x800_0000_0000_0000 <= vy * n <= 0x800_0000_0000_0000) by (nonlinear_arith)
                requires
                    -0x4_0000 <= vx <= 0x4_0000,
                    -0x4_0000 <= vy <= 0x4_0000,
                    0 < n < 0x200_0000_0000,
            ;
            let wx = dx * den + vx * n;
            let wy = dy * den + vy * n;
            Some(scale_to(wx, wy, projectile_speed))
        },
        None => None,
    }
}

/// The velocity at `ENEMY_SPEED` straight toward `to`.
pub open spec fn pursuit(from: Point, to: Point) -> (int, int) {
    scaled(to.x - from.x, to.y - from.y, ENEMY_SPEED as int)
}

pub open spec fn smoothed_pair(v: Point, target: (int, int)) -> (int, int) {
    (smoothed(v.x as int, target.0), smoothed(v.y as int, target.1))
}

/// An enemy's next velocity: a pursuer (three sides) eases toward the
/// player; an interceptor (four sides) eases toward the intercept point, and
/// pursues where there is none; any other shape keeps its velocity.
pub open spec fn steered(sides: i32, pos: Point, vel: Point, player_pos: Point, player_vel: Point) -> (int, int) {
    if sides == 3 {
        smoothed_pair(vel, pursuit(pos, player_pos))
    } else if sides == 4 {
        match intercept_direction(offset(pos, player_pos), pair(player_vel), ENEMY_SPEED as int) {
            Some(dir) => smoothed_pair(vel, dir),
            None => smoothed_pair(vel, pursuit(pos, player_pos)),
        }
    } else {
        pair(vel)
    }
}

/// The velocity an enemy with `sides` sides takes this tick.
pub fn steer(sides: i32, pos: Point, vel: Point, player_pos: Point, player_vel: Point) -> (r: Point)
    requires
        pos.in_bounds(),
        vel.in_bounds(),
        player_pos.in_bounds(),
        player_vel.in_bounds(),
    ensures
        pair(r) == steered(sides, pos, vel, player_pos, player_vel),
        r.in_bounds(),
        (sides == 3 || sides == 4) && norm_sq(vel.x as int, vel.y as int) <= ENEMY_SPEED * ENEMY_SPEED
            ==> norm_sq(r.x as int, r.y as int) <= ENEMY_SPEED * ENEMY_SPEED,
{
    let chase = || -> (p: Point)
        ensures
            pair(p) == smoothed_pair(vel, pursuit(pos, player_pos)),
            p.in_bounds(),
            norm_sq(vel.x as int, vel.y as int) <= ENEMY_SPEED * ENEMY_SPEED
                ==> norm_sq(p.x as int, p.y as int) <= ENEMY_SPEED * ENEMY_SPEED,
    {
        let dx = (player_pos.x as i128) - (pos.x as i128);
        let dy = (player_pos.y as i128) - (pos.y as i128);
        let dir = scale_to(dx, dy, ENEMY_SPEED);
        proof {
            if norm_sq(vel.x as int, vel.y as int) <= ENEMY_SPEED * ENEMY_SPEED {
                lemma_smoothing_keeps_speed(vel, dir, ENEMY_SPEED as int);
            }
        }
        smooth_toward(vel, dir)
    };
    if sides == 3 {
        chase()
    } else if sides == 4 {
        match calculate_intercept_direction(pos, player_pos, player_vel, ENEMY_SPEED) {
            Some(dir) => {
                proof {
                    if norm_sq(vel.x as int, vel.y as int) <= ENEMY_SPEED * ENEMY_SPEED {
                        lemma_smoothing_keeps_speed(vel, dir, ENEMY_SPEED as int);
                    }
                }
                smooth_toward(vel, dir)
            },
            None => chase(),
        }
    } else {
        vel
    }
}

/// A target that stands still is aimed at where it stands: the aim point
/// `target + 0 * t` is the target itself, whatever the positive speed, and
/// the shot heads straight for it.
pub proof fn lemma_stationary_target(d: (int, int), speed: int)
    requires
        speed > 0,
        d != (0int, 0int),
    ensures
        intercept_time(d, (0, 0), speed) matches Some(t) && t.1 > 0
            && aim_vector(d, (0, 0), t) == (d.0 * t.1, d.1 * t.1),
{
    let a = quad_a((0, 0), speed);
    let c = quad_c(d);
    assert(quad_b(d, (0, 0)) == 0);
    assert(speed * speed > 0) by (nonlinear_arith)
        requires
            speed > 0,
    ;
    assert(c > 0) by (nonlinear_arith)
        requires
            c == d.0 * d.0 + d.1 * d.1,
            d.0 != 0 || d.1 != 0,
    ;
    let disc = 0 - 4 * a * c;
    assert(disc > 0) by (nonlinear_arith)
        requires
            a < 0,
            c > 0,
            disc == 0 - 4 * a * c,
    ;
    lemma_floor_sqrt_exists(disc);
    let sq = floor_sqrt(disc);
    assert(sq > 0) by (nonlinear_arith)
        requires
            is_floor_sqrt(disc, sq),
            disc > 0,
    ;
    let t = intercept_time(d, (0, 0), speed);
    assert(t == Some((sq, -2 * a)));
}

/// A target faster than the shot that moves directly away from the shooter
/// can never be met, whatever the shot's speed; an interceptor then falls
/// back to plain pursuit.
pub proof fn lemma_fleeing_target_not_met(
    pos: Point,
    vel: Point,
    player_pos: Point,
    player_vel: Point,
    projectile_speed: int,
)
    requires
        projectile_speed >= 0,
        norm_sq(player_vel.x as int, player_vel.y as int) > projectile_speed * projectile_speed,
        (player_pos.x - pos.x) * player_vel.y == (player_pos.y - pos.y) * player_vel.x,
        (player_pos.x - pos.x) * player_vel.x + (player_pos.y - pos.y) * player_vel.y > 0,
    ensures
        intercept_time(offset(pos, player_pos), pair(player_vel), projectile_speed) is None,
        projectile_speed == ENEMY_SPEED ==> steered(4, pos, vel, player_pos, player_vel) == steered(
            3,
            pos,
            vel,
            player_pos,
            player_vel,
        ),
{
    lemma_no_positive_root(offset(pos, player_pos), pair(player_vel), projectile_speed);
}

/// With `a > 0` and `b > 0` both roots are negative or zero.
proof fn lemma_no_positive_root(d: (int, int), v: (int, int), speed: int)
    requires
        quad_a(v, speed) > 0,
        quad_b(d, v) > 0,
    ensures
        intercept_time(d, v, speed) is None,
{
    let a = quad_a(v, speed);
    let b = quad_b(d, v);
    let c = quad_c(d);
    assert(c >= 0) by (nonlinear_arith)
        requires
            c == d.0 * d.0 + d.1 * d.1,
    ;
    let disc = b * b - 4 * a * c;
    if disc >= 0 {
        lemma_floor_sqrt_exists(disc);
        let sq = floor_sqrt(disc);
        assert(4 * a * c >= 0) by (nonlinear_arith)
            requires
                a > 0,
                c >= 0,
        ;
        assert(sq <= b) by (nonlinear_arith)
            requires
                sq * sq <= disc,
                disc <= b * b,
                sq >= 0,
                b > 0,
        ;
    }
}

} // verus!
