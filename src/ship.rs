use vstd::prelude::*;
use crate::body::{
    Body, BodyKind, TURN_MRAD, WORLD_WIDTH, WORLD_HEIGHT, coord_ok, PROJECTILE_RADIUS, PROJECTILE_WRAP_BUDGET, STEP_LIMIT_MS, VELOCITY_LIMIT,
};

verus! {

/// Fastest a ship may move along its velocity (three world units per
/// hundredth of a second).
pub const MAX_SPEED: i64 = 300;

/// Time a ship must wait between two shots, in milliseconds.
pub const SHOOT_COOLDOWN_MS: u64 = 500;

/// Milliseconds of thrust that add one thousandth of a heading's unit
/// vector to the velocity, twice over.
pub const THRUST_DIVISOR: u64 = 2000;

/// What a player asks of their ship in one input.
#[derive(PartialEq, Eq, Structural, Clone, Copy, Debug)]
pub enum PlayerAction {
    Forward,
    Shoot,
    /// Turn one step: clockwise for a positive sign, counter-clockwise for a negative one.
    Rotate(i8),
    Idle,
}

/// Turning speed of a ship, in milliradians per millisecond (eight radians
/// per second).
pub const TURN_RATE: i64 = 8;

/// A whole number of turns, larger than any turn one step can make, added
/// before reducing an angle so that it stays non-negative.
pub const TURN_OFFSET: i64 = 67_115_006;

/// Which of sixteen evenly spaced directions lies nearest to heading `h`.
pub open spec fn sector(h: u16) -> u8 {
    (((h * 16 + 3141) / (TURN_MRAD as int)) % 16) as u8
}

/// The unit vector of heading `h`, in thousandths: the nearest of sixteen
/// directions, where 0 points along +y and each turns a sixteenth of a
/// circle further counter-clockwise.
pub open spec fn direction(h: u16) -> (int, int) {
    sector_vector(sector(h))
}

pub open spec fn sector_vector(h: u8) -> (int, int) {
    if h == 0 { (0, 1000) }
    else if h == 1 { (-383, 924) }
    else if h == 2 { (-707, 707) }
    else if h == 3 { (-924, 383) }
    else if h == 4 { (-1000, 0) }
    else if h == 5 { (-924, -383) }
    else if h == 6 { (-707, -707) }
    else if h == 7 { (-383, -924) }
    else if h == 8 { (0, -1000) }
    else if h == 9 { (383, -924) }
    else if h == 10 { (707, -707) }
    else if h == 11 { (924, -383) }
    else if h == 12 { (1000, 0) }
    else if h == 13 { (924, 383) }
    else if h == 14 { (707, 707) }
    else { (383, 924) }
}

pub fn heading_vector(h: u16) -> (r: (i64, i64))
    ensures
        (r.0 as int, r.1 as int) == direction(h),
        -1000 <= r.0 <= 1000,
        -1000 <= r.1 <= 1000,
{
    let k = (((h as u32) * 16 + 3141) / (TURN_MRAD as u32) % 16) as u8;
    sector_unit(k)
}

fn sector_unit(h: u8) -> (r: (i64, i64))
    ensures
        (r.0 as int, r.1 as int) == sector_vector(h),
        -1000 <= r.0 <= 1000,
        -1000 <= r.1 <= 1000,
{
    if h == 0 { (0, 1000) }
    else if h == 1 { (-383, 924) }
    else if h == 2 { (-707, 707) }
    else if h == 3 { (-924, 383) }
    else if h == 4 { (-1000, 0) }
    else if h == 5 { (-924, -383) }
    else if h == 6 { (-707, -707) }
    else if h == 7 { (-383, -924) }
    else if h == 8 { (0, -1000) }
    else if h == 9 { (383, -924) }
    else if h == 10 { (707, -707) }
    else if h == 11 { (924, -383) }
    else if h == 12 { (1000, 0) }
    else if h == 13 { (924, 383) }
    else if h == 14 { (707, 707) }
    else { (383, 924) }
}

/// `a / d` rounded toward zero.
pub open spec fn trunc_div(a: int, d: int) -> int {
    if a >= 0 { a / d } else { -((-a) / d) }
}

/// `r` is the integer square root of `n`.
pub open spec fn is_root(n: int, r: int) -> bool {
    0 <= r && r * r <= n < (r + 1) * (r + 1)
}

/// The integer square root of `n`.
pub open spec fn root(n: int) -> int {
    choose|r: int| is_root(n, r)
}

proof fn lemma_root_unique(n: int, a: int, b: int)
    requires
        is_root(n, a),
        is_root(n, b),
    ensures
        a == b,
{
    if a < b {
        assert((a + 1) * (a + 1) <= b * b) by (nonlinear_arith)
            requires 0 <= a, a + 1 <= b;
    } else if b < a {
        assert((b + 1) * (b + 1) <= a * a) by (nonlinear_arith)
            requires 0 <= b, b + 1 <= a;
    }
}

/// Integer square root, by bisection.
pub fn isqrt(n: u64) -> (r: u64)
    requires
        n <= 0x1_0000_0000_0000,
    ensures
        is_root(n as int, r as int),
        r == root(n as int),
        r <= 0x100_0000,
{
    let mut lo: u64 = 0;
    let mut hi: u64 = 0x100_0001;
    proof {
        assert(0x100_0001 * 0x100_0001 > 0x1_0000_0000_0000) by (nonlinear_arith);
    }
    while hi - lo > 1
        invariant
            lo < hi <= 0x100_0001,
            lo * lo <= n,
            hi * hi > n,
        decreases hi - lo,
    {
        let mid = lo + (hi - lo) / 2;
        proof {
            assert(mid * mid <= 0x100_0001 * 0x100_0001) by (nonlinear_arith)
                requires mid <= 0x100_0001;
        }
        if mid * mid <= n {
            lo = mid;
        } else {
            hi = mid;
        }
    }
    proof {
        assert(hi == lo + 1);
        assert(is_root(n as int, lo as int));
        lemma_root_unique(n as int, lo as int, root(n as int));
    }
    lo
}

fn scale(v: i64, m: i64, l: u64) -> (r: i64)
    requires
        -0x20_0000 <= v <= 0x20_0000,
        0 <= m <= MAX_SPEED,
        l > 0,
    ensures
        r == trunc_div(v * m, l as int),
{
    proof {
        assert(-0x20_0000 * MAX_SPEED <= v * m <= 0x20_0000 * MAX_SPEED) by (nonlinear_arith)
            requires -0x20_0000 <= v <= 0x20_0000, 0 <= m <= MAX_SPEED;
    }
    let p = v * m;
    if p >= 0 {
        ((p as u64) / l) as i64
    } else {
        -((((-p) as u64) / l) as i64)
    }
}

pub open spec fn speed2(vx: int, vy: int) -> int {
    vx * vx + vy * vy
}

/// A velocity held to the speed limit: unchanged when within it, else
/// scaled down along its own direction by the rounded-up root of its
/// squared length.
pub open spec fn capped(vx: int, vy: int) -> (int, int) {
    if speed2(vx, vy) <= MAX_SPEED * MAX_SPEED {
        (vx, vy)
    } else {
        let l = root(speed2(vx, vy)) + 1;
        (trunc_div(vx * MAX_SPEED, l), trunc_div(vy * MAX_SPEED, l))
    }
}

proof fn lemma_trunc_bound(v: int, m: int, l: int)
    requires
        m >= 0,
        l > 0,
    ensures
        trunc_div(v * m, l) * trunc_div(v * m, l) * (l * l) <= v * v * (m * m),
{
    let p = v * m;
    let q = trunc_div(p, l);
    assert(p * p == v * v * (m * m)) by (nonlinear_arith) requires p == v * m;
    if p >= 0 {
        assert(0 <= q * l <= p) by (nonlinear_arith) requires q == p / l, l > 0, p >= 0;
        assert(q * q * (l * l) <= p * p) by (nonlinear_arith) requires 0 <= q * l <= p;
    } else {
        let qa = (-p) / l;
        assert(0 <= qa * l <= -p) by (nonlinear_arith) requires qa == (-p) / l, l > 0, p < 0;
        assert(qa * qa * (l * l) <= p * p) by (nonlinear_arith) requires 0 <= qa * l <= -p;
        assert(q * q == qa * qa) by (nonlinear_arith) requires q == -qa;
    }
}

/// Holds a velocity to `MAX_SPEED`.
pub fn limit_speed(vx: i64, vy: i64) -> (r: (i64, i64))
    requires
        -0x20_0000 <= vx <= 0x20_0000,
        -0x20_0000 <= vy <= 0x20_0000,
    ensures
        (r.0 as int, r.1 as int) == capped(vx as int, vy as int),
        speed2(r.0 as int, r.1 as int) <= MAX_SPEED * MAX_SPEED,
        -MAX_SPEED <= r.0 <= MAX_SPEED,
        -MAX_SPEED <= r.1 <= MAX_SPEED,
{
    proof {
        assert(0 <= vx * vx <= 0x400_0000_0000) by (nonlinear_arith) requires -0x20_0000 <= vx <= 0x20_0000;
        assert(0 <= vy * vy <= 0x400_0000_0000) by (nonlinear_arith) requires -0x20_0000 <= vy <= 0x20_0000;
    }
    let n = (vx * vx + vy * vy) as u64;
    if n <= (MAX_SPEED * MAX_SPEED) as u64 {
        proof {
            assert(vx * vx <= MAX_SPEED * MAX_SPEED);
            assert(-MAX_SPEED <= vx <= MAX_SPEED) by (nonlinear_arith)
                requires vx * vx <= MAX_SPEED * MAX_SPEED;
            assert(-MAX_SPEED <= vy <= MAX_SPEED) by (nonlinear_arith)
                requires vy * vy <= MAX_SPEED * MAX_SPEED;
        }
        (vx, vy)
    } else {
        let l = isqrt(n) + 1;
        let rx = scale(vx, MAX_SPEED, l);
        let ry = scale(vy, MAX_SPEED, l);
        proof {
            let li = l as int;
            let m = MAX_SPEED as int;
            lemma_trunc_bound(vx as int, m, li);
            lemma_trunc_bound(vy as int, m, li);
            assert(n < li * li);
            assert((rx * rx + ry * ry) * (li * li) <= (vx * vx + vy * vy) * (m * m)) by (nonlinear_arith)
                requires
                    rx * rx * (li * li) <= vx * vx * (m * m),
                    ry * ry * (li * li) <= vy * vy * (m * m);
            assert((vx * vx + vy * vy) * (m * m) < (li * li) * (m * m)) by (nonlinear_arith)
                requires vx * vx + vy * vy < li * li, m > 0;
            assert(rx * rx + ry * ry < m * m) by (nonlinear_arith)
                requires
                    (rx * rx + ry * ry) * (li * li) < (li * li) * (m * m),
                    li > 0;
            assert(0 <= ry * ry) by (nonlinear_arith);
            assert(0 <= rx * rx) by (nonlinear_arith);
            assert(-m <= rx <= m) by (nonlinear_arith) requires rx * rx <= m * m, m > 0;
            assert(-m <= ry <= m) by (nonlinear_arith) requires ry * ry <= m * m, m > 0;
        }
        (rx, ry)
    }
}

/// Velocity added by `dt_ms` of thrust along heading component `d`.
pub open spec fn thrust(d: int, dt_ms: int) -> int {
    trunc_div(d * dt_ms, THRUST_DIVISOR as int)
}

fn thrust_of(d: i64, dt_ms: u64) -> (r: i64)
    requires
        -1000 <= d <= 1000,
        dt_ms <= STEP_LIMIT_MS,
    ensures
        r == thrust(d as int, dt_ms as int),
        -0x8000 <= r <= 0x8000,
{
    proof {
        assert(-1000 * 0x1_0000 <= d * dt_ms <= 1000 * 0x1_0000) by (nonlinear_arith)
            requires -1000 <= d <= 1000, dt_ms <= STEP_LIMIT_MS;
    }
    let p = d * (dt_ms as i64);
    if p >= 0 {
        ((p as u64) / THRUST_DIVISOR) as i64
    } else {
        -((((-p) as u64) / THRUST_DIVISOR) as i64)
    }
}

/// The heading after turning for `dt_ms` with sign `k`: clockwise for a
/// positive sign, counter-clockwise for a negative one, at `TURN_RATE`
/// times the sign.
pub open spec fn turned(h: u16, k: i8, dt_ms: u64) -> u16 {
    ((h - k * TURN_RATE * dt_ms) % (TURN_MRAD as int)) as u16
}

fn turn(h: u16, k: i8, dt_ms: u64) -> (r: u16)
    requires
        dt_ms <= STEP_LIMIT_MS,
    ensures
        r == turned(h, k, dt_ms),
        r < TURN_MRAD,
{
    proof {
        assert(-128 * 8 * 0x1_0000 <= (k as int) * 8 * dt_ms <= 128 * 8 * 0x1_0000) by (nonlinear_arith)
            requires -128 <= k <= 127, dt_ms <= 0x1_0000;
    }
    let t = (k as i64) * TURN_RATE * (dt_ms as i64);
    let u = ((h as i64) + TURN_OFFSET - t) as u64;
    let r = (u % (TURN_MRAD as u64)) as u16;
    proof {
        let b = h - k * TURN_RATE * dt_ms;
        vstd::arithmetic::div_mod::lemma_mod_multiples_vanish(10682, b, TURN_MRAD as int);
        assert(TURN_MRAD * 10682 + b == u);
    }
    r
}

/// The projectile a ship fires: from the ship's place, with the ship's
/// velocity plus ten world units per hundredth of a second along its heading.
pub open spec fn projectile_of(ship: Body) -> Body {
    Body {
        id: 0,
        kind: BodyKind::Projectile,
        vx: (ship.vx + direction(ship.heading).0) as i64,
        vy: (ship.vy + direction(ship.heading).1) as i64,
        radius: PROJECTILE_RADIUS,
        wrap_budget: Some(PROJECTILE_WRAP_BUDGET),
        grace_ms: 0,
        lives: 0,
        cooldown_ms: 0,
        ..ship
    }
}

/// What one action does to a ship over `dt_ms`: the ship afterwards, and
/// the projectile it fires, if any. The velocity is held to the speed
/// limit after every action.
pub open spec fn act(ship: Body, action: PlayerAction, dt_ms: u64) -> (Body, Option<Body>) {
    match action {
        PlayerAction::Forward => {
            let d = direction(ship.heading);
            let v = capped(ship.vx + thrust(d.0 as int, dt_ms as int), ship.vy + thrust(d.1 as int, dt_ms as int));
            (Body { vx: v.0 as i64, vy: v.1 as i64, ..ship }, None)
        },
        PlayerAction::Rotate(s) => {
            let v = capped(ship.vx as int, ship.vy as int);
            (Body { vx: v.0 as i64, vy: v.1 as i64, heading: turned(ship.heading, s, dt_ms), ..ship }, None)
        },
        PlayerAction::Shoot => {
            let v = capped(ship.vx as int, ship.vy as int);
            let s2 = Body { vx: v.0 as i64, vy: v.1 as i64, ..ship };
            if ship.cooldown_ms == 0 {
                (Body { cooldown_ms: SHOOT_COOLDOWN_MS, ..s2 }, Some(projectile_of(s2)))
            } else {
                (s2, None)
            }
        },
        PlayerAction::Idle => {
            let v = capped(ship.vx as int, ship.vy as int);
            (Body { vx: v.0 as i64, vy: v.1 as i64, ..ship }, None)
        },
    }
}

/// Applies one action of a player to their ship.
pub fn apply_action(ship: Body, action: PlayerAction, dt_ms: u64) -> (r: (Body, Option<Body>))
    requires
        ship.wf(),
        dt_ms <= STEP_LIMIT_MS,
    ensures
        r == act(ship, action, dt_ms),
        r.0.wf(),
        r.0.id == ship.id,
        r.1.is_some() ==> r.1.unwrap().wf(),
{
    let (dx, dy) = heading_vector(ship.heading);
    match action {
        PlayerAction::Forward => {
            let tx = thrust_of(dx, dt_ms);
            let ty = thrust_of(dy, dt_ms);
            let (vx, vy) = limit_speed(ship.vx + tx, ship.vy + ty);
            (Body { vx, vy, ..ship }, None)
        },
        PlayerAction::Rotate(s) => {
            let (vx, vy) = limit_speed(ship.vx, ship.vy);
            let heading = turn(ship.heading, s, dt_ms);
            (Body { vx, vy, heading, ..ship }, None)
        },
        PlayerAction::Shoot => {
            let (vx, vy) = limit_speed(ship.vx, ship.vy);
            let s2 = Body { vx, vy, ..ship };
            if ship.cooldown_ms == 0 {
                let shot = Body {
                    id: 0,
                    kind: BodyKind::Projectile,
                    vx: vx + dx,
                    vy: vy + dy,
                    radius: PROJECTILE_RADIUS,
                    wrap_budget: Some(PROJECTILE_WRAP_BUDGET),
                    grace_ms: 0,
                    lives: 0,
                    cooldown_ms: 0,
                    ..s2
                };
                (Body { cooldown_ms: SHOOT_COOLDOWN_MS, ..s2 }, Some(shot))
            } else {
                (s2, None)
            }
        },
        PlayerAction::Idle => {
            let (vx, vy) = limit_speed(ship.vx, ship.vy);
            (Body { vx, vy, ..ship }, None)
        },
    }
}

/// The four copies of a ship drawn one field away on each side, so that a
/// ship crossing an edge is seen on both.
#[derive(PartialEq, Eq, Structural, Clone, Copy, Debug)]
pub enum PlayerShadow {
    Left,
    Right,
    Top,
    Bottom,
}

/// Where a shadow of a ship at `(x, y)` stands.
pub open spec fn shadow_place(x: int, y: int, shadow: PlayerShadow) -> (int, int) {
    match shadow {
        PlayerShadow::Left => (x - WORLD_WIDTH, y),
        PlayerShadow::Right => (x + WORLD_WIDTH, y),
        PlayerShadow::Top => (x, y - WORLD_HEIGHT),
        PlayerShadow::Bottom => (x, y + WORLD_HEIGHT),
    }
}

/// The place of one shadow of `ship`.
pub fn apply_shadow(ship: &Body, shadow: PlayerShadow) -> (r: (i64, i64))
    requires
        coord_ok(ship.x as int),
        coord_ok(ship.y as int),
    ensures
        (r.0 as int, r.1 as int) == shadow_place(ship.x as int, ship.y as int, shadow),
{
    match shadow {
        PlayerShadow::Left => (ship.x - WORLD_WIDTH, ship.y),
        PlayerShadow::Right => (ship.x + WORLD_WIDTH, ship.y),
        PlayerShadow::Top => (ship.x, ship.y - WORLD_HEIGHT),
        PlayerShadow::Bottom => (ship.x, ship.y + WORLD_HEIGHT),
    }
}

} // verus!
