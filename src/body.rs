use vstd::prelude::*;

verus! {

/// Milli-units in one world unit.
pub const UNIT: i64 = 1000;

/// Velocity of one world unit per hundredth of a second, in milli-units per millisecond.
pub const VELOCITY_UNIT: i64 = 100;

/// Width of the playing field, in milli-units.
pub const WORLD_WIDTH: i64 = 1_920_000;

/// Height of the playing field, in milli-units.
pub const WORLD_HEIGHT: i64 = 1_080_000;

/// Largest absolute coordinate a body may hold.
pub const COORD_LIMIT: i64 = 0x100_0000_0000;

/// Largest absolute velocity component a body may hold.
pub const VELOCITY_LIMIT: i64 = 0x10_0000;

/// Largest collider radius a body may hold.
pub const RADIUS_LIMIT: u64 = 0x4000_0000;

/// Longest single simulation step, in milliseconds.
pub const STEP_LIMIT_MS: u64 = 0x1_0000;

/// Collider radius of a small asteroid.
pub const SMALL_ASTEROID_RADIUS: u64 = 20_000;

/// Collider radius of a large asteroid.
pub const LARGE_ASTEROID_RADIUS: u64 = 40_000;

/// Collider radius of a ship.
pub const SHIP_RADIUS: u64 = 15_000;

/// Collider radius of a projectile.
pub const PROJECTILE_RADIUS: u64 = 10_000;

/// Boundary crossings an asteroid survives.
pub const ASTEROID_WRAP_BUDGET: u8 = 5;

/// Boundary crossings a projectile survives.
pub const PROJECTILE_WRAP_BUDGET: u8 = 1;

/// Length of every grace period, in milliseconds.
pub const GRACE_MS: u64 = 1000;

/// Milliradians in a full turn, rounded to the nearest whole one.
pub const TURN_MRAD: u16 = 6283;

/// Lives a ship starts with.
pub const START_LIVES: u8 = 3;

#[derive(PartialEq, Eq, Structural, Clone, Copy, Debug)]
pub enum Size {
    Small,
    Large,
}

#[derive(PartialEq, Eq, Structural, Clone, Copy, Debug)]
pub enum BodyKind {
    Ship,
    Asteroid(Size),
    Projectile,
}

/// A simulated physical object.
///
/// `grace_ms` is the time left of the body's grace period (0 when it has
/// none): an asteroid in grace takes no part in collisions, a ship in grace
/// takes no damage. `player`, `lives`, `heading` (the angle
/// it faces, in milliradians counter-clockwise from +y, below `TURN_MRAD`)
/// and `cooldown_ms` (time until it may fire again) are meaningful for
/// ships only.
#[derive(PartialEq, Eq, Structural, Clone, Copy, Debug)]
pub struct Body {
    pub id: u64,
    pub kind: BodyKind,
    pub x: i64,
    pub y: i64,
    pub vx: i64,
    pub vy: i64,
    pub radius: u64,
    pub wrap_budget: Option<u8>,
    pub grace_ms: u64,
    pub player: u64,
    pub lives: u8,
    pub heading: u16,
    pub cooldown_ms: u64,
}

pub open spec fn coord_ok(c: int) -> bool {
    -COORD_LIMIT <= c <= COORD_LIMIT
}

pub open spec fn velocity_ok(v: int) -> bool {
    -VELOCITY_LIMIT <= v <= VELOCITY_LIMIT
}

/// `c` pulled back into the range of coordinates a body may hold.
pub open spec fn clamp_coord(c: int) -> int {
    if c < -COORD_LIMIT {
        -COORD_LIMIT as int
    } else if c > COORD_LIMIT {
        COORD_LIMIT as int
    } else {
        c
    }
}

/// Where a coordinate lands after wrapping around a field edge at `0` and `extent`.
pub open spec fn wrap_coord(c: int, extent: int) -> int {
    if c < 0 {
        extent
    } else if c > extent {
        0
    } else {
        c
    }
}

/// What wrapping does to a body: `None` when it is destroyed, else the body moved
/// back into the field with one crossing taken from its budget.
pub open spec fn wrap_result(b: Body) -> Option<Body> {
    if !b.outside_field() {
        Some(b)
    } else if b.wrap_budget == Some(0u8) {
        None
    } else {
        Some(Body {
            x: wrap_coord(b.x as int, WORLD_WIDTH as int) as i64,
            y: wrap_coord(b.y as int, WORLD_HEIGHT as int) as i64,
            wrap_budget: match b.wrap_budget {
                Some(n) => Some((n - 1) as u8),
                None => None,
            },
            ..b
        })
    }
}

/// The body after `dt_ms` milliseconds of motion.
pub open spec fn moved(b: Body, dt_ms: u64) -> Body {
    Body {
        x: clamp_coord(b.x + b.vx * dt_ms) as i64,
        y: clamp_coord(b.y + b.vy * dt_ms) as i64,
        ..b
    }
}

/// The body after its grace period has run for `dt_ms` more milliseconds.
pub open spec fn graced(b: Body, dt_ms: u64) -> Body {
    Body { grace_ms: (if b.grace_ms > dt_ms { b.grace_ms - dt_ms } else { 0 }) as u64, ..b }
}

/// The body after its fire cooldown has run for `dt_ms` more milliseconds.
pub open spec fn cooled(b: Body, dt_ms: u64) -> Body {
    Body { cooldown_ms: (if b.cooldown_ms > dt_ms { b.cooldown_ms - dt_ms } else { 0 }) as u64, ..b }
}

pub open spec fn is_asteroid(k: BodyKind) -> bool {
    k is Asteroid
}

pub open spec fn is_large(k: BodyKind) -> bool {
    k == BodyKind::Asteroid(Size::Large)
}

impl Body {
    /// The body's fields lie within the bounds the simulation works in.
    pub open spec fn wf(&self) -> bool {
        &&& coord_ok(self.x as int)
        &&& coord_ok(self.y as int)
        &&& velocity_ok(self.vx as int)
        &&& velocity_ok(self.vy as int)
        &&& self.radius <= RADIUS_LIMIT
        &&& self.heading < TURN_MRAD
    }

    /// The body lies outside the playing field.
    pub open spec fn outside_field(&self) -> bool {
        self.x < 0 || self.x > WORLD_WIDTH || self.y < 0 || self.y > WORLD_HEIGHT
    }

    /// The body takes part in collisions: asteroids and projectiles only
    /// outside their grace period, ships always.
    pub open spec fn collidable(&self) -> bool {
        self.kind == BodyKind::Ship || self.grace_ms == 0
    }

    pub fn is_collidable(&self) -> (r: bool)
        ensures
            r == self.collidable(),
    {
        match self.kind {
            BodyKind::Ship => true,
            _ => self.grace_ms == 0,
        }
    }

    /// Moves the body along its velocity for `dt_ms` milliseconds.
    pub fn apply_velocity(&mut self, dt_ms: u64)
        requires
            old(self).wf(),
            dt_ms <= STEP_LIMIT_MS,
        ensures
            final(self).wf(),
            final(self).x == clamp_coord(old(self).x + old(self).vx * dt_ms),
            final(self).y == clamp_coord(old(self).y + old(self).vy * dt_ms),
            *final(self) == (Body { x: final(self).x, y: final(self).y, ..*old(self) }),
            *final(self) == moved(*old(self), dt_ms),
    {
        assert(-VELOCITY_LIMIT * STEP_LIMIT_MS <= self.vx * dt_ms <= VELOCITY_LIMIT * STEP_LIMIT_MS)
            by (nonlinear_arith)
            requires
                velocity_ok(self.vx as int),
                dt_ms <= STEP_LIMIT_MS,
        ;
        assert(-VELOCITY_LIMIT * STEP_LIMIT_MS <= self.vy * dt_ms <= VELOCITY_LIMIT * STEP_LIMIT_MS)
            by (nonlinear_arith)
            requires
                velocity_ok(self.vy as int),
                dt_ms <= STEP_LIMIT_MS,
        ;
        let dt = dt_ms as i64;
        self.x = clamp(self.x + self.vx * dt);
        self.y = clamp(self.y + self.vy * dt);
    }

    /// Wraps the body around the field edges. A body with a wrap budget
    /// spends one unit on each crossing; one whose budget is already spent
    /// is destroyed instead, and left as it was. Returns whether the body
    /// survives.
    pub fn wrap_around(&mut self) -> (alive: bool)
        requires
            old(self).wf(),
        ensures
            final(self).wf(),
            alive == !(old(self).outside_field() && old(self).wrap_budget == Some(0u8)),
            !alive ==> *final(self) == *old(self),
            alive ==> final(self).x == wrap_coord(old(self).x as int, WORLD_WIDTH as int),
            alive ==> final(self).y == wrap_coord(old(self).y as int, WORLD_HEIGHT as int),
            alive ==> final(self).wrap_budget == (match old(self).wrap_budget {
                Some(n) => if old(self).outside_field() { Some((n - 1) as u8) } else { Some(n) },
                None => None,
            }),
            alive ==> *final(self) == (Body {
                x: final(self).x,
                y: final(self).y,
                wrap_budget: final(self).wrap_budget,
                ..*old(self)
            }),
            alive == wrap_result(*old(self)).is_some(),
            alive ==> *final(self) == wrap_result(*old(self)).unwrap(),
    {
        let crossed = self.x < 0 || self.x > WORLD_WIDTH || self.y < 0 || self.y > WORLD_HEIGHT;
        if !crossed {
            return true;
        }
        match self.wrap_budget {
            Some(n) => {
                if n == 0 {
                    return false;
                }
                self.wrap_budget = Some(n - 1);
            },
            None => {},
        }
        if self.x < 0 {
            self.x = WORLD_WIDTH;
        } else if self.x > WORLD_WIDTH {
            self.x = 0;
        }
        if self.y < 0 {
            self.y = WORLD_HEIGHT;
        } else if self.y > WORLD_HEIGHT {
            self.y = 0;
        }
        true
    }

    /// Counts down the body's grace period by `dt_ms`, never below zero.
    pub fn tick_grace(&mut self, dt_ms: u64)
        ensures
            *final(self) == graced(*old(self), dt_ms),
    {
        self.grace_ms = if self.grace_ms > dt_ms { self.grace_ms - dt_ms } else { 0 };
    }

    /// Counts down the body's fire cooldown by `dt_ms`, never below zero.
    pub fn tick_cooldown(&mut self, dt_ms: u64)
        ensures
            *final(self) == cooled(*old(self), dt_ms),
    {
        self.cooldown_ms = if self.cooldown_ms > dt_ms { self.cooldown_ms - dt_ms } else { 0 };
    }
}

fn clamp(c: i64) -> (r: i64)
    ensures
        r == clamp_coord(c as int),
{
    if c < -COORD_LIMIT {
        -COORD_LIMIT
    } else if c > COORD_LIMIT {
        COORD_LIMIT
    } else {
        c
    }
}

} // verus!
