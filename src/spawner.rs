use vstd::prelude::*;
use crate::body::{
    Body, BodyKind, Size, WORLD_WIDTH, WORLD_HEIGHT, SMALL_ASTEROID_RADIUS, LARGE_ASTEROID_RADIUS,
    ASTEROID_WRAP_BUDGET, GRACE_MS, coord_ok,
};
use crate::random::{RandomStream, uniform_draw, ratio_draw};

verus! {

/// Time between two timed spawns, in milliseconds.
pub const SPAWN_INTERVAL_MS: u64 = 1000;

/// Largest absolute velocity component of a new asteroid (three world units
/// per hundredth of a second).
pub const ASTEROID_SPEED: i64 = 300;

/// Chance that a timed spawn starts on the top edge rather than the left one.
pub const EDGE_NUM: u32 = 1;
pub const EDGE_DEN: u32 = 2;

/// Chance that a timed spawn is a large asteroid.
pub const LARGE_NUM: u32 = 1;
pub const LARGE_DEN: u32 = 5;

/// An asteroid as the spawner hands it out, before the registry gives it an identity.
pub open spec fn asteroid(size: Size, x: i64, y: i64, vx: i64, vy: i64, grace_ms: u64) -> Body {
    Body {
        id: 0,
        kind: BodyKind::Asteroid(size),
        x,
        y,
        vx,
        vy,
        radius: if size == Size::Large { LARGE_ASTEROID_RADIUS } else { SMALL_ASTEROID_RADIUS },
        wrap_budget: Some(ASTEROID_WRAP_BUDGET),
        grace_ms,
        player: 0,
        lives: 0,
        heading: 0,
        cooldown_ms: 0,
    }
}

/// The place a timed spawn starts from: `along` the top edge, or `along`
/// the left edge.
pub open spec fn edge_place(top: bool, along: i64) -> (i64, i64) {
    if top { (along, 0i64) } else { (0i64, along) }
}

/// A timed spawn lies on the top edge within the field's width or on the
/// left edge within its height, and moves no faster than `ASTEROID_SPEED`
/// along either axis.
pub open spec fn on_edge(b: Body) -> bool {
    &&& ((b.y == 0 && 0 <= b.x < WORLD_WIDTH) || (b.x == 0 && 0 <= b.y < WORLD_HEIGHT))
    &&& -ASTEROID_SPEED <= b.vx <= ASTEROID_SPEED
    &&& -ASTEROID_SPEED <= b.vy <= ASTEROID_SPEED
}

/// The asteroid a timed spawn makes from stream `s`, and the stream after
/// it. The draws come in a fixed order: edge, size, place along the edge,
/// then the two velocity components.
pub open spec fn timed_spawn(s: RandomStream) -> (Body, RandomStream) {
    let (top, w1) = ratio_draw(s.seed, s.pos, EDGE_NUM, EDGE_DEN);
    let (large, w2) = ratio_draw(s.seed, w1, LARGE_NUM, LARGE_DEN);
    let (along, w3) = if top {
        uniform_draw(s.seed, w2, 0, (WORLD_WIDTH - 1) as i64)
    } else {
        uniform_draw(s.seed, w2, 0, (WORLD_HEIGHT - 1) as i64)
    };
    let (vx, w4) = uniform_draw(s.seed, w3, (-ASTEROID_SPEED) as i64, ASTEROID_SPEED);
    let (vy, w5) = uniform_draw(s.seed, w4, (-ASTEROID_SPEED) as i64, ASTEROID_SPEED);
    let size = if large { Size::Large } else { Size::Small };
    let (x, y) = edge_place(top, along);
    (asteroid(size, x, y, vx, vy, 0), RandomStream { seed: s.seed, pos: w5 })
}

/// The two fragments a large asteroid destroyed at `(x, y)` splits into,
/// and the stream after them.
pub open spec fn fragments(s: RandomStream, x: i64, y: i64) -> (Body, Body, RandomStream) {
    let (vx1, w1) = uniform_draw(s.seed, s.pos, (-ASTEROID_SPEED) as i64, ASTEROID_SPEED);
    let (vy1, w2) = uniform_draw(s.seed, w1, (-ASTEROID_SPEED) as i64, ASTEROID_SPEED);
    let (vx2, w3) = uniform_draw(s.seed, w2, (-ASTEROID_SPEED) as i64, ASTEROID_SPEED);
    let (vy2, w4) = uniform_draw(s.seed, w3, (-ASTEROID_SPEED) as i64, ASTEROID_SPEED);
    (
        asteroid(Size::Small, x, y, vx1, vy1, GRACE_MS),
        asteroid(Size::Small, x, y, vx2, vy2, GRACE_MS),
        RandomStream { seed: s.seed, pos: w4 },
    )
}

/// What one timer step of `dt_ms` does to a spawner: the spawner after it,
/// and the asteroid spawned, if the interval elapsed.
pub open spec fn spawner_step(sp: AsteroidSpawner, dt_ms: u64) -> (AsteroidSpawner, Option<Body>) {
    let elapsed = if sp.elapsed_ms + dt_ms >= SPAWN_INTERVAL_MS { SPAWN_INTERVAL_MS } else { (sp.elapsed_ms + dt_ms) as u64 };
    if elapsed >= SPAWN_INTERVAL_MS {
        let (b, s) = timed_spawn(sp.stream);
        (AsteroidSpawner { stream: s, elapsed_ms: 0 }, Some(b))
    } else {
        (AsteroidSpawner { stream: sp.stream, elapsed_ms: elapsed }, None)
    }
}

/// The asteroids a spawner hands out over a sequence of timer steps, one
/// entry per step.
pub open spec fn spawner_run(sp: AsteroidSpawner, dts: Seq<u64>) -> Seq<Option<Body>>
    decreases dts.len(),
{
    if dts.len() == 0 {
        Seq::empty()
    } else {
        let (next, out) = spawner_step(sp, dts[0]);
        seq![out].add(spawner_run(next, dts.subrange(1, dts.len() as int)))
    }
}

/// Timer-driven generator of asteroids. It is the only user of its random
/// stream, so what it makes is reproducible from the seed and the calls.
#[derive(PartialEq, Eq, Structural, Clone, Copy, Debug)]
pub struct AsteroidSpawner {
    pub stream: RandomStream,
    pub elapsed_ms: u64,
}

impl AsteroidSpawner {
    pub fn new(seed: u64) -> (r: AsteroidSpawner)
        ensures
            r == (AsteroidSpawner { stream: RandomStream { seed, pos: 0 }, elapsed_ms: 0 }),
    {
        AsteroidSpawner { stream: RandomStream::new(seed), elapsed_ms: 0 }
    }

    /// Advances the spawn timer by `dt_ms`. When the interval has elapsed,
    /// draws a new asteroid on the left or top edge and restarts the timer.
    pub fn tick(&mut self, dt_ms: u64) -> (out: Option<Body>)
        ensures
            (*final(self), out) == spawner_step(*old(self), dt_ms),
            out.is_some() ==> out.unwrap().wf() && out.unwrap().kind is Asteroid && on_edge(out.unwrap()),
    {
        let elapsed = if self.elapsed_ms >= SPAWN_INTERVAL_MS || dt_ms >= SPAWN_INTERVAL_MS - self.elapsed_ms {
            SPAWN_INTERVAL_MS
        } else {
            self.elapsed_ms + dt_ms
        };
        if elapsed >= SPAWN_INTERVAL_MS {
            let b = self.spawn();
            self.elapsed_ms = 0;
            Some(b)
        } else {
            self.elapsed_ms = elapsed;
            None
        }
    }

    fn spawn(&mut self) -> (b: Body)
        ensures
            (b, final(self).stream) == timed_spawn(old(self).stream),
            final(self).elapsed_ms == old(self).elapsed_ms,
            b.wf(),
            on_edge(b),
            b.grace_ms == 0,
    {
        let top = self.stream.chance(EDGE_NUM, EDGE_DEN);
        let large = self.stream.chance(LARGE_NUM, LARGE_DEN);
        let along = if top {
            self.stream.uniform(0, WORLD_WIDTH - 1)
        } else {
            self.stream.uniform(0, WORLD_HEIGHT - 1)
        };
        let vx = self.stream.uniform(-ASTEROID_SPEED, ASTEROID_SPEED);
        let vy = self.stream.uniform(-ASTEROID_SPEED, ASTEROID_SPEED);
        let size = if large { Size::Large } else { Size::Small };
        let (x, y) = edge_position(top, along);
        make_asteroid(size, x, y, vx, vy, 0)
    }

    /// Splits a large asteroid destroyed at `(x, y)`: two small asteroids at
    /// that place, each in its grace period, each with a fresh velocity.
    pub fn divide(&mut self, x: i64, y: i64) -> (r: (Body, Body))
        requires
            coord_ok(x as int),
            coord_ok(y as int),
        ensures
            (r.0, r.1, final(self).stream) == fragments(old(self).stream, x, y),
            final(self).elapsed_ms == old(self).elapsed_ms,
            r.0.wf() && r.1.wf(),
            r.0.kind == BodyKind::Asteroid(Size::Small) && r.1.kind == BodyKind::Asteroid(Size::Small),
            r.0.grace_ms == GRACE_MS && r.1.grace_ms == GRACE_MS,
            r.0.x == x && r.0.y == y && r.1.x == x && r.1.y == y,
            -ASTEROID_SPEED <= r.0.vx <= ASTEROID_SPEED && -ASTEROID_SPEED <= r.0.vy <= ASTEROID_SPEED,
            -ASTEROID_SPEED <= r.1.vx <= ASTEROID_SPEED && -ASTEROID_SPEED <= r.1.vy <= ASTEROID_SPEED,
    {
        let vx1 = self.stream.uniform(-ASTEROID_SPEED, ASTEROID_SPEED);
        let vy1 = self.stream.uniform(-ASTEROID_SPEED, ASTEROID_SPEED);
        let vx2 = self.stream.uniform(-ASTEROID_SPEED, ASTEROID_SPEED);
        let vy2 = self.stream.uniform(-ASTEROID_SPEED, ASTEROID_SPEED);
        (make_asteroid(Size::Small, x, y, vx1, vy1, GRACE_MS), make_asteroid(Size::Small, x, y, vx2, vy2, GRACE_MS))
    }
}

/// The place a timed spawn starts from, given the edge drawn and the draw
/// along it.
pub fn edge_position(top: bool, along: i64) -> (r: (i64, i64))
    ensures
        r == edge_place(top, along),
{
    if top { (along, 0i64) } else { (0i64, along) }
}

/// An asteroid of `size` at `(x, y)` with velocity `(vx, vy)`, wrapping
/// five times, in grace for `grace_ms`.
pub fn make_asteroid(size: Size, x: i64, y: i64, vx: i64, vy: i64, grace_ms: u64) -> (b: Body)
    requires
        coord_ok(x as int),
        coord_ok(y as int),
        -ASTEROID_SPEED <= vx <= ASTEROID_SPEED,
        -ASTEROID_SPEED <= vy <= ASTEROID_SPEED,
    ensures
        b == asteroid(size, x, y, vx, vy, grace_ms),
        b.wf(),
{
    Body {
        id: 0,
        kind: BodyKind::Asteroid(size),
        x,
        y,
        vx,
        vy,
        radius: match size {
            Size::Large => LARGE_ASTEROID_RADIUS,
            Size::Small => SMALL_ASTEROID_RADIUS,
        },
        wrap_budget: Some(ASTEROID_WRAP_BUDGET),
        grace_ms,
        player: 0,
        lives: 0,
        heading: 0,
        cooldown_ms: 0,
    }
}

/// The asteroids a spawner made from `seed` hands out over the timer
/// steps `dts`, one entry per step.
pub fn spawn_sequence(seed: u64, dts: &Vec<u64>) -> (out: Vec<Option<Body>>)
    ensures
        out@ == spawner_run(AsteroidSpawner { stream: RandomStream { seed, pos: 0 }, elapsed_ms: 0 }, dts@),
{
    let mut sp = AsteroidSpawner::new(seed);
    let ghost start = sp;
    let mut out: Vec<Option<Body>> = Vec::new();
    let mut i: usize = 0;
    proof {
        assert(dts@.subrange(0, dts@.len() as int) =~= dts@);
        assert(out@.add(spawner_run(sp, dts@)) =~= spawner_run(sp, dts@));
    }
    while i < dts.len()
        invariant
            0 <= i <= dts@.len(),
            start == (AsteroidSpawner { stream: RandomStream { seed, pos: 0 }, elapsed_ms: 0 }),
            out@.add(spawner_run(sp, dts@.subrange(i as int, dts@.len() as int))) == spawner_run(start, dts@),
        decreases dts@.len() - i,
    {
        let ghost rest = dts@.subrange(i as int, dts@.len() as int);
        let ghost before = sp;
        let o = sp.tick(dts[i]);
        proof {
            assert(rest[0] == dts@[i as int]);
            assert(rest.subrange(1, rest.len() as int) =~= dts@.subrange(i + 1, dts@.len() as int));
            assert(spawner_run(before, rest) == seq![o].add(spawner_run(sp, dts@.subrange(i + 1, dts@.len() as int))));
            assert(out@.push(o).add(spawner_run(sp, dts@.subrange(i + 1, dts@.len() as int)))
                =~= out@.add(seq![o].add(spawner_run(sp, dts@.subrange(i + 1, dts@.len() as int)))));
        }
        out.push(o);
        i += 1;
    }
    proof {
        assert(dts@.subrange(dts@.len() as int, dts@.len() as int) =~= Seq::<u64>::empty());
        assert(out@.add(Seq::<Option<Body>>::empty()) =~= out@);
    }
    out
}

/// Two spawners in the same state (as two spawners made from one seed
/// are) and driven through the same timer steps hand out the same
/// asteroids, in the same order; and a longer run of steps repeats a
/// shorter one that it begins with.
pub proof fn lemma_spawner_reproducible(a: AsteroidSpawner, b: AsteroidSpawner, dts: Seq<u64>, more: Seq<u64>)
    requires
        a.stream.seed == b.stream.seed,
        a.stream.pos == b.stream.pos,
        a.elapsed_ms == b.elapsed_ms,
    ensures
        spawner_run(a, dts) == spawner_run(b, dts),
        spawner_run(a, dts.add(more)).subrange(0, dts.len() as int) == spawner_run(b, dts),
    decreases dts.len(),
{
    assert(a == b);
    lemma_run_length(a, dts.add(more));
    if dts.len() > 0 {
        let (next, out) = spawner_step(a, dts[0]);
        let tail = dts.subrange(1, dts.len() as int);
        assert(dts.add(more).subrange(1, dts.add(more).len() as int) =~= tail.add(more));
        lemma_spawner_reproducible(next, next, tail, more);
        lemma_run_length(next, tail);
        let long = spawner_run(a, dts.add(more));
        assert(long == seq![out].add(spawner_run(next, tail.add(more))));
        assert(long.subrange(0, dts.len() as int) =~= seq![out].add(spawner_run(next, tail.add(more)).subrange(0, tail.len() as int)));
    } else {
        assert(spawner_run(a, dts.add(more)).subrange(0, 0) =~= Seq::<Option<Body>>::empty());
    }
}

proof fn lemma_run_length(a: AsteroidSpawner, dts: Seq<u64>)
    ensures
        spawner_run(a, dts).len() == dts.len(),
    decreases dts.len(),
{
    if dts.len() > 0 {
        let (next, _) = spawner_step(a, dts[0]);
        lemma_run_length(next, dts.subrange(1, dts.len() as int));
    }
}

} // verus!
