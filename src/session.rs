use vstd::prelude::*;
use crate::body::{
    Body, BodyKind, Size, COORD_LIMIT, coord_ok, GRACE_MS, SHIP_RADIUS, START_LIVES, STEP_LIMIT_MS, WORLD_HEIGHT,
    WORLD_WIDTH,
};
use crate::collision::{Event, collision_pairs, resolve_collisions, broad_phase, resolve_all};
use crate::registry::{Registry, lookup, replace_id, cool_all, move_all, grace_all, wrap_all};
use crate::spawner::{spawner_step, fragments};
use crate::ship::{PlayerAction, apply_action, act};
use crate::spawner::AsteroidSpawner;
use crate::random::RandomStream;

verus! {

/// Ticks an input may lag behind the simulation before it is discarded.
pub const INPUT_WINDOW: u64 = 64;

/// The lifecycle phase of a match.
#[derive(PartialEq, Eq, Structural, Clone, Copy, Debug)]
pub enum Phase {
    MainMenu,
    Lobby,
    Playing,
    GameOver,
}

/// What can move a session from one phase to another.
#[derive(PartialEq, Eq, Structural, Clone, Copy, Debug)]
pub enum Trigger {
    Host,
    Join,
    Start,
    LivesOut,
    Restart,
}

/// The phase after `t` arrives in phase `p`: only the four legal moves
/// change it; any other trigger is ignored.
pub open spec fn next_phase(p: Phase, t: Trigger) -> Phase {
    match (p, t) {
        (Phase::MainMenu, Trigger::Host) => Phase::Lobby,
        (Phase::MainMenu, Trigger::Join) => Phase::Lobby,
        (Phase::Lobby, Trigger::Start) => Phase::Playing,
        (Phase::Playing, Trigger::LivesOut) => Phase::GameOver,
        (Phase::GameOver, Trigger::Restart) => Phase::MainMenu,
        _ => p,
    }
}

pub fn transition(p: Phase, t: Trigger) -> (r: Phase)
    ensures
        r == next_phase(p, t),
{
    match (p, t) {
        (Phase::MainMenu, Trigger::Host) => Phase::Lobby,
        (Phase::MainMenu, Trigger::Join) => Phase::Lobby,
        (Phase::Lobby, Trigger::Start) => Phase::Playing,
        (Phase::Playing, Trigger::LivesOut) => Phase::GameOver,
        (Phase::GameOver, Trigger::Restart) => Phase::MainMenu,
        _ => p,
    }
}

/// One input of one player, tagged with the tick at which it was sampled.
#[derive(PartialEq, Eq, Structural, Clone, Copy, Debug)]
pub struct Input {
    pub player: u64,
    pub tick: u64,
    pub action: PlayerAction,
}

/// The inputs a client sends for one tick: one per action held, or an
/// explicit idle input when none is, so that no input is never taken for
/// a repeat of the last one.
pub fn tick_inputs(player: u64, tick: u64, pressed: &Vec<PlayerAction>) -> (r: Vec<Input>)
    ensures
        pressed@.len() == 0 ==> r@ == seq![Input { player, tick, action: PlayerAction::Idle }],
        pressed@.len() > 0 ==> r@ == pressed@.map_values(|a: PlayerAction| Input { player, tick, action: a }),
{
    let mut r: Vec<Input> = Vec::new();
    if pressed.len() == 0 {
        r.push(Input { player, tick, action: PlayerAction::Idle });
        proof {
            assert(r@ =~= seq![Input { player, tick, action: PlayerAction::Idle }]);
        }
        return r;
    }
    let mut i: usize = 0;
    while i < pressed.len()
        invariant
            0 <= i <= pressed@.len(),
            r@ == pressed@.take(i as int).map_values(|a: PlayerAction| Input { player, tick, action: a }),
        decreases pressed@.len() - i,
    {
        r.push(Input { player, tick, action: pressed[i] });
        proof {
            assert(r@ =~= pressed@.take(i + 1).map_values(|a: PlayerAction| Input { player, tick, action: a }));
        }
        i += 1;
    }
    proof {
        assert(pressed@.take(pressed@.len() as int) =~= pressed@);
    }
    r
}

/// The players other than `player`.
pub open spec fn other_than(player: u64) -> spec_fn(u64) -> bool {
    |p: u64| p != player
}

/// The inputs that do not come from `player`.
pub open spec fn not_from(player: u64) -> spec_fn(Input) -> bool {
    |i: Input| i.player != player
}

/// The inputs still in flight once `player` has disconnected: those of
/// every other player, in their order.
pub fn drop_inputs_of(inputs: &Vec<Input>, player: u64) -> (kept: Vec<Input>)
    ensures
        kept@ == inputs@.filter(not_from(player)),
{
    let mut kept: Vec<Input> = Vec::new();
    let mut i: usize = 0;
    while i < inputs.len()
        invariant
            0 <= i <= inputs@.len(),
            kept@ == inputs@.take(i as int).filter(not_from(player)),
        decreases inputs@.len() - i,
    {
        let input = inputs[i];
        proof {
            reveal(Seq::filter);
            assert(inputs@.take(i + 1).drop_last() =~= inputs@.take(i as int));
            assert(inputs@.take(i + 1).last() == input);
        }
        if input.player != player {
            kept.push(input);
        }
        i += 1;
    }
    proof {
        assert(inputs@.take(inputs@.len() as int) =~= inputs@);
    }
    kept
}

/// `b` is a ship of `player`.
pub open spec fn ship_of(b: Body, player: u64) -> bool {
    b.kind == BodyKind::Ship && b.player == player
}

/// `i` is the first position of `s` holding a ship of `player`.
pub open spec fn first_ship_at(s: Seq<Body>, player: u64, i: int) -> bool {
    0 <= i < s.len() && ship_of(s[i], player) && forall|j: int| 0 <= j < i ==> !ship_of(#[trigger] s[j], player)
}

/// The first ship of `player` in `s`, if there is one.
pub open spec fn first_ship(s: Seq<Body>, player: u64) -> Option<Body> {
    if exists|i: int| first_ship_at(s, player, i) {
        Some(s[choose|i: int| first_ship_at(s, player, i)])
    } else {
        None
    }
}

/// The bodies and the next identity after a body made from `template`
/// joins the registry, if identities are left.
pub open spec fn spawned(w: Seq<Body>, next: u64, template: Body) -> (Seq<Body>, u64) {
    if next < u64::MAX {
        (w.push(Body { id: next, ..template }), (next + 1) as u64)
    } else {
        (w, next)
    }
}

/// An input sampled at tick `sampled` is still taken at tick `now`.
pub open spec fn fresh(sampled: u64, now: u64) -> bool {
    sampled >= now || now - sampled <= INPUT_WINDOW
}

/// What one input does to the bodies and the next identity: it acts on
/// the first ship of its player, and a shot joins the world.
pub open spec fn input_step(w: Seq<Body>, next: u64, input: Input, now: u64, dt_ms: u64) -> (Seq<Body>, u64) {
    if !fresh(input.tick, now) {
        (w, next)
    } else {
        match first_ship(w, input.player) {
            None => (w, next),
            Some(ship) => {
                let (moved, shot) = act(ship, input.action, dt_ms);
                let w1 = replace_id(w, ship.id, moved);
                match shot {
                    Some(p) => spawned(w1, next, p),
                    None => (w1, next),
                }
            },
        }
    }
}

/// What a sequence of inputs, in order, does to the bodies and the next identity.
pub open spec fn inputs_effect(w: Seq<Body>, next: u64, inputs: Seq<Input>, now: u64, dt_ms: u64) -> (Seq<Body>, u64)
    decreases inputs.len(),
{
    if inputs.len() == 0 {
        (w, next)
    } else {
        let (w1, n1) = inputs_effect(w, next, inputs.drop_last(), now, dt_ms);
        input_step(w1, n1, inputs.last(), now, dt_ms)
    }
}

/// Some ship of `s` has no life left.
pub open spec fn lives_out(s: Seq<Body>) -> bool {
    exists|i: int| 0 <= i < s.len() && s[i].kind == BodyKind::Ship && s[i].lives == 0
}

/// The ship a player starts a match with, at the centre of the field.
pub open spec fn new_ship(player: u64) -> Body {
    Body {
        id: 0,
        kind: BodyKind::Ship,
        x: (WORLD_WIDTH / 2) as i64,
        y: (WORLD_HEIGHT / 2) as i64,
        vx: 0,
        vy: 0,
        radius: SHIP_RADIUS,
        wrap_budget: None,
        grace_ms: 0,
        player,
        lives: START_LIVES,
        heading: 0,
        cooldown_ms: 0,
    }
}

pub open spec fn sat_add(a: u32, b: u32) -> u32 {
    if a + b > u32::MAX { u32::MAX } else { (a + b) as u32 }
}

/// The score after the score events of `ev`, saturating at the top.
pub open spec fn score_after(score: u32, ev: Seq<Event>) -> u32
    decreases ev.len(),
{
    if ev.len() == 0 {
        score
    } else {
        let s = score_after(score, ev.drop_last());
        match ev.last() {
            Event::Score(d) => sat_add(s, d),
            _ => s,
        }
    }
}

/// The lives shown after the damage events of `ev`.
pub open spec fn lives_after(lives: u8, ev: Seq<Event>) -> u8
    decreases ev.len(),
{
    if ev.len() == 0 {
        lives
    } else {
        match ev.last() {
            Event::Damage { ship: _, lives: l } => l,
            _ => lives_after(lives, ev.drop_last()),
        }
    }
}

/// How many division events of `ev` lie within the coordinate range.
pub open spec fn divide_count(ev: Seq<Event>) -> nat
    decreases ev.len(),
{
    if ev.len() == 0 {
        0
    } else {
        divide_count(ev.drop_last()) + match ev.last() {
            Event::Divide { x, y } => if coord_ok(x as int) && coord_ok(y as int) { 1nat } else { 0nat },
            _ => 0nat,
        }
    }
}

/// What the events of resolution do to the bodies, the next identity and
/// the spawner: every division within the coordinate range draws two
/// fragments from the spawner's stream, and both join the world.
pub open spec fn events_effect(w: Seq<Body>, next: u64, sp: AsteroidSpawner, ev: Seq<Event>) -> (Seq<Body>, u64, AsteroidSpawner)
    decreases ev.len(),
{
    if ev.len() == 0 {
        (w, next, sp)
    } else {
        let (w1, n1, sp1) = events_effect(w, next, sp, ev.drop_last());
        match ev.last() {
            Event::Divide { x, y } => if coord_ok(x as int) && coord_ok(y as int) {
                let (f1, f2, st) = fragments(sp1.stream, x, y);
                let (wa, na) = spawned(w1, n1, f1);
                let (wb, nb) = spawned(wa, na, f2);
                (wb, nb, AsteroidSpawner { stream: st, elapsed_ms: sp1.elapsed_ms })
            } else {
                (w1, n1, sp1)
            },
            _ => (w1, n1, sp1),
        }
    }
}

/// The bodies, the next identity and the spawner of session `s` when a
/// tick of `dt_ms` with `inputs` reaches the broad phase: cooldowns have
/// run, the inputs are applied, the spawner has stepped (its asteroid
/// joining the world), and the bodies have moved, wrapped and run their
/// grace periods.
pub open spec fn before_collisions(s: Session, dt_ms: u64, inputs: Seq<Input>) -> (Seq<Body>, u64, AsteroidSpawner) {
    let (w1, n1) = inputs_effect(cool_all(s.world@, dt_ms), s.world.next_id(), inputs, s.tick, dt_ms);
    let (sp1, out) = spawner_step(s.spawner, dt_ms);
    let (w2, n2) = match out {
        Some(a) => spawned(w1, n1, a),
        None => (w1, n1),
    };
    (grace_all(wrap_all(move_all(w2, dt_ms)), dt_ms), n2, sp1)
}

/// Session `s1` and `events` are what a tick of `dt_ms` with `inputs`
/// makes of session `s0` in play, when the broad phase finds `pairs`:
/// the contacts are resolved in that order, and the events applied.
pub open spec fn ticked(s0: Session, dt_ms: u64, inputs: Seq<Input>, pairs: Seq<(u64, u64)>, s1: Session, events: Seq<Event>) -> bool {
    let (w3, n3, sp1) = before_collisions(s0, dt_ms, inputs);
    &&& broad_phase(w3, pairs)
    &&& events == resolve_all(w3, pairs).1
    &&& (s1.world@, s1.world.next_id(), s1.spawner) == events_effect(resolve_all(w3, pairs).0, n3, sp1, events)
}

/// A small asteroid in its grace period: what a division spawns.
pub open spec fn is_fragment(b: Body) -> bool {
    b.kind == BodyKind::Asteroid(Size::Small) && b.grace_ms == GRACE_MS
}

/// A match: its phase, the bodies, the spawner, the connected players and
/// what the heads-up display shows.
pub struct Session {
    pub phase: Phase,
    pub world: Registry,
    pub spawner: AsteroidSpawner,
    pub players: Vec<u64>,
    pub score: u32,
    pub lives_shown: u8,
    pub tick: u64,
}

fn find_ship(world: &Registry, player: u64) -> (r: Option<Body>)
    requires
        world.wf(),
    ensures
        r.is_some() ==> {
            let b = r.unwrap();
            &&& lookup(world@, b.id) == Some(b)
            &&& b.kind == BodyKind::Ship
            &&& b.player == player
            &&& b.wf()
        },
        r == first_ship(world@, player),
        r.is_none() ==> forall|i: int| 0 <= i < world@.len() ==> !(#[trigger] world@[i].kind == BodyKind::Ship && world@[i].player == player),
{
    let mut i: usize = 0;
    while i < world.len()
        invariant
            world.wf(),
            0 <= i <= world@.len(),
            forall|j: int| 0 <= j < i ==> !(#[trigger] world@[j].kind == BodyKind::Ship && world@[j].player == player),
        decreases world@.len() - i,
    {
        let b = world.body_at(i);
        if b.kind == BodyKind::Ship && b.player == player {
            proof {
                crate::registry::lemma_unique_index(world@, i as int);
                assert(world@[i as int].wf());
                assert forall|j: int| 0 <= j < i implies !ship_of(#[trigger] world@[j], player) by {
                    assert(!(world@[j].kind == BodyKind::Ship && world@[j].player == player));
                }
                assert(first_ship_at(world@, player, i as int));
                let c = choose|c: int| first_ship_at(world@, player, c);
                if c < i {
                    assert(!ship_of(world@[c], player));
                } else if c > i {
                    assert(!ship_of(world@[i as int], player));
                }
            }
            return Some(b);
        }
        i += 1;
    }
    proof {
        if exists|c: int| first_ship_at(world@, player, c) {
            let c = choose|c: int| first_ship_at(world@, player, c);
            assert(world@[c].kind == BodyKind::Ship && world@[c].player == player);
        }
    }
    None
}

fn position_of(v: &Vec<u64>, x: u64) -> (r: Option<usize>)
    ensures
        r.is_some() ==> r.unwrap() < v@.len() && v@[r.unwrap() as int] == x,
        r.is_none() ==> !v@.contains(x),
{
    let mut i: usize = 0;
    while i < v.len()
        invariant
            0 <= i <= v@.len(),
            forall|j: int| 0 <= j < i ==> v@[j] != x,
        decreases v@.len() - i,
    {
        if v[i] == x {
            return Some(i);
        }
        i += 1;
    }
    None
}

/// Whether some ship of `world` has no life left.
pub fn any_lives_out(world: &Registry) -> (r: bool)
    requires
        world.wf(),
    ensures
        r == lives_out(world@),
{
    let mut i: usize = 0;
    while i < world.len()
        invariant
            world.wf(),
            0 <= i <= world@.len(),
            forall|j: int| 0 <= j < i ==> !(#[trigger] world@[j].kind == BodyKind::Ship && world@[j].lives == 0),
        decreases world@.len() - i,
    {
        let b = world.body_at(i);
        if b.kind == BodyKind::Ship && b.lives == 0 {
            return true;
        }
        i += 1;
    }
    false
}

impl Session {
    pub open spec fn wf(&self) -> bool {
        &&& self.world.wf()
        &&& self.players@.no_duplicates()
    }

    /// A session in the main menu, with no bodies and no players.
    pub fn new(seed: u64) -> (r: Session)
        ensures
            r.wf(),
            r.phase == Phase::MainMenu,
            r.world@ == Seq::<Body>::empty(),
            r.spawner == (AsteroidSpawner { stream: RandomStream { seed, pos: 0 }, elapsed_ms: 0 }),
            r.players@ == Seq::<u64>::empty(),
            r.score == 0,
            r.lives_shown == START_LIVES,
            r.tick == 0,
    {
        Session {
            phase: Phase::MainMenu,
            world: Registry::new(),
            spawner: AsteroidSpawner::new(seed),
            players: Vec::new(),
            score: 0,
            lives_shown: START_LIVES,
            tick: 0,
        }
    }

    /// Hosting or joining a game moves the main menu to the lobby.
    pub fn enter_lobby(&mut self, t: Trigger) -> (moved: bool)
        requires
            t == Trigger::Host || t == Trigger::Join,
        ensures
            final(self).phase == next_phase(old(self).phase, t),
            moved == (old(self).phase == Phase::MainMenu),
            final(self).world == old(self).world,
            final(self).players == old(self).players,
            final(self).score == old(self).score,
    {
        let moved = self.phase == Phase::MainMenu;
        self.phase = transition(self.phase, t);
        moved
    }

    /// A player connects while the lobby is open; one already known is not
    /// added twice.
    pub fn connect(&mut self, player: u64)
        requires
            old(self).wf(),
        ensures
            final(self).wf(),
            final(self).players@ == (if old(self).phase == Phase::Lobby && !old(self).players@.contains(player) {
                old(self).players@.push(player)
            } else {
                old(self).players@
            }),
            final(self).phase == old(self).phase,
            final(self).world == old(self).world,
    {
        if self.phase != Phase::Lobby {
            return;
        }
        match position_of(&self.players, player) {
            Some(_) => {},
            None => {
                self.players.push(player);
            },
        }
    }

    /// A player disconnects: they leave the player list and their ship
    /// leaves the world; the match goes on without them.
    pub fn disconnect(&mut self, player: u64)
        requires
            old(self).wf(),
        ensures
            final(self).wf(),
            final(self).players@ == old(self).players@.filter(other_than(player)),
            !final(self).players@.contains(player),
            forall|p: u64| p != player ==> (final(self).players@.contains(p) <==> old(self).players@.contains(p)),
            final(self).phase == old(self).phase,
            final(self).world.wf(),
            forall|i: int| 0 <= i < final(self).world@.len() ==> !(#[trigger] final(self).world@[i].kind == BodyKind::Ship && final(self).world@[i].player == player),
            forall|id: u64| #[trigger] lookup(old(self).world@, id) is Some && !(lookup(old(self).world@, id).unwrap().kind == BodyKind::Ship && lookup(old(self).world@, id).unwrap().player == player)
                ==> lookup(final(self).world@, id) == lookup(old(self).world@, id),
    {
        let mut kept: Vec<u64> = Vec::new();
        let mut i: usize = 0;
        while i < self.players.len()
            invariant
                0 <= i <= self.players@.len(),
                self.players == old(self).players,
                self.players@.no_duplicates(),
                kept@ == self.players@.take(i as int).filter(other_than(player)),
                kept@.no_duplicates(),
                forall|q: u64| kept@.contains(q) <==> (self.players@.take(i as int).contains(q) && q != player),
            decreases self.players@.len() - i,
        {
            let p = self.players[i];
            let ghost before = kept@;
            let ghost pre = self.players@.take(i as int);
            let ghost post = self.players@.take(i + 1);
            proof {
                reveal(Seq::filter);
                assert(post.drop_last() =~= pre);
                assert(post.last() == p);
                assert forall|q: u64| post.contains(q) <==> (pre.contains(q) || q == p) by {
                    if post.contains(q) {
                        let k = choose|k: int| 0 <= k < post.len() && post[k] == q;
                        if k < i {
                            assert(pre[k] == q);
                        }
                    }
                    if pre.contains(q) {
                        let k = choose|k: int| 0 <= k < pre.len() && pre[k] == q;
                        assert(post[k] == q);
                    }
                    if q == p {
                        assert(post[i as int] == q);
                    }
                }
                assert(!pre.contains(p)) by {
                    if pre.contains(p) {
                        let k = choose|k: int| 0 <= k < pre.len() && pre[k] == p;
                        assert(self.players@[k] == self.players@[i as int]);
                    }
                }
            }
            if p != player {
                kept.push(p);
                proof {
                    assert forall|a: int, c: int| 0 <= a < kept@.len() && 0 <= c < kept@.len() && a != c implies kept@[a] != kept@[c] by {
                        if a < before.len() && c < before.len() {
                            assert(kept@[a] == before[a] && kept@[c] == before[c]);
                        } else if a < before.len() {
                            assert(kept@[a] == before[a]);
                            assert(before.contains(kept@[a]));
                        } else if c < before.len() {
                            assert(kept@[c] == before[c]);
                            assert(before.contains(kept@[c]));
                        }
                    }
                    assert forall|q: u64| kept@.contains(q) <==> (post.contains(q) && q != player) by {
                        if kept@.contains(q) {
                            let k = choose|k: int| 0 <= k < kept@.len() && kept@[k] == q;
                            if k < before.len() {
                                assert(before[k] == q);
                            }
                        }
                        if before.contains(q) {
                            let k = choose|k: int| 0 <= k < before.len() && before[k] == q;
                            assert(kept@[k] == q);
                        }
                        if q == p {
                            assert(kept@[before.len() as int] == q);
                        }
                    }
                }
            }
            i += 1;
        }
        proof {
            assert(self.players@.take(self.players@.len() as int) =~= self.players@);
        }
        self.players = kept;
        loop
            invariant
                self.world.wf(),
                self.players@.no_duplicates(),
                self.players@ == old(self).players@.filter(other_than(player)),
                !self.players@.contains(player),
                forall|p: u64| p != player ==> (self.players@.contains(p) <==> old(self).players@.contains(p)),
                self.phase == old(self).phase,
                forall|id: u64| #[trigger] lookup(old(self).world@, id) is Some && !(lookup(old(self).world@, id).unwrap().kind == BodyKind::Ship && lookup(old(self).world@, id).unwrap().player == player)
                    ==> lookup(self.world@, id) == lookup(old(self).world@, id),
            ensures
                forall|i: int| 0 <= i < self.world@.len() ==> !(#[trigger] self.world@[i].kind == BodyKind::Ship && self.world@[i].player == player),
            decreases self.world@.len(),
        {
            match find_ship(&self.world, player) {
                Some(ship) => {
                    let ghost w0 = self.world@;
                    proof {
                        crate::registry::lemma_remove_id(w0, ship.id);
                        crate::registry::lemma_lookup_some(w0, ship.id);
                    }
                    self.world.remove(ship.id);
                    proof {
                        assert forall|id: u64| #[trigger] lookup(old(self).world@, id) is Some && !(lookup(old(self).world@, id).unwrap().kind == BodyKind::Ship && lookup(old(self).world@, id).unwrap().player == player)
                            implies lookup(self.world@, id) == lookup(old(self).world@, id) by {
                            assert(lookup(w0, id) == lookup(old(self).world@, id));
                            assert(id != ship.id);
                        }
                    }
                },
                None => {
                    break;
                },
            }
        }
    }

    /// The host's start signal moves the lobby to play, and every connected
    /// player gets exactly one ship, at the centre of the field, in the
    /// order they connected.
    pub fn start(&mut self) -> (moved: bool)
        requires
            old(self).wf(),
        ensures
            final(self).wf(),
            moved == (old(self).phase == Phase::Lobby),
            final(self).phase == next_phase(old(self).phase, Trigger::Start),
            final(self).players == old(self).players,
            !moved ==> final(self).world == old(self).world,
            moved && old(self).world.next_id() + old(self).players@.len() < u64::MAX ==> {
                &&& final(self).world@.len() == old(self).world@.len() + old(self).players@.len()
                &&& final(self).world@.subrange(0, old(self).world@.len() as int) == old(self).world@
                &&& forall|k: int| 0 <= k < old(self).players@.len() ==> {
                    let b = #[trigger] final(self).world@[old(self).world@.len() + k];
                    b == Body { id: b.id, ..new_ship(old(self).players@[k]) }
                }
            },
    {
        if self.phase != Phase::Lobby {
            return false;
        }
        self.phase = transition(self.phase, Trigger::Start);
        let n0 = self.world.len();
        let mut k: usize = 0;
        while k < self.players.len()
            invariant
                self.wf(),
                self.players == old(self).players,
                self.phase == Phase::Playing,
                0 <= k <= self.players@.len(),
                n0 == old(self).world@.len(),
                old(self).world.next_id() + old(self).players@.len() < u64::MAX ==> {
                    &&& self.world.next_id() == old(self).world.next_id() + k
                    &&& self.world@.len() == n0 + k
                    &&& self.world@.subrange(0, n0 as int) == old(self).world@
                    &&& forall|j: int| 0 <= j < k ==> {
                        let b = #[trigger] self.world@[n0 + j];
                        b == Body { id: b.id, ..new_ship(self.players@[j]) }
                    }
                },
            decreases self.players@.len() - k,
        {
            let player = self.players[k];
            let ship = Body {
                id: 0,
                kind: BodyKind::Ship,
                x: WORLD_WIDTH / 2,
                y: WORLD_HEIGHT / 2,
                vx: 0,
                vy: 0,
                radius: SHIP_RADIUS,
                wrap_budget: None,
                grace_ms: 0,
                player,
                lives: START_LIVES,
                heading: 0,
                cooldown_ms: 0,
            };
            let ghost w0 = self.world@;
            let _ = self.world.spawn(ship);
            proof {
                if old(self).world.next_id() + old(self).players@.len() < u64::MAX {
                    let w1 = self.world@;
                    assert(w1.subrange(0, n0 as int) =~= w0.subrange(0, n0 as int));
                    assert forall|j: int| 0 <= j < k + 1 implies {
                        let b = #[trigger] self.world@[n0 + j];
                        b == Body { id: b.id, ..new_ship(self.players@[j]) }
                    } by {
                        if j < k {
                            assert(w1[n0 + j] == w0[n0 + j]);
                        }
                    }
                }
            }
            k += 1;
        }
        true
    }

    /// A manual restart moves the end screen back to the main menu and
    /// clears what was kept for display: the score and the lives shown.
    pub fn restart(&mut self) -> (moved: bool)
        requires
            old(self).wf(),
        ensures
            final(self).wf(),
            moved == (old(self).phase == Phase::GameOver),
            final(self).phase == next_phase(old(self).phase, Trigger::Restart),
            moved ==> final(self).score == 0 && final(self).lives_shown == START_LIVES && final(self).world@ == Seq::<Body>::empty(),
            !moved ==> final(self).score == old(self).score && final(self).world == old(self).world,
    {
        if self.phase != Phase::GameOver {
            return false;
        }
        self.phase = transition(self.phase, Trigger::Restart);
        self.world.clear();
        self.score = 0;
        self.lives_shown = START_LIVES;
        true
    }

    /// Applies the inputs of one tick, in order, each to the ship of the
    /// player who sent it. An input sampled more than `INPUT_WINDOW` ticks
    /// ago, or from a player without a ship, is dropped. A shot that a ship
    /// fires joins the world.
    pub fn apply_inputs(&mut self, inputs: &Vec<Input>, dt_ms: u64)
        requires
            old(self).wf(),
            dt_ms <= STEP_LIMIT_MS,
        ensures
            final(self).wf(),
            final(self).phase == old(self).phase,
            final(self).players == old(self).players,
            final(self).score == old(self).score,
            final(self).lives_shown == old(self).lives_shown,
            final(self).tick == old(self).tick,
            final(self).spawner == old(self).spawner,
            (final(self).world@, final(self).world.next_id())
                == inputs_effect(old(self).world@, old(self).world.next_id(), inputs@, old(self).tick, dt_ms),
    {
        let mut i: usize = 0;
        while i < inputs.len()
            invariant
                0 <= i <= inputs@.len(),
                (self.world@, self.world.next_id())
                    == inputs_effect(old(self).world@, old(self).world.next_id(), inputs@.take(i as int), old(self).tick, dt_ms),
                self.wf(),
                dt_ms <= STEP_LIMIT_MS,
                self.phase == old(self).phase,
                self.players == old(self).players,
                self.score == old(self).score,
                self.lives_shown == old(self).lives_shown,
                self.tick == old(self).tick,
                self.spawner == old(self).spawner,
            decreases inputs@.len() - i,
        {
            let input = inputs[i];
            proof {
                assert(inputs@.take(i + 1).drop_last() =~= inputs@.take(i as int));
                assert(inputs@.take(i + 1).last() == input);
            }
            let taken = input.tick >= self.tick || self.tick - input.tick <= INPUT_WINDOW;
            if taken {
                match find_ship(&self.world, input.player) {
                    Some(ship) => {
                        let (moved, shot) = apply_action(ship, input.action, dt_ms);
                        self.world.replace(ship.id, moved);
                        match shot {
                            Some(p) => {
                                let _ = self.world.spawn(p);
                            },
                            None => {},
                        }
                    },
                    None => {},
                }
            }
            i += 1;
        }
        proof {
            assert(inputs@.take(inputs@.len() as int) =~= inputs@);
        }
    }

    /// Applies the events of collision resolution: score events add to the
    /// score, damage events update the lives shown, and every division
    /// spawns the two fragments the spawner makes for it. A division whose
    /// place lies outside the coordinate range is dropped.
    pub fn apply_events(&mut self, events: &Vec<Event>)
        requires
            old(self).wf(),
        ensures
            final(self).wf(),
            final(self).score == score_after(old(self).score, events@),
            final(self).lives_shown == lives_after(old(self).lives_shown, events@),
            final(self).phase == old(self).phase,
            final(self).players == old(self).players,
            final(self).tick == old(self).tick,
            final(self).world@.len() >= old(self).world@.len(),
            final(self).world@.subrange(0, old(self).world@.len() as int) == old(self).world@,
            forall|k: int| old(self).world@.len() <= k < final(self).world@.len() ==> is_fragment(#[trigger] final(self).world@[k]),
            old(self).world.next_id() + 2 * events@.len() < u64::MAX ==>
                final(self).world@.len() == old(self).world@.len() + 2 * divide_count(events@),
            (final(self).world@, final(self).world.next_id(), final(self).spawner)
                == events_effect(old(self).world@, old(self).world.next_id(), old(self).spawner, events@),
    {
        let n0 = self.world.len();
        let mut i: usize = 0;
        while i < events.len()
            invariant
                self.wf(),
                0 <= i <= events@.len(),
                n0 == old(self).world@.len(),
                self.score == score_after(old(self).score, events@.take(i as int)),
                self.lives_shown == lives_after(old(self).lives_shown, events@.take(i as int)),
                self.phase == old(self).phase,
                self.players == old(self).players,
                self.tick == old(self).tick,
                self.world@.len() >= n0,
                self.world@.subrange(0, n0 as int) == old(self).world@,
                forall|k: int| n0 <= k < self.world@.len() ==> is_fragment(#[trigger] self.world@[k]),
                self.world.next_id() <= old(self).world.next_id() + 2 * i,
                old(self).world.next_id() + 2 * events@.len() < u64::MAX ==>
                    self.world@.len() == n0 + 2 * divide_count(events@.take(i as int)),
                (self.world@, self.world.next_id(), self.spawner)
                    == events_effect(old(self).world@, old(self).world.next_id(), old(self).spawner, events@.take(i as int)),
            decreases events@.len() - i,
        {
            let ev = events[i];
            proof {
                assert(events@.take(i + 1).drop_last() == events@.take(i as int));
                assert(events@.take(i + 1).last() == ev);
            }
            match ev {
                Event::Score(d) => {
                    self.score = self.score.saturating_add(d);
                },
                Event::Damage { ship: _, lives } => {
                    self.lives_shown = lives;
                },
                Event::Divide { x, y } => {
                    if -COORD_LIMIT <= x && x <= COORD_LIMIT && -COORD_LIMIT <= y && y <= COORD_LIMIT {
                        let (a, b) = self.spawner.divide(x, y);
                        let ghost w0 = self.world@;
                        let _ = self.world.spawn(a);
                        let ghost w1 = self.world@;
                        let _ = self.world.spawn(b);
                        proof {
                            assert(self.world@.subrange(0, n0 as int) =~= w0.subrange(0, n0 as int));
                            assert forall|k: int| n0 <= k < self.world@.len() implies is_fragment(#[trigger] self.world@[k]) by {
                                if k < w1.len() {
                                    assert(self.world@[k] == w1[k]);
                                    if k < w0.len() {
                                        assert(w1[k] == w0[k]);
                                    }
                                }
                            }
                        }
                    }
                },
                Event::Impact { x: _, y: _ } => {},
            }
            i += 1;
        }
        proof {
            assert(events@.take(events@.len() as int) == events@);
        }
    }

    /// One simulation tick of `dt_ms` milliseconds. Outside play it does
    /// nothing. In play it first evaluates the state left by the previous
    /// tick: once a ship has no life left, the match moves to its end and
    /// every body is removed. Otherwise it applies the inputs, runs the
    /// spawner, moves and wraps the bodies, runs their timers, finds and
    /// resolves collisions, and applies the resulting events, which it
    /// returns.
    pub fn tick(&mut self, dt_ms: u64, inputs: &Vec<Input>) -> (events: Vec<Event>)
        requires
            old(self).wf(),
            dt_ms <= STEP_LIMIT_MS,
        ensures
            final(self).wf(),
            old(self).phase != Phase::Playing ==> *final(self) == *old(self) && events@.len() == 0,
            old(self).phase == Phase::Playing && lives_out(old(self).world@) ==> {
                &&& final(self).phase == Phase::GameOver
                &&& final(self).world@ == Seq::<Body>::empty()
                &&& final(self).score == old(self).score
                &&& events@.len() == 0
            },
            old(self).phase == Phase::Playing && !lives_out(old(self).world@) ==> {
                &&& final(self).phase == Phase::Playing
                &&& final(self).score == score_after(old(self).score, events@)
                &&& final(self).lives_shown == lives_after(old(self).lives_shown, events@)
                &&& final(self).tick == old(self).tick + 1 || old(self).tick == u64::MAX
                &&& exists|pairs: Seq<(u64, u64)>| #[trigger] ticked(*old(self), dt_ms, inputs@, pairs, *final(self), events@)
            },
            final(self).players == old(self).players,
    {
        if self.phase != Phase::Playing {
            return Vec::new();
        }
        if any_lives_out(&self.world) {
            self.phase = transition(self.phase, Trigger::LivesOut);
            self.world.clear();
            return Vec::new();
        }
        self.world.tick_cooldown(dt_ms);
        self.apply_inputs(inputs, dt_ms);
        match self.spawner.tick(dt_ms) {
            Some(a) => {
                let _ = self.world.spawn(a);
            },
            None => {},
        }
        self.world.apply_velocity(dt_ms);
        self.world.wrap_around();
        self.world.tick_grace(dt_ms);
        let pairs = collision_pairs(&self.world);
        let ghost w3 = self.world@;
        let events = resolve_collisions(&mut self.world, &pairs);
        self.apply_events(&events);
        proof {
            let (bw, bn, bsp) = before_collisions(*old(self), dt_ms, inputs@);
            assert(bw == w3);
            assert(broad_phase(w3, pairs@));
        }
        if self.tick < u64::MAX {
            self.tick = self.tick + 1;
        }
        proof {
            assert(ticked(*old(self), dt_ms, inputs@, pairs@, *self, events@));
        }
        events
    }
}

} // verus!
