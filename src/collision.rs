use vstd::prelude::*;
use crate::body::{Body, BodyKind, Size, GRACE_MS, coord_ok};
use crate::registry::{
    Registry, ids_unique, index_of, lookup, remove_id, replace_id, lemma_lookup_some,
    lemma_unique_index,
};
use crate::spatial::{Entry, SpatialIndex, within, has_within};

verus! {

/// Points for destroying a large asteroid.
pub const LARGE_POINTS: u32 = 25;

/// Points for destroying a small asteroid.
pub const SMALL_POINTS: u32 = 10;

/// What resolving collisions reports to the rest of the game.
#[derive(PartialEq, Eq, Structural, Clone, Copy, Debug)]
pub enum Event {
    /// An asteroid was destroyed at this place.
    Impact { x: i64, y: i64 },
    /// The score grows by this much.
    Score(u32),
    /// A large asteroid was destroyed here and splits in two.
    Divide { x: i64, y: i64 },
    /// A ship took damage and has this many lives left.
    Damage { ship: u64, lives: u8 },
}

pub open spec fn entry_of(b: Body) -> Entry {
    Entry { id: b.id, x: b.x, y: b.y }
}

/// `b` lies within the collider radius of `a`.
pub open spec fn touching(a: Body, b: Body) -> bool {
    within(entry_of(b), a.x as int, a.y as int, a.radius as int)
}

/// `(a, b)` names two distinct collidable bodies of `s`, the second within
/// the collider radius of the first.
pub open spec fn contact(s: Seq<Body>, a: u64, b: u64) -> bool {
    exists|i: int, j: int|
        0 <= i < s.len() && 0 <= j < s.len() && i != j && #[trigger] s[i].id == a && #[trigger] s[j].id == b
            && s[i].collidable() && s[j].collidable() && touching(s[i], s[j])
}

/// `e` is the entry of some collidable body of `s`.
pub open spec fn from_collidable(s: Seq<Body>, e: Entry) -> bool {
    exists|j: int| 0 <= j < s.len() && s[j].collidable() && e == entry_of(s[j])
}

/// `pairs` is what the broad phase finds in `s`: every pair names two
/// bodies in contact, and every contact appears, from each body that
/// reaches the other.
pub open spec fn broad_phase(s: Seq<Body>, pairs: Seq<(u64, u64)>) -> bool {
    &&& forall|k: int| 0 <= k < pairs.len() ==> contact(s, (#[trigger] pairs[k]).0, pairs[k].1)
    &&& forall|i: int, j: int|
        0 <= i < s.len() && 0 <= j < s.len() && i != j && s[i].collidable() && s[j].collidable()
            && touching(s[i], s[j]) ==> pairs.contains((#[trigger] s[i].id, #[trigger] s[j].id))
}

pub open spec fn points(size: Size) -> u32 {
    if size == Size::Large { LARGE_POINTS } else { SMALL_POINTS }
}

/// A ship after taking damage: one life fewer, and a fresh grace period.
pub open spec fn damaged(ship: Body) -> Body {
    Body { lives: (ship.lives - 1) as u8, grace_ms: GRACE_MS, ..ship }
}

/// The events for an asteroid destroyed by a strike.
pub open spec fn struck_events(ast: Body) -> Seq<Event> {
    if ast.kind == BodyKind::Asteroid(Size::Large) {
        seq![Event::Impact { x: ast.x, y: ast.y }, Event::Divide { x: ast.x, y: ast.y }]
    } else {
        seq![Event::Impact { x: ast.x, y: ast.y }]
    }
}

/// A projectile strikes an asteroid: both go, and the asteroid scores.
pub open spec fn hit(w: Seq<Body>, ast: Body, proj: Body) -> (Seq<Body>, Seq<Event>) {
    let size = match ast.kind { BodyKind::Asteroid(s) => s, _ => Size::Small };
    (
        remove_id(remove_id(w, ast.id), proj.id),
        seq![Event::Score(points(size))].add(struck_events(ast)),
    )
}

/// A ship meets an asteroid: the asteroid goes, and the ship takes damage
/// unless it is in its grace period or has no life left.
pub open spec fn crash(w: Seq<Body>, ship: Body, ast: Body) -> (Seq<Body>, Seq<Event>) {
    let w1 = remove_id(w, ast.id);
    if ship.grace_ms == 0 && ship.lives > 0 {
        (
            replace_id(w1, ship.id, damaged(ship)),
            struck_events(ast).push(Event::Damage { ship: ship.id, lives: (ship.lives - 1) as u8 }),
        )
    } else {
        (w1, struck_events(ast))
    }
}

/// The point halfway between two coordinates, rounded toward zero.
pub open spec fn midpoint(p: i64, q: i64) -> i64 {
    (if p + q >= 0 { (p + q) / 2 } else { -((-(p + q)) / 2) }) as i64
}

/// Two asteroids destroy each other: both go, the lower identity first,
/// and one impact is reported halfway between them.
pub open spec fn collide_asteroids(w: Seq<Body>, a: Body, b: Body) -> (Seq<Body>, Seq<Event>) {
    let (lo, hi) = if a.id < b.id { (a.id, b.id) } else { (b.id, a.id) };
    (
        remove_id(remove_id(w, lo), hi),
        seq![Event::Impact { x: midpoint(a.x, b.x), y: midpoint(a.y, b.y) }],
    )
}

/// Resolution of a contact between two distinct bodies, by their kinds and
/// whichever slot each stands in.
pub open spec fn resolve_bodies(w: Seq<Body>, a: Body, b: Body) -> (Seq<Body>, Seq<Event>) {
    if !a.collidable() || !b.collidable() {
        (w, Seq::empty())
    } else {
        match (a.kind, b.kind) {
            (BodyKind::Asteroid(_), BodyKind::Asteroid(_)) => collide_asteroids(w, a, b),
            (BodyKind::Asteroid(_), BodyKind::Projectile) => hit(w, a, b),
            (BodyKind::Projectile, BodyKind::Asteroid(_)) => hit(w, b, a),
            (BodyKind::Ship, BodyKind::Asteroid(_)) => crash(w, a, b),
            (BodyKind::Asteroid(_), BodyKind::Ship) => crash(w, b, a),
            _ => (w, Seq::empty()),
        }
    }
}

/// Resolution of one candidate pair against the world as it stands: a pair
/// naming a body that is gone, or naming one body twice, does nothing.
pub open spec fn resolve_pair(w: Seq<Body>, a: u64, b: u64) -> (Seq<Body>, Seq<Event>) {
    match (lookup(w, a), lookup(w, b)) {
        (Some(ba), Some(bb)) => if a == b { (w, Seq::empty()) } else { resolve_bodies(w, ba, bb) },
        _ => (w, Seq::empty()),
    }
}

/// Resolution of a sequence of candidate pairs, in order, each against the
/// world the earlier ones left.
pub open spec fn resolve_all(w: Seq<Body>, pairs: Seq<(u64, u64)>) -> (Seq<Body>, Seq<Event>)
    decreases pairs.len(),
{
    if pairs.len() == 0 {
        (w, Seq::empty())
    } else {
        let (w1, e1) = resolve_all(w, pairs.drop_last());
        let (w2, e2) = resolve_pair(w1, pairs.last().0, pairs.last().1);
        (w2, e1.add(e2))
    }
}

/// Builds the proximity index over the collidable bodies of `reg`.
pub fn index_collidable(reg: &Registry) -> (index: SpatialIndex)
    requires
        reg.wf(),
    ensures
        index.wf(),
        forall|j: int| 0 <= j < reg@.len() && (#[trigger] reg@[j]).collidable() ==> index@.contains(entry_of(reg@[j])),
        forall|k: int| 0 <= k < index@.len() ==> from_collidable(reg@, #[trigger] index@[k]),
{
    let mut entries: Vec<Entry> = Vec::new();
    let mut i: usize = 0;
    while i < reg.len()
        invariant
            reg.wf(),
            0 <= i <= reg@.len(),
            forall|j: int| 0 <= j < i && (#[trigger] reg@[j]).collidable() ==> entries@.contains(entry_of(reg@[j])),
            forall|k: int| 0 <= k < entries@.len() ==> from_collidable(reg@.take(i as int), #[trigger] entries@[k]),
            forall|k: int| 0 <= k < entries@.len() ==> coord_ok(#[trigger] entries@[k].x as int) && coord_ok(entries@[k].y as int),
        decreases reg@.len() - i,
    {
        let b = reg.body_at(i);
        let ghost before = entries@;
        if b.is_collidable() {
            entries.push(Entry { id: b.id, x: b.x, y: b.y });
            proof {
                assert(entries@[before.len() as int] == entry_of(reg@[i as int]));
                assert(reg@[i as int].wf());
            }
        }
        proof {
            assert forall|j: int| 0 <= j < i + 1 && (#[trigger] reg@[j]).collidable() implies entries@.contains(entry_of(reg@[j])) by {
                if j < i {
                    let k = choose|k: int| 0 <= k < before.len() && before[k] == entry_of(reg@[j]);
                    assert(entries@[k] == before[k]);
                } else {
                    assert(entries@[before.len() as int] == entry_of(reg@[j]));
                }
            }
            assert forall|k: int| 0 <= k < entries@.len() implies from_collidable(reg@.take(i + 1), #[trigger] entries@[k]) by {
                if k < before.len() {
                    assert(entries@[k] == before[k]);
                    let j = choose|j: int| 0 <= j < i && reg@.take(i as int)[j].collidable() && before[k] == entry_of(reg@.take(i as int)[j]);
                    assert(reg@.take(i + 1)[j] == reg@[j]);
                } else {
                    assert(entries@[k] == entry_of(reg@[i as int]));
                    assert(reg@.take(i + 1)[i as int] == reg@[i as int]);
                }
            }
        }
        i += 1;
    }
    proof {
        assert(reg@.take(reg@.len() as int) == reg@);
    }
    SpatialIndex::build(entries)
}

/// Broad phase: for every collidable body, every other collidable body
/// within its own collider radius, as a pair `(initiator, neighbour)`.
/// A contact seen from both sides appears once from each.
pub fn collision_pairs(reg: &Registry) -> (pairs: Vec<(u64, u64)>)
    requires
        reg.wf(),
    ensures
        forall|k: int| 0 <= k < pairs@.len() ==> contact(reg@, (#[trigger] pairs@[k]).0, pairs@[k].1),
        forall|i: int, j: int|
            0 <= i < reg@.len() && 0 <= j < reg@.len() && i != j && reg@[i].collidable() && reg@[j].collidable()
                && touching(reg@[i], reg@[j]) ==> pairs@.contains((#[trigger] reg@[i].id, #[trigger] reg@[j].id)),
        broad_phase(reg@, pairs@),
{
    let index = index_collidable(reg);
    let ghost s = reg@;
    let mut pairs: Vec<(u64, u64)> = Vec::new();
    let mut i: usize = 0;
    while i < reg.len()
        invariant
            reg.wf(),
            s == reg@,
            index.wf(),
            0 <= i <= s.len(),
            forall|j: int| 0 <= j < s.len() && (#[trigger] s[j]).collidable() ==> index@.contains(entry_of(s[j])),
            forall|k: int| 0 <= k < index@.len() ==> from_collidable(s, #[trigger] index@[k]),
            forall|k: int| 0 <= k < pairs@.len() ==> contact(s, (#[trigger] pairs@[k]).0, pairs@[k].1),
            forall|a: int, c: int|
                0 <= a < i && 0 <= c < s.len() && a != c && s[a].collidable() && s[c].collidable()
                    && touching(s[a], s[c]) ==> pairs@.contains((#[trigger] s[a].id, #[trigger] s[c].id)),
        decreases s.len() - i,
    {
        let b = reg.body_at(i);
        let ghost before = pairs@;
        if b.is_collidable() {
            proof {
                assert(s[i as int].wf());
            }
            let near = index.query(b.x, b.y, b.radius);
            let mut m: usize = 0;
            while m < near.len()
                invariant
                    reg.wf(),
                    s == reg@,
                    b == s[i as int],
                    b.collidable(),
                    0 <= i < s.len(),
                    index.wf(),
                    0 <= m <= near@.len(),
                    forall|j: int| 0 <= j < near@.len() ==> has_within(index@, #[trigger] near@[j], b.x as int, b.y as int, b.radius as int),
                    forall|k: int| 0 <= k < index@.len() ==> from_collidable(s, #[trigger] index@[k]),
                    forall|k: int| 0 <= k < pairs@.len() ==> contact(s, (#[trigger] pairs@[k]).0, pairs@[k].1),
                    forall|k: int| 0 <= k < before.len() ==> pairs@.contains(#[trigger] before[k]),
                    forall|k: int| 0 <= k < m && near@[k] != b.id ==> pairs@.contains((b.id, #[trigger] near@[k])),
                decreases near@.len() - m,
            {
                let other = near[m];
                let ghost prev = pairs@;
                if other != b.id {
                    pairs.push((b.id, other));
                    proof {
                        let k = choose|k: int| 0 <= k < index@.len() && index@[k].id == other && within(index@[k], b.x as int, b.y as int, b.radius as int);
                        assert(from_collidable(s, index@[k]));
                        let j = choose|j: int| 0 <= j < s.len() && s[j].collidable() && index@[k] == entry_of(s[j]);
                        assert(j != i as int);
                        assert(s[i as int].id == b.id && s[j].id == other);
                        assert(touching(s[i as int], s[j]));
                        assert(contact(s, b.id, other));
                        assert(pairs@[prev.len() as int] == (b.id, other));
                    }
                }
                proof {
                    assert forall|k: int| 0 <= k < prev.len() implies pairs@.contains(#[trigger] prev[k]) by {
                        assert(pairs@[k] == prev[k]);
                    }
                    assert forall|k: int| 0 <= k < before.len() implies pairs@.contains(#[trigger] before[k]) by {
                        let k2 = choose|k2: int| 0 <= k2 < prev.len() && prev[k2] == before[k];
                        assert(pairs@[k2] == prev[k2]);
                    }
                    assert forall|k: int| 0 <= k < m + 1 && near@[k] != b.id implies pairs@.contains((b.id, #[trigger] near@[k])) by {
                        if k < m {
                            let k2 = choose|k2: int| 0 <= k2 < prev.len() && prev[k2] == (b.id, near@[k]);
                            assert(pairs@[k2] == prev[k2]);
                        } else {
                            assert(pairs@[prev.len() as int] == (b.id, other));
                        }
                    }
                }
                m += 1;
            }
            proof {
                assert forall|a: int, c: int|
                    0 <= a < i + 1 && 0 <= c < s.len() && a != c && s[a].collidable() && s[c].collidable()
                        && touching(s[a], s[c]) implies pairs@.contains((#[trigger] s[a].id, #[trigger] s[c].id)) by {
                    if a < i {
                        let k2 = choose|k2: int| 0 <= k2 < before.len() && before[k2] == (s[a].id, s[c].id);
                    } else {
                        let k = choose|k: int| 0 <= k < index@.len() && index@[k] == entry_of(s[c]);
                        assert(within(index@[k], b.x as int, b.y as int, b.radius as int));
                        let q = choose|q: int| 0 <= q < near@.len() && near@[q] == s[c].id;
                        assert(s[c].id != b.id);
                    }
                }
            }
        } else {
            proof {
                assert forall|a: int, c: int|
                    0 <= a < i + 1 && 0 <= c < s.len() && a != c && s[a].collidable() && s[c].collidable()
                        && touching(s[a], s[c]) implies pairs@.contains((#[trigger] s[a].id, #[trigger] s[c].id)) by {
                    if a == i {
                        assert(!s[a].collidable());
                    }
                }
            }
        }
        i += 1;
    }
    pairs
}

fn struck(ast: Body) -> (ev: Vec<Event>)
    ensures
        ev@ == struck_events(ast),
{
    let mut ev: Vec<Event> = Vec::new();
    ev.push(Event::Impact { x: ast.x, y: ast.y });
    match ast.kind {
        BodyKind::Asteroid(Size::Large) => ev.push(Event::Divide { x: ast.x, y: ast.y }),
        _ => {},
    }
    proof {
        assert(ev@ =~= struck_events(ast));
    }
    ev
}

fn halfway(p: i64, q: i64) -> (r: i64)
    requires
        coord_ok(p as int),
        coord_ok(q as int),
    ensures
        r == midpoint(p, q),
{
    let t = p + q;
    if t >= 0 {
        ((t as u64) / 2) as i64
    } else {
        -((((-t) as u64) / 2) as i64)
    }
}

fn resolve_hit(reg: &mut Registry, ast: Body, proj: Body) -> (ev: Vec<Event>)
    requires
        old(reg).wf(),
        ast.kind is Asteroid,
    ensures
        final(reg).wf(),
        final(reg).next_id() == old(reg).next_id(),
        (final(reg)@, ev@) == hit(old(reg)@, ast, proj),
{
    reg.remove(ast.id);
    reg.remove(proj.id);
    let pts = match ast.kind {
        BodyKind::Asteroid(Size::Large) => LARGE_POINTS,
        _ => SMALL_POINTS,
    };
    let mut ev: Vec<Event> = Vec::new();
    ev.push(Event::Score(pts));
    let mut rest = struck(ast);
    ev.append(&mut rest);
    proof {
        let size = match ast.kind { BodyKind::Asteroid(s) => s, _ => Size::Small };
        assert(pts == points(size));
        assert(ev@ =~= seq![Event::Score(points(size))].add(struck_events(ast)));
    }
    ev
}

fn resolve_crash(reg: &mut Registry, ship: Body, ast: Body) -> (ev: Vec<Event>)
    requires
        old(reg).wf(),
        ship.wf(),
        ship.id != ast.id,
    ensures
        final(reg).wf(),
        final(reg).next_id() == old(reg).next_id(),
        (final(reg)@, ev@) == crash(old(reg)@, ship, ast),
{
    reg.remove(ast.id);
    let mut ev = struck(ast);
    if ship.grace_ms == 0 && ship.lives > 0 {
        let hurt = Body { lives: ship.lives - 1, grace_ms: GRACE_MS, ..ship };
        reg.replace(ship.id, hurt);
        ev.push(Event::Damage { ship: ship.id, lives: ship.lives - 1 });
    }
    ev
}

fn resolve_contact(reg: &mut Registry, a: Body, b: Body) -> (ev: Vec<Event>)
    requires
        old(reg).wf(),
        a.wf(),
        b.wf(),
        a.id != b.id,
    ensures
        final(reg).wf(),
        final(reg).next_id() == old(reg).next_id(),
        (final(reg)@, ev@) == resolve_bodies(old(reg)@, a, b),
{
    if !a.is_collidable() || !b.is_collidable() {
        return Vec::new();
    }
    match (a.kind, b.kind) {
        (BodyKind::Asteroid(_), BodyKind::Asteroid(_)) => {
            if a.id < b.id {
                reg.remove(a.id);
                reg.remove(b.id);
            } else {
                reg.remove(b.id);
                reg.remove(a.id);
            }
            let mut ev: Vec<Event> = Vec::new();
            ev.push(Event::Impact { x: halfway(a.x, b.x), y: halfway(a.y, b.y) });
            proof {
                assert(ev@ =~= seq![Event::Impact { x: midpoint(a.x, b.x), y: midpoint(a.y, b.y) }]);
            }
            ev
        },
        (BodyKind::Asteroid(_), BodyKind::Projectile) => resolve_hit(reg, a, b),
        (BodyKind::Projectile, BodyKind::Asteroid(_)) => resolve_hit(reg, b, a),
        (BodyKind::Ship, BodyKind::Asteroid(_)) => resolve_crash(reg, a, b),
        (BodyKind::Asteroid(_), BodyKind::Ship) => resolve_crash(reg, b, a),
        _ => Vec::new(),
    }
}

/// Resolves one candidate pair against the registry as it stands now.
pub fn resolve_one(reg: &mut Registry, a: u64, b: u64) -> (ev: Vec<Event>)
    requires
        old(reg).wf(),
    ensures
        final(reg).wf(),
        final(reg).next_id() == old(reg).next_id(),
        (final(reg)@, ev@) == resolve_pair(old(reg)@, a, b),
{
    let ba = reg.get(a);
    let bb = reg.get(b);
    match (ba, bb) {
        (Some(x), Some(y)) => {
            if a == b {
                Vec::new()
            } else {
                resolve_contact(reg, x, y)
            }
        },
        _ => Vec::new(),
    }
}

/// Resolution phase: resolves the candidate pairs in order, each against
/// the registry that the earlier ones left, and returns the events in the
/// order they arose. A pair naming a body removed earlier is dropped.
pub fn resolve_collisions(reg: &mut Registry, pairs: &Vec<(u64, u64)>) -> (events: Vec<Event>)
    requires
        old(reg).wf(),
    ensures
        final(reg).wf(),
        final(reg).next_id() == old(reg).next_id(),
        (final(reg)@, events@) == resolve_all(old(reg)@, pairs@),
{
    let mut events: Vec<Event> = Vec::new();
    let mut i: usize = 0;
    while i < pairs.len()
        invariant
            reg.wf(),
            reg.next_id() == old(reg).next_id(),
            0 <= i <= pairs@.len(),
            (reg@, events@) == resolve_all(old(reg)@, pairs@.take(i as int)),
        decreases pairs@.len() - i,
    {
        let (a, b) = pairs[i];
        let mut ev = resolve_one(reg, a, b);
        events.append(&mut ev);
        proof {
            assert(pairs@.take(i + 1).drop_last() == pairs@.take(i as int));
            assert(pairs@.take(i + 1).last() == pairs@[i as int]);
        }
        i += 1;
    }
    proof {
        assert(pairs@.take(pairs@.len() as int) == pairs@);
    }
    events
}

/// How many damage events in `ev` name the ship `id`.
pub open spec fn damage_count(ev: Seq<Event>, id: u64) -> nat
    decreases ev.len(),
{
    if ev.len() == 0 {
        0
    } else {
        damage_count(ev.drop_last(), id) + match ev.last() {
            Event::Damage { ship, lives: _ } => if ship == id { 1nat } else { 0nat },
            _ => 0nat,
        }
    }
}

proof fn lemma_damage_count_add(e1: Seq<Event>, e2: Seq<Event>, id: u64)
    ensures
        damage_count(e1.add(e2), id) == damage_count(e1, id) + damage_count(e2, id),
    decreases e2.len(),
{
    if e2.len() > 0 {
        assert(e1.add(e2).drop_last() =~= e1.add(e2.drop_last()));
        lemma_damage_count_add(e1, e2.drop_last(), id);
    } else {
        assert(e1.add(e2) =~= e1);
    }
}

proof fn lemma_struck_no_damage(ast: Body, id: u64)
    ensures
        damage_count(struck_events(ast), id) == 0,
{
    let i = Event::Impact { x: ast.x, y: ast.y };
    assert(seq![i].drop_last() =~= Seq::<Event>::empty());
    assert(damage_count(Seq::<Event>::empty(), id) == 0);
    assert(damage_count(seq![i], id) == 0);
    if ast.kind == BodyKind::Asteroid(Size::Large) {
        assert(struck_events(ast).drop_last() =~= seq![i]);
        assert(damage_count(struck_events(ast), id) == 0);
    }
}

/// One resolution step leaves identities unique, never removes ship `id`,
/// and either leaves it as it was or damages it once.
proof fn lemma_pair_ship(w: Seq<Body>, a: u64, b: u64, id: u64)
    requires
        ids_unique(w),
        lookup(w, id) is Some,
        lookup(w, id).unwrap().kind == BodyKind::Ship,
    ensures
        ids_unique(resolve_pair(w, a, b).0),
        lookup(resolve_pair(w, a, b).0, id) is Some,
        ({
            let sh = lookup(w, id).unwrap();
            let (w2, e) = resolve_pair(w, a, b);
            let sh2 = lookup(w2, id).unwrap();
            (damage_count(e, id) == 0 && sh2 == sh)
            || (damage_count(e, id) == 1 && sh.grace_ms == 0 && sh.lives > 0 && sh2 == damaged(sh))
        }),
{
    let sh = lookup(w, id).unwrap();
    assert(damage_count(Seq::<Event>::empty(), id) == 0);
    match (lookup(w, a), lookup(w, b)) {
        (Some(ba), Some(bb)) => {
            if a != b {
                lemma_lookup_some(w, a);
                lemma_lookup_some(w, b);
                lemma_unique_index(w, index_of(w, a));
                assert(ba.id == a && bb.id == b);
                if ba.collidable() && bb.collidable() {
                    match (ba.kind, bb.kind) {
                        (BodyKind::Asteroid(_), BodyKind::Asteroid(_)) => {
                            if a < b {
                                lemma_remove_two(w, a, b, id);
                            } else {
                                lemma_remove_two(w, b, a, id);
                            }
                            let i = Event::Impact { x: midpoint(ba.x, bb.x), y: midpoint(ba.y, bb.y) };
                            assert(seq![i].drop_last() =~= Seq::<Event>::empty());
                        },
                        (BodyKind::Asteroid(_), BodyKind::Projectile) => {
                            lemma_hit_ship(w, ba, bb, id);
                        },
                        (BodyKind::Projectile, BodyKind::Asteroid(_)) => {
                            lemma_hit_ship(w, bb, ba, id);
                        },
                        (BodyKind::Ship, BodyKind::Asteroid(_)) => {
                            lemma_crash_ship(w, ba, bb, id);
                        },
                        (BodyKind::Asteroid(_), BodyKind::Ship) => {
                            lemma_crash_ship(w, bb, ba, id);
                        },
                        _ => {},
                    }
                }
            }
        },
        _ => {},
    }
}

proof fn lemma_remove_two(w: Seq<Body>, a: u64, b: u64, id: u64)
    requires
        ids_unique(w),
        a != id,
        b != id,
    ensures
        ids_unique(remove_id(remove_id(w, a), b)),
        lookup(remove_id(remove_id(w, a), b), id) == lookup(w, id),
{
    crate::registry::lemma_remove_id(w, a);
    crate::registry::lemma_remove_id(remove_id(w, a), b);
}

proof fn lemma_hit_ship(w: Seq<Body>, ast: Body, proj: Body, id: u64)
    requires
        ids_unique(w),
        lookup(w, id) is Some,
        lookup(w, id).unwrap().kind == BodyKind::Ship,
        lookup(w, ast.id) == Some(ast),
        lookup(w, proj.id) == Some(proj),
        ast.kind is Asteroid,
        proj.kind == BodyKind::Projectile,
    ensures
        ids_unique(hit(w, ast, proj).0),
        lookup(hit(w, ast, proj).0, id) == lookup(w, id),
        damage_count(hit(w, ast, proj).1, id) == 0,
{
    lemma_remove_two(w, ast.id, proj.id, id);
    let size = match ast.kind { BodyKind::Asteroid(s) => s, _ => Size::Small };
    lemma_damage_count_add(seq![Event::Score(points(size))], struck_events(ast), id);
    lemma_struck_no_damage(ast, id);
    assert(seq![Event::Score(points(size))].drop_last() =~= Seq::<Event>::empty());
    assert(damage_count(Seq::<Event>::empty(), id) == 0);
    assert(damage_count(seq![Event::Score(points(size))], id) == 0);
}

proof fn lemma_crash_ship(w: Seq<Body>, ship: Body, ast: Body, id: u64)
    requires
        ids_unique(w),
        lookup(w, id) is Some,
        lookup(w, id).unwrap().kind == BodyKind::Ship,
        lookup(w, ast.id) == Some(ast),
        lookup(w, ship.id) == Some(ship),
        ast.kind is Asteroid,
        ship.kind == BodyKind::Ship,
    ensures
        ids_unique(crash(w, ship, ast).0),
        lookup(crash(w, ship, ast).0, id) is Some,
        ({
            let sh = lookup(w, id).unwrap();
            let (w2, e) = crash(w, ship, ast);
            let sh2 = lookup(w2, id).unwrap();
            (damage_count(e, id) == 0 && sh2 == sh)
            || (damage_count(e, id) == 1 && sh.grace_ms == 0 && sh.lives > 0 && sh2 == damaged(sh))
        }),
{
    let w1 = remove_id(w, ast.id);
    crate::registry::lemma_remove_id(w, ast.id);
    lemma_struck_no_damage(ast, id);
    assert(ast.id != id);
    assert(ast.id != ship.id);
    if ship.grace_ms == 0 && ship.lives > 0 {
        assert(lookup(w1, ship.id) == Some(ship));
        crate::registry::lemma_replace_id(w1, ship.id, damaged(ship));
        let d = Event::Damage { ship: ship.id, lives: (ship.lives - 1) as u8 };
        let e = struck_events(ast).push(d);
        assert(e.drop_last() =~= struck_events(ast));
        assert(e.last() == d);
    }
}

/// Over any sequence of candidate pairs resolved in one pass, a ship takes
/// at most one damage event, none at all while its grace period is active
/// or once it has no life left, and its life counter falls by exactly the
/// number of damage events that name it. The ship itself is never removed.
pub proof fn lemma_damage_once_per_grace(w: Seq<Body>, pairs: Seq<(u64, u64)>, id: u64)
    requires
        ids_unique(w),
        lookup(w, id) is Some,
        lookup(w, id).unwrap().kind == BodyKind::Ship,
    ensures
        ({
            let sh = lookup(w, id).unwrap();
            let (w2, ev) = resolve_all(w, pairs);
            &&& ids_unique(w2)
            &&& lookup(w2, id) is Some
            &&& damage_count(ev, id) <= 1
            &&& (sh.grace_ms > 0 || sh.lives == 0) ==> damage_count(ev, id) == 0
            &&& lookup(w2, id).unwrap().lives == sh.lives - damage_count(ev, id)
            &&& damage_count(ev, id) == 1 ==> lookup(w2, id).unwrap().grace_ms == GRACE_MS
            &&& damage_count(ev, id) == 0 ==> lookup(w2, id).unwrap() == sh
            &&& damage_count(ev, id) == 1 ==> lookup(w2, id).unwrap() == damaged(sh)
        }),
    decreases pairs.len(),
{
    let sh = lookup(w, id).unwrap();
    if pairs.len() == 0 {
        assert(damage_count(Seq::<Event>::empty(), id) == 0);
    } else {
        lemma_damage_once_per_grace(w, pairs.drop_last(), id);
        let (w1, e1) = resolve_all(w, pairs.drop_last());
        let (a, b) = pairs.last();
        lemma_pair_ship(w1, a, b, id);
        let (w2, e2) = resolve_pair(w1, a, b);
        lemma_damage_count_add(e1, e2, id);
        let sh1 = lookup(w1, id).unwrap();
        if damage_count(e1, id) == 1 {
            assert(sh1.grace_ms == GRACE_MS);
            assert(damage_count(e2, id) == 0);
        }
    }
}

/// Resolution tolerates double emission: right after a pair is resolved,
/// the same contact seen from the other side, with the identities in the
/// other slots, changes nothing and reports nothing.
pub proof fn lemma_double_emission(w: Seq<Body>, a: u64, b: u64)
    requires
        ids_unique(w),
    ensures
        resolve_pair(resolve_pair(w, a, b).0, b, a) == (resolve_pair(w, a, b).0, Seq::<Event>::empty()),
{
    let w1 = resolve_pair(w, a, b).0;
    match (lookup(w, a), lookup(w, b)) {
        (Some(ba), Some(bb)) => {
            if a != b {
                lemma_lookup_some(w, a);
                lemma_lookup_some(w, b);
                assert(ba.id == a && bb.id == b);
                if ba.collidable() && bb.collidable() {
                    match (ba.kind, bb.kind) {
                        (BodyKind::Asteroid(_), BodyKind::Asteroid(_)) => {
                            let (lo, hi) = if a < b { (a, b) } else { (b, a) };
                            crate::registry::lemma_remove_id(w, lo);
                            crate::registry::lemma_remove_id(remove_id(w, lo), hi);
                            assert(lookup(w1, hi) is None);
                        },
                        (BodyKind::Asteroid(_), BodyKind::Projectile) => {
                            crate::registry::lemma_remove_id(w, a);
                            crate::registry::lemma_remove_id(remove_id(w, a), b);
                            assert(lookup(w1, b) is None);
                        },
                        (BodyKind::Projectile, BodyKind::Asteroid(_)) => {
                            crate::registry::lemma_remove_id(w, b);
                            crate::registry::lemma_remove_id(remove_id(w, b), a);
                            assert(lookup(w1, a) is None);
                        },
                        (BodyKind::Ship, BodyKind::Asteroid(_)) => {
                            lemma_crash_removes(w, ba, bb);
                        },
                        (BodyKind::Asteroid(_), BodyKind::Ship) => {
                            lemma_crash_removes(w, bb, ba);
                        },
                        _ => {},
                    }
                }
            }
        },
        _ => {},
    }
}

proof fn lemma_crash_removes(w: Seq<Body>, ship: Body, ast: Body)
    requires
        ids_unique(w),
        lookup(w, ship.id) == Some(ship),
        ship.id != ast.id,
    ensures
        lookup(crash(w, ship, ast).0, ast.id) is None,
{
    crate::registry::lemma_remove_id(w, ast.id);
    let w1 = remove_id(w, ast.id);
    if ship.grace_ms == 0 && ship.lives > 0 {
        assert(lookup(w1, ship.id) == Some(ship));
        crate::registry::lemma_replace_id(w1, ship.id, damaged(ship));
        assert(lookup(w1, ast.id) is None);
    }
}

/// Resolution does not depend on which slot each body of a pair stands
/// in: the pair `(b, a)` leaves the same world and reports the same events
/// as `(a, b)`.
pub proof fn lemma_slot_independent(w: Seq<Body>, a: u64, b: u64)
    ensures
        resolve_pair(w, a, b) == resolve_pair(w, b, a),
{
    match (lookup(w, a), lookup(w, b)) {
        (Some(ba), Some(bb)) => {
            if a != b && ba.collidable() && bb.collidable() {
                match (ba.kind, bb.kind) {
                    (BodyKind::Asteroid(_), BodyKind::Asteroid(_)) => {
                        assert(midpoint(ba.x, bb.x) == midpoint(bb.x, ba.x));
                        assert(midpoint(ba.y, bb.y) == midpoint(bb.y, ba.y));
                        assert(collide_asteroids(w, ba, bb) == collide_asteroids(w, bb, ba));
                    },
                    _ => {},
                }
            }
        },
        _ => {},
    }
}

} // verus!
