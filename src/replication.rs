use vstd::prelude::*;
use crate::body::{Body, BodyKind};
use crate::registry::{Registry, ids_unique};

verus! {

/// What the server tells clients of one body: identity, kind and motion.
#[derive(PartialEq, Eq, Structural, Clone, Copy, Debug)]
pub struct Snapshot {
    pub id: u64,
    pub kind: BodyKind,
    pub x: i64,
    pub y: i64,
    pub vx: i64,
    pub vy: i64,
}

/// A client's presentation-only copy of a body. `presented` is local: it
/// records that the presentation layer has attached a visual to it.
#[derive(PartialEq, Eq, Structural, Clone, Copy, Debug)]
pub struct Replica {
    pub id: u64,
    pub kind: BodyKind,
    pub x: i64,
    pub y: i64,
    pub vx: i64,
    pub vy: i64,
    pub presented: bool,
}

pub open spec fn snapshot_of(b: Body) -> Snapshot {
    Snapshot { id: b.id, kind: b.kind, x: b.x, y: b.y, vx: b.vx, vy: b.vy }
}

/// Some replica of `s` has identity `id`.
pub open spec fn mirrors(s: Seq<Replica>, id: u64) -> bool {
    exists|i: int| 0 <= i < s.len() && s[i].id == id
}

/// The replica of identity `id` in `s`, if there is one.
pub open spec fn replica_lookup(s: Seq<Replica>, id: u64) -> Option<Replica> {
    if mirrors(s, id) {
        Some(s[choose|i: int| 0 <= i < s.len() && s[i].id == id])
    } else {
        None
    }
}

/// The replica a snapshot makes on a client that had `prev` for it.
pub open spec fn replica_of(snap: Snapshot, prev: Option<Replica>) -> Replica {
    Replica {
        id: snap.id,
        kind: snap.kind,
        x: snap.x,
        y: snap.y,
        vx: snap.vx,
        vy: snap.vy,
        presented: match prev {
            Some(r) => r.presented,
            None => false,
        },
    }
}

/// The replicas a client holds after reconciling `prev` with a full
/// snapshot: one per snapshot entry, in its order, keeping only the local
/// presentation state of replicas it already had. Replicas the snapshot
/// no longer names are destroyed.
pub open spec fn reconciled(prev: Seq<Replica>, snaps: Seq<Snapshot>) -> Seq<Replica> {
    Seq::new(snaps.len(), |k: int| replica_of(snaps[k], replica_lookup(prev, snaps[k].id)))
}

/// The server side: a snapshot of every body, in registry order.
pub fn snapshot(reg: &Registry) -> (snaps: Vec<Snapshot>)
    requires
        reg.wf(),
    ensures
        snaps@ == reg@.map_values(|b: Body| snapshot_of(b)),
        snapshot_ids_unique(snaps@),
{
    let mut snaps: Vec<Snapshot> = Vec::new();
    let mut i: usize = 0;
    while i < reg.len()
        invariant
            0 <= i <= reg@.len(),
            snaps@ == reg@.take(i as int).map_values(|b: Body| snapshot_of(b)),
        decreases reg@.len() - i,
    {
        let b = reg.body_at(i);
        snaps.push(Snapshot { id: b.id, kind: b.kind, x: b.x, y: b.y, vx: b.vx, vy: b.vy });
        proof {
            assert(reg@.take(i + 1).map_values(|b: Body| snapshot_of(b)) =~= reg@.take(i as int).map_values(|b: Body| snapshot_of(b)).push(snapshot_of(b)));
        }
        i += 1;
    }
    proof {
        assert(reg@.take(reg@.len() as int) == reg@);
        assert forall|a: int, c: int| 0 <= a < snaps@.len() && 0 <= c < snaps@.len() && a != c implies snaps@[a].id != snaps@[c].id by {
            assert(snaps@[a].id == reg@[a].id);
            assert(snaps@[c].id == reg@[c].id);
        }
    }
    snaps
}

/// The client side: the presentation copies of the replicated bodies.
pub struct Mirror {
    replicas: Vec<Replica>,
}

impl View for Mirror {
    type V = Seq<Replica>;

    closed spec fn view(&self) -> Seq<Replica> {
        self.replicas@
    }
}

fn find_replica(v: &Vec<Replica>, id: u64) -> (r: Option<Replica>)
    ensures
        r.is_some() == mirrors(v@, id),
        r.is_some() ==> r.unwrap().id == id && exists|i: int| 0 <= i < v@.len() && v@[i] == r.unwrap(),
{
    let mut i: usize = 0;
    while i < v.len()
        invariant
            0 <= i <= v@.len(),
            forall|j: int| 0 <= j < i ==> v@[j].id != id,
        decreases v@.len() - i,
    {
        if v[i].id == id {
            return Some(v[i]);
        }
        i += 1;
    }
    None
}

/// No two entries of a snapshot share an identity.
pub open spec fn snapshot_ids_unique(s: Seq<Snapshot>) -> bool {
    forall|i: int, j: int| 0 <= i < s.len() && 0 <= j < s.len() && i != j ==> s[i].id != s[j].id
}

/// No two replicas of `s` share an identity.
pub open spec fn replica_ids_unique(s: Seq<Replica>) -> bool {
    forall|i: int, j: int| 0 <= i < s.len() && 0 <= j < s.len() && i != j ==> s[i].id != s[j].id
}

proof fn lemma_replica_lookup(s: Seq<Replica>, i: int)
    requires
        replica_ids_unique(s),
        0 <= i < s.len(),
    ensures
        replica_lookup(s, s[i].id) == Some(s[i]),
{
    assert(mirrors(s, s[i].id));
}

impl Mirror {
    pub fn new() -> (m: Mirror)
        ensures
            m@ == Seq::<Replica>::empty(),
    {
        Mirror { replicas: Vec::new() }
    }

    pub fn len(&self) -> (n: usize)
        ensures
            n == self@.len(),
    {
        self.replicas.len()
    }

    /// The replica of identity `id`, if the client holds one.
    pub fn get(&self, id: u64) -> (r: Option<Replica>)
        requires
            replica_ids_unique(self@),
        ensures
            r == replica_lookup(self@, id),
    {
        let r = find_replica(&self.replicas, id);
        proof {
            if r.is_some() {
                let i = choose|i: int| 0 <= i < self@.len() && self@[i] == r.unwrap();
                lemma_replica_lookup(self@, i);
            }
        }
        r
    }

    /// Reconciles the client's replicas with a full server snapshot.
    pub fn apply(&mut self, snaps: &Vec<Snapshot>)
        requires
            replica_ids_unique(old(self)@),
        ensures
            final(self)@ == reconciled(old(self)@, snaps@),
            snapshot_ids_unique(snaps@) ==> replica_ids_unique(final(self)@),
    {
        let mut next: Vec<Replica> = Vec::new();
        let mut k: usize = 0;
        while k < snaps.len()
            invariant
                0 <= k <= snaps@.len(),
                replica_ids_unique(self@),
                next@ == reconciled(self@, snaps@.take(k as int)),
            decreases snaps@.len() - k,
        {
            let s = snaps[k];
            let prev = self.get(s.id);
            let presented = match prev {
                Some(r) => r.presented,
                None => false,
            };
            next.push(Replica { id: s.id, kind: s.kind, x: s.x, y: s.y, vx: s.vx, vy: s.vy, presented });
            proof {
                assert(next@ =~= reconciled(self@, snaps@.take(k + 1)));
            }
            k += 1;
        }
        proof {
            assert(snaps@.take(snaps@.len() as int) == snaps@);
            assert forall|a: int, c: int| 0 <= a < next@.len() && 0 <= c < next@.len() && a != c && snapshot_ids_unique(snaps@) implies next@[a].id != next@[c].id by {
                assert(next@[a].id == snaps@[a].id);
                assert(next@[c].id == snaps@[c].id);
            }
        }
        self.replicas = next;
    }

    /// Records that the presentation layer attached a visual to replica `id`.
    pub fn mark_presented(&mut self, id: u64)
        ensures
            final(self)@.len() == old(self)@.len(),
            forall|i: int| 0 <= i < final(self)@.len() ==> #[trigger] final(self)@[i] == (if old(self)@[i].id == id {
                Replica { presented: true, ..old(self)@[i] }
            } else {
                old(self)@[i]
            }),
    {
        let mut i: usize = 0;
        while i < self.replicas.len()
            invariant
                0 <= i <= self@.len(),
                self@.len() == old(self)@.len(),
                forall|j: int| 0 <= j < i ==> #[trigger] self@[j] == (if old(self)@[j].id == id {
                    Replica { presented: true, ..old(self)@[j] }
                } else {
                    old(self)@[j]
                }),
                forall|j: int| i <= j < self@.len() ==> self@[j] == old(self)@[j],
            decreases self@.len() - i,
        {
            let r = self.replicas[i];
            if r.id == id {
                self.replicas.set(i, Replica { presented: true, ..r });
            }
            i += 1;
        }
    }
}

/// A snapshot of the server's bodies, applied to a client that holds no
/// replicas yet, gives every body a replica with the same identity, kind,
/// place and velocity, and gives the client nothing else.
pub proof fn lemma_snapshot_round_trip(bodies: Seq<Body>)
    requires
        ids_unique(bodies),
    ensures
        ({
            let m = reconciled(Seq::<Replica>::empty(), bodies.map_values(|b: Body| snapshot_of(b)));
            &&& m.len() == bodies.len()
            &&& replica_ids_unique(m)
            &&& forall|i: int| 0 <= i < bodies.len() ==> #[trigger] replica_lookup(m, bodies[i].id) == Some(Replica {
                id: bodies[i].id,
                kind: bodies[i].kind,
                x: bodies[i].x,
                y: bodies[i].y,
                vx: bodies[i].vx,
                vy: bodies[i].vy,
                presented: false,
            })
            &&& forall|id: u64| #[trigger] mirrors(m, id) ==> exists|i: int| 0 <= i < bodies.len() && bodies[i].id == id
        }),
{
    let snaps = bodies.map_values(|b: Body| snapshot_of(b));
    let m = reconciled(Seq::<Replica>::empty(), snaps);
    assert forall|i: int| 0 <= i < m.len() implies #[trigger] m[i].id == bodies[i].id by {
        assert(!mirrors(Seq::<Replica>::empty(), snaps[i].id));
    }
    assert(replica_ids_unique(m));
    assert forall|i: int| 0 <= i < bodies.len() implies #[trigger] replica_lookup(m, bodies[i].id) == Some(Replica {
        id: bodies[i].id,
        kind: bodies[i].kind,
        x: bodies[i].x,
        y: bodies[i].y,
        vx: bodies[i].vx,
        vy: bodies[i].vy,
        presented: false,
    }) by {
        assert(!mirrors(Seq::<Replica>::empty(), snaps[i].id));
        assert(m[i].id == bodies[i].id);
        lemma_replica_lookup(m, i);
    }
    assert forall|id: u64| #[trigger] mirrors(m, id) implies exists|i: int| 0 <= i < bodies.len() && bodies[i].id == id by {
        let i = choose|i: int| 0 <= i < m.len() && m[i].id == id;
        assert(m[i].id == bodies[i].id);
    }
}

/// One replication message from the server to a client.
#[derive(PartialEq, Eq, Structural, Clone, Copy, Debug)]
pub enum Message {
    /// A body came into being.
    Create(Snapshot),
    /// A body's motion changed.
    Update(Snapshot),
    /// A body is gone.
    Destroy(u64),
}

/// Some entry of `s` has identity `id`.
pub open spec fn names(s: Seq<Snapshot>, id: u64) -> bool {
    exists|i: int| 0 <= i < s.len() && s[i].id == id
}

/// What one message does to the replica a client holds under `id`.
pub open spec fn message_effect(prev: Option<Replica>, id: u64, m: Message) -> Option<Replica> {
    match m {
        Message::Create(snap) => if snap.id == id { Some(replica_of(snap, prev)) } else { prev },
        Message::Update(snap) => if snap.id == id { Some(replica_of(snap, prev)) } else { prev },
        Message::Destroy(d) => if d == id { None } else { prev },
    }
}

/// What a sequence of messages, in order, does to the replica under `id`.
pub open spec fn messages_effect(prev: Option<Replica>, id: u64, ms: Seq<Message>) -> Option<Replica>
    decreases ms.len(),
{
    if ms.len() == 0 {
        prev
    } else {
        message_effect(messages_effect(prev, id, ms.drop_last()), id, ms.last())
    }
}

/// Destroy messages for the entries of `prev` that `now` no longer names.
pub open spec fn destroys(prev: Seq<Snapshot>, now: Seq<Snapshot>) -> Seq<Message>
    decreases prev.len(),
{
    if prev.len() == 0 {
        Seq::empty()
    } else if names(now, prev.last().id) {
        destroys(prev.drop_last(), now)
    } else {
        destroys(prev.drop_last(), now).push(Message::Destroy(prev.last().id))
    }
}

/// Create or update messages for every entry of `now`, in its order.
pub open spec fn upserts(prev: Seq<Snapshot>, now: Seq<Snapshot>) -> Seq<Message> {
    Seq::new(now.len(), |k: int| if names(prev, now[k].id) { Message::Update(now[k]) } else { Message::Create(now[k]) })
}

/// The messages that take a client from snapshot `prev` to snapshot `now`.
pub open spec fn delta(prev: Seq<Snapshot>, now: Seq<Snapshot>) -> Seq<Message> {
    destroys(prev, now).add(upserts(prev, now))
}

fn names_id(v: &Vec<Snapshot>, id: u64) -> (r: bool)
    ensures
        r == names(v@, id),
{
    let mut i: usize = 0;
    while i < v.len()
        invariant
            0 <= i <= v@.len(),
            forall|j: int| 0 <= j < i ==> v@[j].id != id,
        decreases v@.len() - i,
    {
        if v[i].id == id {
            return true;
        }
        i += 1;
    }
    false
}

/// The server side of replication: the messages that take a client
/// holding snapshot `prev` to snapshot `now`. Destructions come first,
/// then one creation or update per entry of `now`.
pub fn diff(prev: &Vec<Snapshot>, now: &Vec<Snapshot>) -> (ms: Vec<Message>)
    ensures
        ms@ == delta(prev@, now@),
{
    let mut ms: Vec<Message> = Vec::new();
    let mut i: usize = 0;
    while i < prev.len()
        invariant
            0 <= i <= prev@.len(),
            ms@ == destroys(prev@.take(i as int), now@),
        decreases prev@.len() - i,
    {
        let p = prev[i];
        proof {
            assert(prev@.take(i + 1).drop_last() == prev@.take(i as int));
            assert(prev@.take(i + 1).last() == p);
        }
        if !names_id(now, p.id) {
            ms.push(Message::Destroy(p.id));
        }
        i += 1;
    }
    proof {
        assert(prev@.take(prev@.len() as int) == prev@);
    }
    let ghost d = ms@;
    let mut k: usize = 0;
    while k < now.len()
        invariant
            0 <= k <= now@.len(),
            d == destroys(prev@, now@),
            ms@ == d.add(upserts(prev@, now@).take(k as int)),
        decreases now@.len() - k,
    {
        let s = now[k];
        if names_id(prev, s.id) {
            ms.push(Message::Update(s));
        } else {
            ms.push(Message::Create(s));
        }
        proof {
            assert(ms@ =~= d.add(upserts(prev@, now@).take(k + 1)));
        }
        k += 1;
    }
    proof {
        assert(upserts(prev@, now@).take(now@.len() as int) =~= upserts(prev@, now@));
    }
    ms
}

proof fn lemma_effect_add(r: Option<Replica>, id: u64, a: Seq<Message>, b: Seq<Message>)
    ensures
        messages_effect(r, id, a.add(b)) == messages_effect(messages_effect(r, id, a), id, b),
    decreases b.len(),
{
    if b.len() == 0 {
        assert(a.add(b) =~= a);
    } else {
        assert(a.add(b).drop_last() =~= a.add(b.drop_last()));
        lemma_effect_add(r, id, a, b.drop_last());
    }
}

proof fn lemma_destroys_effect(r: Option<Replica>, id: u64, prev: Seq<Snapshot>, now: Seq<Snapshot>)
    ensures
        messages_effect(r, id, destroys(prev, now)) == (if names(prev, id) && !names(now, id) { None } else { r }),
    decreases prev.len(),
{
    if prev.len() > 0 {
        let p = prev.drop_last();
        lemma_destroys_effect(r, id, p, now);
        assert(names(prev, id) == (names(p, id) || prev.last().id == id)) by {
            if names(prev, id) {
                let i = choose|i: int| 0 <= i < prev.len() && prev[i].id == id;
                if i < p.len() {
                    assert(p[i] == prev[i]);
                }
            }
            if names(p, id) {
                let i = choose|i: int| 0 <= i < p.len() && p[i].id == id;
                assert(prev[i] == p[i]);
            }
        }
        if !names(now, prev.last().id) {
            let m = Message::Destroy(prev.last().id);
            let d = destroys(p, now);
            assert(destroys(prev, now) == d.push(m));
            assert(d.push(m).drop_last() =~= d);
            assert(messages_effect(r, id, d.push(m)) == message_effect(messages_effect(r, id, d), id, m));
        } else {
            assert(destroys(prev, now) == destroys(p, now));
        }
    } else {
        assert(!names(prev, id));
        assert(destroys(prev, now) == Seq::<Message>::empty());
    }
}

proof fn lemma_upserts_effect(r: Option<Replica>, id: u64, prev: Seq<Snapshot>, now: Seq<Snapshot>, k: int)
    requires
        snapshot_ids_unique(now),
        0 <= k <= now.len(),
    ensures
        messages_effect(r, id, upserts(prev, now).take(k)) == (
            if exists|i: int| 0 <= i < k && now[i].id == id {
                Some(replica_of(now[choose|i: int| 0 <= i < k && now[i].id == id], r))
            } else {
                r
            }
        ),
    decreases k,
{
    if k > 0 {
        let u = upserts(prev, now);
        assert(u.take(k).drop_last() =~= u.take(k - 1));
        lemma_upserts_effect(r, id, prev, now, k - 1);
        let before = messages_effect(r, id, u.take(k - 1));
        if now[k - 1].id == id {
            assert(!exists|i: int| 0 <= i < k - 1 && now[i].id == id);
            let c = choose|i: int| 0 <= i < k && now[i].id == id;
            assert(c == k - 1);
            assert(before == r);
        } else {
            if exists|i: int| 0 <= i < k - 1 && now[i].id == id {
                let c1 = choose|i: int| 0 <= i < k - 1 && now[i].id == id;
                let c = choose|i: int| 0 <= i < k && now[i].id == id;
                assert(c == c1);
            } else {
                assert(!exists|i: int| 0 <= i < k && now[i].id == id);
            }
        }
    }
}

/// Applying the messages from `prev` to `now` to a client that holds
/// replicas only of bodies named in `prev` leaves it holding, under every
/// identity named in `now`, the replica of that entry (keeping the local
/// presentation state it had), and nothing under any other identity.
pub proof fn lemma_delta_reproduces(prev: Seq<Snapshot>, now: Seq<Snapshot>, id: u64, held: Option<Replica>)
    requires
        snapshot_ids_unique(now),
        held is Some ==> names(prev, id),
    ensures
        messages_effect(held, id, delta(prev, now)) == (if names(now, id) {
            Some(replica_of(now[choose|i: int| 0 <= i < now.len() && now[i].id == id], held))
        } else {
            None::<Replica>
        }),
{
    lemma_effect_add(held, id, destroys(prev, now), upserts(prev, now));
    lemma_destroys_effect(held, id, prev, now);
    let mid = messages_effect(held, id, destroys(prev, now));
    lemma_upserts_effect(mid, id, prev, now, now.len() as int);
    assert(upserts(prev, now).take(now.len() as int) =~= upserts(prev, now));
    if names(now, id) {
        assert(mid == held);
    }
}

proof fn lemma_replica_update(s: Seq<Replica>, i: int, r: Replica)
    requires
        replica_ids_unique(s),
        0 <= i < s.len(),
        r.id == s[i].id,
    ensures
        replica_ids_unique(s.update(i, r)),
        forall|id: u64| #[trigger] replica_lookup(s.update(i, r), id) == (if id == r.id { Some(r) } else { replica_lookup(s, id) }),
{
    let t = s.update(i, r);
    assert forall|a: int, c: int| 0 <= a < t.len() && 0 <= c < t.len() && a != c implies t[a].id != t[c].id by {
        assert(t[a].id == s[a].id);
        assert(t[c].id == s[c].id);
    }
    assert forall|id: u64| #[trigger] replica_lookup(t, id) == (if id == r.id { Some(r) } else { replica_lookup(s, id) }) by {
        if id == r.id {
            lemma_replica_lookup(t, i);
        } else if mirrors(s, id) {
            let j = choose|j: int| 0 <= j < s.len() && s[j].id == id;
            assert(t[j] == s[j]);
            lemma_replica_lookup(s, j);
            lemma_replica_lookup(t, j);
        } else if mirrors(t, id) {
            let j = choose|j: int| 0 <= j < t.len() && t[j].id == id;
            assert(t[j].id == s[j].id);
        }
    }
}

proof fn lemma_replica_push(s: Seq<Replica>, r: Replica)
    requires
        replica_ids_unique(s),
        !mirrors(s, r.id),
    ensures
        replica_ids_unique(s.push(r)),
        forall|id: u64| #[trigger] replica_lookup(s.push(r), id) == (if id == r.id { Some(r) } else { replica_lookup(s, id) }),
{
    let t = s.push(r);
    assert forall|a: int, c: int| 0 <= a < t.len() && 0 <= c < t.len() && a != c implies t[a].id != t[c].id by {
        if a < s.len() && c < s.len() {
            assert(t[a] == s[a] && t[c] == s[c]);
        } else if a < s.len() {
            assert(t[a] == s[a]);
        } else if c < s.len() {
            assert(t[c] == s[c]);
        }
    }
    assert forall|id: u64| #[trigger] replica_lookup(t, id) == (if id == r.id { Some(r) } else { replica_lookup(s, id) }) by {
        if id == r.id {
            lemma_replica_lookup(t, s.len() as int);
        } else if mirrors(s, id) {
            let j = choose|j: int| 0 <= j < s.len() && s[j].id == id;
            assert(t[j] == s[j]);
            lemma_replica_lookup(s, j);
            lemma_replica_lookup(t, j);
        } else if mirrors(t, id) {
            let j = choose|j: int| 0 <= j < t.len() && t[j].id == id;
            assert(j < s.len());
            assert(t[j] == s[j]);
        }
    }
}

proof fn lemma_replica_remove(s: Seq<Replica>, i: int)
    requires
        replica_ids_unique(s),
        0 <= i < s.len(),
    ensures
        replica_ids_unique(s.remove(i)),
        forall|id: u64| #[trigger] replica_lookup(s.remove(i), id) == (if id == s[i].id { None } else { replica_lookup(s, id) }),
{
    let t = s.remove(i);
    assert forall|a: int, c: int| 0 <= a < t.len() && 0 <= c < t.len() && a != c implies t[a].id != t[c].id by {
        let a2 = if a < i { a } else { a + 1 };
        let c2 = if c < i { c } else { c + 1 };
        assert(t[a] == s[a2]);
        assert(t[c] == s[c2]);
    }
    assert forall|id: u64| #[trigger] replica_lookup(t, id) == (if id == s[i].id { None } else { replica_lookup(s, id) }) by {
        if mirrors(t, id) {
            let k = choose|k: int| 0 <= k < t.len() && t[k].id == id;
            let k2 = if k < i { k } else { k + 1 };
            assert(t[k] == s[k2]);
            lemma_replica_lookup(t, k);
            lemma_replica_lookup(s, k2);
        } else if id != s[i].id && mirrors(s, id) {
            let j = choose|j: int| 0 <= j < s.len() && s[j].id == id;
            assert(j != i);
            let j2 = if j < i { j } else { j - 1 };
            assert(t[j2] == s[j]);
        }
    }
}

fn replica_position(v: &Vec<Replica>, id: u64) -> (r: Option<usize>)
    ensures
        r.is_some() ==> r.unwrap() < v@.len() && v@[r.unwrap() as int].id == id,
        r.is_none() ==> !mirrors(v@, id),
{
    let mut i: usize = 0;
    while i < v.len()
        invariant
            0 <= i <= v@.len(),
            forall|j: int| 0 <= j < i ==> v@[j].id != id,
        decreases v@.len() - i,
    {
        if v[i].id == id {
            return Some(i);
        }
        i += 1;
    }
    None
}

impl Mirror {
    fn upsert(&mut self, snap: Snapshot)
        requires
            replica_ids_unique(old(self)@),
        ensures
            replica_ids_unique(final(self)@),
            forall|id: u64| #[trigger] replica_lookup(final(self)@, id) == (if id == snap.id {
                Some(replica_of(snap, replica_lookup(old(self)@, id)))
            } else {
                replica_lookup(old(self)@, id)
            }),
    {
        match replica_position(&self.replicas, snap.id) {
            Some(i) => {
                let prev = self.replicas[i];
                proof {
                    lemma_replica_lookup(self@, i as int);
                    lemma_replica_update(self@, i as int, replica_of(snap, Some(prev)));
                }
                self.replicas.set(i, Replica { id: snap.id, kind: snap.kind, x: snap.x, y: snap.y, vx: snap.vx, vy: snap.vy, presented: prev.presented });
            },
            None => {
                proof {
                    lemma_replica_push(self@, replica_of(snap, None));
                }
                self.replicas.push(Replica { id: snap.id, kind: snap.kind, x: snap.x, y: snap.y, vx: snap.vx, vy: snap.vy, presented: false });
            },
        }
    }

    /// Applies one replication message.
    pub fn receive(&mut self, m: Message)
        requires
            replica_ids_unique(old(self)@),
        ensures
            replica_ids_unique(final(self)@),
            forall|id: u64| #[trigger] replica_lookup(final(self)@, id) == message_effect(replica_lookup(old(self)@, id), id, m),
    {
        match m {
            Message::Create(snap) => self.upsert(snap),
            Message::Update(snap) => self.upsert(snap),
            Message::Destroy(d) => {
                match replica_position(&self.replicas, d) {
                    Some(i) => {
                        proof {
                            lemma_replica_remove(self@, i as int);
                        }
                        self.replicas.remove(i);
                    },
                    None => {},
                }
            },
        }
    }

    /// Applies replication messages in the order they arrived.
    pub fn receive_all(&mut self, ms: &Vec<Message>)
        requires
            replica_ids_unique(old(self)@),
        ensures
            replica_ids_unique(final(self)@),
            forall|id: u64| #[trigger] replica_lookup(final(self)@, id) == messages_effect(replica_lookup(old(self)@, id), id, ms@),
    {
        let mut i: usize = 0;
        while i < ms.len()
            invariant
                0 <= i <= ms@.len(),
                replica_ids_unique(self@),
                forall|id: u64| #[trigger] replica_lookup(self@, id) == messages_effect(replica_lookup(old(self)@, id), id, ms@.take(i as int)),
            decreases ms@.len() - i,
        {
            let m = ms[i];
            self.receive(m);
            proof {
                assert(ms@.take(i + 1).drop_last() =~= ms@.take(i as int));
                assert(ms@.take(i + 1).last() == m);
            }
            i += 1;
        }
        proof {
            assert(ms@.take(ms@.len() as int) =~= ms@);
        }
    }
}

} // verus!
