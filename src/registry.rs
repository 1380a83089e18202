use vstd::prelude::*;
use crate::body::{Body, moved, graced, cooled, wrap_result, STEP_LIMIT_MS};

verus! {

/// Some body of `s` has identity `id`.
pub open spec fn has_id(s: Seq<Body>, id: u64) -> bool {
    exists|i: int| 0 <= i < s.len() && s[i].id == id
}

/// No two bodies of `s` share an identity.
pub open spec fn ids_unique(s: Seq<Body>) -> bool {
    forall|i: int, j: int| 0 <= i < s.len() && 0 <= j < s.len() && i != j ==> s[i].id != s[j].id
}

/// The position of the body with identity `id` in `s`.
pub open spec fn index_of(s: Seq<Body>, id: u64) -> int {
    choose|i: int| 0 <= i < s.len() && s[i].id == id
}

/// The body with identity `id`, if `s` holds one.
pub open spec fn lookup(s: Seq<Body>, id: u64) -> Option<Body> {
    if has_id(s, id) {
        Some(s[index_of(s, id)])
    } else {
        None
    }
}

/// `s` without the body of identity `id`.
pub open spec fn remove_id(s: Seq<Body>, id: u64) -> Seq<Body> {
    if has_id(s, id) {
        s.remove(index_of(s, id))
    } else {
        s
    }
}

/// `s` with the body of identity `id` replaced by `b`.
pub open spec fn replace_id(s: Seq<Body>, id: u64, b: Body) -> Seq<Body> {
    if has_id(s, id) {
        s.update(index_of(s, id), b)
    } else {
        s
    }
}

/// The bodies of `s` that survive wrapping, wrapped, in their order.
pub open spec fn wrap_all(s: Seq<Body>) -> Seq<Body>
    decreases s.len(),
{
    if s.len() == 0 {
        Seq::empty()
    } else {
        let rest = wrap_all(s.drop_last());
        match wrap_result(s.last()) {
            Some(b) => rest.push(b),
            None => rest,
        }
    }
}

/// Every body of `s` after `dt_ms` milliseconds of motion.
pub open spec fn move_all(s: Seq<Body>, dt_ms: u64) -> Seq<Body> {
    s.map_values(|b: Body| moved(b, dt_ms))
}

/// Every body of `s` after its grace period has run for `dt_ms` more milliseconds.
pub open spec fn grace_all(s: Seq<Body>, dt_ms: u64) -> Seq<Body> {
    s.map_values(|b: Body| graced(b, dt_ms))
}

/// Every body of `s` after its fire cooldown has run for `dt_ms` more milliseconds.
pub open spec fn cool_all(s: Seq<Body>, dt_ms: u64) -> Seq<Body> {
    s.map_values(|b: Body| cooled(b, dt_ms))
}

/// Every body of `t` has the identity of some body of `s`.
pub open spec fn ids_within(t: Seq<Body>, s: Seq<Body>) -> bool {
    forall|k: int| 0 <= k < t.len() ==> has_id(s, #[trigger] t[k].id)
}

pub proof fn lemma_unique_index(s: Seq<Body>, i: int)
    requires
        ids_unique(s),
        0 <= i < s.len(),
    ensures
        has_id(s, s[i].id),
        index_of(s, s[i].id) == i,
        lookup(s, s[i].id) == Some(s[i]),
{
    assert(has_id(s, s[i].id));
}

pub proof fn lemma_lookup_some(s: Seq<Body>, id: u64)
    requires
        ids_unique(s),
        has_id(s, id),
    ensures
        0 <= index_of(s, id) < s.len(),
        s[index_of(s, id)].id == id,
        lookup(s, id) == Some(s[index_of(s, id)]),
{
}

/// Removing one identity leaves the others where they were and keeps
/// identities unique.
pub proof fn lemma_remove_id(s: Seq<Body>, x: u64)
    requires
        ids_unique(s),
    ensures
        ids_unique(remove_id(s, x)),
        !has_id(remove_id(s, x), x),
        forall|id: u64| id != x ==> #[trigger] lookup(remove_id(s, x), id) == lookup(s, id),
        forall|k: int| 0 <= k < remove_id(s, x).len() ==> has_id(s, #[trigger] remove_id(s, x)[k].id),
{
    if has_id(s, x) {
        let i = index_of(s, x);
        let t = s.remove(i);
        assert(t == remove_id(s, x));
        assert forall|a: int, b: int| 0 <= a < t.len() && 0 <= b < t.len() && a != b implies t[a].id != t[b].id by {
            let a2 = if a < i { a } else { a + 1 };
            let b2 = if b < i { b } else { b + 1 };
            assert(t[a] == s[a2]);
            assert(t[b] == s[b2]);
        }
        assert forall|k: int| 0 <= k < t.len() implies has_id(s, #[trigger] t[k].id) by {
            let k2 = if k < i { k } else { k + 1 };
            assert(t[k] == s[k2]);
        }
        assert(!has_id(t, x)) by {
            if has_id(t, x) {
                let k = choose|k: int| 0 <= k < t.len() && t[k].id == x;
                let k2 = if k < i { k } else { k + 1 };
                assert(t[k] == s[k2]);
            }
        }
        assert forall|id: u64| id != x implies #[trigger] lookup(t, id) == lookup(s, id) by {
            if has_id(s, id) {
                let j = index_of(s, id);
                assert(j != i);
                let j2 = if j < i { j } else { j - 1 };
                assert(t[j2] == s[j]);
                assert(has_id(t, id));
                let k = index_of(t, id);
                let k2 = if k < i { k } else { k + 1 };
                assert(t[k] == s[k2]);
            } else {
                if has_id(t, id) {
                    let k = choose|k: int| 0 <= k < t.len() && t[k].id == id;
                    let k2 = if k < i { k } else { k + 1 };
                    assert(t[k] == s[k2]);
                }
            }
        }
    }
}

/// Replacing the body of one identity by a body of that identity changes
/// only what that identity looks up to.
pub proof fn lemma_replace_id(s: Seq<Body>, x: u64, b: Body)
    requires
        ids_unique(s),
        b.id == x,
        has_id(s, x),
    ensures
        ids_unique(replace_id(s, x, b)),
        lookup(replace_id(s, x, b), x) == Some(b),
        forall|id: u64| id != x ==> #[trigger] lookup(replace_id(s, x, b), id) == lookup(s, id),
        forall|k: int| 0 <= k < replace_id(s, x, b).len() ==> has_id(s, #[trigger] replace_id(s, x, b)[k].id),
{
    let i = index_of(s, x);
    let t = s.update(i, b);
    assert(t == replace_id(s, x, b));
    assert forall|a: int, c: int| 0 <= a < t.len() && 0 <= c < t.len() && a != c implies t[a].id != t[c].id by {
        assert(t[a].id == s[a].id);
        assert(t[c].id == s[c].id);
    }
    assert forall|k: int| 0 <= k < t.len() implies has_id(s, #[trigger] t[k].id) by {
        assert(t[k].id == s[k].id);
    }
    lemma_unique_index(t, i);
    assert forall|id: u64| id != x implies #[trigger] lookup(t, id) == lookup(s, id) by {
        if has_id(s, id) {
            let j = index_of(s, id);
            assert(t[j] == s[j]);
            lemma_unique_index(t, j);
        } else {
            if has_id(t, id) {
                let k = choose|k: int| 0 <= k < t.len() && t[k].id == id;
                assert(t[k].id == s[k].id);
            }
        }
    }
}

proof fn lemma_wrap_all(s: Seq<Body>)
    requires
        ids_unique(s),
    ensures
        ids_unique(wrap_all(s)),
        ids_within(wrap_all(s), s),
        forall|k: int| 0 <= k < wrap_all(s).len() ==> (#[trigger] wrap_all(s)[k]).wf() || exists|j: int| 0 <= j < s.len() && !s[j].wf(),
    decreases s.len(),
{
    if s.len() > 0 {
        let p = s.drop_last();
        assert(ids_unique(p));
        lemma_wrap_all(p);
        let r = wrap_all(p);
        assert forall|k: int| 0 <= k < r.len() implies has_id(s, #[trigger] r[k].id) by {
            let j = choose|j: int| 0 <= j < p.len() && p[j].id == r[k].id;
            assert(s[j] == p[j]);
        }
        match wrap_result(s.last()) {
            Some(b) => {
                assert(b.id == s.last().id);
                assert forall|k: int| 0 <= k < r.len() implies r[k].id != b.id by {
                    let j = choose|j: int| 0 <= j < p.len() && p[j].id == r[k].id;
                    assert(s[j] == p[j]);
                    assert(j != s.len() - 1);
                }
                let t = r.push(b);
                assert(t[t.len() - 1] == b);
                assert(has_id(s, b.id)) by {
                    assert(s[s.len() - 1].id == b.id);
                }
                assert forall|k: int| 0 <= k < t.len() implies has_id(s, #[trigger] t[k].id) by {
                    if k < r.len() {
                        assert(t[k] == r[k]);
                    }
                }
                assert forall|k: int| 0 <= k < t.len() implies (#[trigger] t[k]).wf() || exists|j: int| 0 <= j < s.len() && !s[j].wf() by {
                    if k < r.len() {
                        assert(t[k] == r[k]);
                        if !r[k].wf() {
                            let j = choose|j: int| 0 <= j < p.len() && !p[j].wf();
                            assert(s[j] == p[j]);
                        }
                    } else {
                        if !t[k].wf() {
                            assert(!s[s.len() - 1].wf());
                        }
                    }
                }
            },
            None => {
                assert forall|k: int| 0 <= k < r.len() implies (#[trigger] r[k]).wf() || exists|j: int| 0 <= j < s.len() && !s[j].wf() by {
                    if !r[k].wf() {
                        let j = choose|j: int| 0 <= j < p.len() && !p[j].wf();
                        assert(s[j] == p[j]);
                    }
                }
            },
        }
    }
}

/// The authoritative set of simulated bodies, each under an identity that
/// no other body has held.
pub struct Registry {
    bodies: Vec<Body>,
    next_id: u64,
}

impl View for Registry {
    type V = Seq<Body>;

    closed spec fn view(&self) -> Seq<Body> {
        self.bodies@
    }
}

impl Registry {
    /// The identity the next spawned body receives.
    pub closed spec fn next_id(&self) -> u64 {
        self.next_id
    }

    /// Identities are unique, every body is within bounds, and every
    /// identity was handed out before the next one.
    pub open spec fn wf(&self) -> bool {
        &&& ids_unique(self@)
        &&& forall|i: int| 0 <= i < self@.len() ==> (#[trigger] self@[i]).wf()
        &&& forall|i: int| 0 <= i < self@.len() ==> (#[trigger] self@[i]).id < self.next_id()
    }

    pub fn new() -> (r: Registry)
        ensures
            r.wf(),
            r@ == Seq::<Body>::empty(),
            r.next_id() == 0,
    {
        Registry { bodies: Vec::new(), next_id: 0 }
    }

    pub fn len(&self) -> (n: usize)
        ensures
            n == self@.len(),
    {
        self.bodies.len()
    }

    pub fn body_at(&self, i: usize) -> (b: Body)
        requires
            i < self@.len(),
        ensures
            b == self@[i as int],
    {
        self.bodies[i]
    }

    /// Adds `template` under a fresh identity, which is returned; `None`
    /// once the identities are spent, with the registry unchanged.
    pub fn spawn(&mut self, template: Body) -> (id: Option<u64>)
        requires
            old(self).wf(),
            template.wf(),
        ensures
            final(self).wf(),
            old(self).next_id() < u64::MAX ==> id == Some(old(self).next_id()),
            old(self).next_id() == u64::MAX ==> id.is_none() && *final(self) == *old(self),
            id.is_some() ==> !has_id(old(self)@, id.unwrap()),
            id.is_some() ==> final(self)@ == old(self)@.push(Body { id: id.unwrap(), ..template }),
            final(self).next_id() >= old(self).next_id(),
            id.is_some() ==> final(self).next_id() == old(self).next_id() + 1,
    {
        if self.next_id == u64::MAX {
            return None;
        }
        let id = self.next_id;
        let b = Body { id, ..template };
        self.bodies.push(b);
        self.next_id = id + 1;
        proof {
            let s = self@;
            assert forall|i: int, j: int| 0 <= i < s.len() && 0 <= j < s.len() && i != j implies s[i].id != s[j].id by {
                if i < s.len() - 1 && j < s.len() - 1 {
                    assert(s[i] == old(self)@[i]);
                    assert(s[j] == old(self)@[j]);
                }
            }
            assert forall|i: int| 0 <= i < s.len() implies (#[trigger] s[i]).wf() && s[i].id < self.next_id by {
                if i < s.len() - 1 {
                    assert(s[i] == old(self)@[i]);
                }
            }
        }
        Some(id)
    }

    /// Position of the body with identity `id`.
    pub fn find(&self, id: u64) -> (r: Option<usize>)
        requires
            self.wf(),
        ensures
            r.is_some() == has_id(self@, id),
            r.is_some() ==> r.unwrap() == index_of(self@, id) && self@[r.unwrap() as int].id == id,
    {
        let mut i: usize = 0;
        while i < self.bodies.len()
            invariant
                i <= self.bodies@.len(),
                forall|j: int| 0 <= j < i ==> self@[j].id != id,
                self.wf(),
            decreases self.bodies@.len() - i,
        {
            if self.bodies[i].id == id {
                proof {
                    lemma_unique_index(self@, i as int);
                }
                return Some(i);
            }
            i += 1;
        }
        None
    }

    /// The body with identity `id`, if the registry holds one.
    pub fn get(&self, id: u64) -> (r: Option<Body>)
        requires
            self.wf(),
        ensures
            r == lookup(self@, id),
            r.is_some() ==> r.unwrap().wf() && r.unwrap().id == id,
    {
        match self.find(id) {
            Some(i) => Some(self.bodies[i]),
            None => None,
        }
    }

    /// Removes the body with identity `id`; returns whether there was one.
    pub fn remove(&mut self, id: u64) -> (found: bool)
        requires
            old(self).wf(),
        ensures
            final(self).wf(),
            found == has_id(old(self)@, id),
            final(self)@ == remove_id(old(self)@, id),
            final(self).next_id() == old(self).next_id(),
    {
        match self.find(id) {
            Some(i) => {
                self.bodies.remove(i);
                proof {
                    let o = old(self)@;
                    let s = self@;
                    assert forall|a: int, b: int| 0 <= a < s.len() && 0 <= b < s.len() && a != b implies s[a].id != s[b].id by {
                        let a2 = if a < i { a } else { a + 1 };
                        let b2 = if b < i { b } else { b + 1 };
                        assert(s[a] == o[a2]);
                        assert(s[b] == o[b2]);
                    }
                    assert forall|a: int| 0 <= a < s.len() implies (#[trigger] s[a]).wf() && s[a].id < self.next_id by {
                        let a2 = if a < i { a } else { a + 1 };
                        assert(s[a] == o[a2]);
                    }
                }
                true
            },
            None => false,
        }
    }

    /// Replaces the body with identity `id` by `b`, which keeps that identity.
    pub fn replace(&mut self, id: u64, b: Body)
        requires
            old(self).wf(),
            b.wf(),
            b.id == id,
        ensures
            final(self).wf(),
            final(self)@ == replace_id(old(self)@, id, b),
            final(self).next_id() == old(self).next_id(),
    {
        match self.find(id) {
            Some(i) => {
                self.bodies.set(i, b);
                proof {
                    let o = old(self)@;
                    let s = self@;
                    assert forall|a: int, c: int| 0 <= a < s.len() && 0 <= c < s.len() && a != c implies s[a].id != s[c].id by {
                        assert(s[a].id == o[a].id);
                        assert(s[c].id == o[c].id);
                    }
                    assert forall|a: int| 0 <= a < s.len() implies (#[trigger] s[a]).wf() && s[a].id < self.next_id by {
                        assert(s[a].id == o[a].id);
                    }
                }
            },
            None => {},
        }
    }

    /// Removes every body.
    pub fn clear(&mut self)
        requires
            old(self).wf(),
        ensures
            final(self).wf(),
            final(self)@ == Seq::<Body>::empty(),
            final(self).next_id() == old(self).next_id(),
    {
        self.bodies.clear();
    }

    /// Moves every body along its velocity for `dt_ms` milliseconds.
    pub fn apply_velocity(&mut self, dt_ms: u64)
        requires
            old(self).wf(),
            dt_ms <= STEP_LIMIT_MS,
        ensures
            final(self).wf(),
            final(self)@ == move_all(old(self)@, dt_ms),
            final(self).next_id() == old(self).next_id(),
    {
        let mut i: usize = 0;
        while i < self.bodies.len()
            invariant
                0 <= i <= self@.len(),
                self@.len() == old(self)@.len(),
                self.next_id == old(self).next_id,
                forall|j: int| 0 <= j < i ==> self@[j] == moved(old(self)@[j], dt_ms),
                forall|j: int| i <= j < self@.len() ==> self@[j] == old(self)@[j],
                old(self).wf(),
                dt_ms <= STEP_LIMIT_MS,
            decreases self@.len() - i,
        {
            let mut b = self.bodies[i];
            proof {
                assert(old(self)@[i as int].wf());
            }
            b.apply_velocity(dt_ms);
            self.bodies.set(i, b);
            i += 1;
        }
        proof {
            let o = old(self)@;
            let s = self@;
            assert(s =~= move_all(o, dt_ms));
            assert forall|a: int, c: int| 0 <= a < s.len() && 0 <= c < s.len() && a != c implies s[a].id != s[c].id by {
                assert(s[a].id == o[a].id);
                assert(s[c].id == o[c].id);
            }
            assert forall|a: int| 0 <= a < s.len() implies (#[trigger] s[a]).wf() && s[a].id < self.next_id by {
                assert(o[a].wf());
                assert(s[a].id == o[a].id);
            }
        }
    }

    /// Runs every body's grace period for `dt_ms` more milliseconds.
    pub fn tick_grace(&mut self, dt_ms: u64)
        requires
            old(self).wf(),
        ensures
            final(self).wf(),
            final(self)@ == grace_all(old(self)@, dt_ms),
            final(self).next_id() == old(self).next_id(),
    {
        let mut i: usize = 0;
        while i < self.bodies.len()
            invariant
                0 <= i <= self@.len(),
                self@.len() == old(self)@.len(),
                self.next_id == old(self).next_id,
                forall|j: int| 0 <= j < i ==> self@[j] == graced(old(self)@[j], dt_ms),
                forall|j: int| i <= j < self@.len() ==> self@[j] == old(self)@[j],
            decreases self@.len() - i,
        {
            let mut b = self.bodies[i];
            b.tick_grace(dt_ms);
            self.bodies.set(i, b);
            i += 1;
        }
        proof {
            let o = old(self)@;
            let s = self@;
            assert(s =~= grace_all(o, dt_ms));
            assert forall|a: int, c: int| 0 <= a < s.len() && 0 <= c < s.len() && a != c implies s[a].id != s[c].id by {
                assert(s[a].id == o[a].id);
                assert(s[c].id == o[c].id);
            }
            assert forall|a: int| 0 <= a < s.len() implies (#[trigger] s[a]).wf() && s[a].id < self.next_id by {
                assert(o[a].wf());
                assert(s[a].id == o[a].id);
            }
        }
    }

    /// Runs every body's fire cooldown for `dt_ms` more milliseconds.
    pub fn tick_cooldown(&mut self, dt_ms: u64)
        requires
            old(self).wf(),
        ensures
            final(self).wf(),
            final(self)@ == cool_all(old(self)@, dt_ms),
            final(self).next_id() == old(self).next_id(),
    {
        let mut i: usize = 0;
        while i < self.bodies.len()
            invariant
                0 <= i <= self@.len(),
                self@.len() == old(self)@.len(),
                self.next_id == old(self).next_id,
                forall|j: int| 0 <= j < i ==> self@[j] == cooled(old(self)@[j], dt_ms),
                forall|j: int| i <= j < self@.len() ==> self@[j] == old(self)@[j],
            decreases self@.len() - i,
        {
            let mut b = self.bodies[i];
            b.tick_cooldown(dt_ms);
            self.bodies.set(i, b);
            i += 1;
        }
        proof {
            let o = old(self)@;
            let s = self@;
            assert(s =~= cool_all(o, dt_ms));
            assert forall|a: int, c: int| 0 <= a < s.len() && 0 <= c < s.len() && a != c implies s[a].id != s[c].id by {
                assert(s[a].id == o[a].id);
                assert(s[c].id == o[c].id);
            }
            assert forall|a: int| 0 <= a < s.len() implies (#[trigger] s[a]).wf() && s[a].id < self.next_id by {
                assert(o[a].wf());
                assert(s[a].id == o[a].id);
            }
        }
    }

    /// Wraps every body around the field edges and removes those whose
    /// wrap budget was already spent when they crossed.
    pub fn wrap_around(&mut self)
        requires
            old(self).wf(),
        ensures
            final(self).wf(),
            final(self)@ == wrap_all(old(self)@),
            final(self).next_id() == old(self).next_id(),
    {
        let mut kept: Vec<Body> = Vec::new();
        let mut i: usize = 0;
        while i < self.bodies.len()
            invariant
                0 <= i <= self@.len(),
                kept@ == wrap_all(self@.take(i as int)),
                self.wf(),
            decreases self@.len() - i,
        {
            let mut b = self.bodies[i];
            proof {
                assert(self@.take(i as int + 1).drop_last() == self@.take(i as int));
                assert(self@[i as int].wf());
            }
            if b.wrap_around() {
                kept.push(b);
            }
            i += 1;
        }
        proof {
            assert(self@.take(self@.len() as int) == self@);
            lemma_wrap_all(self@);
            let o = self@;
            let s = kept@;
            assert forall|a: int| 0 <= a < s.len() implies (#[trigger] s[a]).wf() && s[a].id < self.next_id by {
                let j = choose|j: int| 0 <= j < o.len() && o[j].id == s[a].id;
                assert(o[j].id < self.next_id);
            }
        }
        self.bodies = kept;
    }
}

} // verus!
