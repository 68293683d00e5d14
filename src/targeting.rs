//! Targeting: every attacker picks the nearest entity of the other faction
//! and turns toward it.
use vstd::prelude::*;
use crate::geometry::{dist_sq, distance_squared, span, Position};
use crate::unit::CombatEntity;
use crate::world::{entities_ok, index_of, lemma_entities_ok_update, World};

verus! {

/// What targeting found for one attacker: the target's place in the
/// registry and where it stood.
#[derive(Clone, Copy, Debug, PartialEq, Eq, Structural)]
pub struct Target {
    pub index: usize,
    pub position: Position,
}

/// `a` and `b` belong to opposing factions.
pub open spec fn opposed(a: CombatEntity, b: CombatEntity) -> bool {
    a.faction != b.faction
}

/// Among the first `n` entities, the one of the other faction nearest to
/// entity `i`; the earliest one among equally near ones.
pub open spec fn nearest_among(ents: Seq<CombatEntity>, i: int, n: int) -> Option<int>
    decreases n,
{
    if n <= 0 {
        None
    } else {
        let best = nearest_among(ents, i, n - 1);
        let k = n - 1;
        if !opposed(ents[i], ents[k]) {
            best
        } else {
            match best {
                None => Some(k),
                Some(b) => if dist_sq(ents[i].position, ents[k].position) < dist_sq(
                    ents[i].position,
                    ents[b].position,
                ) {
                    Some(k)
                } else {
                    best
                },
            }
        }
    }
}

/// The target of entity `i`: the nearest entity of the other faction.
pub open spec fn target_of(ents: Seq<CombatEntity>, i: int) -> Option<int> {
    nearest_among(ents, i, ents.len() as int)
}

pub open spec fn target_at(ents: Seq<CombatEntity>, i: int) -> Option<Target> {
    match target_of(ents, i) {
        Some(t) => Some(Target { index: t as usize, position: ents[t].position }),
        None => None,
    }
}

/// The targets of all entities.
pub open spec fn targets_of(ents: Seq<CombatEntity>) -> Seq<Option<Target>> {
    Seq::new(ents.len(), |i: int| target_at(ents, i))
}

/// `e` turned toward its target, unless it stands on it.
pub open spec fn faced(e: CombatEntity, t: Option<Target>) -> CombatEntity {
    match t {
        Some(t) => {
            let v = span(e.position, t.position);
            if v.is_zero() {
                e
            } else {
                CombatEntity { facing: v, ..e }
            }
        },
        None => e,
    }
}

/// Every entity turned toward its target.
pub open spec fn faced_all(ents: Seq<CombatEntity>, tg: Seq<Option<Target>>) -> Seq<CombatEntity> {
    Seq::new(ents.len(), |i: int| faced(ents[i], tg[i]))
}

/// The target chosen for entity `i` among the first `n` entities is of the
/// other faction, no farther than any other entity of that faction, and
/// strictly nearer than every earlier one; there is none only when no such
/// entity exists.
pub proof fn lemma_nearest_among(ents: Seq<CombatEntity>, i: int, n: int)
    requires
        0 <= i < ents.len(),
        0 <= n <= ents.len(),
    ensures
        match nearest_among(ents, i, n) {
            Some(k) => {
                &&& 0 <= k < n
                &&& opposed(ents[i], ents[k])
                &&& forall|j: int|
                    0 <= j < n && opposed(ents[i], ents[j]) ==> dist_sq(
                        ents[i].position,
                        ents[k].position,
                    ) <= dist_sq(ents[i].position, #[trigger] ents[j].position)
                &&& forall|j: int|
                    0 <= j < k && opposed(ents[i], ents[j]) ==> dist_sq(
                        ents[i].position,
                        ents[k].position,
                    ) < dist_sq(ents[i].position, #[trigger] ents[j].position)
            },
            None => forall|j: int| 0 <= j < n ==> !opposed(ents[i], #[trigger] ents[j]),
        },
    decreases n,
{
    if n > 0 {
        lemma_nearest_among(ents, i, n - 1);
    }
}

/// Every target names an entity of the registry and a point of the world.
pub open spec fn targets_ok(tg: Seq<Option<Target>>, n: int) -> bool {
    forall|j: int|
        0 <= j < tg.len() && (#[trigger] tg[j]) is Some ==> tg[j]->0.index < n
            && tg[j]->0.position.in_world()
}

pub proof fn lemma_targets_ok(ents: Seq<CombatEntity>, next: u64)
    requires
        entities_ok(ents, next),
    ensures
        targets_ok(targets_of(ents), ents.len() as int),
{
    assert forall|j: int|
        0 <= j < targets_of(ents).len() && (#[trigger] targets_of(ents)[j]) is Some implies targets_of(
        ents,
    )[j]->0.index < ents.len() && targets_of(ents)[j]->0.position.in_world() by {
        lemma_nearest_among(ents, j, ents.len() as int);
        let k = target_of(ents, j)->0;
        assert(ents[k].wf());
    }
}

impl World {
    /// The nearest entity of the other faction to entity `i`, the earliest
    /// in registry order among equally near ones; `None` when the other
    /// faction has no entity.
    pub fn find_target(&self, i: usize) -> (r: Option<usize>)
        requires
            i < self.entities@.len(),
            entities_ok(self.entities@, self.next_handle),
        ensures
            index_of(r) == target_of(self.entities@, i as int),
            r is Some ==> r->0 < self.entities@.len(),
    {
        let ents = &self.entities;
        let me = ents[i];
        let mut best: Option<usize> = None;
        let mut best_d: u128 = 0;
        let mut k: usize = 0;
        while k < ents.len()
            invariant
                k <= ents@.len(),
                i < ents@.len(),
                me == ents@[i as int],
                entities_ok(ents@, self.next_handle),
                index_of(best) == nearest_among(ents@, i as int, k as int),
                best is Some ==> best->0 < k && best_d == dist_sq(
                    me.position,
                    ents@[best->0 as int].position,
                ),
            decreases ents@.len() - k,
        {
            let other = ents[k];
            assert(ents@[k as int].wf());
            assert(ents@[i as int].wf());
            if me.faction != other.faction {
                let d = distance_squared(me.position, other.position);
                match best {
                    None => {
                        best = Some(k);
                        best_d = d;
                    },
                    Some(_) => {
                        if d < best_d {
                            best = Some(k);
                            best_d = d;
                        }
                    },
                }
            }
            k = k + 1;
        }
        proof {
            lemma_nearest_among(ents@, i as int, ents@.len() as int);
        }
        best
    }

    /// Finds every entity's target and turns it toward it.
    pub fn acquire_targets(&mut self) -> (tg: Vec<Option<Target>>)
        requires
            entities_ok(old(self).entities@, old(self).next_handle),
        ensures
            tg@ == targets_of(old(self).entities@),
            final(self).entities@ == faced_all(old(self).entities@, tg@),
            final(self).projectiles == old(self).projectiles,
            final(self).miners == old(self).miners,
            final(self).bars == old(self).bars,
            final(self).resources == old(self).resources,
            final(self).next_handle == old(self).next_handle,
            entities_ok(final(self).entities@, final(self).next_handle),
    {
        let ghost snap = self.entities@;
        let n = self.entities.len();
        let mut tg: Vec<Option<Target>> = Vec::new();
        let mut i: usize = 0;
        while i < n
            invariant
                n == snap.len(),
                self.entities@ == snap,
                entities_ok(snap, self.next_handle),
                i <= n,
                tg@.len() == i,
                forall|j: int| 0 <= j < i ==> tg@[j] == target_at(snap, j),
            decreases n - i,
        {
            let t = match self.find_target(i) {
                Some(k) => Some(Target { index: k, position: self.entities[k].position }),
                None => None,
            };
            tg.push(t);
            i = i + 1;
        }
        assert(tg@ =~= targets_of(snap));
        let mut i: usize = 0;
        while i < n
            invariant
                n == snap.len(),
                self.entities@.len() == n,
                entities_ok(snap, self.next_handle),
                tg@ == targets_of(snap),
                i <= n,
                forall|j: int| 0 <= j < i ==> self.entities@[j] == faced(snap[j], tg@[j]),
                forall|j: int| i <= j < n ==> self.entities@[j] == snap[j],
                entities_ok(self.entities@, self.next_handle),
                self.projectiles == old(self).projectiles,
                self.miners == old(self).miners,
                self.bars == old(self).bars,
                self.resources == old(self).resources,
                self.next_handle == old(self).next_handle,
            decreases n - i,
        {
            proof {
                lemma_nearest_among(snap, i as int, n as int);
            }
            match tg[i] {
                Some(t) => {
                    let mut e = self.entities[i];
                    assert(snap[i as int].wf());
                    assert(snap[t.index as int].wf());
                    let v = Position {
                        x: t.position.x - e.position.x,
                        y: t.position.y - e.position.y,
                    };
                    if v.x != 0 || v.y != 0 {
                        let ghost before = self.entities@;
                        e.facing = v;
                        self.entities.set(i, e);
                        proof {
                            lemma_entities_ok_update(before, self.next_handle, i as int, e);
                        }
                    }
                },
                None => {},
            }
            i = i + 1;
        }
        assert(self.entities@ =~= faced_all(snap, tg@));
        tg
    }
}

} // verus!
