//! One tick of the simulation: attacks, projectile flight, damage
//! resolution and resource accrual, after targeting, in that order.
use vstd::prelude::*;
use crate::building::Miner;
use crate::geometry::{
    clamp_coord, clamp_to_world, dist_sq, distance_squared, isqrt, lemma_component_le_root, root,
    scale, scale_component, Position, MICROS_PER_SECOND,
};
use crate::hp_bar::HPBar;
use crate::laws::{no_contact, tick_leaves_no_contact};
use crate::projectile::Projectile;
use crate::targeting::{faced_all, targets_of, targets_ok, lemma_targets_ok, Target};
use crate::timer::STAT_LIMIT;
use crate::unit::{CombatEntity, UnitKind};
use crate::world::{
    bars_ok, entities_ok, has_handle, index_of, is_alive, lemma_entities_ok_update, miners_ok,
    projectiles_ok, World, WorldModel,
};

verus! {

// ---------------------------------------------------------------- attacks

/// Distance walked in `dt` microseconds at `speed` units per second.
pub open spec fn step_len(speed: u64, dt: u64) -> int {
    speed * dt / MICROS_PER_SECOND as int
}

/// `from` moved `step` units toward `to` (each component rounded toward
/// zero, the result kept inside the world).
pub open spec fn stepped(from: Position, to: Position, step: int) -> Position {
    let d = root(dist_sq(from, to));
    Position {
        x: clamp_coord(from.x + scale(to.x - from.x, step, d)) as i64,
        y: clamp_coord(from.y + scale(to.y - from.y, step, d)) as i64,
    }
}

/// The projectile that `e` fires: from its position, along its facing.
pub open spec fn shot_of(e: CombatEntity) -> Projectile {
    Projectile::launched(
        e.position,
        e.facing,
        e.faction,
        e.stats.damage,
        e.stats.projectile_speed,
        e.stats.projectile_range,
    )
}

/// `e` after one blow of `amount`.
pub open spec fn struck(e: CombatEntity, amount: u64) -> CombatEntity {
    CombatEntity { health: e.health.damaged(amount), ..e }
}

/// One attacker's turn: entity `i` with target `t`, given the entities and
/// the projectiles fired so far this tick.
pub open spec fn acted(
    ents: Seq<CombatEntity>,
    shots: Seq<Projectile>,
    i: int,
    t: Option<Target>,
    dt: u64,
) -> (Seq<CombatEntity>, Seq<Projectile>) {
    match t {
        None => (ents, shots),
        Some(t) => {
            let e = ents[i];
            match e.kind {
                UnitKind::Tower => {
                    let (timer, fired) = e.timer.advanced(dt);
                    let e2 = CombatEntity { timer, ..e };
                    (ents.update(i, e2), if fired {
                        shots.push(shot_of(e2))
                    } else {
                        shots
                    })
                },
                UnitKind::Enemy => {
                    if dist_sq(e.position, t.position) <= e.stats.engagement_range
                        * e.stats.engagement_range {
                        let (timer, fired) = e.timer.advanced(dt);
                        let es = ents.update(i, CombatEntity { timer, ..e });
                        (if fired {
                            es.update(t.index as int, struck(es[t.index as int], e.stats.damage))
                        } else {
                            es
                        }, shots)
                    } else {
                        (
                            ents.update(
                                i,
                                CombatEntity {
                                    position: stepped(
                                        e.position,
                                        t.position,
                                        step_len(e.stats.move_speed, dt),
                                    ),
                                    ..e
                                },
                            ),
                            shots,
                        )
                    }
                },
            }
        },
    }
}

/// The turns of the first `n` attackers, in registry order.
pub open spec fn scheduled(ents: Seq<CombatEntity>, tg: Seq<Option<Target>>, dt: u64, n: int) -> (
    Seq<CombatEntity>,
    Seq<Projectile>,
)
    decreases n,
{
    if n <= 0 {
        (ents, Seq::empty())
    } else {
        let (es, shots) = scheduled(ents, tg, dt, n - 1);
        acted(es, shots, n - 1, tg[n - 1], dt)
    }
}

// ---------------------------------------------------------------- projectiles

/// The first of the first `n` entities that `p` hits.
pub open spec fn first_hit(ents: Seq<CombatEntity>, p: Projectile, n: int) -> Option<int>
    decreases n,
{
    if n <= 0 {
        None
    } else {
        match first_hit(ents, p, n - 1) {
            Some(k) => Some(k),
            None => if p.hits(ents[n - 1]) {
                Some(n - 1)
            } else {
                None
            },
        }
    }
}

/// The flight of the first `n` projectiles: each moves, then hits the first
/// entity it overlaps and is consumed, or else loses range and is dropped
/// once it has none left.
pub open spec fn flown(ents: Seq<CombatEntity>, projs: Seq<Projectile>, dt: u64, n: int) -> (
    Seq<CombatEntity>,
    Seq<Projectile>,
)
    decreases n,
{
    if n <= 0 {
        (ents, Seq::empty())
    } else {
        let (es, kept) = flown(ents, projs, dt, n - 1);
        let p = projs[n - 1].moved(dt);
        match first_hit(es, p, es.len() as int) {
            Some(k) => (es.update(k, struck(es[k], p.damage)), kept),
            None => {
                let q = p.spent(dt);
                if q.remaining == 0 {
                    (es, kept)
                } else {
                    (es, kept.push(q))
                }
            },
        }
    }
}

// ---------------------------------------------------------------- resolution

/// The entities still alive.
pub open spec fn survivors(ents: Seq<CombatEntity>) -> Seq<CombatEntity> {
    ents.filter(|e: CombatEntity| is_alive(e))
}

/// The bars whose parent is among `ents`.
pub open spec fn attached(bars: Seq<HPBar>, ents: Seq<CombatEntity>) -> Seq<HPBar> {
    bars.filter(|b: HPBar| has_handle(ents, b.parent))
}

// ---------------------------------------------------------------- accrual

/// The first `n` miners advanced by `dt`, and the balance they leave.
pub open spec fn accrued_all(miners: Seq<Miner>, gold: u64, dt: u64, n: int) -> (Seq<Miner>, u64)
    decreases n,
{
    if n <= 0 {
        (miners, gold)
    } else {
        let (ms, g) = accrued_all(miners, gold, dt, n - 1);
        let (m, g2) = ms[n - 1].accrued(g, dt);
        (ms.update(n - 1, m), g2)
    }
}

// ---------------------------------------------------------------- the tick

/// The world after one tick of `dt` microseconds. Projectiles fired during
/// the tick join those already in flight before they all fly, so every
/// live projectile moves and is tested for a hit in the tick.
pub open spec fn ticked(w: WorldModel, dt: u64) -> WorldModel {
    let tg = targets_of(w.entities);
    let (e2, shots) = scheduled(faced_all(w.entities, tg), tg, dt, w.entities.len() as int);
    let all = w.projectiles + shots;
    let (e3, flying) = flown(e2, all, dt, all.len() as int);
    let e4 = survivors(e3);
    let (miners, gold) = accrued_all(w.miners, w.gold, dt, w.miners.len() as int);
    WorldModel {
        entities: e4,
        projectiles: flying,
        miners,
        bars: attached(w.bars, e4),
        gold,
        next_handle: w.next_handle,
    }
}

/// Distance walked in `dt` microseconds at `speed` units per second.
fn step_length(speed: u64, dt: u64) -> (r: u128)
    requires
        speed <= STAT_LIMIT,
    ensures
        r == step_len(speed, dt),
        r < 0x1_0000_0000_0000_0000_0000,
{
    assert(speed as int * dt as int <= 0x1_0000_0000 * 0xffff_ffff_ffff_ffff) by (nonlinear_arith)
        requires
            speed <= 0x1_0000_0000,
            dt <= 0xffff_ffff_ffff_ffff,
    ;
    let p: u128 = speed as u128 * dt as u128;
    assert(p as int / 1_000_000 < 0x1_0000_0000_0000_0000_0000) by (nonlinear_arith)
        requires
            p <= 0x1_0000_0000 * 0xffff_ffff_ffff_ffff,
    ;
    p / MICROS_PER_SECOND as u128
}

/// `from` moved `step` units toward `to`, a different point.
fn step_toward(from: Position, to: Position, step: u128) -> (r: Position)
    requires
        from.in_world(),
        to.in_world(),
        dist_sq(from, to) > 0,
        step < 0x1_0000_0000_0000_0000_0000,
    ensures
        r == stepped(from, to, step as int),
        r.in_world(),
{
    let n = distance_squared(from, to);
    let dx: i64 = to.x - from.x;
    let dy: i64 = to.y - from.y;
    assert(n == dx * dx + dy * dy) by (nonlinear_arith)
        requires
            n == (from.x - to.x) * (from.x - to.x) + (from.y - to.y) * (from.y - to.y),
            dx == to.x - from.x,
            dy == to.y - from.y,
    ;
    assert(n < 0x10_0000_0000_0000_0000_0000) by (nonlinear_arith)
        requires
            n == dx * dx + dy * dy,
            -0x200_0000_0000 <= dx <= 0x200_0000_0000,
            -0x200_0000_0000 <= dy <= 0x200_0000_0000,
    ;
    let d = isqrt(n);
    proof {
        lemma_component_le_root(dx as int, dy as int, n as int);
        lemma_component_le_root(dy as int, dx as int, n as int);
        assert(n > 0);
        if d == 0 {
            assert(n < (d + 1) * (d + 1));
            assert((d + 1) * (d + 1) == 1) by (nonlinear_arith)
                requires
                    d == 0,
            ;
        }
    }
    let sx = scale_component(dx, step, d as u128);
    let sy = scale_component(dy, step, d as u128);
    Position { x: clamp_to_world(from.x as i128 + sx), y: clamp_to_world(from.y as i128 + sy) }
}

impl World {
    /// Every attacker with a target takes its turn, in registry order: a
    /// tower's timer advances and, when it fires, a projectile leaves along
    /// its facing; an enemy within engagement range advances its timer and,
    /// when it fires, strikes its target; an enemy farther away walks toward
    /// its target instead. Returns the projectiles fired.
    pub fn run_attacks(&mut self, tg: &Vec<Option<Target>>, dt: u64) -> (shots: Vec<Projectile>)
        requires
            entities_ok(old(self).entities@, old(self).next_handle),
            tg@.len() == old(self).entities@.len(),
            targets_ok(tg@, old(self).entities@.len() as int),
        ensures
            (final(self).entities@, shots@) == scheduled(
                old(self).entities@,
                tg@,
                dt,
                old(self).entities@.len() as int,
            ),
            entities_ok(final(self).entities@, final(self).next_handle),
            projectiles_ok(shots@),
            final(self).projectiles == old(self).projectiles,
            final(self).miners == old(self).miners,
            final(self).bars == old(self).bars,
            final(self).resources == old(self).resources,
            final(self).next_handle == old(self).next_handle,
    {
        let ghost snap = self.entities@;
        let n = self.entities.len();
        let mut shots: Vec<Projectile> = Vec::new();
        let mut i: usize = 0;
        while i < n
            invariant
                n == snap.len(),
                tg@.len() == n,
                targets_ok(tg@, n as int),
                i <= n,
                (self.entities@, shots@) == scheduled(snap, tg@, dt, i as int),
                self.entities@.len() == n,
                entities_ok(self.entities@, self.next_handle),
                projectiles_ok(shots@),
                self.projectiles == old(self).projectiles,
                self.miners == old(self).miners,
                self.bars == old(self).bars,
                self.resources == old(self).resources,
                self.next_handle == old(self).next_handle,
            decreases n - i,
        {
            match tg[i] {
                None => {},
                Some(target) => {
                    let e = self.entities[i];
                    let ghost before = self.entities@;
                    assert(before[i as int].wf());
                    assert(tg@[i as int] is Some);
                    match e.kind {
                        UnitKind::Tower => {
                            let mut e2 = e;
                            let fired = e2.timer.tick(dt);
                            self.entities.set(i, e2);
                            proof {
                                lemma_entities_ok_update(before, self.next_handle, i as int, e2);
                            }
                            if fired {
                                let p = Projectile::launch(
                                    e2.position,
                                    e2.facing,
                                    e2.faction,
                                    e2.stats.damage,
                                    e2.stats.projectile_speed,
                                    e2.stats.projectile_range,
                                );
                                shots.push(p);
                            }
                        },
                        UnitKind::Enemy => {
                            let d = distance_squared(e.position, target.position);
                            let r: u128 = e.stats.engagement_range as u128;
                            assert(r * r <= 0x1_0000_0000 * 0x1_0000_0000) by (nonlinear_arith)
                                requires
                                    r <= 0x1_0000_0000,
                            ;
                            if d <= r * r {
                                let mut e2 = e;
                                let fired = e2.timer.tick(dt);
                                self.entities.set(i, e2);
                                proof {
                                    lemma_entities_ok_update(before, self.next_handle, i as int, e2);
                                }
                                if fired {
                                    let t = target.index;
                                    let mut te = self.entities[t];
                                    assert(self.entities@[t as int].wf());
                                    let ghost mid = self.entities@;
                                    te.health.take_damage(e.stats.damage);
                                    self.entities.set(t, te);
                                    proof {
                                        lemma_entities_ok_update(mid, self.next_handle, t as int, te);
                                    }
                                }
                            } else {
                                let step = step_length(e.stats.move_speed, dt);
                                let mut e2 = e;
                                e2.position = step_toward(e.position, target.position, step);
                                self.entities.set(i, e2);
                                proof {
                                    lemma_entities_ok_update(before, self.next_handle, i as int, e2);
                                }
                            }
                        },
                    }
                },
            }
            i = i + 1;
        }
        shots
    }
}


/// Once a hit is found among the first `n` entities, looking further finds
/// the same one.
pub proof fn lemma_first_hit_stable(ents: Seq<CombatEntity>, p: Projectile, n: int, m: int)
    requires
        0 <= n <= m,
        first_hit(ents, p, n) is Some,
    ensures
        first_hit(ents, p, m) == first_hit(ents, p, n),
    decreases m - n,
{
    if m > n {
        lemma_first_hit_stable(ents, p, n, m - 1);
    }
}

/// A hit found among the first `n` entities is one of them, and it is hit.
pub proof fn lemma_first_hit_range(ents: Seq<CombatEntity>, p: Projectile, n: int)
    requires
        0 <= n <= ents.len(),
    ensures
        first_hit(ents, p, n) is Some ==> 0 <= first_hit(ents, p, n)->0 < n && p.hits(
            ents[first_hit(ents, p, n)->0],
        ),
        first_hit(ents, p, n) is None ==> forall|k: int| 0 <= k < n ==> !p.hits(#[trigger] ents[k]),
    decreases n,
{
    if n > 0 {
        lemma_first_hit_range(ents, p, n - 1);
    }
}

/// The first entity, in registry order, that `p` hits.
pub fn first_hit_index(ents: &Vec<CombatEntity>, p: &Projectile) -> (r: Option<usize>)
    requires
        p.position.in_world(),
        forall|i: int| 0 <= i < ents@.len() ==> (#[trigger] ents@[i]).position.in_world(),
    ensures
        index_of(r) == first_hit(ents@, *p, ents@.len() as int),
        r is Some ==> r->0 < ents@.len(),
{
    let mut k: usize = 0;
    while k < ents.len()
        invariant
            k <= ents@.len(),
            p.position.in_world(),
            forall|i: int| 0 <= i < ents@.len() ==> (#[trigger] ents@[i]).position.in_world(),
            first_hit(ents@, *p, k as int) is None,
        decreases ents@.len() - k,
    {
        assert(ents@[k as int].position.in_world());
        if p.hits_entity(&ents[k]) {
            proof {
                lemma_first_hit_stable(ents@, *p, k + 1, ents@.len() as int);
            }
            return Some(k);
        }
        k = k + 1;
    }
    None
}

proof fn lemma_filter_step<A>(s: Seq<A>, i: int, pred: spec_fn(A) -> bool)
    requires
        0 <= i < s.len(),
    ensures
        s.subrange(0, i + 1).filter(pred) == (if pred(s[i]) {
            s.subrange(0, i).filter(pred).push(s[i])
        } else {
            s.subrange(0, i).filter(pred)
        }),
{
    reveal(Seq::filter);
    assert(s.subrange(0, i + 1).drop_last() =~= s.subrange(0, i));
}

/// Whether some entity of `ents` has handle `h`.
pub fn contains_handle(ents: &Vec<CombatEntity>, h: u64) -> (r: bool)
    ensures
        r == has_handle(ents@, h),
{
    let mut k: usize = 0;
    while k < ents.len()
        invariant
            k <= ents@.len(),
            forall|j: int| 0 <= j < k ==> (#[trigger] ents@[j]).handle != h,
        decreases ents@.len() - k,
    {
        if ents[k].handle == h {
            return true;
        }
        k = k + 1;
    }
    false
}

impl World {
    /// Every projectile in flight moves; the first entity of the other
    /// faction it then overlaps takes its damage and the projectile is
    /// consumed; one that hits nothing loses the distance it covered from
    /// its range, and is dropped once none is left.
    pub fn fly_projectiles(&mut self, dt: u64)
        requires
            entities_ok(old(self).entities@, old(self).next_handle),
            projectiles_ok(old(self).projectiles@),
        ensures
            (final(self).entities@, final(self).projectiles@) == flown(
                old(self).entities@,
                old(self).projectiles@,
                dt,
                old(self).projectiles@.len() as int,
            ),
            entities_ok(final(self).entities@, final(self).next_handle),
            projectiles_ok(final(self).projectiles@),
            final(self).miners == old(self).miners,
            final(self).bars == old(self).bars,
            final(self).resources == old(self).resources,
            final(self).next_handle == old(self).next_handle,
    {
        let ghost ents0 = self.entities@;
        let ghost projs0 = self.projectiles@;
        let n = self.projectiles.len();
        let mut kept: Vec<Projectile> = Vec::new();
        let mut j: usize = 0;
        while j < n
            invariant
                n == projs0.len(),
                self.projectiles@ == projs0,
                projectiles_ok(projs0),
                j <= n,
                (self.entities@, kept@) == flown(ents0, projs0, dt, j as int),
                self.entities@.len() == ents0.len(),
                entities_ok(self.entities@, self.next_handle),
                projectiles_ok(kept@),
                self.miners == old(self).miners,
                self.bars == old(self).bars,
                self.resources == old(self).resources,
                self.next_handle == old(self).next_handle,
            decreases n - j,
        {
            let mut p = self.projectiles[j];
            assert(projs0[j as int].wf());
            p.advance(dt);
            assert forall|i: int| 0 <= i < self.entities@.len() implies (
            #[trigger] self.entities@[i]).position.in_world() by {
                assert(self.entities@[i].wf());
            }
            match first_hit_index(&self.entities, &p) {
                Some(k) => {
                    let ghost mid = self.entities@;
                    let mut te = self.entities[k];
                    assert(mid[k as int].wf());
                    te.health.take_damage(p.damage);
                    self.entities.set(k, te);
                    proof {
                        lemma_entities_ok_update(mid, self.next_handle, k as int, te);
                    }
                },
                None => {
                    let spent = p.spend(dt);
                    if !spent {
                        kept.push(p);
                    }
                },
            }
            j = j + 1;
        }
        self.projectiles = kept;
    }

    /// Removes every entity with no health left, and every bar whose parent
    /// is gone.
    pub fn resolve_damage(&mut self)
        requires
            entities_ok(old(self).entities@, old(self).next_handle),
            bars_ok(old(self).bars@, old(self).next_handle),
        ensures
            final(self).entities@ == survivors(old(self).entities@),
            final(self).bars@ == attached(old(self).bars@, final(self).entities@),
            entities_ok(final(self).entities@, final(self).next_handle),
            forall|i: int|
                0 <= i < final(self).entities@.len() ==> is_alive(
                    #[trigger] final(self).entities@[i],
                ),
            bars_ok(final(self).bars@, final(self).next_handle),
            final(self).projectiles == old(self).projectiles,
            final(self).miners == old(self).miners,
            final(self).resources == old(self).resources,
            final(self).next_handle == old(self).next_handle,
    {
        let ghost ents0 = self.entities@;
        let ghost alive = |e: CombatEntity| is_alive(e);
        let mut live: Vec<CombatEntity> = Vec::new();
        let mut i: usize = 0;
        while i < self.entities.len()
            invariant
                self.entities@ == ents0,
                entities_ok(ents0, self.next_handle),
                i <= ents0.len(),
                forall|e: CombatEntity| #[trigger] alive(e) == is_alive(e),
                live@ == ents0.subrange(0, i as int).filter(alive),
                entities_ok(live@, self.next_handle),
                forall|k: int| 0 <= k < live@.len() ==> is_alive(#[trigger] live@[k]),
            decreases ents0.len() - i,
        {
            proof {
                lemma_filter_step(ents0, i as int, alive);
            }
            let e = self.entities[i];
            assert(ents0[i as int].wf());
            if e.health.current > 0 {
                live.push(e);
            }
            i = i + 1;
        }
        assert(ents0.subrange(0, ents0.len() as int) =~= ents0);
        let ghost bars0 = self.bars@;
        let ghost linked = |b: HPBar| has_handle(live@, b.parent);
        let mut bars: Vec<HPBar> = Vec::new();
        let mut i: usize = 0;
        while i < self.bars.len()
            invariant
                self.bars@ == bars0,
                bars_ok(bars0, self.next_handle),
                i <= bars0.len(),
                forall|b: HPBar| #[trigger] linked(b) == has_handle(live@, b.parent),
                bars@ == bars0.subrange(0, i as int).filter(linked),
                bars_ok(bars@, self.next_handle),
            decreases bars0.len() - i,
        {
            proof {
                lemma_filter_step(bars0, i as int, linked);
            }
            let b = self.bars[i];
            if contains_handle(&live, b.parent) {
                bars.push(b);
            }
            i = i + 1;
        }
        assert(bars0.subrange(0, bars0.len() as int) =~= bars0);
        self.entities = live;
        self.bars = bars;
    }

    /// Every miner's timer advances; each one that fires credits its yield.
    pub fn accrue(&mut self, dt: u64)
        requires
            miners_ok(old(self).miners@, old(self).next_handle),
        ensures
            (final(self).miners@, final(self).resources.gold) == accrued_all(
                old(self).miners@,
                old(self).resources.gold,
                dt,
                old(self).miners@.len() as int,
            ),
            miners_ok(final(self).miners@, final(self).next_handle),
            final(self).entities == old(self).entities,
            final(self).projectiles == old(self).projectiles,
            final(self).bars == old(self).bars,
            final(self).next_handle == old(self).next_handle,
    {
        let ghost miners0 = self.miners@;
        let ghost gold0 = self.resources.gold;
        let n = self.miners.len();
        let mut i: usize = 0;
        while i < n
            invariant
                n == miners0.len(),
                i <= n,
                self.miners@.len() == n,
                (self.miners@, self.resources.gold) == accrued_all(miners0, gold0, dt, i as int),
                miners_ok(self.miners@, self.next_handle),
                self.entities == old(self).entities,
                self.projectiles == old(self).projectiles,
                self.bars == old(self).bars,
                self.next_handle == old(self).next_handle,
            decreases n - i,
        {
            let mut m = self.miners[i];
            assert(self.miners@[i as int].wf());
            m.mine(&mut self.resources, dt);
            self.miners.set(i, m);
            i = i + 1;
        }
    }

    /// Advances the simulation by `dt` microseconds: targeting, attacks,
    /// projectile flight, damage resolution, then resource accrual.
    pub fn tick(&mut self, dt: u64)
        requires
            old(self)@.wf(),
        ensures
            final(self)@ == ticked(old(self)@, dt),
            final(self)@.wf(),
            no_contact(final(self)@.entities, final(self)@.projectiles),
    {
        let tg = self.acquire_targets();
        proof {
            lemma_targets_ok(old(self).entities@, self.next_handle);
        }
        let mut shots = self.run_attacks(&tg, dt);
        self.projectiles.append(&mut shots);
        assert forall|i: int| 0 <= i < self.projectiles@.len() implies (
        #[trigger] self.projectiles@[i]).wf() by {}
        self.fly_projectiles(dt);
        self.resolve_damage();
        self.accrue(dt);
        proof {
            tick_leaves_no_contact(old(self)@, dt);
        }
    }
}

} // verus!
