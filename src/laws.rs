//! Properties of the tick and of its single turns, proved over their models.
use vstd::prelude::*;
use crate::building::Miner;
use crate::geometry::{
    dist_sq, lemma_component_le_root, lemma_root_exists, lemma_root_positive, lemma_scale_bound,
    len_sq, root,
};
use crate::hp_bar::HPBar;
use crate::projectile::Projectile;
use crate::unit::{CombatEntity, UnitKind};
use crate::targeting::{faced, faced_all, lemma_targets_ok, targets_of, targets_ok, Target};
use crate::tick::{
    accrued_all, acted, attached, first_hit, flown, lemma_first_hit_range, scheduled, shot_of,
    step_len, stepped, struck, survivors, ticked,
};
use crate::world::{
    entities_ok, has_handle, is_alive, lemma_entities_ok_update, miners_ok, projectiles_ok,
    WorldModel,
};

verus! {

/// `after` holds the entities of `before`, in the same places, under the
/// same handles and maxima, none with more health than before.
pub open spec fn no_heal(before: Seq<CombatEntity>, after: Seq<CombatEntity>) -> bool {
    &&& after.len() == before.len()
    &&& forall|k: int|
        0 <= k < after.len() ==> {
            &&& (#[trigger] after[k]).handle == before[k].handle
            &&& after[k].health.max == before[k].health.max
            &&& after[k].health.current <= before[k].health.current
        }
}

proof fn lemma_acted_no_heal(
    ents: Seq<CombatEntity>,
    shots: Seq<Projectile>,
    i: int,
    t: Option<Target>,
    dt: u64,
)
    requires
        0 <= i < ents.len(),
        t is Some ==> t->0.index < ents.len(),
    ensures
        no_heal(ents, acted(ents, shots, i, t, dt).0),
{
}

proof fn lemma_scheduled_no_heal(ents: Seq<CombatEntity>, tg: Seq<Option<Target>>, dt: u64, n: int)
    requires
        0 <= n <= ents.len(),
        tg.len() == ents.len(),
        targets_ok(tg, ents.len() as int),
    ensures
        no_heal(ents, scheduled(ents, tg, dt, n).0),
    decreases n,
{
    if n > 0 {
        lemma_scheduled_no_heal(ents, tg, dt, n - 1);
        let (es, shots) = scheduled(ents, tg, dt, n - 1);
        assert(tg[n - 1] is Some ==> tg[n - 1]->0.index < ents.len());
        lemma_acted_no_heal(es, shots, n - 1, tg[n - 1], dt);
    }
}

proof fn lemma_flown_no_heal(ents: Seq<CombatEntity>, projs: Seq<Projectile>, dt: u64, n: int)
    requires
        0 <= n <= projs.len(),
    ensures
        no_heal(ents, flown(ents, projs, dt, n).0),
    decreases n,
{
    if n > 0 {
        lemma_flown_no_heal(ents, projs, dt, n - 1);
        let (es, kept) = flown(ents, projs, dt, n - 1);
        let p = projs[n - 1].moved(dt);
        lemma_first_hit_range(es, p, es.len() as int);
    }
}

/// Health never rises: every entity left after a tick was in the registry
/// before it, under the same handle and maximum, with at least as much
/// health as it has now.
pub proof fn health_never_rises(w: WorldModel, dt: u64)
    requires
        w.wf(),
    ensures
        forall|k: int|
            0 <= k < ticked(w, dt).entities.len() ==> exists|j: int|
                0 <= j < w.entities.len() && w.entities[j].handle == (
                #[trigger] ticked(w, dt).entities[k]).handle && ticked(w, dt).entities[k].health.max
                    == w.entities[j].health.max && ticked(w, dt).entities[k].health.current
                    <= w.entities[j].health.current,
{
    let tg = targets_of(w.entities);
    let snap = faced_all(w.entities, tg);
    lemma_targets_ok(w.entities, w.next_handle);
    lemma_scheduled_no_heal(snap, tg, dt, snap.len() as int);
    let (e2, shots) = scheduled(snap, tg, dt, snap.len() as int);
    let all = w.projectiles + shots;
    lemma_flown_no_heal(e2, all, dt, all.len() as int);
    let (e3, flying) = flown(e2, all, dt, all.len() as int);
    let e4 = survivors(e3);
    assert(e4 == ticked(w, dt).entities);
    assert forall|k: int| 0 <= k < e4.len() implies exists|j: int|
        0 <= j < w.entities.len() && w.entities[j].handle == (#[trigger] e4[k]).handle
            && e4[k].health.max == w.entities[j].health.max && e4[k].health.current
            <= w.entities[j].health.current by {
        assert(e3.filter(|e: CombatEntity| is_alive(e)).contains(e4[k]));
        e3.lemma_filter_contains_rev(|e: CombatEntity| is_alive(e), e4[k]);
        let j = choose|j: int| 0 <= j < e3.len() && e3[j] == e4[k];
        assert(snap[j] == faced(w.entities[j], tg[j]));
    }
}


proof fn lemma_acted_zero(ents: Seq<CombatEntity>, i: int, t: Option<Target>)
    requires
        0 <= i < ents.len(),
        ents[i].timer.wf(),
        ents[i].position.in_world(),
        t is Some ==> t->0.position.in_world(),
    ensures
        acted(ents, Seq::empty(), i, t, 0) == (ents, Seq::<Projectile>::empty()),
{
    if let Some(t) = t {
        let e = ents[i];
        assert(e.timer.advanced(0) == (e.timer, false));
        assert(CombatEntity { timer: e.timer, ..e } == e);
        assert(ents.update(i, e) =~= ents);
        if e.kind == UnitKind::Enemy && !(dist_sq(e.position, t.position)
            <= e.stats.engagement_range * e.stats.engagement_range) {
            assert(dist_sq(e.position, t.position) > 0) by (nonlinear_arith)
                requires
                    !(dist_sq(e.position, t.position) <= e.stats.engagement_range
                        * e.stats.engagement_range),
            ;
            lemma_root_positive(dist_sq(e.position, t.position));
            assert(stepped(e.position, t.position, 0) == e.position);
            assert(CombatEntity { position: e.position, ..e } == e);
        }
    }
}

proof fn lemma_scheduled_zero(ents: Seq<CombatEntity>, tg: Seq<Option<Target>>, n: int)
    requires
        0 <= n <= ents.len(),
        tg.len() == ents.len(),
        targets_ok(tg, ents.len() as int),
        forall|k: int|
            0 <= k < ents.len() ==> (#[trigger] ents[k]).timer.wf() && ents[k].position.in_world(),
    ensures
        scheduled(ents, tg, 0, n) == (ents, Seq::<Projectile>::empty()),
    decreases n,
{
    if n > 0 {
        lemma_scheduled_zero(ents, tg, n - 1);
        assert(tg[n - 1] is Some ==> tg[n - 1]->0.position.in_world());
        lemma_acted_zero(ents, n - 1, tg[n - 1]);
    }
}

/// Nothing of `projs` overlaps an entity of `ents` it could hit.
pub open spec fn no_contact(ents: Seq<CombatEntity>, projs: Seq<Projectile>) -> bool {
    forall|j: int, k: int|
        0 <= j < projs.len() && 0 <= k < ents.len() ==> !(#[trigger] projs[j]).hits(
            #[trigger] ents[k],
        )
}

proof fn lemma_flown_zero(ents: Seq<CombatEntity>, projs: Seq<Projectile>, n: int)
    requires
        0 <= n <= projs.len(),
        no_contact(ents, projs),
        forall|j: int| 0 <= j < projs.len() ==> (#[trigger] projs[j]).wf(),
    ensures
        flown(ents, projs, 0, n) == (ents, projs.subrange(0, n)),
    decreases n,
{
    if n > 0 {
        lemma_flown_zero(ents, projs, n - 1);
        let p = projs[n - 1];
        assert(p.wf());
        assert(p.moved(0) == p);
        lemma_first_hit_range(ents, p, ents.len() as int);
        if first_hit(ents, p, ents.len() as int) is Some {
            let k = first_hit(ents, p, ents.len() as int)->0;
            assert(!projs[n - 1].hits(ents[k]));
        }
        assert(p.spent(0) == p);
        assert(projs.subrange(0, n - 1).push(p) =~= projs.subrange(0, n));
    }
}

proof fn lemma_accrued_zero(miners: Seq<Miner>, gold: u64, n: int)
    requires
        0 <= n <= miners.len(),
        forall|j: int| 0 <= j < miners.len() ==> (#[trigger] miners[j]).timer.wf(),
    ensures
        accrued_all(miners, gold, 0, n) == (miners, gold),
    decreases n,
{
    if n > 0 {
        lemma_accrued_zero(miners, gold, n - 1);
        let m = miners[n - 1];
        assert(m.timer.wf());
        assert(m.timer.advanced(0) == (m.timer, false));
        assert(Miner { timer: m.timer, ..m } == m);
        assert(miners.update(n - 1, m) =~= miners);
    }
}

proof fn lemma_filter_keeps_all(s: Seq<CombatEntity>)
    requires
        forall|k: int| 0 <= k < s.len() ==> is_alive(#[trigger] s[k]),
    ensures
        survivors(s) == s,
    decreases s.len(),
{
    reveal(Seq::filter);
    if s.len() > 0 {
        lemma_filter_keeps_all(s.drop_last());
        assert(is_alive(s[s.len() - 1]));
        assert(s.drop_last().push(s.last()) =~= s);
    }
}

/// A tick of zero duration moves nothing, hurts nothing and advances no
/// timer: entities keep their positions, health and timers, projectiles and
/// miners stay as they were, and so does the gold. This holds as long as no
/// projectile already overlaps an entity it could hit.
pub proof fn zero_tick_changes_nothing(w: WorldModel)
    requires
        w.wf(),
        no_contact(w.entities, w.projectiles),
    ensures
        ticked(w, 0).entities.len() == w.entities.len(),
        forall|k: int|
            0 <= k < w.entities.len() ==> {
                &&& (#[trigger] ticked(w, 0).entities[k]).position == w.entities[k].position
                &&& ticked(w, 0).entities[k].health == w.entities[k].health
                &&& ticked(w, 0).entities[k].timer == w.entities[k].timer
                &&& ticked(w, 0).entities[k].handle == w.entities[k].handle
            },
        ticked(w, 0).projectiles == w.projectiles,
        ticked(w, 0).miners == w.miners,
        ticked(w, 0).gold == w.gold,
{
    let tg = targets_of(w.entities);
    let snap = faced_all(w.entities, tg);
    lemma_targets_ok(w.entities, w.next_handle);
    assert forall|k: int| 0 <= k < snap.len() implies (#[trigger] snap[k]).timer.wf()
        && snap[k].position.in_world() by {
        assert(w.entities[k].wf());
    }
    lemma_scheduled_zero(snap, tg, snap.len() as int);
    assert forall|j: int, k: int|
        0 <= j < w.projectiles.len() && 0 <= k < snap.len() implies !(
        #[trigger] w.projectiles[j]).hits(#[trigger] snap[k]) by {
        assert(!w.projectiles[j].hits(w.entities[k]));
    }
    assert forall|j: int| 0 <= j < w.projectiles.len() implies (
    #[trigger] w.projectiles[j]).wf() by {}
    lemma_flown_zero(snap, w.projectiles, w.projectiles.len() as int);
    assert(w.projectiles.subrange(0, w.projectiles.len() as int) =~= w.projectiles);
    assert forall|k: int| 0 <= k < snap.len() implies is_alive(#[trigger] snap[k]) by {
        assert(is_alive(w.entities[k]));
    }
    lemma_filter_keeps_all(snap);
    assert forall|j: int| 0 <= j < w.miners.len() implies (#[trigger] w.miners[j]).timer.wf() by {
        assert(w.miners[j].wf());
    }
    lemma_accrued_zero(w.miners, w.gold, w.miners.len() as int);
    assert(w.projectiles + Seq::<Projectile>::empty() =~= w.projectiles);
}


// ---------------------------------------------------------------- after a tick

/// `a` and `b` agree on what hit tests look at: position and faction.
pub open spec fn same_place(a: CombatEntity, b: CombatEntity) -> bool {
    a.position == b.position && a.faction == b.faction
}

proof fn lemma_flown_no_contact(ents: Seq<CombatEntity>, projs: Seq<Projectile>, dt: u64, n: int)
    requires
        0 <= n <= projs.len(),
    ensures
        no_contact(flown(ents, projs, dt, n).0, flown(ents, projs, dt, n).1),
        flown(ents, projs, dt, n).0.len() == ents.len(),
        forall|k: int|
            0 <= k < ents.len() ==> same_place(
                #[trigger] flown(ents, projs, dt, n).0[k],
                ents[k],
            ),
    decreases n,
{
    if n > 0 {
        lemma_flown_no_contact(ents, projs, dt, n - 1);
        let (es, kept) = flown(ents, projs, dt, n - 1);
        let p = projs[n - 1].moved(dt);
        lemma_first_hit_range(es, p, es.len() as int);
        let (es2, kept2) = flown(ents, projs, dt, n);
        assert forall|k: int| 0 <= k < ents.len() implies same_place(#[trigger] es2[k], ents[k]) by {
            assert(same_place(es[k], ents[k]));
        }
        assert forall|j: int, k: int|
            0 <= j < kept2.len() && 0 <= k < es2.len() implies !(#[trigger] kept2[j]).hits(
            #[trigger] es2[k],
        ) by {
            assert(same_place(es2[k], es[k]));
            if j < kept.len() {
                assert(kept2[j] == kept[j]);
                assert(!kept[j].hits(es[k]));
            } else {
                assert(kept2[j] == p.spent(dt));
                assert(!p.hits(es[k]));
            }
        }
    }
}

/// After any tick, no projectile in flight overlaps an entity it could hit:
/// each one was tested at the end of its move and entities do not move
/// after that within the tick.
pub proof fn tick_leaves_no_contact(w: WorldModel, dt: u64)
    ensures
        no_contact(ticked(w, dt).entities, ticked(w, dt).projectiles),
{
    let tg = targets_of(w.entities);
    let (e2, shots) = scheduled(faced_all(w.entities, tg), tg, dt, w.entities.len() as int);
    let all = w.projectiles + shots;
    lemma_flown_no_contact(e2, all, dt, all.len() as int);
    let (e3, flying) = flown(e2, all, dt, all.len() as int);
    let e4 = survivors(e3);
    assert forall|j: int, k: int|
        0 <= j < flying.len() && 0 <= k < e4.len() implies !(#[trigger] flying[j]).hits(
        #[trigger] e4[k],
    ) by {
        assert(e3.filter(|e: CombatEntity| is_alive(e)).contains(e4[k]));
        e3.lemma_filter_contains_rev(|e: CombatEntity| is_alive(e), e4[k]);
        let i = choose|i: int| 0 <= i < e3.len() && e3[i] == e4[k];
        assert(!flying[j].hits(e3[i]));
    }
}


proof fn lemma_faced_all_ok(ents: Seq<CombatEntity>, next: u64)
    requires
        entities_ok(ents, next),
    ensures
        entities_ok(faced_all(ents, targets_of(ents)), next),
        faced_all(ents, targets_of(ents)).len() == ents.len(),
{
    let tg = targets_of(ents);
    lemma_targets_ok(ents, next);
    let f = faced_all(ents, tg);
    assert forall|i: int| 0 <= i < f.len() implies #[trigger] f[i].wf() && f[i].handle < next by {
        assert(ents[i].wf());
        assert(tg[i] is Some ==> tg[i]->0.position.in_world());
    }
}

proof fn lemma_shot_ok(e: CombatEntity)
    requires
        e.wf(),
        e.kind == UnitKind::Tower,
    ensures
        shot_of(e).wf(),
{
    let v = e.facing;
    let n = len_sq(v);
    assert(n > 0) by (nonlinear_arith)
        requires
            n == v.x * v.x + v.y * v.y,
            v.x != 0 || v.y != 0,
    ;
    lemma_root_positive(n);
    lemma_root_exists(n);
    lemma_component_le_root(v.x as int, v.y as int, n);
    lemma_component_le_root(v.y as int, v.x as int, n);
    let d = root(n);
    let sp = e.stats.projectile_speed;
    lemma_scale_bound(v.x as int, sp as int, d);
    lemma_scale_bound(v.y as int, sp as int, d);
}

proof fn lemma_acted_ok(
    ents: Seq<CombatEntity>,
    shots: Seq<Projectile>,
    i: int,
    t: Option<Target>,
    dt: u64,
    next: u64,
)
    requires
        entities_ok(ents, next),
        projectiles_ok(shots),
        0 <= i < ents.len(),
        t is Some ==> t->0.index < ents.len() && t->0.position.in_world(),
    ensures
        entities_ok(acted(ents, shots, i, t, dt).0, next),
        projectiles_ok(acted(ents, shots, i, t, dt).1),
        acted(ents, shots, i, t, dt).0.len() == ents.len(),
{
    if let Some(t) = t {
        let e = ents[i];
        assert(e.wf());
        let (timer, fired) = e.timer.advanced(dt);
        assert(timer.wf());
        match e.kind {
            UnitKind::Tower => {
                let e2 = CombatEntity { timer, ..e };
                lemma_entities_ok_update(ents, next, i, e2);
                if fired {
                    lemma_shot_ok(e2);
                    let s2 = shots.push(shot_of(e2));
                    assert forall|j: int| 0 <= j < s2.len() implies (#[trigger] s2[j]).wf() by {
                        if j < shots.len() {
                            assert(s2[j] == shots[j]);
                        }
                    }
                }
            },
            UnitKind::Enemy => {
                if dist_sq(e.position, t.position) <= e.stats.engagement_range
                    * e.stats.engagement_range {
                    let es = ents.update(i, CombatEntity { timer, ..e });
                    lemma_entities_ok_update(ents, next, i, CombatEntity { timer, ..e });
                    if fired {
                        let k = t.index as int;
                        assert(es[k].wf());
                        lemma_entities_ok_update(es, next, k, struck(es[k], e.stats.damage));
                    }
                } else {
                    let p = stepped(e.position, t.position, step_len(e.stats.move_speed, dt));
                    assert(p.in_world());
                    lemma_entities_ok_update(ents, next, i, CombatEntity { position: p, ..e });
                }
            },
        }
    }
}

proof fn lemma_scheduled_ok(ents: Seq<CombatEntity>, tg: Seq<Option<Target>>, dt: u64, n: int, next: u64)
    requires
        entities_ok(ents, next),
        0 <= n <= ents.len(),
        tg.len() == ents.len(),
        targets_ok(tg, ents.len() as int),
    ensures
        entities_ok(scheduled(ents, tg, dt, n).0, next),
        projectiles_ok(scheduled(ents, tg, dt, n).1),
        scheduled(ents, tg, dt, n).0.len() == ents.len(),
    decreases n,
{
    if n > 0 {
        lemma_scheduled_ok(ents, tg, dt, n - 1, next);
        let (es, shots) = scheduled(ents, tg, dt, n - 1);
        assert(tg[n - 1] is Some ==> tg[n - 1]->0.index < ents.len()
            && tg[n - 1]->0.position.in_world());
        lemma_acted_ok(es, shots, n - 1, tg[n - 1], dt, next);
    }
}

proof fn lemma_flown_ok(ents: Seq<CombatEntity>, projs: Seq<Projectile>, dt: u64, n: int, next: u64)
    requires
        entities_ok(ents, next),
        projectiles_ok(projs),
        0 <= n <= projs.len(),
    ensures
        entities_ok(flown(ents, projs, dt, n).0, next),
        projectiles_ok(flown(ents, projs, dt, n).1),
    decreases n,
{
    if n > 0 {
        lemma_flown_ok(ents, projs, dt, n - 1, next);
        let (es, kept) = flown(ents, projs, dt, n - 1);
        assert(projs[n - 1].wf());
        let p = projs[n - 1].moved(dt);
        assert(p.wf() || p.remaining == 0);
        lemma_first_hit_range(es, p, es.len() as int);
        match first_hit(es, p, es.len() as int) {
            Some(k) => {
                assert(es[k].wf());
                lemma_entities_ok_update(es, next, k, struck(es[k], p.damage));
            },
            None => {
                let q = p.spent(dt);
                if q.remaining != 0 {
                    let k2 = kept.push(q);
                    assert forall|j: int| 0 <= j < k2.len() implies (#[trigger] k2[j]).wf() by {
                        if j < kept.len() {
                            assert(k2[j] == kept[j]);
                        }
                    }
                }
            },
        }
    }
}

proof fn lemma_accrued_ok(miners: Seq<Miner>, gold: u64, dt: u64, n: int, next: u64)
    requires
        miners_ok(miners, next),
        0 <= n <= miners.len(),
    ensures
        miners_ok(accrued_all(miners, gold, dt, n).0, next),
        accrued_all(miners, gold, dt, n).0.len() == miners.len(),
    decreases n,
{
    if n > 0 {
        lemma_accrued_ok(miners, gold, dt, n - 1, next);
        let (ms, g) = accrued_all(miners, gold, dt, n - 1);
        assert(ms[n - 1].wf());
        let m = ms[n - 1].accrued(g, dt).0;
        assert(m.wf());
        let ms2 = ms.update(n - 1, m);
        assert forall|j: int| 0 <= j < ms2.len() implies #[trigger] ms2[j].wf() && ms2[j].handle
            < next by {
            if j != n - 1 {
                assert(ms2[j] == ms[j]);
                assert(ms[j].wf());
            }
        }
    }
}

/// A tick keeps the world well formed.
pub proof fn tick_keeps_world_well_formed(w: WorldModel, dt: u64)
    requires
        w.wf(),
    ensures
        ticked(w, dt).wf(),
{
    let tg = targets_of(w.entities);
    let snap = faced_all(w.entities, tg);
    lemma_faced_all_ok(w.entities, w.next_handle);
    lemma_targets_ok(w.entities, w.next_handle);
    lemma_scheduled_ok(snap, tg, dt, snap.len() as int, w.next_handle);
    let (e2, shots) = scheduled(snap, tg, dt, snap.len() as int);
    let all = w.projectiles + shots;
    assert forall|j: int| 0 <= j < all.len() implies (#[trigger] all[j]).wf() by {
        if j < w.projectiles.len() {
            assert(all[j] == w.projectiles[j]);
        } else {
            assert(all[j] == shots[j - w.projectiles.len()]);
        }
    }
    lemma_flown_ok(e2, all, dt, all.len() as int, w.next_handle);
    let (e3, flying) = flown(e2, all, dt, all.len() as int);
    let alive = |e: CombatEntity| is_alive(e);
    let e4 = survivors(e3);
    assert forall|k: int| 0 <= k < e4.len() implies #[trigger] e4[k].wf() && e4[k].handle
        < w.next_handle && is_alive(e4[k]) by {
        assert(e3.filter(alive).contains(e4[k]));
        e3.lemma_filter_contains_rev(alive, e4[k]);
        e3.lemma_filter_pred(alive, k);
        let i = choose|i: int| 0 <= i < e3.len() && e3[i] == e4[k];
        assert(e3[i].wf());
    }
    let linked = |b: HPBar| has_handle(e4, b.parent);
    let bars = attached(w.bars, e4);
    assert forall|k: int| 0 <= k < bars.len() implies #[trigger] bars[k].handle < w.next_handle by {
        assert(w.bars.filter(linked).contains(bars[k]));
        w.bars.lemma_filter_contains_rev(linked, bars[k]);
    }
    lemma_accrued_ok(w.miners, w.gold, dt, w.miners.len() as int, w.next_handle);
}

/// A tick of zero duration right after any tick moves nothing, hurts
/// nothing and advances no timer: the world a tick produces is one where no
/// projectile overlaps an entity it could hit.
pub proof fn zero_tick_after_a_tick_changes_nothing(w0: WorldModel, dt: u64)
    requires
        w0.wf(),
    ensures
        ({
            let w = ticked(w0, dt);
            &&& ticked(w, 0).entities.len() == w.entities.len()
            &&& forall|k: int|
                0 <= k < w.entities.len() ==> {
                    &&& (#[trigger] ticked(w, 0).entities[k]).position == w.entities[k].position
                    &&& ticked(w, 0).entities[k].health == w.entities[k].health
                    &&& ticked(w, 0).entities[k].timer == w.entities[k].timer
                    &&& ticked(w, 0).entities[k].handle == w.entities[k].handle
                }
            &&& ticked(w, 0).projectiles == w.projectiles
            &&& ticked(w, 0).miners == w.miners
            &&& ticked(w, 0).gold == w.gold
        }),
{
    tick_keeps_world_well_formed(w0, dt);
    tick_leaves_no_contact(w0, dt);
    zero_tick_changes_nothing(ticked(w0, dt));
}


// ---------------------------------------------------------------- single turns

/// A tower's turn deals no damage: it only advances its own timer and may
/// add a projectile; no entity's position or health changes.
pub proof fn tower_turn_deals_no_damage(
    ents: Seq<CombatEntity>,
    shots: Seq<Projectile>,
    i: int,
    t: Option<Target>,
    dt: u64,
)
    requires
        0 <= i < ents.len(),
        ents[i].kind == UnitKind::Tower,
    ensures
        acted(ents, shots, i, t, dt).0.len() == ents.len(),
        forall|k: int|
            0 <= k < ents.len() ==> (#[trigger] acted(ents, shots, i, t, dt).0[k]).health
                == ents[k].health && acted(ents, shots, i, t, dt).0[k].position == ents[k].position,
        acted(ents, shots, i, t, dt).1.len() <= shots.len() + 1,
{
}

/// An enemy farther than its engagement range from its target walks toward
/// it by its speed times `dt`, keeps its timer paused, and hurts nobody;
/// no other entity changes.
pub proof fn enemy_turn_out_of_range(
    ents: Seq<CombatEntity>,
    shots: Seq<Projectile>,
    i: int,
    t: Target,
    dt: u64,
)
    requires
        0 <= i < ents.len(),
        ents[i].kind == UnitKind::Enemy,
        dist_sq(ents[i].position, t.position) > ents[i].stats.engagement_range
            * ents[i].stats.engagement_range,
    ensures
        ({
            let es = acted(ents, shots, i, Some(t), dt).0;
            &&& es.len() == ents.len()
            &&& es[i] == CombatEntity {
                position: stepped(
                    ents[i].position,
                    t.position,
                    step_len(ents[i].stats.move_speed, dt),
                ),
                ..ents[i]
            }
            &&& forall|k: int| 0 <= k < ents.len() && k != i ==> #[trigger] es[k] == ents[k]
        }),
        acted(ents, shots, i, Some(t), dt).1 == shots,
{
}

/// An enemy within engagement range of its target stays where it is and
/// advances its timer; only when the timer fires does the target take one
/// blow of the enemy's damage. No other entity changes.
pub proof fn enemy_turn_in_range(
    ents: Seq<CombatEntity>,
    shots: Seq<Projectile>,
    i: int,
    t: Target,
    dt: u64,
)
    requires
        0 <= i < ents.len(),
        0 <= t.index < ents.len(),
        t.index != i,
        ents[i].kind == UnitKind::Enemy,
        dist_sq(ents[i].position, t.position) <= ents[i].stats.engagement_range
            * ents[i].stats.engagement_range,
    ensures
        ({
            let es = acted(ents, shots, i, Some(t), dt).0;
            let (timer, fired) = ents[i].timer.advanced(dt);
            let k = t.index as int;
            &&& es.len() == ents.len()
            &&& es[i] == CombatEntity { timer, ..ents[i] }
            &&& es[k] == (if fired {
                struck(ents[k], ents[i].stats.damage)
            } else {
                ents[k]
            })
            &&& forall|j: int| 0 <= j < ents.len() && j != i && j != k ==> #[trigger] es[j] == ents[j]
        }),
        acted(ents, shots, i, Some(t), dt).1 == shots,
{
}

/// The `n`-th projectile's flight: it damages at most one entity, the
/// first it hits, by exactly one blow of its damage, and is then gone; if
/// it hits nothing, no entity changes.
pub proof fn projectile_hits_at_most_once(
    ents: Seq<CombatEntity>,
    projs: Seq<Projectile>,
    dt: u64,
    n: int,
)
    requires
        0 < n <= projs.len(),
    ensures
        ({
            let (es, kept) = flown(ents, projs, dt, n - 1);
            let (es2, kept2) = flown(ents, projs, dt, n);
            let p = projs[n - 1].moved(dt);
            match first_hit(es, p, es.len() as int) {
                Some(k) => {
                    &&& 0 <= k < es.len()
                    &&& es2 == es.update(k, struck(es[k], p.damage))
                    &&& kept2 == kept
                },
                None => es2 == es && kept2.len() <= kept.len() + 1,
            }
        }),
{
    let (es, kept) = flown(ents, projs, dt, n - 1);
    lemma_first_hit_range(es, projs[n - 1].moved(dt), es.len() as int);
    lemma_flown_no_contact(ents, projs, dt, n - 1);
}


/// The attack phase reads no projectile: two worlds with the same entities
/// give the same positions, timers, health and new shots after it, whatever
/// is in flight.
pub proof fn attacks_ignore_projectiles_in_flight(w1: WorldModel, w2: WorldModel, dt: u64)
    requires
        w1.entities == w2.entities,
    ensures
        ({
            let tg1 = targets_of(w1.entities);
            let tg2 = targets_of(w2.entities);
            scheduled(faced_all(w1.entities, tg1), tg1, dt, w1.entities.len() as int) == scheduled(
                faced_all(w2.entities, tg2),
                tg2,
                dt,
                w2.entities.len() as int,
            )
        }),
{
}

} // verus!
