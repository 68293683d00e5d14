//! The entity registry: what it holds, when it is well formed, spawning and
//! lookup by handle.
use vstd::prelude::*;
use crate::building::{Miner, PlayerResources};
use crate::geometry::Position;
use crate::hp_bar::{create_hp_bar, HPBar};
use crate::projectile::Projectile;
use crate::timer::{AttackTimer, ConfigError, STAT_LIMIT};
use crate::unit::{CombatEntity, Enemy, Faction, Tower, UnitKind};

verus! {

/// The registry of everything that takes part in combat.
pub struct World {
    /// Towers and enemies, in order of creation.
    pub entities: Vec<CombatEntity>,
    pub projectiles: Vec<Projectile>,
    pub miners: Vec<Miner>,
    pub bars: Vec<HPBar>,
    pub resources: PlayerResources,
    /// The handle the next spawned entity, miner or bar receives.
    pub next_handle: u64,
}

/// The contents of a [`World`].
pub struct WorldModel {
    pub entities: Seq<CombatEntity>,
    pub projectiles: Seq<Projectile>,
    pub miners: Seq<Miner>,
    pub bars: Seq<HPBar>,
    pub gold: u64,
    pub next_handle: u64,
}

impl View for World {
    type V = WorldModel;

    open spec fn view(&self) -> WorldModel {
        WorldModel {
            entities: self.entities@,
            projectiles: self.projectiles@,
            miners: self.miners@,
            bars: self.bars@,
            gold: self.resources.gold,
            next_handle: self.next_handle,
        }
    }
}

/// Every entity is well formed and has a handle below `next`.
pub open spec fn entities_ok(s: Seq<CombatEntity>, next: u64) -> bool {
    forall|i: int| 0 <= i < s.len() ==> #[trigger] s[i].wf() && s[i].handle < next
}

pub open spec fn projectiles_ok(s: Seq<Projectile>) -> bool {
    forall|i: int| 0 <= i < s.len() ==> #[trigger] s[i].wf()
}

pub open spec fn miners_ok(s: Seq<Miner>, next: u64) -> bool {
    forall|i: int| 0 <= i < s.len() ==> #[trigger] s[i].wf() && s[i].handle < next
}

pub open spec fn bars_ok(s: Seq<HPBar>, next: u64) -> bool {
    forall|i: int| 0 <= i < s.len() ==> #[trigger] s[i].handle < next
}

pub open spec fn is_alive(e: CombatEntity) -> bool {
    e.health.current > 0
}

impl WorldModel {
    /// Well formed between ticks: every part well formed, handles below
    /// `next_handle`, and every combat entity alive.
    pub open spec fn wf(self) -> bool {
        &&& entities_ok(self.entities, self.next_handle)
        &&& forall|i: int| 0 <= i < self.entities.len() ==> is_alive(#[trigger] self.entities[i])
        &&& projectiles_ok(self.projectiles)
        &&& miners_ok(self.miners, self.next_handle)
        &&& bars_ok(self.bars, self.next_handle)
    }
}

pub open spec fn index_of(o: Option<usize>) -> Option<int> {
    match o {
        Some(k) => Some(k as int),
        None => None,
    }
}

pub open spec fn has_handle(ents: Seq<CombatEntity>, h: u64) -> bool {
    exists|k: int| 0 <= k < ents.len() && (#[trigger] ents[k]).handle == h
}

pub proof fn lemma_entities_ok_update(s: Seq<CombatEntity>, next: u64, i: int, e: CombatEntity)
    requires
        entities_ok(s, next),
        0 <= i < s.len(),
        e.wf(),
        e.handle < next,
    ensures
        entities_ok(s.update(i, e), next),
{
    let s2 = s.update(i, e);
    assert forall|j: int| 0 <= j < s2.len() implies #[trigger] s2[j].wf() && s2[j].handle < next by {
        if j != i {
            assert(s2[j] == s[j]);
            assert(s[j].wf());
        }
    }
}

impl World {
    /// An empty world and the starting balance.
    pub fn new() -> (r: World)
        ensures
            r@.entities.len() == 0,
            r@.projectiles.len() == 0,
            r@.miners.len() == 0,
            r@.bars.len() == 0,
            r@.gold == crate::building::STARTING_GOLD,
            r@.next_handle == 0,
            r@.wf(),
    {
        World {
            entities: Vec::new(),
            projectiles: Vec::new(),
            miners: Vec::new(),
            bars: Vec::new(),
            resources: PlayerResources::new(),
            next_handle: 0,
        }
    }
}

/// What a spawn command creates.
#[derive(Clone, Copy, Debug, PartialEq, Eq, Structural)]
pub enum EntityKind {
    Tower,
    Enemy,
    Miner,
}

/// Width of the health bar of a tower or an enemy (0.85 tiles).
pub const BAR_WIDTH: u64 = 1_275;

/// Height of that bar (0.1 tiles).
pub const BAR_HEIGHT: u64 = 150;

/// Height of that bar above its entity (0.5 tiles).
pub const BAR_RISE: i64 = 750;

/// The bar created for a fresh tower or enemy.
pub open spec fn default_bar(handle: u64, parent: u64) -> HPBar {
    HPBar {
        handle,
        parent,
        offset: Position { x: -637i64, y: BAR_RISE },
        full_width: BAR_WIDTH,
        height: BAR_HEIGHT,
        width: BAR_WIDTH,
    }
}

/// The earliest entity of `ents` with handle `h`.
pub open spec fn is_first_with(ents: Seq<CombatEntity>, h: u64, k: int) -> bool {
    &&& 0 <= k < ents.len()
    &&& ents[k].handle == h
    &&& forall|j: int| 0 <= j < k ==> (#[trigger] ents[j]).handle != h
}

pub open spec fn index_of_handle(ents: Seq<CombatEntity>, h: u64) -> Option<int> {
    if has_handle(ents, h) {
        Some(choose|k: int| is_first_with(ents, h, k))
    } else {
        None
    }
}

proof fn lemma_first_with_unique(ents: Seq<CombatEntity>, h: u64, k: int)
    requires
        is_first_with(ents, h, k),
    ensures
        index_of_handle(ents, h) == Some(k),
{
    assert(has_handle(ents, h));
    let c = choose|c: int| is_first_with(ents, h, c);
    assert(is_first_with(ents, h, c));
    if c < k {
        assert(ents[c].handle != h);
    } else if k < c {
        assert(ents[k].handle != h);
    }
}

impl World {
    /// Where the entity with handle `h` stands in the registry.
    pub fn find_entity(&self, h: u64) -> (r: Option<usize>)
        ensures
            index_of(r) == index_of_handle(self.entities@, h),
            r is Some ==> r->0 < self.entities@.len(),
    {
        let mut k: usize = 0;
        while k < self.entities.len()
            invariant
                k <= self.entities@.len(),
                forall|j: int| 0 <= j < k ==> (#[trigger] self.entities@[j]).handle != h,
            decreases self.entities@.len() - k,
        {
            if self.entities[k].handle == h {
                proof {
                    lemma_first_with_unique(self.entities@, h, k as int);
                }
                return Some(k);
            }
            k = k + 1;
        }
        None
    }

    /// The entity with handle `h`, if it is still in the registry.
    pub fn entity(&self, h: u64) -> (r: Option<CombatEntity>)
        ensures
            r is Some <==> has_handle(self.entities@, h),
            r is Some ==> r == Some(self.entities@[index_of_handle(self.entities@, h)->0]),
    {
        match self.find_entity(h) {
            Some(k) => Some(self.entities[k]),
            None => None,
        }
    }

    /// Adds a tower or an enemy with the given configuration and returns its
    /// handle.
    pub fn spawn_unit(
        &mut self,
        kind: UnitKind,
        faction: crate::unit::Faction,
        position: Position,
        max_health: u64,
        stats: crate::unit::Stats,
        interval: u64,
    ) -> (r: Result<u64, ConfigError>)
        requires
            old(self)@.wf(),
        ensures
            final(self)@.wf(),
            r is Ok <==> old(self).next_handle < u64::MAX && CombatEntity::config_ok(
                kind,
                position,
                max_health,
                stats,
                interval,
            ),
            r is Ok ==> {
                &&& r->Ok_0 == old(self).next_handle
                &&& final(self)@ == (WorldModel {
                    entities: old(self)@.entities.push(
                        CombatEntity::spawned(
                            r->Ok_0,
                            kind,
                            faction,
                            position,
                            max_health,
                            stats,
                            interval,
                        ),
                    ),
                    next_handle: (old(self).next_handle + 1) as u64,
                    ..old(self)@
                })
            },
            r is Err ==> final(self)@ == old(self)@,
            r is Err ==> r->Err_0 == (if old(self).next_handle == u64::MAX {
                ConfigError::HandlesExhausted
            } else if !position.in_world() {
                ConfigError::OutOfBounds
            } else {
                ConfigError::InvalidConfig
            }),
    {
        if self.next_handle == u64::MAX {
            return Err(ConfigError::HandlesExhausted);
        }
        let h = self.next_handle;
        match CombatEntity::new(h, kind, faction, position, max_health, stats, interval) {
            Ok(e) => {
                self.entities.push(e);
                self.next_handle = h + 1;
                Ok(h)
            },
            Err(err) => Err(err),
        }
    }

    /// Adds a miner with the given yield and interval and returns its handle.
    pub fn spawn_miner(&mut self, position: Position, gold: u64, interval: u64) -> (r: Result<
        u64,
        ConfigError,
    >)
        requires
            old(self)@.wf(),
        ensures
            final(self)@.wf(),
            r is Ok <==> old(self).next_handle < u64::MAX && position.in_world() && gold
                <= STAT_LIMIT && 0 < interval <= STAT_LIMIT,
            r is Ok ==> {
                &&& r->Ok_0 == old(self).next_handle
                &&& final(self)@ == (WorldModel {
                    miners: old(self)@.miners.push(
                        Miner {
                            handle: r->Ok_0,
                            position,
                            gold,
                            timer: crate::timer::AttackTimer { elapsed: 0, interval },
                        },
                    ),
                    next_handle: (old(self).next_handle + 1) as u64,
                    ..old(self)@
                })
            },
            r is Err ==> final(self)@ == old(self)@,
            r is Err ==> r->Err_0 == (if old(self).next_handle == u64::MAX {
                ConfigError::HandlesExhausted
            } else if !position.in_world() {
                ConfigError::OutOfBounds
            } else {
                ConfigError::InvalidConfig
            }),
    {
        if self.next_handle == u64::MAX {
            return Err(ConfigError::HandlesExhausted);
        }
        let h = self.next_handle;
        match Miner::with_config(h, position, gold, interval) {
            Ok(m) => {
                let ghost before = self.miners@;
                self.miners.push(m);
                self.next_handle = h + 1;
                assert forall|i: int| 0 <= i < self.miners@.len() implies (
                #[trigger] self.miners@[i]).wf() && self.miners@[i].handle < self.next_handle by {
                    if i < before.len() {
                        assert(before[i].wf());
                    }
                }
                Ok(h)
            },
            Err(err) => Err(err),
        }
    }

    /// Adds a projectile in flight.
    pub fn add_projectile(&mut self, p: Projectile)
        requires
            old(self)@.wf(),
            p.wf(),
        ensures
            final(self)@ == (WorldModel {
                projectiles: old(self)@.projectiles.push(p),
                ..old(self)@
            }),
            final(self)@.wf(),
    {
        self.projectiles.push(p);
    }
}


/// Handles a spawn command takes: the entity and its health bar, or the
/// miner alone.
pub open spec fn handles_needed(kind: EntityKind) -> int {
    match kind {
        EntityKind::Miner => 1,
        _ => 2,
    }
}

/// The world after a spawn command with default stats for the kind. Towers
/// and enemies also receive their health bar.
pub open spec fn spawned_into(w: WorldModel, kind: EntityKind, faction: Faction, position: Position) -> WorldModel {
    let h = w.next_handle;
    match kind {
        EntityKind::Tower => WorldModel {
            entities: w.entities.push(
                CombatEntity::spawned(
                    h,
                    UnitKind::Tower,
                    faction,
                    position,
                    Tower::MAX_HEALTH,
                    Tower::spec_stats(),
                    Tower::INTERVAL,
                ),
            ),
            bars: w.bars.push(default_bar((h + 1) as u64, h)),
            next_handle: (h + 2) as u64,
            ..w
        },
        EntityKind::Enemy => WorldModel {
            entities: w.entities.push(
                CombatEntity::spawned(
                    h,
                    UnitKind::Enemy,
                    faction,
                    position,
                    Enemy::MAX_HEALTH,
                    Enemy::spec_stats(),
                    Enemy::INTERVAL,
                ),
            ),
            bars: w.bars.push(default_bar((h + 1) as u64, h)),
            next_handle: (h + 2) as u64,
            ..w
        },
        EntityKind::Miner => WorldModel {
            miners: w.miners.push(
                Miner {
                    handle: h,
                    position,
                    gold: Miner::YIELD,
                    timer: AttackTimer { elapsed: 0, interval: Miner::INTERVAL },
                },
            ),
            next_handle: (h + 1) as u64,
            ..w
        },
    }
}

impl World {
    /// The spawn command: creates an entity of `kind` with that kind's
    /// default stats at `position` and returns its handle. `faction` is that
    /// of a tower or an enemy; a miner has none.
    pub fn spawn(&mut self, kind: EntityKind, faction: Faction, position: Position) -> (r: Result<
        u64,
        ConfigError,
    >)
        requires
            old(self)@.wf(),
        ensures
            final(self)@.wf(),
            r is Ok <==> old(self).next_handle + handles_needed(kind) <= u64::MAX
                && position.in_world(),
            r is Ok ==> r->Ok_0 == old(self).next_handle && final(self)@ == spawned_into(
                old(self)@,
                kind,
                faction,
                position,
            ),
            r is Err ==> final(self)@ == old(self)@,
            r is Err ==> r->Err_0 == (if old(self).next_handle + handles_needed(kind) > u64::MAX {
                ConfigError::HandlesExhausted
            } else {
                ConfigError::OutOfBounds
            }),
    {
        let (unit, max_health, stats, interval) = match kind {
            EntityKind::Miner => {
                if self.next_handle == u64::MAX {
                    return Err(ConfigError::HandlesExhausted);
                }
                return self.spawn_miner(position, Miner::YIELD, Miner::INTERVAL);
            },
            EntityKind::Tower => (UnitKind::Tower, Tower::MAX_HEALTH, Tower::stats(), Tower::INTERVAL),
            EntityKind::Enemy => (UnitKind::Enemy, Enemy::MAX_HEALTH, Enemy::stats(), Enemy::INTERVAL),
        };
        if self.next_handle >= u64::MAX - 1 {
            return Err(ConfigError::HandlesExhausted);
        }
        let h = match self.spawn_unit(unit, faction, position, max_health, stats, interval) {
            Ok(h) => h,
            Err(e) => return Err(e),
        };
        let bar = create_hp_bar(self, Position { x: 0, y: BAR_RISE }, BAR_WIDTH, BAR_HEIGHT, h);
        assert(bar is Ok);
        Ok(h)
    }
}

} // verus!
