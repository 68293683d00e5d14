//! Combat entities: towers, which shoot, and enemies, which strike in melee.
use vstd::prelude::*;
use crate::geometry::{Position, TILE};
use crate::hp_bar::Health;
use crate::timer::{AttackTimer, ConfigError, STAT_LIMIT};
use crate::world::{spawned_into, EntityKind, World};

verus! {

/// Entities of one faction only ever target and hit the other one.
#[derive(Clone, Copy, Debug, PartialEq, Eq, Structural)]
pub enum Faction {
    Attacker,
    Defender,
}

/// How an entity attacks.
#[derive(Clone, Copy, Debug, PartialEq, Eq, Structural)]
pub enum UnitKind {
    /// Stands still and fires projectiles along its facing.
    Tower,
    /// Walks up to its target and strikes it directly.
    Enemy,
}

/// Role stats of a combat entity. Speeds are in length units per second.
#[derive(Clone, Copy, Debug, PartialEq, Eq, Structural)]
pub struct Stats {
    /// Damage of one strike, or of each projectile fired.
    pub damage: u64,
    /// Walking speed of a melee attacker.
    pub move_speed: u64,
    /// Largest distance from which a melee attacker strikes.
    pub engagement_range: u64,
    /// Speed of the projectiles a ranged attacker fires.
    pub projectile_speed: u64,
    /// Distance a projectile travels before it is spent.
    pub projectile_range: u64,
}

impl Stats {
    /// Every stat is within `STAT_LIMIT`, and a unit that shoots has a
    /// positive projectile range.
    pub open spec fn wf(self, kind: UnitKind) -> bool {
        &&& self.damage <= STAT_LIMIT
        &&& self.move_speed <= STAT_LIMIT
        &&& self.engagement_range <= STAT_LIMIT
        &&& self.projectile_speed <= STAT_LIMIT
        &&& self.projectile_range <= STAT_LIMIT
        &&& kind == UnitKind::Tower ==> 0 < self.projectile_range
    }

    /// Checks the stats of a unit of `kind`.
    pub fn validate(&self, kind: UnitKind) -> (r: Result<(), ConfigError>)
        ensures
            r is Ok <==> self.wf(kind),
            r is Err ==> r->Err_0 == ConfigError::InvalidConfig,
    {
        let ranged = match kind {
            UnitKind::Tower => true,
            UnitKind::Enemy => false,
        };
        if self.damage > STAT_LIMIT || self.move_speed > STAT_LIMIT || self.engagement_range
            > STAT_LIMIT || self.projectile_speed > STAT_LIMIT || self.projectile_range
            > STAT_LIMIT || (ranged && self.projectile_range == 0) {
            Err(ConfigError::InvalidConfig)
        } else {
            Ok(())
        }
    }
}

/// A tower or an enemy.
#[derive(Clone, Copy, Debug, PartialEq, Eq, Structural)]
pub struct CombatEntity {
    pub handle: u64,
    pub kind: UnitKind,
    pub faction: Faction,
    pub position: Position,
    /// The direction the entity points at: the vector to its last target,
    /// or straight up the y axis while it has never had one; never zero.
    pub facing: Position,
    pub health: Health,
    pub stats: Stats,
    /// Cooldown between attacks.
    pub timer: AttackTimer,
}

impl CombatEntity {
    pub open spec fn wf(self) -> bool {
        &&& self.position.in_world()
        &&& self.facing.is_span()
        &&& !self.facing.is_zero()
        &&& self.health.wf()
        &&& self.stats.wf(self.kind)
        &&& self.timer.wf()
    }

    /// The entity as spawned: full health, facing up the y axis, nothing
    /// accumulated.
    pub open spec fn spawned(
        handle: u64,
        kind: UnitKind,
        faction: Faction,
        position: Position,
        max_health: u64,
        stats: Stats,
        interval: u64,
    ) -> CombatEntity {
        CombatEntity {
            handle,
            kind,
            faction,
            position,
            facing: Position { x: 0, y: 1 },
            health: Health { current: max_health, max: max_health },
            stats,
            timer: AttackTimer { elapsed: 0, interval },
        }
    }

    /// The configuration is acceptable: a position in the world, positive
    /// health and interval, and stats valid for `kind`.
    pub open spec fn config_ok(
        kind: UnitKind,
        position: Position,
        max_health: u64,
        stats: Stats,
        interval: u64,
    ) -> bool {
        &&& position.in_world()
        &&& 0 < max_health <= STAT_LIMIT
        &&& stats.wf(kind)
        &&& 0 < interval <= STAT_LIMIT
    }

    /// Builds an entity, refusing a malformed configuration.
    pub fn new(
        handle: u64,
        kind: UnitKind,
        faction: Faction,
        position: Position,
        max_health: u64,
        stats: Stats,
        interval: u64,
    ) -> (r: Result<CombatEntity, ConfigError>)
        ensures
            r is Ok <==> Self::config_ok(kind, position, max_health, stats, interval),
            r is Ok ==> r->Ok_0 == Self::spawned(handle, kind, faction, position, max_health, stats, interval),
            r is Err ==> r->Err_0 == (if position.in_world() {
                ConfigError::InvalidConfig
            } else {
                ConfigError::OutOfBounds
            }),
    {
        if !position_in_world(position) {
            return Err(ConfigError::OutOfBounds);
        }
        let health = match Health::new(max_health) {
            Ok(h) => h,
            Err(e) => return Err(e),
        };
        let timer = match AttackTimer::new(interval) {
            Ok(t) => t,
            Err(e) => return Err(e),
        };
        match stats.validate(kind) {
            Ok(()) => {},
            Err(e) => return Err(e),
        }
        Ok(CombatEntity {
            handle,
            kind,
            faction,
            position,
            facing: Position { x: 0, y: 1 },
            health,
            stats,
            timer,
        })
    }
}

/// Whether `p` lies in the world square.
pub fn position_in_world(p: Position) -> (r: bool)
    ensures
        r == p.in_world(),
{
    -crate::geometry::COORD_LIMIT <= p.x && p.x <= crate::geometry::COORD_LIMIT
        && -crate::geometry::COORD_LIMIT <= p.y && p.y <= crate::geometry::COORD_LIMIT
}

/// Default tower: 100 health, fires every second a projectile of 20 damage
/// that flies one world unit per second for ten tiles.
pub struct Tower;

impl Tower {
    /// Spawns a defending tower at `position` and returns its handle.
    pub fn create_tower(world: &mut World, position: Position) -> (r: Result<u64, ConfigError>)
        requires
            old(world)@.wf(),
        ensures
            final(world)@.wf(),
            r is Ok <==> old(world).next_handle + 2 <= u64::MAX && position.in_world(),
            r is Ok ==> r->Ok_0 == old(world).next_handle && final(world)@ == spawned_into(
                old(world)@,
                EntityKind::Tower,
                Faction::Defender,
                position,
            ),
            r is Err ==> final(world)@ == old(world)@,
    {
        world.spawn(EntityKind::Tower, Faction::Defender, position)
    }

    pub const MAX_HEALTH: u64 = 100;

    pub const INTERVAL: u64 = 1_000_000;

    pub open spec fn spec_stats() -> Stats {
        Stats {
            damage: 20,
            move_speed: 0,
            engagement_range: 0,
            projectile_speed: 10_000,
            projectile_range: 15_000,
        }
    }

    pub fn stats() -> (r: Stats)
        ensures
            r == Self::spec_stats(),
            r.wf(UnitKind::Tower),
    {
        Stats {
            damage: 20,
            move_speed: 0,
            engagement_range: 0,
            projectile_speed: 10_000,
            projectile_range: 10 * TILE as u64,
        }
    }
}

/// Default enemy: 100 health, walks three tiles per second and strikes for
/// 10 damage every half second from within 0.3 tiles.
pub struct Enemy;

impl Enemy {
    /// Spawns an attacking enemy at `position` and returns its handle.
    pub fn new(world: &mut World, position: Position) -> (r: Result<u64, ConfigError>)
        requires
            old(world)@.wf(),
        ensures
            final(world)@.wf(),
            r is Ok <==> old(world).next_handle + 2 <= u64::MAX && position.in_world(),
            r is Ok ==> r->Ok_0 == old(world).next_handle && final(world)@ == spawned_into(
                old(world)@,
                EntityKind::Enemy,
                Faction::Attacker,
                position,
            ),
            r is Err ==> final(world)@ == old(world)@,
    {
        world.spawn(EntityKind::Enemy, Faction::Attacker, position)
    }

    pub const MAX_HEALTH: u64 = 100;

    pub const INTERVAL: u64 = 500_000;

    pub open spec fn spec_stats() -> Stats {
        Stats {
            damage: 10,
            move_speed: 4_500,
            engagement_range: 450,
            projectile_speed: 0,
            projectile_range: 0,
        }
    }

    pub fn stats() -> (r: Stats)
        ensures
            r == Self::spec_stats(),
            r.wf(UnitKind::Enemy),
    {
        Stats {
            damage: 10,
            move_speed: 3 * TILE as u64,
            engagement_range: 3 * TILE as u64 / 10,
            projectile_speed: 0,
            projectile_range: 0,
        }
    }
}

} // verus!
