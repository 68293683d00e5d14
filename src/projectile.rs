//! Projectiles: straight-line flight, first-hit collision, limited range.
use vstd::prelude::*;
use crate::geometry::{
    clamp_coord, clamp_to_world, isqrt, len_sq, length_squared, lemma_component_le_root, root, scale,
    scale_by_time, scale_component, Position, COORD_LIMIT, MICROS_PER_SECOND,
};
use crate::timer::{ConfigError, STAT_LIMIT};
use crate::unit::{CombatEntity, Faction};

verus! {

/// Side of the square hit box of a combat entity (0.7 tiles).
pub const ENTITY_BOX: i64 = 1_050;

/// Side of the square hit box of a projectile (0.2 tiles).
pub const PROJECTILE_BOX: i64 = 300;

/// A projectile in flight.
#[derive(Clone, Copy, Debug, PartialEq, Eq, Structural)]
pub struct Projectile {
    /// Faction of the entity that fired it; it only hits the other one.
    pub faction: Faction,
    pub damage: u64,
    pub position: Position,
    /// Displacement per second.
    pub velocity: Position,
    /// Nominal speed, by which the remaining range shrinks.
    pub speed: u64,
    /// Distance left before the projectile is spent.
    pub remaining: u64,
}

/// `|v|`.
pub open spec fn abs(v: int) -> int {
    if v < 0 {
        -v
    } else {
        v
    }
}

impl Projectile {
    pub open spec fn wf(self) -> bool {
        &&& self.position.in_world()
        &&& self.damage <= STAT_LIMIT
        &&& self.speed <= STAT_LIMIT
        &&& -self.speed <= self.velocity.x <= self.speed
        &&& -self.speed <= self.velocity.y <= self.speed
        &&& 0 < self.remaining
    }

    /// The velocity of speed `speed` along `direction` (components rounded
    /// toward zero); zero when the direction is.
    pub open spec fn aimed_velocity(direction: Position, speed: u64) -> Position {
        if direction.is_zero() {
            Position { x: 0, y: 0 }
        } else {
            let d = root(len_sq(direction));
            Position {
                x: scale(direction.x as int, speed as int, d) as i64,
                y: scale(direction.y as int, speed as int, d) as i64,
            }
        }
    }

    /// A fresh projectile.
    pub open spec fn launched(
        position: Position,
        direction: Position,
        faction: Faction,
        damage: u64,
        speed: u64,
        range: u64,
    ) -> Projectile {
        Projectile {
            faction,
            damage,
            position,
            velocity: Self::aimed_velocity(direction, speed),
            speed,
            remaining: range,
        }
    }

    pub open spec fn launch_ok(position: Position, direction: Position, damage: u64, speed: u64, range: u64) -> bool {
        &&& position.in_world()
        &&& direction.is_span()
        &&& !direction.is_zero()
        &&& damage <= STAT_LIMIT
        &&& speed <= STAT_LIMIT
        &&& 0 < range <= STAT_LIMIT
    }

    /// The projectile after flying for `dt` microseconds (kept inside the world).
    pub open spec fn moved(self, dt: u64) -> Projectile {
        Projectile {
            position: Position {
                x: clamp_coord(self.position.x + scale(self.velocity.x as int, dt as int, MICROS_PER_SECOND as int)) as i64,
                y: clamp_coord(self.position.y + scale(self.velocity.y as int, dt as int, MICROS_PER_SECOND as int)) as i64,
            },
            ..self
        }
    }

    /// Distance covered in `dt` microseconds.
    pub open spec fn travelled(self, dt: u64) -> int {
        self.speed * dt / MICROS_PER_SECOND as int
    }

    /// The projectile with its remaining range reduced by the distance
    /// covered in `dt` microseconds (down to zero).
    pub open spec fn spent(self, dt: u64) -> Projectile {
        Projectile {
            remaining: if self.travelled(dt) >= self.remaining {
                0
            } else {
                (self.remaining - self.travelled(dt)) as u64
            },
            ..self
        }
    }

    /// The hit boxes of the projectile and of an entity of the other faction
    /// overlap.
    pub open spec fn hits(self, e: CombatEntity) -> bool {
        &&& self.faction != e.faction
        &&& 2 * abs(self.position.x - e.position.x) < ENTITY_BOX + PROJECTILE_BOX
        &&& 2 * abs(self.position.y - e.position.y) < ENTITY_BOX + PROJECTILE_BOX
    }

    /// Fires a projectile from `position` along `direction`, which must not
    /// be zero; it carries `damage` and flies `range` units at `speed` units
    /// per second.
    pub fn spawn(
        position: Position,
        direction: Position,
        faction: Faction,
        damage: u64,
        speed: u64,
        range: u64,
    ) -> (r: Result<Projectile, ConfigError>)
        ensures
            r is Ok <==> Self::launch_ok(position, direction, damage, speed, range),
            r is Ok ==> r->Ok_0 == Self::launched(position, direction, faction, damage, speed, range),
            r is Ok ==> r->Ok_0.wf(),
            r is Err ==> r->Err_0 == (if position.in_world() && direction.is_span() {
                ConfigError::InvalidConfig
            } else {
                ConfigError::OutOfBounds
            }),
    {
        if !crate::unit::position_in_world(position) || direction.x < -2 * COORD_LIMIT
            || direction.x > 2 * COORD_LIMIT || direction.y < -2 * COORD_LIMIT || direction.y > 2
            * COORD_LIMIT {
            return Err(ConfigError::OutOfBounds);
        }
        if (direction.x == 0 && direction.y == 0) || damage > STAT_LIMIT || speed > STAT_LIMIT
            || range == 0 || range > STAT_LIMIT {
            return Err(ConfigError::InvalidConfig);
        }
        Ok(Self::launch(position, direction, faction, damage, speed, range))
    }

    pub fn launch(
        position: Position,
        direction: Position,
        faction: Faction,
        damage: u64,
        speed: u64,
        range: u64,
    ) -> (r: Projectile)
        requires
            Self::launch_ok(position, direction, damage, speed, range),
        ensures
            r == Self::launched(position, direction, faction, damage, speed, range),
            r.wf(),
    {
        let velocity = aim(direction, speed);
        Projectile { faction, damage, position, velocity, speed, remaining: range }
    }

    /// Moves the projectile by its velocity over `dt` microseconds.
    pub fn advance(&mut self, dt: u64)
        requires
            old(self).wf(),
        ensures
            *final(self) == old(self).moved(dt),
            final(self).wf(),
    {
        let dx = scale_by_time(self.velocity.x, dt);
        let dy = scale_by_time(self.velocity.y, dt);
        let x = clamp_to_world(self.position.x as i128 + dx);
        let y = clamp_to_world(self.position.y as i128 + dy);
        self.position = Position { x, y };
    }

    /// Shrinks the remaining range by the distance covered in `dt`
    /// microseconds; returns whether the projectile is spent.
    pub fn spend(&mut self, dt: u64) -> (spent: bool)
        requires
            old(self).speed <= STAT_LIMIT,
        ensures
            *final(self) == old(self).spent(dt),
            spent == (final(self).remaining == 0),
    {
        assert(self.speed as int * dt as int <= 0x1_0000_0000 * 0xffff_ffff_ffff_ffff) by (nonlinear_arith)
            requires
                self.speed <= 0x1_0000_0000,
                dt <= 0xffff_ffff_ffff_ffff,
        ;
        let travelled: u128 = self.speed as u128 * dt as u128 / MICROS_PER_SECOND as u128;
        if travelled >= self.remaining as u128 {
            self.remaining = 0;
        } else {
            self.remaining = self.remaining - travelled as u64;
        }
        self.remaining == 0
    }

    /// Whether the projectile overlaps `e`, an entity of the other faction.
    pub fn hits_entity(&self, e: &CombatEntity) -> (r: bool)
        requires
            self.position.in_world(),
            e.position.in_world(),
        ensures
            r == self.hits(*e),
    {
        if self.faction == e.faction {
            return false;
        }
        let dx: i128 = self.position.x as i128 - e.position.x as i128;
        let dy: i128 = self.position.y as i128 - e.position.y as i128;
        let ax: i128 = if dx < 0 { -dx } else { dx };
        let ay: i128 = if dy < 0 { -dy } else { dy };
        2 * ax < (ENTITY_BOX + PROJECTILE_BOX) as i128 && 2 * ay < (ENTITY_BOX + PROJECTILE_BOX) as i128
    }
}

/// The velocity of speed `speed` along `direction`.
fn aim(direction: Position, speed: u64) -> (r: Position)
    requires
        direction.is_span(),
        speed <= STAT_LIMIT,
    ensures
        r == Projectile::aimed_velocity(direction, speed),
        -speed <= r.x <= speed,
        -speed <= r.y <= speed,
{
    if direction.x == 0 && direction.y == 0 {
        return Position { x: 0, y: 0 };
    }
    let n = length_squared(direction);
    assert(n < 0x10_0000_0000_0000_0000_0000) by (nonlinear_arith)
        requires
            n == direction.x * direction.x + direction.y * direction.y,
            -0x200_0000_0000 <= direction.x <= 0x200_0000_0000,
            -0x200_0000_0000 <= direction.y <= 0x200_0000_0000,
    ;
    assert(n > 0) by (nonlinear_arith)
        requires
            n == direction.x * direction.x + direction.y * direction.y,
            direction.x != 0 || direction.y != 0,
    ;
    let d = isqrt(n);
    proof {
        lemma_component_le_root(direction.x as int, direction.y as int, n as int);
        lemma_component_le_root(direction.y as int, direction.x as int, n as int);
        if d == 0 {
            assert(n < 1);
        }
    }
    let x = scale_component(direction.x, speed as u128, d as u128);
    let y = scale_component(direction.y, speed as u128, d as u128);
    Position { x: x as i64, y: y as i64 }
}

} // verus!
