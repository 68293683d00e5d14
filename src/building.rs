//! Miners and the player's gold.
use vstd::prelude::*;
use crate::geometry::Position;
use crate::timer::{AttackTimer, ConfigError, STAT_LIMIT};
use crate::unit::Faction;
use crate::world::{spawned_into, EntityKind, World};

verus! {

/// Gold the player starts with.
pub const STARTING_GOLD: u64 = 100;

/// The player's balance, credited by miners only.
#[derive(Clone, Copy, Debug, PartialEq, Eq, Structural)]
pub struct PlayerResources {
    pub gold: u64,
}

impl PlayerResources {
    pub fn new() -> (r: PlayerResources)
        ensures
            r.gold == STARTING_GOLD,
    {
        PlayerResources { gold: STARTING_GOLD }
    }
}

/// `a + b`, or `u64::MAX` where that does not fit.
pub open spec fn add_capped(a: u64, b: u64) -> u64 {
    if a + b > u64::MAX {
        u64::MAX
    } else {
        (a + b) as u64
    }
}

/// A structure that yields `gold` every time its timer fires.
#[derive(Clone, Copy, Debug, PartialEq, Eq, Structural)]
pub struct Miner {
    pub handle: u64,
    pub position: Position,
    /// Gold credited per firing.
    pub gold: u64,
    pub timer: AttackTimer,
}

impl Miner {
    /// Default yield: 10 gold.
    pub const YIELD: u64 = 10;

    /// Default accrual interval: one second.
    pub const INTERVAL: u64 = 1_000_000;

    /// Builds a miner with the default yield and interval at `position` and
    /// returns its handle.
    pub fn new(world: &mut World, position: Position) -> (r: Result<u64, ConfigError>)
        requires
            old(world)@.wf(),
        ensures
            final(world)@.wf(),
            r is Ok <==> old(world).next_handle + 1 <= u64::MAX && position.in_world(),
            r is Ok ==> r->Ok_0 == old(world).next_handle && final(world)@ == spawned_into(
                old(world)@,
                EntityKind::Miner,
                Faction::Defender,
                position,
            ),
            r is Err ==> final(world)@ == old(world)@,
    {
        world.spawn(EntityKind::Miner, Faction::Defender, position)
    }

    pub open spec fn wf(self) -> bool {
        &&& self.position.in_world()
        &&& self.gold <= STAT_LIMIT
        &&& self.timer.wf()
    }

    /// The miner after `dt` microseconds, and the balance after its yield,
    /// if it fired, is credited to `gold`.
    pub open spec fn accrued(self, gold: u64, dt: u64) -> (Miner, u64) {
        let (timer, fired) = self.timer.advanced(dt);
        (Miner { timer, ..self }, if fired {
            add_capped(gold, self.gold)
        } else {
            gold
        })
    }

    /// A miner with the given yield and interval; a zero interval, or a
    /// value above `STAT_LIMIT`, is refused, and so is a position outside
    /// the world.
    pub fn with_config(handle: u64, position: Position, gold: u64, interval: u64) -> (r: Result<
        Miner,
        ConfigError,
    >)
        ensures
            r is Ok <==> position.in_world() && gold <= STAT_LIMIT && 0 < interval <= STAT_LIMIT,
            r is Ok ==> r->Ok_0 == (Miner {
                handle,
                position,
                gold,
                timer: AttackTimer { elapsed: 0, interval },
            }),
            r is Err ==> r->Err_0 == (if position.in_world() {
                ConfigError::InvalidConfig
            } else {
                ConfigError::OutOfBounds
            }),
    {
        if !crate::unit::position_in_world(position) {
            return Err(ConfigError::OutOfBounds);
        }
        if gold > STAT_LIMIT {
            return Err(ConfigError::InvalidConfig);
        }
        match AttackTimer::new(interval) {
            Ok(timer) => Ok(Miner { handle, position, gold, timer }),
            Err(e) => Err(e),
        }
    }

    /// Advances the timer by `dt` microseconds and credits the yield to
    /// `res` if it fired.
    pub fn mine(&mut self, res: &mut PlayerResources, dt: u64)
        requires
            old(self).wf(),
        ensures
            (*final(self), final(res).gold) == old(self).accrued(old(res).gold, dt),
            final(self).wf(),
    {
        if self.timer.tick(dt) {
            if res.gold > u64::MAX - self.gold {
                res.gold = u64::MAX;
            } else {
                res.gold = res.gold + self.gold;
            }
        }
    }
}

} // verus!
