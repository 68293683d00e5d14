//! Health, and the health bars that display it.
use vstd::prelude::*;
use crate::geometry::Position;
use crate::timer::{ConfigError, STAT_LIMIT};
use crate::unit::CombatEntity;
use crate::world::{index_of_handle, World, WorldModel};

verus! {

/// Hit points of a combat entity.
#[derive(Clone, Copy, Debug, PartialEq, Eq, Structural)]
pub struct Health {
    pub current: u64,
    pub max: u64,
}

impl Health {
    pub open spec fn wf(self) -> bool {
        0 < self.max <= STAT_LIMIT && self.current <= self.max
    }

    /// Health after one blow of `amount`; it never drops below zero.
    pub open spec fn damaged(self, amount: u64) -> Health {
        Health {
            current: if amount >= self.current {
                0
            } else {
                (self.current - amount) as u64
            },
            max: self.max,
        }
    }

    /// Width of a bar whose full width is `full`: `full * current / max`.
    pub open spec fn fill_of(self, full: u64) -> int {
        full * self.current / self.max as int
    }

    /// Full health of `max` points; zero or more than `STAT_LIMIT` is refused.
    pub fn new(max: u64) -> (r: Result<Health, ConfigError>)
        ensures
            r is Ok <==> 0 < max <= STAT_LIMIT,
            r is Ok ==> r->Ok_0 == (Health { current: max, max }),
            r is Err ==> r->Err_0 == ConfigError::InvalidConfig,
    {
        if max == 0 || max > STAT_LIMIT {
            Err(ConfigError::InvalidConfig)
        } else {
            Ok(Health { current: max, max })
        }
    }

    /// Applies one blow of `amount` points.
    pub fn take_damage(&mut self, amount: u64)
        ensures
            *final(self) == old(self).damaged(amount),
    {
        if amount >= self.current {
            self.current = 0;
        } else {
            self.current = self.current - amount;
        }
    }

    pub fn is_dead(&self) -> (r: bool)
        ensures
            r == (self.current == 0),
    {
        self.current == 0
    }

    /// The displayed width of a bar of full width `full`, in proportion to
    /// the health left.
    pub fn bar_width(&self, full: u64) -> (r: u64)
        requires
            self.wf(),
        ensures
            r == self.fill_of(full),
            r <= full,
    {
        assert(full as int * self.current as int <= 0xffff_ffff_ffff_ffff * 0x1_0000_0000) by (nonlinear_arith)
            requires
                full <= 0xffff_ffff_ffff_ffff,
                self.current <= 0x1_0000_0000,
        ;
        let p: u128 = full as u128 * self.current as u128;
        assert(p <= full as int * self.max as int) by (nonlinear_arith)
            requires
                p == full as int * self.current as int,
                self.current <= self.max,
                0 <= full,
        ;
        assert(p as int / (self.max as int) <= full) by (nonlinear_arith)
            requires
                p <= full as int * self.max as int,
                0 < self.max,
                0 <= p,
        ;
        (p / self.max as u128) as u64
    }
}

/// A bar that shows the health of the entity with handle `parent`.
#[derive(Clone, Copy, Debug, PartialEq, Eq, Structural)]
pub struct HPBar {
    pub handle: u64,
    /// Handle of the entity whose health the bar shows.
    pub parent: u64,
    /// Offset of the bar's left end from its parent's position.
    pub offset: Position,
    /// Width at full health.
    pub full_width: u64,
    pub height: u64,
    /// Width displayed now.
    pub width: u64,
}

/// Adds a health bar for the entity with handle `parent` and returns the
/// bar's handle. The bar is centred over its parent at height
/// `offset.y`, and starts at full width.
pub fn create_hp_bar(world: &mut World, offset: Position, full_width: u64, height: u64, parent: u64) -> (r:
    Result<u64, ConfigError>)
    requires
        old(world)@.wf(),
    ensures
        final(world)@.wf(),
        r is Ok <==> old(world).next_handle < u64::MAX,
        r is Ok ==> {
            &&& r->Ok_0 == old(world).next_handle
            &&& final(world)@ == (WorldModel {
                bars: old(world)@.bars.push(
                    HPBar {
                        handle: r->Ok_0,
                        parent,
                        offset: Position { x: -((full_width / 2) as int) as i64, y: offset.y },
                        full_width,
                        height,
                        width: full_width,
                    },
                ),
                next_handle: (old(world).next_handle + 1) as u64,
                ..old(world)@
            })
        },
        r is Err ==> final(world)@ == old(world)@ && r->Err_0 == ConfigError::HandlesExhausted,
{
    if world.next_handle == u64::MAX {
        return Err(ConfigError::HandlesExhausted);
    }
    let h = world.next_handle;
    let half: i64 = (full_width / 2) as i64;
    world.bars.push(
        HPBar {
            handle: h,
            parent,
            offset: Position { x: -half, y: offset.y },
            full_width,
            height,
            width: full_width,
        },
    );
    world.next_handle = h + 1;
    Ok(h)
}


/// `b` with its width set from the health of its parent among `ents`;
/// unchanged when the parent is gone.
pub open spec fn refreshed(b: HPBar, ents: Seq<CombatEntity>) -> HPBar {
    match index_of_handle(ents, b.parent) {
        Some(k) => HPBar { width: ents[k].health.fill_of(b.full_width) as u64, ..b },
        None => b,
    }
}

/// Sets the width of every bar in proportion to its parent's health.
pub fn update_hp_bars(world: &mut World)
    requires
        old(world)@.wf(),
    ensures
        final(world)@ == (WorldModel {
            bars: Seq::new(
                old(world)@.bars.len(),
                |i: int| refreshed(old(world)@.bars[i], old(world)@.entities),
            ),
            ..old(world)@
        }),
        final(world)@.wf(),
{
    let ghost bars0 = world.bars@;
    let n = world.bars.len();
    let mut i: usize = 0;
    while i < n
        invariant
            n == bars0.len(),
            i <= n,
            world.bars@.len() == n,
            forall|j: int| 0 <= j < i ==> world.bars@[j] == refreshed(bars0[j], world.entities@),
            forall|j: int| i <= j < n ==> world.bars@[j] == bars0[j],
            world.entities == old(world).entities,
            world.projectiles == old(world).projectiles,
            world.miners == old(world).miners,
            world.resources == old(world).resources,
            world.next_handle == old(world).next_handle,
            old(world)@.wf(),
        decreases n - i,
    {
        let mut b = world.bars[i];
        match world.find_entity(b.parent) {
            Some(k) => {
                assert(world.entities@[k as int].wf());
                b.width = world.entities[k].health.bar_width(b.full_width);
                world.bars.set(i, b);
            },
            None => {},
        }
        i = i + 1;
    }
    assert(world.bars@ =~= Seq::new(bars0.len(), |i: int| refreshed(bars0[i], world.entities@)));
}

} // verus!
