//! Turning the player's selection and cursor position into a spawn command.
use vstd::prelude::*;
use crate::geometry::{snap_to_tile, snapped, Position};
use crate::timer::ConfigError;
use crate::unit::{position_in_world, Enemy, Faction, Tower};
use crate::world::{spawned_into, EntityKind, World};

verus! {

/// What the player has selected to place.
#[derive(Clone, Copy, Debug, PartialEq, Eq, Hash, Structural)]
pub enum Icons {
    Enemy,
    Tower,
}

/// Where a selection lands for a cursor at `cursor`: an enemy exactly
/// there, a tower at the centre of the tile under it.
pub open spec fn placed_at(icon: Icons, cursor: Position) -> Position {
    match icon {
        Icons::Enemy => cursor,
        Icons::Tower => Position {
            x: snapped(cursor.x as int) as i64,
            y: snapped(cursor.y as int) as i64,
        },
    }
}

pub open spec fn placed_kind(icon: Icons) -> (EntityKind, Faction) {
    match icon {
        Icons::Enemy => (EntityKind::Enemy, Faction::Attacker),
        Icons::Tower => (EntityKind::Tower, Faction::Defender),
    }
}

/// Places the selected entity for a click with the cursor at `cursor`
/// (world coordinates) and returns its handle.
pub fn place_at_cursor(world: &mut World, icon: Icons, cursor: Position) -> (r: Result<
    u64,
    ConfigError,
>)
    requires
        old(world)@.wf(),
    ensures
        final(world)@.wf(),
        r is Ok <==> cursor.in_world() && placed_at(icon, cursor).in_world() && old(
            world,
        ).next_handle + 2 <= u64::MAX,
        r is Ok ==> r->Ok_0 == old(world).next_handle && final(world)@ == spawned_into(
            old(world)@,
            placed_kind(icon).0,
            placed_kind(icon).1,
            placed_at(icon, cursor),
        ),
        r is Err ==> final(world)@ == old(world)@,
{
    if !position_in_world(cursor) {
        return Err(ConfigError::OutOfBounds);
    }
    match icon {
        Icons::Enemy => Enemy::new(world, cursor),
        Icons::Tower => Tower::create_tower(world, snap_to_tile(cursor)),
    }
}

} // verus!
