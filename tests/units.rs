use base_defense::building::{Miner, PlayerResources, STARTING_GOLD};
use base_defense::geometry::{
    distance_squared, isqrt, scale_by_time, scale_component, snap_to_tile, Position, COORD_LIMIT,
    TILE,
};
use base_defense::hp_bar::{create_hp_bar, update_hp_bars, Health};
use base_defense::placement::{place_at_cursor, Icons};
use base_defense::projectile::Projectile;
use base_defense::timer::{AttackTimer, ConfigError, STAT_LIMIT};
use base_defense::unit::{CombatEntity, Enemy, Faction, Stats, Tower, UnitKind};
use base_defense::world::{EntityKind, World};

fn at(x: i64, y: i64) -> Position {
    Position::new(x, y)
}

fn melee(damage: u64) -> Stats {
    Stats {
        damage,
        move_speed: 0,
        engagement_range: 10 * TILE as u64,
        projectile_speed: 0,
        projectile_range: 1,
    }
}

#[test]
fn squared_distance_and_root() {
    assert_eq!(distance_squared(at(0, 0), at(3, 4)), 25);
    assert_eq!(distance_squared(at(-3, 0), at(0, -4)), 25);
    assert_eq!(isqrt(0), 0);
    assert_eq!(isqrt(24), 4);
    assert_eq!(isqrt(25), 5);
    assert_eq!(isqrt(26), 5);
    let big = 4 * (COORD_LIMIT as u128) * (COORD_LIMIT as u128) * 2;
    let r = isqrt(big) as u128;
    assert!(r * r <= big && big < (r + 1) * (r + 1));
}

#[test]
fn scaling_rounds_toward_zero() {
    assert_eq!(scale_component(7, 3, 2), 10);
    assert_eq!(scale_component(-7, 3, 2), -10);
    assert_eq!(scale_by_time(4_500, 100_000), 450);
    assert_eq!(scale_by_time(-3, 500_000), -1);
}

#[test]
fn snapping_picks_the_nearest_tile_centre() {
    assert_eq!(snap_to_tile(at(0, 0)), at(0, 0));
    assert_eq!(snap_to_tile(at(749, 751)), at(0, 1500));
    assert_eq!(snap_to_tile(at(-751, -750)), at(-1500, 0));
    assert_eq!(snap_to_tile(at(2 * TILE + 10, -2 * TILE - 10)), at(3000, -3000));
}

#[test]
fn timer_fires_once_and_drops_the_excess() {
    let mut t = AttackTimer::new(500_000).unwrap();
    assert!(!t.tick(300_000));
    assert_eq!(t.elapsed, 300_000);
    assert!(t.tick(200_000));
    assert_eq!(t.elapsed, 0);
    assert!(t.tick(1_700_000));
    assert_eq!(t.elapsed, 0);
    assert!(!t.tick(0));
    assert_eq!(t.elapsed, 0);
}

#[test]
fn malformed_configurations_are_refused() {
    assert_eq!(AttackTimer::new(0), Err(ConfigError::InvalidConfig));
    assert_eq!(AttackTimer::new(STAT_LIMIT + 1), Err(ConfigError::InvalidConfig));
    assert_eq!(Health::new(0), Err(ConfigError::InvalidConfig));
    assert_eq!(Health::new(5), Ok(Health { current: 5, max: 5 }));
    let bad = Stats { damage: STAT_LIMIT + 1, ..melee(1) };
    assert_eq!(bad.validate(UnitKind::Enemy), Err(ConfigError::InvalidConfig));
    let no_range = Stats { projectile_range: 0, ..melee(1) };
    assert_eq!(no_range.validate(UnitKind::Tower), Err(ConfigError::InvalidConfig));
    assert_eq!(no_range.validate(UnitKind::Enemy), Ok(()));
    assert_eq!(Enemy::stats().validate(UnitKind::Enemy), Ok(()));
    assert_eq!(Enemy::stats().projectile_range, 0);
    assert_eq!(
        CombatEntity::new(0, UnitKind::Enemy, Faction::Attacker, at(0, 0), 10, melee(1), 0),
        Err(ConfigError::InvalidConfig)
    );
    assert_eq!(
        CombatEntity::new(0, UnitKind::Enemy, Faction::Attacker, at(COORD_LIMIT + 1, 0), 10, melee(1), 5),
        Err(ConfigError::OutOfBounds)
    );
    assert_eq!(
        Projectile::spawn(at(0, 0), at(1, 0), Faction::Defender, 1, 1, 0),
        Err(ConfigError::InvalidConfig)
    );
    assert_eq!(
        Projectile::spawn(at(0, 0), at(i64::MAX, 0), Faction::Defender, 1, 1, 1),
        Err(ConfigError::OutOfBounds)
    );
    assert_eq!(
        Miner::with_config(0, at(0, 0), 10, 0),
        Err(ConfigError::InvalidConfig)
    );
}

#[test]
fn spawn_errors_leave_the_world_unchanged() {
    let mut w = World::new();
    assert_eq!(
        w.spawn(EntityKind::Tower, Faction::Defender, at(0, -COORD_LIMIT - 1)),
        Err(ConfigError::OutOfBounds)
    );
    assert!(w.entities.is_empty() && w.bars.is_empty());
    assert_eq!(w.next_handle, 0);
    w.next_handle = u64::MAX - 1;
    assert_eq!(
        w.spawn(EntityKind::Enemy, Faction::Attacker, at(0, 0)),
        Err(ConfigError::HandlesExhausted)
    );
    assert!(w.entities.is_empty());
    assert_eq!(w.spawn(EntityKind::Miner, Faction::Defender, at(0, 0)), Ok(u64::MAX - 1));
    assert_eq!(w.miners.len(), 1);
    assert_eq!(
        w.spawn(EntityKind::Miner, Faction::Defender, at(0, 0)),
        Err(ConfigError::HandlesExhausted)
    );
}

#[test]
fn spawn_gives_default_stats_and_a_bar() {
    let mut w = World::new();
    let t = Tower::create_tower(&mut w, at(TILE, 2 * TILE)).unwrap();
    let e = Enemy::new(&mut w, at(0, 0)).unwrap();
    assert_eq!((t, e), (0, 2));
    assert_eq!(w.next_handle, 4);
    let tower = w.entity(t).unwrap();
    assert_eq!(tower.faction, Faction::Defender);
    assert_eq!(tower.facing, at(0, 1));
    assert_eq!(tower.health, Health { current: 100, max: 100 });
    assert_eq!(tower.stats.damage, 20);
    assert_eq!(tower.timer.interval, 1_000_000);
    let enemy = w.entity(e).unwrap();
    assert_eq!(enemy.faction, Faction::Attacker);
    assert_eq!(enemy.stats.move_speed, 4_500);
    assert_eq!(enemy.stats.engagement_range, 450);
    assert_eq!(enemy.timer.interval, 500_000);
    assert_eq!(w.bars.len(), 2);
    assert_eq!(w.bars[0].parent, t);
    assert_eq!(w.bars[0].offset, at(-637, 750));
    assert_eq!(w.bars[1].parent, e);
    let m = Miner::new(&mut w, at(0, 0)).unwrap();
    assert_eq!(m, 4);
    assert_eq!(w.miners[0].gold, 10);
    assert_eq!(w.miners[0].timer.interval, 1_000_000);
    assert_eq!(w.resources.gold, STARTING_GOLD);
    assert_eq!(PlayerResources::new().gold, 100);
}

#[test]
fn ties_go_to_the_earliest_entity() {
    let mut w = World::new();
    Tower::create_tower(&mut w, at(0, 0)).unwrap();
    Enemy::new(&mut w, at(0, 3 * TILE)).unwrap();
    Enemy::new(&mut w, at(3 * TILE, 0)).unwrap();
    assert_eq!(w.find_target(0), Some(1));
    assert_eq!(w.find_target(1), Some(0));
    let mut lone = World::new();
    Enemy::new(&mut lone, at(0, 0)).unwrap();
    Enemy::new(&mut lone, at(TILE, 0)).unwrap();
    assert_eq!(lone.find_target(0), None);
}

#[test]
fn targeting_turns_the_attacker() {
    let mut w = World::new();
    Tower::create_tower(&mut w, at(0, 0)).unwrap();
    Enemy::new(&mut w, at(3, 4)).unwrap();
    let tg = w.acquire_targets();
    assert_eq!(tg[0].unwrap().index, 1);
    assert_eq!(w.entities[0].facing, at(3, 4));
    assert_eq!(w.entities[1].facing, at(-3, -4));
    let mut same = World::new();
    Tower::create_tower(&mut same, at(0, 0)).unwrap();
    Enemy::new(&mut same, at(0, 0)).unwrap();
    same.acquire_targets();
    assert_eq!(same.entities[0].facing, at(0, 1));
}

#[test]
fn idle_attackers_keep_their_timers() {
    let mut w = World::new();
    Tower::create_tower(&mut w, at(0, 0)).unwrap();
    Tower::create_tower(&mut w, at(TILE, 0)).unwrap();
    for _ in 0..30 {
        w.tick(100_000);
    }
    assert_eq!(w.entities[0].timer.elapsed, 0);
    assert!(w.projectiles.is_empty());
}

#[test]
fn projectile_aims_along_its_direction() {
    let p = Projectile::spawn(at(0, 0), at(3, 4), Faction::Defender, 20, 1_000, 5_000).unwrap();
    assert_eq!(p.velocity, at(600, 800));
    let q = Projectile::spawn(at(0, 0), at(-1, 1), Faction::Defender, 20, 1_000, 5_000).unwrap();
    assert_eq!(q.velocity, at(-1_000, 1_000));
    assert_eq!(
        Projectile::spawn(at(0, 0), at(0, 0), Faction::Defender, 20, 1_000, 5_000),
        Err(ConfigError::InvalidConfig)
    );
    let mut m = p;
    m.advance(500_000);
    assert_eq!(m.position, at(300, 400));
    assert!(!m.spend(500_000));
    assert_eq!(m.remaining, 4_500);
}

#[test]
fn projectile_hits_the_first_overlapping_enemy_once() {
    let mut w = World::new();
    let a = Enemy::new(&mut w, at(2 * TILE, 0)).unwrap();
    let b = Enemy::new(&mut w, at(2 * TILE, 100)).unwrap();
    let p = Projectile::spawn(at(0, 0), at(1, 0), Faction::Defender, 30, 10 * TILE as u64, 10 * TILE as u64)
        .unwrap();
    w.add_projectile(p);
    w.tick(200_000);
    assert!(w.projectiles.is_empty());
    assert_eq!(w.entity(a).unwrap().health.current, 70);
    assert_eq!(w.entity(b).unwrap().health.current, 100);
}

#[test]
fn projectiles_pass_their_own_faction() {
    let mut w = World::new();
    let t = Tower::create_tower(&mut w, at(TILE, 0)).unwrap();
    let p = Projectile::spawn(at(TILE, 0), at(1, 0), Faction::Defender, 30, 1_000, 10_000).unwrap();
    w.add_projectile(p);
    w.tick(100_000);
    assert_eq!(w.projectiles.len(), 1);
    assert_eq!(w.entity(t).unwrap().health.current, 100);
}

#[test]
fn a_tower_fires_at_its_interval() {
    let mut w = World::new();
    Tower::create_tower(&mut w, at(0, 0)).unwrap();
    Enemy::new(&mut w, at(0, 20 * TILE)).unwrap();
    for _ in 0..9 {
        w.tick(100_000);
        assert!(w.projectiles.is_empty());
    }
    w.tick(100_000);
    assert_eq!(w.projectiles.len(), 1);
    let p = w.projectiles[0];
    assert_eq!(p.position, at(0, 1_000));
    assert_eq!(p.velocity, at(0, 10_000));
    assert_eq!(p.remaining, 15_000 - 1_000);
    assert_eq!(p.damage, 20);
    assert_eq!(p.faction, Faction::Defender);
}

#[test]
fn the_dead_and_their_bars_are_removed() {
    let mut w = World::new();
    let t = w
        .spawn_unit(UnitKind::Tower, Faction::Defender, at(0, 0), 15, melee(0), 1_000_000)
        .unwrap();
    create_hp_bar(&mut w, at(0, 750), 1_000, 150, t).unwrap();
    let e = w
        .spawn_unit(UnitKind::Enemy, Faction::Attacker, at(TILE / 10, 0), 50, melee(10), 100_000)
        .unwrap();
    w.tick(100_000);
    assert_eq!(w.entity(t).unwrap().health.current, 5);
    update_hp_bars(&mut w);
    assert_eq!(w.bars[0].width, 333);
    w.tick(100_000);
    assert!(w.entity(t).is_none());
    assert!(w.bars.is_empty());
    assert_eq!(w.entities.len(), 1);
    assert_eq!(w.entities[0].handle, e);
}

#[test]
fn damage_never_goes_below_zero() {
    let mut h = Health { current: 7, max: 10 };
    h.take_damage(3);
    assert_eq!(h.current, 4);
    h.take_damage(9);
    assert_eq!(h.current, 0);
    assert!(h.is_dead());
    assert_eq!(Health { current: 50, max: 100 }.bar_width(1_275), 637);
    assert_eq!(Health { current: 100, max: 100 }.bar_width(1_275), 1_275);
}

#[test]
fn health_never_rises_over_a_battle() {
    let mut w = World::new();
    Tower::create_tower(&mut w, at(0, 0)).unwrap();
    Tower::create_tower(&mut w, at(2 * TILE, 0)).unwrap();
    for k in 0..4 {
        Enemy::new(&mut w, at(k * TILE, 3 * TILE)).unwrap();
    }
    for _ in 0..200 {
        let before: Vec<(u64, u64)> = w.entities.iter().map(|e| (e.handle, e.health.current)).collect();
        w.tick(50_000);
        for e in w.entities.iter() {
            let old = before.iter().find(|b| b.0 == e.handle).unwrap();
            assert!(e.health.current <= old.1);
            assert!(e.health.current > 0);
        }
    }
}

#[test]
fn a_zero_tick_changes_nothing() {
    let mut w = World::new();
    Tower::create_tower(&mut w, at(0, 0)).unwrap();
    Enemy::new(&mut w, at(3 * TILE, 0)).unwrap();
    Miner::new(&mut w, at(0, 2 * TILE)).unwrap();
    for _ in 0..13 {
        w.tick(100_000);
    }
    let p = Projectile::spawn(at(0, 5 * TILE), at(1, 0), Faction::Defender, 20, 1_000, 5_000).unwrap();
    w.add_projectile(p);
    let ents = w.entities.clone();
    let projs = w.projectiles.clone();
    let miners = w.miners.clone();
    let gold = w.resources.gold;
    w.tick(0);
    assert_eq!(w.entities.len(), ents.len());
    for (a, b) in w.entities.iter().zip(ents.iter()) {
        assert_eq!((a.position, a.health, a.timer), (b.position, b.health, b.timer));
    }
    assert_eq!(w.projectiles, projs);
    assert_eq!(w.miners, miners);
    assert_eq!(w.resources.gold, gold);
}

#[test]
fn gold_saturates_at_the_top() {
    let mut res = PlayerResources { gold: u64::MAX - 3 };
    let mut m = Miner::with_config(0, at(0, 0), 10, 1).unwrap();
    m.mine(&mut res, 1);
    assert_eq!(res.gold, u64::MAX);
}

#[test]
fn placing_snaps_towers_but_not_enemies() {
    let mut w = World::new();
    let t = place_at_cursor(&mut w, Icons::Tower, at(800, -100)).unwrap();
    assert_eq!(w.entity(t).unwrap().position, at(1_500, 0));
    assert_eq!(w.entity(t).unwrap().kind, UnitKind::Tower);
    let e = place_at_cursor(&mut w, Icons::Enemy, at(800, -100)).unwrap();
    assert_eq!(w.entity(e).unwrap().position, at(800, -100));
    assert_eq!(w.entity(e).unwrap().faction, Faction::Attacker);
    assert_eq!(
        place_at_cursor(&mut w, Icons::Tower, at(COORD_LIMIT + 5, 0)),
        Err(ConfigError::OutOfBounds)
    );
}

#[test]
fn a_fresh_shot_hits_in_the_tick_it_is_fired() {
    let mut w = World::new();
    Tower::create_tower(&mut w, at(0, 0)).unwrap();
    let e = Enemy::new(&mut w, at(TILE / 10, 0)).unwrap();
    w.tick(990_000);
    assert_eq!(w.entity(e).unwrap().health.current, 100);
    w.tick(10_000);
    assert_eq!(w.entity(e).unwrap().health.current, 80);
    assert!(w.projectiles.is_empty());
    let ents = w.entities.clone();
    w.tick(0);
    assert_eq!(w.entities.len(), ents.len());
    for (a, b) in w.entities.iter().zip(ents.iter()) {
        assert_eq!((a.position, a.health, a.timer), (b.position, b.health, b.timer));
    }
}

#[test]
fn a_zero_tick_after_a_long_tick_changes_nothing() {
    let mut w = World::new();
    Tower::create_tower(&mut w, at(0, 0)).unwrap();
    Enemy::new(&mut w, at(TILE / 10, 0)).unwrap();
    w.tick(1_000_000);
    let ents = w.entities.clone();
    let projs = w.projectiles.clone();
    w.tick(0);
    for (a, b) in w.entities.iter().zip(ents.iter()) {
        assert_eq!((a.position, a.health, a.timer), (b.position, b.health, b.timer));
    }
    assert_eq!(w.projectiles, projs);
}
