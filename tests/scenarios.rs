use base_defense::building::Miner;
use base_defense::geometry::{Position, TILE};
use base_defense::projectile::Projectile;
use base_defense::unit::{Enemy, Faction, Tower};
use base_defense::world::World;

const TENTH: u64 = 100_000;

fn at(x: i64, y: i64) -> Position {
    Position::new(x, y)
}

#[test]
fn nearest_enemy_is_targeted() {
    let mut w = World::new();
    Tower::create_tower(&mut w, at(0, 0)).unwrap();
    Enemy::new(&mut w, at(3 * TILE, 0)).unwrap();
    Enemy::new(&mut w, at(TILE, 0)).unwrap();
    Enemy::new(&mut w, at(5 * TILE, 5 * TILE)).unwrap();
    assert_eq!(w.find_target(0), Some(2));
    assert_eq!(w.entities[2].position, at(TILE, 0));
}

#[test]
fn projectile_spends_its_range() {
    let mut w = World::new();
    let far = Enemy::new(&mut w, at(0, 10 * TILE)).unwrap();
    let p = Projectile::spawn(at(0, 0), at(1, 0), Faction::Defender, 20, TILE as u64, 3 * TILE as u64 / 2)
        .unwrap();
    w.add_projectile(p);
    for tick in 1..15 {
        w.tick(TENTH);
        assert_eq!(w.projectiles.len(), 1, "still flying after tick {}", tick);
        assert_eq!(w.projectiles[0].remaining, 2250 - 150 * tick as u64);
        assert_eq!(w.projectiles[0].position, at(150 * tick, 0));
    }
    w.tick(TENTH);
    assert_eq!(w.projectiles.len(), 0);
    assert_eq!(w.entity(far).unwrap().health.current, 100);
}

#[test]
fn melee_strikes_twice_in_one_point_two_seconds() {
    let mut w = World::new();
    let tower = Tower::create_tower(&mut w, at(0, 0)).unwrap();
    Enemy::new(&mut w, at(TILE / 10, 0)).unwrap();
    let mut seen = Vec::new();
    for _ in 0..12 {
        w.tick(TENTH);
        seen.push(w.entity(tower).unwrap().health.current);
    }
    assert_eq!(seen, vec![100, 100, 100, 100, 90, 90, 90, 90, 90, 80, 80, 80]);
}

#[test]
fn three_miners_yield_thirty_gold_per_second() {
    let mut w = World::new();
    for k in 0..3 {
        Miner::new(&mut w, at(k * TILE, 0)).unwrap();
    }
    let start = w.resources.gold;
    assert_eq!(start, 100);
    for _ in 0..9 {
        w.tick(TENTH);
        assert_eq!(w.resources.gold, start);
    }
    w.tick(TENTH);
    assert_eq!(w.resources.gold, start + 30);
}

#[test]
fn enemy_walks_up_then_strikes() {
    let mut w = World::new();
    let tower = Tower::create_tower(&mut w, at(0, 0)).unwrap();
    let enemy = Enemy::new(&mut w, at(TILE, 0)).unwrap();
    let mut xs = Vec::new();
    for _ in 0..3 {
        w.tick(TENTH);
        xs.push(w.entity(enemy).unwrap().position.x);
    }
    assert_eq!(xs, vec![1050, 600, 150]);
    let mut hp = Vec::new();
    for _ in 0..10 {
        w.tick(TENTH);
        assert_eq!(w.entity(enemy).unwrap().position, at(150, 0));
        hp.push(w.entity(tower).unwrap().health.current);
    }
    assert_eq!(hp, vec![100, 100, 100, 100, 90, 90, 90, 90, 90, 80]);
    assert!(!w.projectiles.is_empty());
}
