use asteroids_core::body::{Body, BodyKind, Size, GRACE_MS, UNIT};
use asteroids_core::collision::{collision_pairs, resolve_collisions, Event};
use asteroids_core::registry::Registry;
use asteroids_core::spatial::{Entry, SpatialIndex};

fn body(kind: BodyKind, x: i64, y: i64, radius: u64) -> Body {
    Body {
        id: 0,
        kind,
        x,
        y,
        vx: 0,
        vy: 0,
        radius,
        wrap_budget: None,
        grace_ms: 0,
        player: 0,
        lives: 3,
        heading: 0,
        cooldown_ms: 0,
    }
}

#[test]
fn index_query_matches_brute_force() {
    let mut points = Vec::new();
    let mut state: u64 = 12345;
    for id in 0..300u64 {
        state = state.wrapping_mul(6364136223846793005).wrapping_add(1442695040888963407);
        let x = ((state >> 20) % 2_100_000) as i64 - 90_000;
        state = state.wrapping_mul(6364136223846793005).wrapping_add(1442695040888963407);
        let y = ((state >> 20) % 1_200_000) as i64 - 60_000;
        points.push(Entry { id, x, y });
    }
    let index = SpatialIndex::build(points.clone());
    for (qx, qy, r) in [(0i64, 0i64, 40_000u64), (960_000, 540_000, 200_000), (1_919_000, 1_079_000, 90_000), (-50_000, 10, 100_000)] {
        let mut got = index.query(qx, qy, r);
        got.sort();
        let mut want: Vec<u64> = points
            .iter()
            .filter(|e| {
                let dx = (e.x - qx) as i128;
                let dy = (e.y - qy) as i128;
                dx * dx + dy * dy <= (r as i128) * (r as i128)
            })
            .map(|e| e.id)
            .collect();
        want.sort();
        assert_eq!(got, want);
    }
}

#[test]
fn index_query_includes_boundary_distance() {
    let index = SpatialIndex::build(vec![Entry { id: 7, x: 3_000, y: 4_000 }, Entry { id: 8, x: 3_001, y: 4_000 }]);
    assert_eq!(index.query(0, 0, 5_000), vec![7]);
}

#[test]
fn large_asteroid_struck_by_projectile() {
    let mut reg = Registry::new();
    let ast = reg.spawn(body(BodyKind::Asteroid(Size::Large), 100 * UNIT, 100 * UNIT, 40_000)).unwrap();
    let proj = reg.spawn(body(BodyKind::Projectile, 100 * UNIT + 5_000, 100 * UNIT, 10_000)).unwrap();
    let pairs = collision_pairs(&reg);
    assert!(pairs.contains(&(ast, proj)));
    assert!(pairs.contains(&(proj, ast)));
    let events = resolve_collisions(&mut reg, &pairs);
    assert_eq!(reg.len(), 0);
    assert_eq!(
        events,
        vec![
            Event::Score(25),
            Event::Impact { x: 100 * UNIT, y: 100 * UNIT },
            Event::Divide { x: 100 * UNIT, y: 100 * UNIT },
        ]
    );
}

#[test]
fn small_asteroid_scores_ten() {
    let mut reg = Registry::new();
    reg.spawn(body(BodyKind::Projectile, 0, 0, 10_000)).unwrap();
    reg.spawn(body(BodyKind::Asteroid(Size::Small), 15_000, 0, 20_000)).unwrap();
    let pairs = collision_pairs(&reg);
    assert_eq!(pairs.len(), 1);
    let events = resolve_collisions(&mut reg, &pairs);
    assert_eq!(events, vec![Event::Score(10), Event::Impact { x: 15_000, y: 0 }]);
    assert_eq!(reg.len(), 0);
}

#[test]
fn asteroids_destroy_each_other_without_fragments() {
    let mut reg = Registry::new();
    reg.spawn(body(BodyKind::Asteroid(Size::Large), 0, 0, 40_000)).unwrap();
    reg.spawn(body(BodyKind::Asteroid(Size::Large), 30_000, 0, 40_000)).unwrap();
    let pairs = collision_pairs(&reg);
    assert_eq!(pairs.len(), 2);
    let events = resolve_collisions(&mut reg, &pairs);
    assert_eq!(reg.len(), 0);
    assert_eq!(events, vec![Event::Impact { x: 15_000, y: 0 }]);
}

#[test]
fn asteroid_hit_twice_scores_once() {
    let mut reg = Registry::new();
    reg.spawn(body(BodyKind::Asteroid(Size::Small), 0, 0, 20_000)).unwrap();
    reg.spawn(body(BodyKind::Projectile, 5_000, 0, 10_000)).unwrap();
    reg.spawn(body(BodyKind::Projectile, -5_000, 0, 10_000)).unwrap();
    let pairs = collision_pairs(&reg);
    let events = resolve_collisions(&mut reg, &pairs);
    let scores: Vec<&Event> = events.iter().filter(|e| matches!(e, Event::Score(_))).collect();
    assert_eq!(scores, vec![&Event::Score(10)]);
    assert_eq!(reg.len(), 1);
    assert_eq!(reg.body_at(0).kind, BodyKind::Projectile);
}

#[test]
fn ship_damaged_once_by_two_asteroids() {
    let mut reg = Registry::new();
    let ship = reg.spawn(body(BodyKind::Ship, 0, 0, 15_000)).unwrap();
    reg.spawn(body(BodyKind::Asteroid(Size::Small), 10_000, 0, 20_000)).unwrap();
    reg.spawn(body(BodyKind::Asteroid(Size::Small), -10_000, 0, 20_000)).unwrap();
    let pairs = collision_pairs(&reg);
    let events = resolve_collisions(&mut reg, &pairs);
    let damage: Vec<&Event> = events.iter().filter(|e| matches!(e, Event::Damage { .. })).collect();
    assert_eq!(damage, vec![&Event::Damage { ship, lives: 2 }]);
    let s = reg.get(ship).unwrap();
    assert_eq!(s.lives, 2);
    assert_eq!(s.grace_ms, GRACE_MS);
    assert_eq!(reg.len(), 1);
}

#[test]
fn ship_in_grace_takes_no_damage() {
    let mut reg = Registry::new();
    let mut s = body(BodyKind::Ship, 0, 0, 15_000);
    s.grace_ms = 300;
    let ship = reg.spawn(s).unwrap();
    reg.spawn(body(BodyKind::Asteroid(Size::Large), 10_000, 0, 40_000)).unwrap();
    let pairs = collision_pairs(&reg);
    let events = resolve_collisions(&mut reg, &pairs);
    assert!(!events.iter().any(|e| matches!(e, Event::Damage { .. })));
    assert!(events.contains(&Event::Divide { x: 10_000, y: 0 }));
    assert_eq!(reg.get(ship).unwrap().lives, 3);
}

#[test]
fn asteroid_in_grace_does_not_collide() {
    let mut reg = Registry::new();
    let mut a = body(BodyKind::Asteroid(Size::Small), 0, 0, 20_000);
    a.grace_ms = 1000;
    reg.spawn(a).unwrap();
    reg.spawn(body(BodyKind::Projectile, 1_000, 0, 10_000)).unwrap();
    let pairs = collision_pairs(&reg);
    assert!(pairs.is_empty());
}

#[test]
fn stale_pair_is_dropped() {
    let mut reg = Registry::new();
    let a = reg.spawn(body(BodyKind::Asteroid(Size::Small), 0, 0, 20_000)).unwrap();
    let p = reg.spawn(body(BodyKind::Projectile, 0, 0, 10_000)).unwrap();
    let events = resolve_collisions(&mut reg, &vec![(a, p), (p, a), (a, 99), (a, a)]);
    assert_eq!(events.len(), 2);
    assert_eq!(reg.len(), 0);
}

#[test]
fn asteroid_pair_resolves_alike_in_either_slot() {
    let mut one = Registry::new();
    let a = one.spawn(body(BodyKind::Asteroid(Size::Small), 100_000, 100_000, 20_000)).unwrap();
    let b = one.spawn(body(BodyKind::Asteroid(Size::Large), 110_000, 100_000, 40_000)).unwrap();
    let mut two = Registry::new();
    two.spawn(body(BodyKind::Asteroid(Size::Small), 100_000, 100_000, 20_000)).unwrap();
    two.spawn(body(BodyKind::Asteroid(Size::Large), 110_000, 100_000, 40_000)).unwrap();
    let e1 = resolve_collisions(&mut one, &vec![(a, b)]);
    let e2 = resolve_collisions(&mut two, &vec![(b, a)]);
    assert_eq!(e1, e2);
    assert_eq!(e1, vec![Event::Impact { x: 105_000, y: 100_000 }]);
    assert_eq!(one.len(), 0);
    assert_eq!(two.len(), 0);
}
