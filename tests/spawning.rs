use asteroids_core::body::{BodyKind, Size, GRACE_MS, LARGE_ASTEROID_RADIUS, SMALL_ASTEROID_RADIUS, WORLD_HEIGHT, WORLD_WIDTH};
use asteroids_core::random::RandomStream;
use asteroids_core::spawner::{spawn_sequence, AsteroidSpawner, ASTEROID_SPEED, SPAWN_INTERVAL_MS};

#[test]
fn divide_makes_two_small_fragments_in_grace() {
    let mut sp = AsteroidSpawner::new(42);
    let (a, b) = sp.divide(100_000, 100_000);
    for f in [a, b] {
        assert_eq!(f.kind, BodyKind::Asteroid(Size::Small));
        assert_eq!((f.x, f.y), (100_000, 100_000));
        assert_eq!(f.grace_ms, GRACE_MS);
        assert_eq!(f.radius, SMALL_ASTEROID_RADIUS);
        assert_eq!(f.wrap_budget, Some(5));
        assert!(-ASTEROID_SPEED <= f.vx && f.vx <= ASTEROID_SPEED);
        assert!(-ASTEROID_SPEED <= f.vy && f.vy <= ASTEROID_SPEED);
    }
    assert_ne!((a.vx, a.vy), (b.vx, b.vy));
    assert!(sp.stream.pos > 0);
}

#[test]
fn timer_fires_once_per_interval() {
    let mut sp = AsteroidSpawner::new(7);
    assert!(sp.tick(400).is_none());
    assert!(sp.tick(599).is_none());
    assert_eq!(sp.elapsed_ms, 999);
    let a = sp.tick(1).unwrap();
    assert_eq!(sp.elapsed_ms, 0);
    assert!(a.x == 0 || a.y == 0);
    assert!(0 <= a.x && a.x < WORLD_WIDTH && 0 <= a.y && a.y < WORLD_HEIGHT);
    match a.kind {
        BodyKind::Asteroid(Size::Large) => assert_eq!(a.radius, LARGE_ASTEROID_RADIUS),
        BodyKind::Asteroid(Size::Small) => assert_eq!(a.radius, SMALL_ASTEROID_RADIUS),
        _ => panic!("spawner made a non-asteroid"),
    }
    assert_eq!(a.grace_ms, 0);
    assert!(sp.tick(5_000).is_some());
    assert!(sp.tick(10).is_none());
}

#[test]
fn same_seed_same_asteroids() {
    let dts: Vec<u64> = vec![16; 400];
    let a = spawn_sequence(2024, &dts);
    let b = spawn_sequence(2024, &dts);
    assert_eq!(a, b);
    assert_eq!(a.len(), 400);
    let spawned = a.iter().filter(|o| o.is_some()).count();
    assert_eq!(spawned as u64, 400 * 16 / SPAWN_INTERVAL_MS);
    let c = spawn_sequence(2025, &dts);
    assert_ne!(a, c);
    let short = spawn_sequence(2024, &dts[..100].to_vec());
    assert_eq!(short[..], a[..100]);
}

#[test]
fn spawns_cover_both_edges_and_sizes() {
    let dts: Vec<u64> = vec![SPAWN_INTERVAL_MS; 200];
    let all: Vec<_> = spawn_sequence(99, &dts).into_iter().map(|o| o.unwrap()).collect();
    let large = all.iter().filter(|a| a.kind == BodyKind::Asteroid(Size::Large)).count();
    let top = all.iter().filter(|a| a.y == 0 && a.x != 0).count();
    assert!(large > 10 && large < 80);
    assert!(top > 50 && top < 150);
}

#[test]
fn stream_draws_advance_and_stay_in_range() {
    let mut s = RandomStream::new(5);
    let v = s.uniform(-3, 3);
    assert!(-3 <= v && v <= 3);
    assert!(s.pos > 0);
    let p = s.pos;
    let _ = s.chance(1, 2);
    assert!(s.pos > p);
    let mut again = RandomStream::new(5);
    assert_eq!(again.uniform(-3, 3), v);
    let mut t = RandomStream::new(5);
    let draws: Vec<i64> = (0..50).map(|_| t.uniform(0, 1_000_000)).collect();
    assert!(draws.iter().any(|d| *d != draws[0]));
    let mut u = RandomStream::new(5);
    assert!(u.chance(1, 1));
    assert!(!u.chance(0, 1));
}
