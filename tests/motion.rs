use asteroids_core::body::{Body, BodyKind, Size, UNIT, VELOCITY_UNIT, WORLD_HEIGHT, WORLD_WIDTH};
use asteroids_core::registry::Registry;

fn body(kind: BodyKind, x: i64, y: i64, vx: i64, vy: i64, wrap_budget: Option<u8>) -> Body {
    Body {
        id: 0,
        kind,
        x,
        y,
        vx,
        vy,
        radius: 10_000,
        wrap_budget,
        grace_ms: 0,
        player: 0,
        lives: 0,
        heading: 0,
        cooldown_ms: 0,
    }
}

#[test]
fn velocity_applied() {
    let mut obj = body(BodyKind::Projectile, 0, 0, VELOCITY_UNIT, VELOCITY_UNIT, None);
    assert_eq!(obj.x, 0);
    assert_eq!(obj.y, 0);
    obj.apply_velocity(1000);
    assert_eq!(obj.x, 100 * UNIT);
    assert_eq!(obj.y, 100 * UNIT);
    obj.apply_velocity(1000);
    assert_eq!(obj.x, 200 * UNIT);
    assert_eq!(obj.y, 200 * UNIT);
}

#[test]
fn velocity_applied_backwards() {
    let mut obj = body(BodyKind::Projectile, 5_000, 7_000, -3, 2, None);
    obj.apply_velocity(16);
    assert_eq!(obj.x, 5_000 - 48);
    assert_eq!(obj.y, 7_000 + 32);
}

#[test]
fn wrap_budget_zero_destroys_on_crossing() {
    let start = body(BodyKind::Asteroid(Size::Small), -5, 500, -1, 0, Some(0));
    let mut b = start;
    assert!(!b.wrap_around());
    assert_eq!(b, start);

    let mut reg = Registry::new();
    reg.spawn(start).unwrap();
    reg.wrap_around();
    assert_eq!(reg.len(), 0);
}

#[test]
fn wrap_budget_spent_on_crossing_only() {
    let mut inside = body(BodyKind::Projectile, 100, 100, 0, 0, Some(1));
    assert!(inside.wrap_around());
    assert_eq!(inside.wrap_budget, Some(1));
    assert_eq!((inside.x, inside.y), (100, 100));

    let mut right = body(BodyKind::Projectile, WORLD_WIDTH + 1, 100, 0, 0, Some(1));
    assert!(right.wrap_around());
    assert_eq!(right.wrap_budget, Some(0));
    assert_eq!((right.x, right.y), (0, 100));

    let mut below = body(BodyKind::Asteroid(Size::Large), -1, -1, 0, 0, Some(5));
    assert!(below.wrap_around());
    assert_eq!((below.x, below.y), (WORLD_WIDTH, WORLD_HEIGHT));
    assert_eq!(below.wrap_budget, Some(4));
}

#[test]
fn ship_wraps_without_budget() {
    let mut ship = body(BodyKind::Ship, 10, WORLD_HEIGHT + 3, 0, 0, None);
    assert!(ship.wrap_around());
    assert_eq!((ship.x, ship.y), (10, 0));
    assert_eq!(ship.wrap_budget, None);
}

#[test]
fn grace_counts_down_to_zero() {
    let mut b = body(BodyKind::Asteroid(Size::Small), 0, 0, 0, 0, Some(5));
    b.grace_ms = 1000;
    b.tick_grace(400);
    assert_eq!(b.grace_ms, 600);
    assert!(!b.is_collidable());
    b.tick_grace(700);
    assert_eq!(b.grace_ms, 0);
    assert!(b.is_collidable());
}

#[test]
fn registry_ids_are_fresh_and_removable() {
    let mut reg = Registry::new();
    let a = reg.spawn(body(BodyKind::Projectile, 1, 2, 0, 0, None)).unwrap();
    let b = reg.spawn(body(BodyKind::Projectile, 3, 4, 0, 0, None)).unwrap();
    assert_ne!(a, b);
    assert_eq!(reg.get(b).unwrap().x, 3);
    assert!(reg.remove(a));
    assert!(!reg.remove(a));
    assert_eq!(reg.get(a), None);
    assert_eq!(reg.len(), 1);
    let c = reg.spawn(body(BodyKind::Projectile, 5, 6, 0, 0, None)).unwrap();
    assert_ne!(c, a);
}
