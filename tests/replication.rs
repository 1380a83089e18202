use asteroids_core::body::{Body, BodyKind, Size};
use asteroids_core::registry::Registry;
use asteroids_core::replication::{diff, snapshot, Message, Mirror, Replica};

fn body(kind: BodyKind, x: i64, y: i64) -> Body {
    Body {
        id: 0,
        kind,
        x,
        y,
        vx: 3,
        vy: -4,
        radius: 10_000,
        wrap_budget: None,
        grace_ms: 0,
        player: 0,
        lives: 0,
        heading: 0,
        cooldown_ms: 0,
    }
}

#[test]
fn snapshot_round_trip_to_fresh_client() {
    let mut reg = Registry::new();
    let a = reg.spawn(body(BodyKind::Ship, 1, 2)).unwrap();
    let b = reg.spawn(body(BodyKind::Asteroid(Size::Large), 30, 40)).unwrap();
    let mut m = Mirror::new();
    m.apply(&snapshot(&reg));
    assert_eq!(m.len(), 2);
    assert_eq!(
        m.get(a),
        Some(Replica { id: a, kind: BodyKind::Ship, x: 1, y: 2, vx: 3, vy: -4, presented: false })
    );
    assert_eq!(m.get(b).unwrap().kind, BodyKind::Asteroid(Size::Large));
    assert_eq!((m.get(b).unwrap().x, m.get(b).unwrap().y), (30, 40));
}

#[test]
fn later_snapshot_updates_and_destroys() {
    let mut reg = Registry::new();
    let a = reg.spawn(body(BodyKind::Ship, 1, 2)).unwrap();
    let b = reg.spawn(body(BodyKind::Projectile, 5, 5)).unwrap();
    let mut m = Mirror::new();
    m.apply(&snapshot(&reg));
    m.mark_presented(a);
    reg.remove(b);
    reg.apply_velocity(10);
    let c = reg.spawn(body(BodyKind::Asteroid(Size::Small), 9, 9)).unwrap();
    m.apply(&snapshot(&reg));
    assert_eq!(m.len(), 2);
    assert_eq!(m.get(b), None);
    let ra = m.get(a).unwrap();
    assert_eq!((ra.x, ra.y), (31, -38));
    assert!(ra.presented);
    assert!(!m.get(c).unwrap().presented);
}

#[test]
fn delta_messages_take_client_to_new_snapshot() {
    let mut reg = Registry::new();
    let a = reg.spawn(body(BodyKind::Ship, 1, 2)).unwrap();
    let b = reg.spawn(body(BodyKind::Projectile, 5, 5)).unwrap();
    let first = snapshot(&reg);
    let mut m = Mirror::new();
    m.receive_all(&diff(&vec![], &first));
    assert_eq!(m.len(), 2);
    m.mark_presented(a);

    reg.remove(b);
    reg.apply_velocity(1);
    let c = reg.spawn(body(BodyKind::Asteroid(Size::Large), 70, 80)).unwrap();
    let second = snapshot(&reg);
    let msgs = diff(&first, &second);
    assert_eq!(msgs.len(), 3);
    assert_eq!(msgs[0], Message::Destroy(b));
    assert!(matches!(msgs[1], Message::Update(s) if s.id == a && s.x == 4 && s.y == -2));
    assert!(matches!(msgs[2], Message::Create(s) if s.id == c));
    m.receive_all(&msgs);
    assert_eq!(m.len(), 2);
    assert_eq!(m.get(b), None);
    assert_eq!(m.get(a), Some(Replica { id: a, kind: BodyKind::Ship, x: 4, y: -2, vx: 3, vy: -4, presented: true }));
    assert_eq!(m.get(c).unwrap().kind, BodyKind::Asteroid(Size::Large));
}

#[test]
fn destroy_of_unknown_body_is_ignored() {
    let mut m = Mirror::new();
    m.receive(Message::Destroy(77));
    assert_eq!(m.len(), 0);
}
