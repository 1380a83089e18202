use asteroids_core::body::{Body, BodyKind, Size, GRACE_MS, START_LIVES, UNIT, WORLD_HEIGHT, WORLD_WIDTH};
use asteroids_core::collision::Event;
use asteroids_core::session::{drop_inputs_of, tick_inputs, transition, Input, Phase, Session, Trigger};
use asteroids_core::ship::{apply_action, apply_shadow, heading_vector, isqrt, limit_speed, PlayerAction, PlayerShadow, MAX_SPEED};

fn asteroid(size: Size, x: i64, y: i64) -> Body {
    Body {
        id: 0,
        kind: BodyKind::Asteroid(size),
        x,
        y,
        vx: 0,
        vy: 0,
        radius: if size == Size::Large { 40_000 } else { 20_000 },
        wrap_budget: Some(5),
        grace_ms: 0,
        player: 0,
        lives: 0,
        heading: 0,
        cooldown_ms: 0,
    }
}

fn playing(players: &[u64]) -> Session {
    let mut s = Session::new(1);
    assert!(s.enter_lobby(Trigger::Host));
    for p in players {
        s.connect(*p);
    }
    assert!(s.start());
    s
}

#[test]
fn phases_follow_the_legal_moves() {
    assert_eq!(transition(Phase::MainMenu, Trigger::Host), Phase::Lobby);
    assert_eq!(transition(Phase::MainMenu, Trigger::Join), Phase::Lobby);
    assert_eq!(transition(Phase::Lobby, Trigger::Start), Phase::Playing);
    assert_eq!(transition(Phase::Playing, Trigger::LivesOut), Phase::GameOver);
    assert_eq!(transition(Phase::GameOver, Trigger::Restart), Phase::MainMenu);
    assert_eq!(transition(Phase::Playing, Trigger::Start), Phase::Playing);
    assert_eq!(transition(Phase::MainMenu, Trigger::Start), Phase::MainMenu);
    assert_eq!(transition(Phase::Lobby, Trigger::Restart), Phase::Lobby);
}

#[test]
fn start_spawns_one_ship_per_player() {
    let s = playing(&[11, 22, 11]);
    assert_eq!(s.phase, Phase::Playing);
    assert_eq!(s.players, vec![11, 22]);
    assert_eq!(s.world.len(), 2);
    for (k, p) in [11u64, 22].iter().enumerate() {
        let b = s.world.body_at(k);
        assert_eq!(b.kind, BodyKind::Ship);
        assert_eq!(b.player, *p);
        assert_eq!(b.lives, START_LIVES);
        assert_eq!((b.x, b.y), (WORLD_WIDTH / 2, WORLD_HEIGHT / 2));
    }
}

#[test]
fn start_signal_ignored_outside_lobby() {
    let mut s = Session::new(1);
    assert!(!s.start());
    assert_eq!(s.phase, Phase::MainMenu);
    let mut p = playing(&[1]);
    assert!(!p.start());
    assert_eq!(p.world.len(), 1);
}

#[test]
fn last_life_lost_ends_match_next_tick() {
    let mut s = playing(&[5]);
    let ship_id = s.world.body_at(0).id;
    let mut ship = s.world.get(ship_id).unwrap();
    ship.lives = 1;
    s.world.replace(ship_id, ship);
    s.world.spawn(asteroid(Size::Small, WORLD_WIDTH / 2 + 10_000, WORLD_HEIGHT / 2)).unwrap();
    let events = s.tick(16, &vec![]);
    assert!(events.contains(&Event::Damage { ship: ship_id, lives: 0 }));
    assert_eq!(s.world.get(ship_id).unwrap().lives, 0);
    assert_eq!(s.lives_shown, 0);
    assert_eq!(s.phase, Phase::Playing);
    let events = s.tick(16, &vec![]);
    assert!(events.is_empty());
    assert_eq!(s.phase, Phase::GameOver);
    assert_eq!(s.world.len(), 0);
    assert!(s.restart());
    assert_eq!(s.phase, Phase::MainMenu);
    assert_eq!(s.score, 0);
    assert_eq!(s.lives_shown, START_LIVES);
}

#[test]
fn large_asteroid_divides_into_two_fragments() {
    let mut s = playing(&[]);
    s.world.spawn(asteroid(Size::Large, 100 * UNIT, 100 * UNIT)).unwrap();
    let mut shot = asteroid(Size::Small, 100 * UNIT, 100 * UNIT);
    shot.kind = BodyKind::Projectile;
    shot.radius = 10_000;
    shot.wrap_budget = Some(1);
    s.world.spawn(shot).unwrap();
    let events = s.tick(16, &vec![]);
    assert!(events.contains(&Event::Score(25)));
    assert!(events.contains(&Event::Divide { x: 100 * UNIT, y: 100 * UNIT }));
    assert_eq!(s.score, 25);
    assert_eq!(s.world.len(), 2);
    for k in 0..2 {
        let f = s.world.body_at(k);
        assert_eq!(f.kind, BodyKind::Asteroid(Size::Small));
        assert_eq!((f.x, f.y), (100 * UNIT, 100 * UNIT));
        assert_eq!(f.grace_ms, GRACE_MS);
    }
}

#[test]
fn inputs_steer_and_fire() {
    let mut s = playing(&[9]);
    let inputs = vec![
        Input { player: 9, tick: 0, action: PlayerAction::Forward },
        Input { player: 9, tick: 0, action: PlayerAction::Shoot },
        Input { player: 9, tick: 0, action: PlayerAction::Shoot },
        Input { player: 4, tick: 0, action: PlayerAction::Shoot },
    ];
    s.tick(16, &inputs);
    assert_eq!(s.world.len(), 2);
    let ship = s.world.body_at(0);
    assert_eq!(ship.vx, 0);
    assert_eq!(ship.vy, 8);
    assert_eq!(ship.cooldown_ms, 500);
    let shot = s.world.body_at(1);
    assert_eq!(shot.kind, BodyKind::Projectile);
    assert_eq!(shot.vy, 8 + 1000);
    assert_eq!(s.tick, 1);
}

#[test]
fn late_input_is_dropped() {
    let mut s = playing(&[9]);
    s.tick = 1_000;
    s.tick(16, &vec![Input { player: 9, tick: 10, action: PlayerAction::Forward }]);
    assert_eq!(s.world.body_at(0).vy, 0);
}

#[test]
fn disconnect_removes_ship_and_player() {
    let mut s = playing(&[1, 2]);
    s.disconnect(1);
    assert_eq!(s.players, vec![2]);
    assert_eq!(s.world.len(), 1);
    assert_eq!(s.world.body_at(0).player, 2);
    assert_eq!(s.phase, Phase::Playing);
}

#[test]
fn rotation_and_speed_limit() {
    let mut ship = asteroid(Size::Small, 0, 0);
    ship.kind = BodyKind::Ship;
    let (turned, none) = apply_action(ship, PlayerAction::Rotate(1), 16);
    assert!(none.is_none());
    assert_eq!(turned.heading, 6283 - 128);
    let (back, _) = apply_action(turned, PlayerAction::Rotate(-1), 16);
    assert_eq!(back.heading, 0);
    let (longer, _) = apply_action(ship, PlayerAction::Rotate(-1), 100);
    assert_eq!(longer.heading, 800);
    assert_eq!(heading_vector(1571), (-1000, 0));
    assert_eq!(heading_vector(3142), (0, -1000));
    assert_eq!(heading_vector(6200), (0, 1000));
    assert_eq!(limit_speed(3_000, 4_000), (179, 239));
    assert_eq!(limit_speed(100, -200), (100, -200));
    let (vx, vy) = limit_speed(-1_000_000, 7);
    assert!(vx * vx + vy * vy <= MAX_SPEED * MAX_SPEED);
    assert_eq!(isqrt(24), 4);
    assert_eq!(isqrt(25), 5);
}

#[test]
fn shadows_stand_one_field_away() {
    let mut ship = asteroid(Size::Small, 10, 20);
    ship.kind = BodyKind::Ship;
    assert_eq!(apply_shadow(&ship, PlayerShadow::Left), (10 - WORLD_WIDTH, 20));
    assert_eq!(apply_shadow(&ship, PlayerShadow::Right), (10 + WORLD_WIDTH, 20));
    assert_eq!(apply_shadow(&ship, PlayerShadow::Top), (10, 20 - WORLD_HEIGHT));
    assert_eq!(apply_shadow(&ship, PlayerShadow::Bottom), (10, 20 + WORLD_HEIGHT));
}

#[test]
fn disconnect_drops_inputs_in_flight() {
    let inputs = vec![
        Input { player: 1, tick: 0, action: PlayerAction::Forward },
        Input { player: 2, tick: 0, action: PlayerAction::Shoot },
        Input { player: 1, tick: 1, action: PlayerAction::Idle },
        Input { player: 3, tick: 1, action: PlayerAction::Rotate(-1) },
    ];
    let kept = drop_inputs_of(&inputs, 1);
    assert_eq!(kept, vec![inputs[1], inputs[3]]);
}

#[test]
fn shot_fires_once_cooldown_runs_out_within_the_step() {
    let mut s = playing(&[9]);
    let shoot = vec![Input { player: 9, tick: 0, action: PlayerAction::Shoot }];
    s.tick(16, &shoot);
    assert_eq!(s.world.len(), 2);
    let mut ship = s.world.body_at(0);
    ship.cooldown_ms = 10;
    s.world.replace(ship.id, ship);
    s.tick(16, &shoot);
    assert_eq!(s.world.len(), 3);
    assert_eq!(s.world.body_at(0).cooldown_ms, 500);
    s.tick(16, &shoot);
    assert_eq!(s.world.len(), 3);
}

#[test]
fn tick_inputs_send_idle_when_nothing_is_held() {
    assert_eq!(tick_inputs(3, 7, &vec![]), vec![Input { player: 3, tick: 7, action: PlayerAction::Idle }]);
    assert_eq!(
        tick_inputs(3, 7, &vec![PlayerAction::Forward, PlayerAction::Shoot]),
        vec![
            Input { player: 3, tick: 7, action: PlayerAction::Forward },
            Input { player: 3, tick: 7, action: PlayerAction::Shoot },
        ]
    );
}

#[test]
fn disconnect_keeps_other_players_in_order() {
    let mut s = playing(&[5, 1, 7, 3]);
    s.disconnect(7);
    assert_eq!(s.players, vec![5, 1, 3]);
    s.disconnect(42);
    assert_eq!(s.players, vec![5, 1, 3]);
}
