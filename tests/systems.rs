use polykanoid::audio::AudioEvent;
use polykanoid::ball::{ball_reset_event, ball_respawning, update_ball_velocity, BallResetEvent};
use polykanoid::collisions::{collisions_ball_borders, collisions_ball_bricks, collisions_ball_player};
use polykanoid::components::{Color, Colored, Position, Size, Vec2, Velocity, COORD_LIMIT};
use polykanoid::entities::{Ball, Brick, Player, PlayerControls, ScreenInfo};
use polykanoid::input::{InputManager, KeyState};
use polykanoid::player::{ball_retaining_logic, player_death, player_movement_logic};
use polykanoid::store::{Components, Entity, World};

const WHITE: Color = Color { r: 255, g: 255, b: 255, a: 255 };

fn screen() -> ScreenInfo {
    ScreenInfo { width: 800, height: 600 }
}

fn ball(x: i64, y: i64, vx: i64, vy: i64, active: bool, owner: Entity) -> Components {
    Components {
        position: Some(Position(Vec2 { x, y })),
        velocity: Some(Velocity(Vec2 { x: vx, y: vy })),
        size: None,
        color: Some(Colored(WHITE)),
        ball: Some(Ball { radius: 7, active, owner }),
        brick: None,
        player: None,
        controls: None,
    }
}

fn brick(x: i64, y: i64, w: i64, h: i64) -> Components {
    Components {
        position: Some(Position(Vec2 { x, y })),
        velocity: None,
        size: Some(Size(Vec2 { x: w, y: h })),
        color: Some(Colored(WHITE)),
        ball: None,
        brick: Some(Brick),
        player: None,
        controls: None,
    }
}

fn paddle(x: i64, y: i64, w: i64, life: i32) -> Components {
    Components {
        position: Some(Position(Vec2 { x, y })),
        velocity: None,
        size: Some(Size(Vec2 { x: w, y: 20 })),
        color: Some(Colored(WHITE)),
        ball: None,
        brick: None,
        player: Some(Player { life, ui_display_offset: 0, score: 0, ball_color: WHITE }),
        controls: Some(PlayerControls { left: 263, right: 262, launch: 82 }),
    }
}

fn pos(w: &World, e: Entity) -> Vec2 {
    w.get_position(e).unwrap().0
}

fn vel(w: &World, e: Entity) -> Vec2 {
    w.get(e).unwrap().velocity.unwrap().0
}

#[test]
fn motion_adds_velocity() {
    let mut w = World::new();
    let p = w.spawn(paddle(400, 525, 80, 5));
    let b = w.spawn(ball(10, 20, 3, -4, true, p));
    update_ball_velocity(&mut w);
    assert_eq!(pos(&w, b), Vec2 { x: 13, y: 16 });
    // The paddle is no ball and does not move.
    assert_eq!(pos(&w, p), Vec2 { x: 400, y: 525 });
}

#[test]
fn motion_stops_at_coordinate_limit() {
    let mut w = World::new();
    let b = w.spawn(ball(COORD_LIMIT - 2, 0, 5, 0, true, Entity(7)));
    update_ball_velocity(&mut w);
    assert_eq!(pos(&w, b), Vec2 { x: COORD_LIMIT, y: 0 });
}

#[test]
fn border_right_reverses_velocity_once() {
    let mut w = World::new();
    let b = w.spawn(ball(795, 300, 5, 3, true, Entity(9)));
    let mut audio = Vec::new();
    collisions_ball_borders(&mut w, &mut audio, &screen());
    assert_eq!(vel(&w, b), Vec2 { x: -5, y: 3 });
    assert_eq!(audio, vec![AudioEvent::Bounce]);
}

#[test]
fn border_top_left_corner_bounces_twice() {
    let mut w = World::new();
    let b = w.spawn(ball(3, 3, -2, -4, true, Entity(9)));
    let mut audio = Vec::new();
    collisions_ball_borders(&mut w, &mut audio, &screen());
    assert_eq!(vel(&w, b), Vec2 { x: 2, y: 4 });
    assert_eq!(audio, vec![AudioEvent::Bounce, AudioEvent::Bounce]);
}

#[test]
fn border_ignores_resting_ball_at_side() {
    let mut w = World::new();
    let b = w.spawn(ball(0, 300, 1, 0, false, Entity(9)));
    let mut audio = Vec::new();
    collisions_ball_borders(&mut w, &mut audio, &screen());
    assert_eq!(vel(&w, b), Vec2 { x: 1, y: 0 });
    assert!(audio.is_empty());
}

#[test]
fn border_bottom_removes_ball() {
    let mut w = World::new();
    let b = w.spawn(ball(400, 593, 0, 5, true, Entity(9)));
    let kept = w.spawn(ball(400, 592, 0, 5, true, Entity(9)));
    let mut audio = Vec::new();
    collisions_ball_borders(&mut w, &mut audio, &screen());
    assert!(w.get(b).is_none());
    assert!(!w.contains(b));
    assert!(w.contains(kept));
    assert!(audio.is_empty());
}

#[test]
fn paddle_scenario_centered_hit() {
    // 800x600 screen, paddle at (400,550) of size 80x20, ball at (400,555)
    // of radius 7 moving down at 5.
    let mut w = World::new();
    let p = w.spawn(Components { size: Some(Size(Vec2 { x: 80, y: 20 })), ..paddle(400, 550, 80, 5) });
    let b = w.spawn(ball(400, 555, 0, 5, true, p));
    let mut audio = Vec::new();
    collisions_ball_borders(&mut w, &mut audio, &screen());
    assert!(w.contains(b));
    assert_eq!(555 + 7, 562);
    assert!(audio.is_empty());
    collisions_ball_player(&mut w, &mut audio);
    assert_eq!(vel(&w, b), Vec2 { x: 0, y: -5 });
    assert_eq!(audio, vec![AudioEvent::Bounce]);
}

#[test]
fn paddle_deflects_by_offset() {
    let mut w = World::new();
    let p = w.spawn(paddle(400, 550, 80, 5));
    let right = w.spawn(ball(420, 535, 3, 6, true, p));
    let left = w.spawn(ball(370, 535, 3, 6, true, p));
    let mut audio = Vec::new();
    collisions_ball_player(&mut w, &mut audio);
    // 20 / 40 * 10 and -30 / 40 * 10, towards zero.
    assert_eq!(vel(&w, right), Vec2 { x: 5, y: -6 });
    assert_eq!(vel(&w, left), Vec2 { x: -7, y: -6 });
    assert_eq!(audio, vec![AudioEvent::Bounce, AudioEvent::Bounce]);
}

#[test]
fn paddle_ignores_ball_moving_up() {
    let mut w = World::new();
    let p = w.spawn(paddle(400, 550, 80, 5));
    let b = w.spawn(ball(400, 545, 2, -5, true, p));
    let mut audio = Vec::new();
    collisions_ball_player(&mut w, &mut audio);
    assert_eq!(vel(&w, b), Vec2 { x: 2, y: -5 });
    assert!(audio.is_empty());
}

#[test]
fn paddle_misses_ball_past_corner() {
    let mut w = World::new();
    let p = w.spawn(paddle(400, 550, 80, 5));
    // Near the corner (440, 540) but more than 7 away from it.
    let b = w.spawn(ball(446, 534, 0, 5, true, p));
    let mut audio = Vec::new();
    collisions_ball_player(&mut w, &mut audio);
    assert_eq!(vel(&w, b), Vec2 { x: 0, y: 5 });
    assert!(audio.is_empty());
}

#[test]
fn brick_hit_from_below() {
    let mut w = World::new();
    let p = w.spawn(paddle(400, 550, 80, 5));
    let k = w.spawn(brick(100, 50, 40, 40));
    let b = w.spawn(ball(100, 76, 1, -5, true, p));
    let mut audio = Vec::new();
    collisions_ball_bricks(&mut w, &mut audio);
    assert!(!w.contains(k));
    assert_eq!(vel(&w, b), Vec2 { x: 1, y: 5 });
    assert_eq!(w.get_player(p).unwrap().score, 1);
    assert_eq!(audio, vec![AudioEvent::Destroyed]);
}

#[test]
fn brick_hit_from_left() {
    let mut w = World::new();
    let p = w.spawn(paddle(400, 550, 80, 5));
    let k = w.spawn(brick(100, 50, 40, 40));
    let b = w.spawn(ball(75, 50, 6, 0, true, p));
    let mut audio = Vec::new();
    collisions_ball_bricks(&mut w, &mut audio);
    assert!(!w.contains(k));
    assert_eq!(vel(&w, b), Vec2 { x: -6, y: 0 });
}

#[test]
fn brick_shared_corner_destroys_one() {
    // Two adjacent bricks whose edges meet at x = 40; the ball below the
    // shared corner moves up into both.
    let mut w = World::new();
    let p = w.spawn(paddle(400, 550, 80, 5));
    let k1 = w.spawn(brick(20, 50, 40, 40));
    let k2 = w.spawn(brick(60, 50, 40, 40));
    let b = w.spawn(ball(40, 76, 0, -5, true, p));
    let mut audio = Vec::new();
    collisions_ball_bricks(&mut w, &mut audio);
    assert!(!w.contains(k1));
    assert!(w.contains(k2));
    assert_eq!(w.get_player(p).unwrap().score, 1);
    assert_eq!(audio, vec![AudioEvent::Destroyed]);
    assert_eq!(vel(&w, b), Vec2 { x: 0, y: 5 });
}

#[test]
fn brick_ignores_resting_ball() {
    let mut w = World::new();
    let p = w.spawn(paddle(400, 550, 80, 5));
    let k = w.spawn(brick(100, 50, 40, 40));
    w.spawn(ball(100, 76, 0, -5, false, p));
    let mut audio = Vec::new();
    collisions_ball_bricks(&mut w, &mut audio);
    assert!(w.contains(k));
    assert!(audio.is_empty());
}

#[test]
fn brick_hit_without_owner_scores_nobody() {
    let mut w = World::new();
    let k = w.spawn(brick(100, 50, 40, 40));
    let b = w.spawn(ball(100, 76, 0, -5, true, Entity(40)));
    let mut audio = Vec::new();
    collisions_ball_bricks(&mut w, &mut audio);
    assert!(!w.contains(k));
    assert_eq!(vel(&w, b), Vec2 { x: 0, y: 5 });
    assert_eq!(audio, vec![AudioEvent::Destroyed]);
}

#[test]
fn death_removes_player_and_its_balls() {
    let mut w = World::new();
    let dead = w.spawn(paddle(400, 550, 80, 0));
    let alive = w.spawn(paddle(300, 550, 80, 2));
    let b1 = w.spawn(ball(100, 100, 1, 1, true, dead));
    let b2 = w.spawn(ball(200, 100, 1, 1, false, dead));
    let b3 = w.spawn(ball(300, 100, 1, 1, true, alive));
    player_death(&mut w);
    assert!(!w.contains(dead));
    assert!(!w.contains(b1));
    assert!(!w.contains(b2));
    assert!(w.contains(alive));
    assert!(w.contains(b3));
}

#[test]
fn respawn_gives_one_resting_ball() {
    let mut w = World::new();
    let p = w.spawn(paddle(400, 525, 80, 5));
    ball_respawning(&mut w, &screen());
    assert_eq!(w.len(), 2);
    let b = Entity(1);
    let bc = w.get_ball(b).unwrap();
    assert_eq!(bc, Ball { radius: 7, active: false, owner: p });
    assert_eq!(pos(&w, b), Vec2 { x: 400, y: 495 });
    assert_eq!(vel(&w, b), Vec2 { x: 0, y: 0 });
    assert_eq!(w.get_player(p).unwrap().life, 4);
    // A player that owns a ball gets none.
    ball_respawning(&mut w, &screen());
    assert_eq!(w.len(), 2);
    assert_eq!(w.get_player(p).unwrap().life, 4);
}

#[test]
fn reset_all_balls_puts_them_back() {
    let mut w = World::new();
    let p = w.spawn(paddle(300, 525, 80, 5));
    let b1 = w.spawn(Components {
        ball: Some(Ball { radius: 9, active: true, owner: p }),
        ..ball(10, 20, 4, 4, true, p)
    });
    let b2 = w.spawn(ball(50, 60, -3, 2, true, p));
    let orphan = w.spawn(ball(70, 80, 1, 1, true, Entity(30)));
    let mut events = vec![BallResetEvent { target: None }];
    ball_reset_event(&mut w, &mut events, &screen());
    assert!(events.is_empty());
    for b in [b1, b2] {
        assert_eq!(pos(&w, b), Vec2 { x: 300, y: 495 });
        assert_eq!(vel(&w, b), Vec2 { x: 0, y: 0 });
        assert_eq!(w.get_ball(b).unwrap(), Ball { radius: 7, active: false, owner: p });
    }
    assert_eq!(pos(&w, orphan), Vec2 { x: 0, y: 0 });
    assert_eq!(vel(&w, orphan), Vec2 { x: 0, y: 10 });
}

#[test]
fn reset_target_changes_only_it() {
    let mut w = World::new();
    let p = w.spawn(paddle(300, 525, 80, 5));
    let b1 = w.spawn(ball(10, 20, 4, 4, true, p));
    let b2 = w.spawn(ball(50, 60, -3, 2, true, p));
    let mut events = vec![BallResetEvent { target: Some(b1) }, BallResetEvent { target: Some(Entity(99)) }];
    ball_reset_event(&mut w, &mut events, &screen());
    assert_eq!(pos(&w, b1), Vec2 { x: 300, y: 495 });
    assert!(!w.get_ball(b1).unwrap().active);
    assert_eq!(pos(&w, b2), Vec2 { x: 50, y: 60 });
    assert_eq!(vel(&w, b2), Vec2 { x: -3, y: 2 });
    assert!(w.get_ball(b2).unwrap().active);
}

fn input_with(launch_pressed: bool, left_down: bool, right_down: bool) -> InputManager {
    let mut input = InputManager::new();
    input.track(263);
    input.track(262);
    input.track(82);
    let states = vec![
        KeyState { pressed: false, down: left_down, up: false },
        KeyState { pressed: false, down: right_down, up: false },
        KeyState { pressed: launch_pressed, down: launch_pressed, up: false },
    ];
    input.update(&states);
    input
}

#[test]
fn retention_pins_and_launches() {
    let mut w = World::new();
    let p = w.spawn(paddle(300, 525, 80, 5));
    let b = w.spawn(ball(10, 20, 0, 0, false, p));
    ball_retaining_logic(&mut w, &input_with(false, false, false), &screen());
    assert_eq!(pos(&w, b), Vec2 { x: 300, y: 495 });
    assert!(!w.get_ball(b).unwrap().active);
    ball_retaining_logic(&mut w, &input_with(true, false, false), &screen());
    assert!(w.get_ball(b).unwrap().active);
    assert_eq!(vel(&w, b), Vec2 { x: 0, y: -10 });
}

#[test]
fn retention_frees_orphan_ball() {
    let mut w = World::new();
    let b = w.spawn(ball(10, 20, 0, 0, false, Entity(5)));
    ball_retaining_logic(&mut w, &input_with(false, false, false), &screen());
    assert!(w.get_ball(b).unwrap().active);
    assert_eq!(pos(&w, b), Vec2 { x: 10, y: 20 });
}

#[test]
fn movement_follows_keys_and_stays_on_screen() {
    let mut w = World::new();
    let p = w.spawn(paddle(400, 525, 80, 5));
    player_movement_logic(&mut w, &screen(), &input_with(false, true, false));
    assert_eq!(pos(&w, p).x, 390);
    player_movement_logic(&mut w, &screen(), &input_with(false, false, true));
    assert_eq!(pos(&w, p).x, 400);
    let edge = w.spawn(paddle(45, 525, 80, 5));
    player_movement_logic(&mut w, &screen(), &input_with(false, true, false));
    assert_eq!(pos(&w, edge).x, 40);
    let right = w.spawn(paddle(755, 525, 80, 5));
    player_movement_logic(&mut w, &screen(), &input_with(false, false, true));
    assert_eq!(pos(&w, right).x, 760);
}
