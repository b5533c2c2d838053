use polykanoid::components::{Vec2, Position, Velocity};
use polykanoid::entities::Ball;
use polykanoid::game::Game;
use polykanoid::input::KeyState;
use polykanoid::store::{Entity, Role};

fn idle(game: &Game) -> Vec<KeyState> {
    game.input.keys().iter().map(|_| KeyState::default()).collect()
}

#[test]
fn init_one_player() {
    let mut game = Game::default();
    assert!(!game.is_ready());
    game.init(800, 600, false);
    assert!(game.is_ready());
    assert_eq!(game.world.len(), 101);
    assert_eq!(game.brick_size, Vec2 { x: 40, y: 40 });
    let p = game.world.get(Entity(0)).unwrap();
    assert_eq!(p.position.unwrap().0, Vec2 { x: 400, y: 525 });
    assert_eq!(p.size.unwrap().0, Vec2 { x: 80, y: 20 });
    assert_eq!(p.player.unwrap().life, 5);
    assert_eq!(game.world.query(Role::Brick).len(), 100);
    // First and last brick of the grid.
    assert_eq!(game.world.get_position(Entity(1)).unwrap().0, Vec2 { x: 20, y: 50 });
    assert_eq!(game.world.get_position(Entity(100)).unwrap().0, Vec2 { x: 780, y: 210 });
    assert_eq!(game.input.keys(), vec![263, 262, 82]);
}

#[test]
fn init_two_players() {
    let mut game = Game::default();
    game.init(800, 600, true);
    assert_eq!(game.world.len(), 102);
    assert_eq!(game.world.query(Role::Paddle).len(), 2);
    assert_eq!(game.world.get_player(Entity(1)).unwrap().ui_display_offset, 20);
    assert_eq!(game.input.keys().len(), 6);
}

#[test]
fn first_tick_gives_each_player_a_ball() {
    let mut game = Game::default();
    game.init(800, 600, true);
    let states = idle(&game);
    let cues = game.update(&states);
    assert!(cues.is_empty());
    assert_eq!(game.world.len(), 104);
    assert_eq!(game.world.get_ball(Entity(102)).unwrap(), Ball { radius: 7, active: false, owner: Entity(0) });
    assert_eq!(game.world.get_ball(Entity(103)).unwrap(), Ball { radius: 7, active: false, owner: Entity(1) });
    assert_eq!(game.world.get_player(Entity(0)).unwrap().life, 4);
}

#[test]
fn tick_removes_fallen_ball() {
    let mut game = Game::default();
    game.init(800, 600, false);
    let states = idle(&game);
    game.update(&states);
    let b = Entity(101);
    let mut c = game.world.get(b).unwrap();
    c.position = Some(Position(Vec2 { x: 400, y: 590 }));
    c.velocity = Some(Velocity(Vec2 { x: 0, y: 5 }));
    c.ball = Some(Ball { active: true, ..c.ball.unwrap() });
    game.world.despawn(b);
    let moved = game.world.spawn(c);
    game.update(&states);
    assert!(!game.world.contains(moved));
    // The player got a new ball and paid a life for it.
    assert_eq!(game.world.get_player(Entity(0)).unwrap().life, 3);
    assert_eq!(game.world.query(Role::Ball).len(), 1);
}

#[test]
fn launch_key_sends_ball_up() {
    let mut game = Game::default();
    game.init(800, 600, false);
    let states = idle(&game);
    game.update(&states);
    let launch: Vec<KeyState> = game
        .input
        .keys()
        .iter()
        .map(|k| if *k == 82 { KeyState { pressed: true, down: true, up: false } } else { KeyState::default() })
        .collect();
    game.update(&launch);
    let b = Entity(101);
    assert!(game.world.get_ball(b).unwrap().active);
    assert_eq!(game.world.get(b).unwrap().velocity.unwrap().0, Vec2 { x: 0, y: -10 });
    game.update(&states);
    assert_eq!(game.world.get_position(b).unwrap().0, Vec2 { x: 400, y: 485 });
}

#[test]
fn reset_request_applies_at_end_of_tick() {
    let mut game = Game::default();
    game.init(800, 600, false);
    let states = idle(&game);
    game.update(&states);
    let b = Entity(101);
    let mut c = game.world.get(b).unwrap();
    c.position = Some(Position(Vec2 { x: 100, y: 300 }));
    c.velocity = Some(Velocity(Vec2 { x: 3, y: 3 }));
    c.ball = Some(Ball { active: true, ..c.ball.unwrap() });
    game.world.despawn(b);
    let moved = game.world.spawn(c);
    game.send_reset(None);
    game.update(&states);
    assert_eq!(game.resets.len(), 0);
    assert_eq!(game.world.get_position(moved).unwrap().0, Vec2 { x: 400, y: 495 });
    assert!(!game.world.get_ball(moved).unwrap().active);
}

#[test]
fn player_out_of_lives_leaves_game() {
    let mut game = Game::default();
    game.init(800, 600, false);
    let states = idle(&game);
    game.update(&states);
    let mut p = game.world.get(Entity(0)).unwrap();
    p.player = Some(polykanoid::entities::Player { life: 0, ..p.player.unwrap() });
    game.world.despawn(Entity(0));
    let np = game.world.spawn(p);
    // Hand the ball to the exhausted player.
    let mut c = game.world.get(Entity(101)).unwrap();
    c.ball = Some(Ball { owner: np, ..c.ball.unwrap() });
    game.world.despawn(Entity(101));
    let nb = game.world.spawn(c);
    game.update(&states);
    assert!(!game.world.contains(np));
    assert!(!game.world.contains(nb));
    assert!(!game.world.has_players());
}
