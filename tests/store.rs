use polykanoid::components::{Color, Colored, Position, Size, Vec2};
use polykanoid::entities::{Ball, Brick};
use polykanoid::input::{InputManager, KeyState};
use polykanoid::store::{Components, Entity, Role, World};

fn marker(x: i64) -> Components {
    Components {
        position: Some(Position(Vec2 { x, y: 0 })),
        velocity: None,
        size: Some(Size(Vec2 { x: 1, y: 1 })),
        color: Some(Colored(Color { r: 1, g: 2, b: 3, a: 4 })),
        ball: None,
        brick: Some(Brick),
        player: None,
        controls: None,
    }
}

#[test]
fn spawn_and_despawn() {
    let mut w = World::new();
    let a = w.spawn(marker(1));
    let b = w.spawn(marker(2));
    assert_eq!(a, Entity(0));
    assert_eq!(b, Entity(1));
    w.despawn(a);
    assert!(w.get(a).is_none());
    // Despawning again, or an unknown entity, does nothing.
    w.despawn(a);
    w.despawn(Entity(50));
    assert_eq!(w.get_position(b), Some(Position(Vec2 { x: 2, y: 0 })));
    assert_eq!(w.len(), 2);
}

#[test]
fn spawn_batch_numbers_in_order() {
    let mut w = World::new();
    w.spawn(marker(0));
    let es = w.spawn_batch(vec![marker(5), marker(6), marker(7)]);
    assert_eq!(es, vec![Entity(1), Entity(2), Entity(3)]);
    assert_eq!(w.get_position(Entity(3)), Some(Position(Vec2 { x: 7, y: 0 })));
}

#[test]
fn lookups_of_missing_components_fail() {
    let mut w = World::new();
    let a = w.spawn(marker(1));
    assert_eq!(w.get_ball(a), None::<Ball>);
    assert!(w.get_player(a).is_none());
    assert!(w.get_position(Entity(9)).is_none());
    assert!(!w.has_players());
}

#[test]
fn query_filters_by_role() {
    let mut w = World::new();
    let a = w.spawn(marker(1));
    let b = w.spawn(marker(2));
    w.despawn(a);
    assert_eq!(w.query(Role::Brick), vec![b]);
    assert!(w.query(Role::Ball).is_empty());
    assert!(w.query(Role::Paddle).is_empty());
}

#[test]
fn input_reads_sampled_state() {
    let mut input = InputManager::new();
    assert!(!input.is_key_down(65));
    input.track(65);
    input.track(68);
    assert_eq!(input.keys(), vec![65, 68]);
    assert!(!input.is_key_down(65));
    input.update(&vec![
        KeyState { pressed: true, down: true, up: false },
        KeyState { pressed: false, down: false, up: true },
    ]);
    assert!(input.is_key_down(65));
    assert!(input.is_key_pressed(65));
    assert!(!input.is_key_up(65));
    assert!(input.is_key_up(68));
    assert!(!input.is_key_down(68));
    // Untracked keys read as released.
    assert!(!input.is_key_pressed(70));
    input.untrack(65);
    assert!(!input.is_key_down(65));
    assert!(!input.is_key_pressed(65));
    // Tracking again starts released.
    input.track(65);
    assert!(!input.is_key_down(65));
}
