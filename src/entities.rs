use vstd::prelude::*;
use crate::components::{Color, Colored, Position, Size, Vec2, Velocity};
use crate::store::{Components, Entity};

verus! {

/// Key code of a keyboard key, as the input source numbers them.
pub type Key = u32;

/// Radius given to every new or reset ball.
pub const BALL_RADIUS: i32 = 7;

/// Lives a player starts with.
pub const PLAYER_MAX_LIFE: i32 = 5;

/// Height of a paddle.
pub const PADDLE_HEIGHT: i64 = 20;

/// Distance between a resting ball and the paddle line.
pub const PIN_OFFSET: i64 = 30;

/// A ball: its radius, whether it is in free motion, and the player it
/// belongs to.
#[derive(Clone, Copy, Debug, PartialEq, Eq, Structural)]
pub struct Ball {
    pub radius: i32,
    pub active: bool,
    pub owner: Entity,
}

/// Marker of a brick.
#[derive(Clone, Copy, Debug, PartialEq, Eq, Structural)]
pub struct Brick;

/// The three keys a player plays with.
#[derive(Clone, Copy, Debug, PartialEq, Eq, Structural)]
pub struct PlayerControls {
    pub left: Key,
    pub right: Key,
    pub launch: Key,
}

/// A player's state; the entity that holds it is the player's paddle.
#[derive(Clone, Copy, Debug, PartialEq, Eq, Structural)]
pub struct Player {
    /// Remaining lives.
    pub life: i32,
    /// Vertical offset of the player's score and lives on screen.
    pub ui_display_offset: i32,
    /// Bricks destroyed by the player's balls.
    pub score: u32,
    /// Color of the player's balls.
    pub ball_color: Color,
}

/// Size of the playing area.
#[derive(Clone, Copy, Debug, PartialEq, Eq, Structural)]
pub struct ScreenInfo {
    pub width: i64,
    pub height: i64,
}

impl ScreenInfo {
    pub open spec fn wf(&self) -> bool {
        0 < self.width <= COORD_LIMIT_SCREEN && 0 < self.height <= COORD_LIMIT_SCREEN
    }
}

/// Largest screen side.
pub const COORD_LIMIT_SCREEN: i64 = 1_000_000_000;

/// Height at which a ball rests on its paddle before launch.
pub open spec fn pin_y(height: i64) -> int {
    height * 7 / 8 - PIN_OFFSET
}

pub fn pin_y_exec(screen: &ScreenInfo) -> (r: i64)
    requires
        screen.wf(),
    ensures
        r == pin_y(screen.height),
{
    screen.height * 7 / 8 - PIN_OFFSET
}

/// The components of a new ball.
pub struct BallBundle {
    pub position: Position,
    pub velocity: Velocity,
    pub ball: Ball,
    pub color: Colored,
}

impl BallBundle {
    /// A resting ball of the given player, held above the paddle at
    /// `player_position`.
    pub fn new(player: Entity, color: Color, player_position: &Position, screen: &ScreenInfo) -> (r: Self)
        requires
            screen.wf(),
        ensures
            r.position == Position(Vec2 { x: player_position.0.x, y: pin_y(screen.height) as i64 }),
            r.velocity == Velocity(Vec2 { x: 0, y: 0 }),
            r.ball == (Ball { radius: BALL_RADIUS, active: false, owner: player }),
            r.color == Colored(color),
    {
        BallBundle {
            position: Position(Vec2 { x: player_position.0.x, y: pin_y_exec(screen) }),
            velocity: Velocity(Vec2 { x: 0, y: 0 }),
            ball: Ball { radius: BALL_RADIUS, active: false, owner: player },
            color: Colored(color),
        }
    }

    pub open spec fn spec_components(&self) -> Components {
        Components {
            position: Some(self.position),
            velocity: Some(self.velocity),
            size: None,
            color: Some(self.color),
            ball: Some(self.ball),
            brick: None,
            player: None,
            controls: None,
        }
    }

    pub fn into_components(self) -> (r: Components)
        ensures
            r == self.spec_components(),
    {
        Components {
            position: Some(self.position),
            velocity: Some(self.velocity),
            size: None,
            color: Some(self.color),
            ball: Some(self.ball),
            brick: None,
            player: None,
            controls: None,
        }
    }
}

/// The components of a brick.
pub struct BrickBundle {
    pub position: Position,
    pub size: Size,
    pub color: Colored,
    pub brick: Brick,
}

impl BrickBundle {
    pub open spec fn spec_components(&self) -> Components {
        Components {
            position: Some(self.position),
            velocity: None,
            size: Some(self.size),
            color: Some(self.color),
            ball: None,
            brick: Some(self.brick),
            player: None,
            controls: None,
        }
    }

    pub fn into_components(self) -> (r: Components)
        ensures
            r == self.spec_components(),
    {
        Components {
            position: Some(self.position),
            velocity: None,
            size: Some(self.size),
            color: Some(self.color),
            ball: None,
            brick: Some(self.brick),
            player: None,
            controls: None,
        }
    }
}

/// The components of a player and its paddle.
pub struct PlayerBundle {
    pub position: Position,
    pub size: Size,
    pub player: Player,
    pub controls: PlayerControls,
    pub color: Colored,
}

impl PlayerBundle {
    /// A player with full lives and no score, its paddle centered at the
    /// bottom of the screen.
    pub fn new(
        screen: &ScreenInfo,
        ui_display_offset: i32,
        color: Color,
        ball_color: Color,
        controls: PlayerControls,
    ) -> (r: Self)
        requires
            screen.wf(),
        ensures
            r.position == Position(Vec2 { x: (screen.width / 2) as i64, y: (screen.height * 7 / 8) as i64 }),
            r.size == Size(Vec2 { x: (screen.width / 10) as i64, y: PADDLE_HEIGHT }),
            r.player == (Player { life: PLAYER_MAX_LIFE, ui_display_offset, score: 0, ball_color }),
            r.controls == controls,
            r.color == Colored(color),
    {
        PlayerBundle {
            position: Position(Vec2 { x: screen.width / 2, y: screen.height * 7 / 8 }),
            size: Size(Vec2 { x: screen.width / 10, y: PADDLE_HEIGHT }),
            player: Player { life: PLAYER_MAX_LIFE, ui_display_offset, score: 0, ball_color },
            controls,
            color: Colored(color),
        }
    }

    pub open spec fn spec_components(&self) -> Components {
        Components {
            position: Some(self.position),
            velocity: None,
            size: Some(self.size),
            color: Some(self.color),
            ball: None,
            brick: None,
            player: Some(self.player),
            controls: Some(self.controls),
        }
    }

    pub fn into_components(self) -> (r: Components)
        ensures
            r == self.spec_components(),
    {
        Components {
            position: Some(self.position),
            velocity: None,
            size: Some(self.size),
            color: Some(self.color),
            ball: None,
            brick: None,
            player: Some(self.player),
            controls: Some(self.controls),
        }
    }
}

} // verus!
