use vstd::prelude::*;
use crate::audio::AudioEvent;
use crate::ball::{
    BallResetEvent, ball_reset_event, ball_respawning, motion_world, resets_upto, respawn_world,
    update_ball_velocity,
};
use crate::collisions::{
    border_cues_upto, border_world, bricks_upto, collisions_ball_borders, collisions_ball_bricks,
    collisions_ball_player, paddle_cues_upto, paddle_world,
};
use crate::components::{Color, Colored, Position, Size, Vec2, blueviolet, gray, half_black, half_blue, lightgray, maroon};
use crate::entities::{Brick, BrickBundle, COORD_LIMIT_SCREEN, Key, PlayerBundle, PlayerControls, ScreenInfo};
use crate::input::{InputManager, KeyEntry, KeyState, is_watched};
use crate::player::{
    ball_retaining_logic, death_world, movement_world, player_death, player_movement_logic, retention_world,
};
use crate::store::{Components, Entity, Slot, World, slot_ok};

verus! {

/// Rows of bricks.
pub const LINES_OF_BRICKS: usize = 5;

/// Bricks in each row.
pub const BRICKS_PER_LINE: usize = 20;

/// Height of a brick.
pub const BRICK_HEIGHT: i64 = 40;

/// Vertical position of the first row of bricks.
pub const INITIAL_DOWN_POSITION: i64 = 50;

/// Key codes of the keys the players use.
pub const KEY_RIGHT: Key = 262;

pub const KEY_LEFT: Key = 263;

pub const KEY_R: Key = 82;

pub const KEY_A: Key = 65;

pub const KEY_D: Key = 68;

pub const KEY_O: Key = 79;

/// The brick in row `i`, column `j` of the grid of bricks of size `bs`.
pub open spec fn grid_brick(i: int, j: int, bs: Vec2) -> Components {
    Components {
        position: Some(Position(Vec2 { x: (j * bs.x + bs.x / 2) as i64, y: (i * bs.y + INITIAL_DOWN_POSITION) as i64 })),
        velocity: None,
        size: Some(Size(bs)),
        color: Some(Colored(if (i + j) % 2 == 0 { spec_gray() } else { spec_lightgray() })),
        ball: None,
        brick: Some(Brick),
        player: None,
        controls: None,
    }
}

pub open spec fn spec_gray() -> Color {
    Color { r: 130, g: 130, b: 130, a: 255 }
}

pub open spec fn spec_lightgray() -> Color {
    Color { r: 200, g: 200, b: 200, a: 255 }
}

/// The whole grid, row by row.
pub open spec fn brick_grid(bs: Vec2) -> Seq<Slot> {
    Seq::new(
        (LINES_OF_BRICKS * BRICKS_PER_LINE) as nat,
        |k: int| Some(grid_brick(k / BRICKS_PER_LINE as int, k % BRICKS_PER_LINE as int, bs)),
    )
}

/// The store after one tick of the pipeline, in its fixed order: motion,
/// ball retention, border collision, brick collision, player death, paddle
/// collision, player movement, ball respawn, reset events.
pub open spec fn tick_world(s: Seq<Slot>, input: Seq<KeyEntry>, screen: ScreenInfo, evs: Seq<BallResetEvent>) -> Seq<Slot> {
    let s1 = motion_world(s);
    let s2 = retention_world(s1, input, screen);
    let s3 = border_world(s2, screen);
    let s4 = bricks_upto(s3, s3.len() as int).0;
    let s5 = death_world(s4);
    let s6 = paddle_world(s5);
    let s7 = movement_world(s6, input, screen);
    let s8 = respawn_world(s7, screen);
    resets_upto(s8, evs, evs.len() as int, screen)
}

/// The cues of one tick, in the order they were emitted.
pub open spec fn tick_cues(s: Seq<Slot>, input: Seq<KeyEntry>, screen: ScreenInfo) -> Seq<AudioEvent> {
    let s1 = motion_world(s);
    let s2 = retention_world(s1, input, screen);
    let s3 = border_world(s2, screen);
    let s4 = bricks_upto(s3, s3.len() as int).0;
    let s5 = death_world(s4);
    border_cues_upto(s2, screen, s2.len() as int) + bricks_upto(s3, s3.len() as int).1 + paddle_cues_upto(
        s5,
        s5.len() as int,
    )
}

/// The game: the store, the screen, the input tracker and the two event
/// queues.
pub struct Game {
    pub brick_size: Vec2,
    pub world: World,
    pub screen: ScreenInfo,
    pub input: InputManager,
    pub audio: Vec<AudioEvent>,
    pub resets: Vec<BallResetEvent>,
}

impl Default for Game {
    /// A game with nothing in it and no screen yet; `init` sets it up.
    fn default() -> (r: Game)
        ensures
            r.world@.len() == 0,
            r.world.wf(),
            r.input.wf(),
            forall|k: Key| !is_watched(r.input@, k),
            r.audio@.len() == 0,
            r.resets@.len() == 0,
            r.screen == (ScreenInfo { width: 0, height: 0 }),
            r.brick_size == (Vec2 { x: 0, y: 0 }),
    {
        Game {
            brick_size: Vec2 { x: 0, y: 0 },
            world: World::new(),
            screen: ScreenInfo { width: 0, height: 0 },
            input: InputManager::new(),
            audio: Vec::new(),
            resets: Vec::new(),
        }
    }
}

impl Game {
    /// The game is set up and can run.
    pub open spec fn wf(&self) -> bool {
        &&& self.world.wf()
        &&& self.input.wf()
        &&& self.screen.wf()
        &&& self.brick_size == (Vec2 { x: (self.screen.width / 20) as i64, y: BRICK_HEIGHT })
    }

    /// Whether the game is set up.
    pub fn is_ready(&self) -> (r: bool)
        requires
            self.world.wf(),
            self.input.wf(),
        ensures
            r == self.wf(),
    {
        0 < self.screen.width && self.screen.width <= COORD_LIMIT_SCREEN && 0 < self.screen.height
            && self.screen.height <= COORD_LIMIT_SCREEN && self.brick_size.x == self.screen.width / 20
            && self.brick_size.y == BRICK_HEIGHT
    }

    /// Sets the game up on a screen of the given size, for one or two
    /// players: their paddles, their keys, and the grid of bricks.
    pub fn init(&mut self, width: i64, height: i64, two_players: bool)
        requires
            old(self).world.wf(),
            old(self).input.wf(),
            0 < width <= COORD_LIMIT_SCREEN,
            0 < height <= COORD_LIMIT_SCREEN,
        ensures
            final(self).wf(),
            final(self).screen == (ScreenInfo { width, height }),
            final(self).world@ == old(self).world@ + seq![Some(first_player(final(self).screen))] + (if two_players {
                seq![Some(second_player(final(self).screen))]
            } else {
                Seq::empty()
            }) + brick_grid(final(self).brick_size),
            is_watched(final(self).input@, KEY_LEFT),
            is_watched(final(self).input@, KEY_RIGHT),
            is_watched(final(self).input@, KEY_R),
            two_players ==> is_watched(final(self).input@, KEY_A) && is_watched(final(self).input@, KEY_D)
                && is_watched(final(self).input@, KEY_O),
    {
        let screen = ScreenInfo { width, height };
        self.screen = screen;
        self.brick_size = Vec2 { x: width / 20, y: BRICK_HEIGHT };
        let ghost w0 = self.world@;

        let p1 = PlayerBundle::new(
            &screen,
            0,
            half_black(),
            maroon(),
            PlayerControls { left: KEY_LEFT, right: KEY_RIGHT, launch: KEY_R },
        );
        self.world.spawn(p1.into_components());
        self.input.track(KEY_LEFT);
        self.input.track(KEY_RIGHT);
        self.input.track(KEY_R);
        let ghost w1 = self.world@;

        if two_players {
            let p2 = PlayerBundle::new(
                &screen,
                20,
                half_blue(),
                blueviolet(),
                PlayerControls { left: KEY_A, right: KEY_D, launch: KEY_O },
            );
            self.world.spawn(p2.into_components());
            self.input.track(KEY_A);
            self.input.track(KEY_D);
            self.input.track(KEY_O);
        }
        proof {
            assert forall|k: int| 0 <= k < self.world@.len() implies #[trigger] slot_ok(self.world@[k]) by {
                if k < w0.len() {
                    assert(slot_ok(w0[k]));
                }
            }
        }
        self.reset_bricks();
    }

    /// Adds a full grid of bricks.
    fn reset_bricks(&mut self)
        requires
            old(self).world.wf(),
            old(self).screen.wf(),
            old(self).brick_size == (Vec2 { x: (old(self).screen.width / 20) as i64, y: BRICK_HEIGHT }),
        ensures
            final(self).world.wf(),
            final(self).world@ == old(self).world@ + brick_grid(old(self).brick_size),
            final(self).screen == old(self).screen,
            final(self).brick_size == old(self).brick_size,
            final(self).input == old(self).input,
            final(self).audio == old(self).audio,
            final(self).resets == old(self).resets,
    {
        let bs = self.brick_size;
        let mut bricks: Vec<Components> = Vec::new();
        for i in 0..LINES_OF_BRICKS
            invariant
                bs == self.brick_size,
                bs.x == self.screen.width / 20,
                bs.y == BRICK_HEIGHT,
                self.screen.wf(),
                bricks@.len() == i * BRICKS_PER_LINE,
                forall|k: int| 0 <= k < bricks@.len() ==> Some(#[trigger] bricks@[k]) == brick_grid(bs)[k],
        {
            for j in 0..BRICKS_PER_LINE
                invariant
                    bs == self.brick_size,
                    bs.x == self.screen.width / 20,
                    bs.y == BRICK_HEIGHT,
                    self.screen.wf(),
                    i < LINES_OF_BRICKS,
                    bricks@.len() == i * BRICKS_PER_LINE + j,
                    forall|k: int| 0 <= k < bricks@.len() ==> Some(#[trigger] bricks@[k]) == brick_grid(bs)[k],
            {
                let color = if (i + j) % 2 == 0 {
                    gray()
                } else {
                    lightgray()
                };
                assert(0 <= j as i64 * bs.x <= 20 * bs.x) by (nonlinear_arith)
                    requires
                        0 <= j < 20,
                        0 <= bs.x,
                ;
                let brick = BrickBundle {
                    position: Position(Vec2 { x: j as i64 * bs.x + bs.x / 2, y: i as i64 * bs.y + INITIAL_DOWN_POSITION }),
                    size: Size(bs),
                    color: Colored(color),
                    brick: Brick,
                };
                bricks.push(brick.into_components());
                proof {
                    let k = i * BRICKS_PER_LINE + j;
                    assert(k / 20 == i && k % 20 == j) by (nonlinear_arith)
                        requires
                            k == i * 20 + j,
                            0 <= j < 20,
                    ;
                }
            }
        }
        let ghost w0 = self.world@;
        self.world.spawn_batch(bricks);
        assert(self.world@ =~= w0 + brick_grid(bs));
        assert forall|k: int| 0 <= k < self.world@.len() implies #[trigger] slot_ok(self.world@[k]) by {
            if k < w0.len() {
                assert(slot_ok(w0[k]));
            } else {
                let m = k - w0.len();
                let i = m / 20;
                let j = m % 20;
                assert(0 <= i < 5 && 0 <= j < 20);
                assert(0 <= j * bs.x <= 20 * bs.x) by (nonlinear_arith)
                    requires
                        0 <= j < 20,
                        0 <= bs.x,
                ;
                assert(self.world@[k] == brick_grid(bs)[m]);
            }
        }
    }

    /// Queues a reset of one ball, or of every ball, for the end of the next
    /// tick.
    pub fn send_reset(&mut self, target: Option<Entity>)
        ensures
            final(self).resets@ == old(self).resets@.push(BallResetEvent { target }),
            final(self).world == old(self).world,
            final(self).screen == old(self).screen,
            final(self).brick_size == old(self).brick_size,
            final(self).input == old(self).input,
            final(self).audio == old(self).audio,
    {
        self.resets.push(BallResetEvent { target });
    }

    /// Runs one tick. `states[i]` is this tick's state of the `i`-th key of
    /// `self.input.keys()`. Returns the cues of the tick, in order, after
    /// the ones still queued.
    pub fn update(&mut self, states: &Vec<KeyState>) -> (cues: Vec<AudioEvent>)
        requires
            old(self).wf(),
            states@.len() == old(self).input@.len(),
        ensures
            final(self).wf(),
            final(self).screen == old(self).screen,
            final(self).input@.len() == old(self).input@.len(),
            forall|i: int|
                0 <= i < old(self).input@.len() ==> #[trigger] final(self).input@[i] == (KeyEntry {
                    state: states@[i],
                    ..old(self).input@[i]
                }),
            final(self).world@ == tick_world(old(self).world@, final(self).input@, old(self).screen, old(self).resets@),
            cues@ == old(self).audio@ + tick_cues(old(self).world@, final(self).input@, old(self).screen),
            final(self).audio@.len() == 0,
            final(self).resets@.len() == 0,
    {
        self.input.update(states);
        let screen = self.screen;
        update_ball_velocity(&mut self.world);
        ball_retaining_logic(&mut self.world, &self.input, &screen);
        collisions_ball_borders(&mut self.world, &mut self.audio, &screen);
        collisions_ball_bricks(&mut self.world, &mut self.audio);
        player_death(&mut self.world);
        collisions_ball_player(&mut self.world, &mut self.audio);
        player_movement_logic(&mut self.world, &screen, &self.input);
        ball_respawning(&mut self.world, &screen);
        ball_reset_event(&mut self.world, &mut self.resets, &screen);
        let mut cues: Vec<AudioEvent> = Vec::new();
        std::mem::swap(&mut cues, &mut self.audio);
        cues
    }
}

/// The first player, its paddle and its keys.
pub open spec fn first_player(screen: ScreenInfo) -> Components {
    crate::entities::PlayerBundle {
        position: Position(Vec2 { x: (screen.width / 2) as i64, y: (screen.height * 7 / 8) as i64 }),
        size: Size(Vec2 { x: (screen.width / 10) as i64, y: crate::entities::PADDLE_HEIGHT }),
        player: crate::entities::Player {
            life: crate::entities::PLAYER_MAX_LIFE,
            ui_display_offset: 0,
            score: 0,
            ball_color: Color { r: 190, g: 33, b: 55, a: 255 },
        },
        controls: PlayerControls { left: KEY_LEFT, right: KEY_RIGHT, launch: KEY_R },
        color: Colored(Color { r: 0, g: 0, b: 0, a: 127 }),
    }.spec_components()
}

/// The second player, its paddle and its keys.
pub open spec fn second_player(screen: ScreenInfo) -> Components {
    crate::entities::PlayerBundle {
        position: Position(Vec2 { x: (screen.width / 2) as i64, y: (screen.height * 7 / 8) as i64 }),
        size: Size(Vec2 { x: (screen.width / 10) as i64, y: crate::entities::PADDLE_HEIGHT }),
        player: crate::entities::Player {
            life: crate::entities::PLAYER_MAX_LIFE,
            ui_display_offset: 20,
            score: 0,
            ball_color: Color { r: 135, g: 60, b: 190, a: 255 },
        },
        controls: PlayerControls { left: KEY_A, right: KEY_D, launch: KEY_O },
        color: Colored(Color { r: 0, g: 121, b: 241, a: 127 }),
    }.spec_components()
}

} // verus!
