use vstd::prelude::*;
use crate::components::{Position, Vec2, Velocity};
use crate::entities::{Ball, ScreenInfo, pin_y, pin_y_exec};
use crate::input::{InputManager, KeyEntry, key_state};
use crate::store::{Components, Slot, World, is_ball, lookup, slot_ok, slots_ok};

verus! {

/// Distance a paddle moves in one tick while a direction key is held.
pub const PLAYER_SPEED: i64 = 10;

/// Vertical speed of a ball when it is launched.
pub const LAUNCH_SPEED: i64 = 10;

/// The horizontal position of a paddle centered at `x`, of width `w`, after
/// one tick: it moves left and right while the keys are held and is kept
/// within the screen.
pub open spec fn paddle_x(x: int, w: int, left: bool, right: bool, screen: ScreenInfo) -> int {
    let half = w / 2;
    let x1 = if left { x - PLAYER_SPEED } else { x };
    let x2 = if x1 - half <= 0 { half } else { x1 };
    let x3 = if right { x2 + PLAYER_SPEED } else { x2 };
    if x3 + half >= screen.width { screen.width - half } else { x3 }
}

/// What player movement does to one slot.
pub open spec fn moved_paddle(s: Slot, input: Seq<KeyEntry>, screen: ScreenInfo) -> Slot {
    match s {
        Some(c) => if c.position is Some && c.size is Some && c.controls is Some {
            let p = c.position.unwrap().0;
            let k = c.controls.unwrap();
            let x = paddle_x(
                p.x as int,
                c.size.unwrap().0.x as int,
                key_state(input, k.left).down,
                key_state(input, k.right).down,
                screen,
            );
            Some(Components { position: Some(Position(Vec2 { x: x as i64, y: p.y })), ..c })
        } else {
            s
        },
        None => None,
    }
}

pub open spec fn movement_world(s: Seq<Slot>, input: Seq<KeyEntry>, screen: ScreenInfo) -> Seq<Slot> {
    Seq::new(s.len(), |i: int| moved_paddle(s[i], input, screen))
}

/// Player movement: each paddle follows its left and right keys, at a fixed
/// speed, without leaving the screen.
pub fn player_movement_logic(world: &mut World, screen: &ScreenInfo, input: &InputManager)
    requires
        old(world).wf(),
        screen.wf(),
        input.wf(),
    ensures
        final(world).wf(),
        final(world)@ == movement_world(old(world)@, input@, *screen),
{
    let ghost s0 = world@;
    let n = world.len();
    for i in 0..n
        invariant
            n == s0.len(),
            s0 == old(world)@,
            slots_ok(s0),
            screen.wf(),
            input.wf(),
            world@.len() == n,
            forall|k: int| 0 <= k < i ==> #[trigger] world@[k] == moved_paddle(s0[k], input@, *screen),
            forall|k: int| i <= k < n ==> #[trigger] world@[k] == s0[k],
    {
        assert(slot_ok(s0[i as int]));
        match world.slot(i) {
            Some(c) => {
                if c.position.is_some() && c.size.is_some() && c.controls.is_some() {
                    let p = c.position.unwrap().0;
                    let k = c.controls.unwrap();
                    let half = c.size.unwrap().0.x / 2;
                    let mut x = p.x;
                    if input.is_key_down(k.left) {
                        x = x - PLAYER_SPEED;
                    }
                    if x - half <= 0 {
                        x = half;
                    }
                    if input.is_key_down(k.right) {
                        x = x + PLAYER_SPEED;
                    }
                    if x + half >= screen.width {
                        x = screen.width - half;
                    }
                    world.set_slot(i, Some(Components { position: Some(Position(Vec2 { x, y: p.y })), ..c }));
                }
            },
            None => {},
        }
    }
    assert(world@ =~= movement_world(s0, input@, *screen));
    assert forall|k: int| 0 <= k < world@.len() implies #[trigger] slot_ok(world@[k]) by {
        assert(slot_ok(s0[k]));
    }
}

/// Whether slot `s` is a player out of lives.
pub open spec fn exhausted(s: Slot) -> bool {
    s matches Some(c) && c.player matches Some(p) && p.life <= 0
}

/// Whether player death removes the entity at `i`: a player out of lives, or
/// a ball of such a player.
pub open spec fn dies(s: Seq<Slot>, i: int) -> bool {
    exhausted(s[i]) || (s[i] matches Some(c) && c.ball matches Some(b) && exhausted(lookup(s, b.owner)))
}

pub open spec fn death_world(s: Seq<Slot>) -> Seq<Slot> {
    Seq::new(s.len(), |i: int| if dies(s, i) { None } else { s[i] })
}

fn exhausted_exec(s: Slot) -> (r: bool)
    ensures
        r == exhausted(s),
{
    match s {
        Some(c) => match c.player {
            Some(p) => p.life <= 0,
            None => false,
        },
        None => false,
    }
}

/// Player death: every player out of lives is removed together with all of
/// its balls.
pub fn player_death(world: &mut World)
    requires
        old(world).wf(),
    ensures
        final(world).wf(),
        final(world)@ == death_world(old(world)@),
        // A player out of lives and each of its balls are gone.
        forall|i: int| 0 <= i < old(world)@.len() && exhausted(#[trigger] old(world)@[i]) ==> final(world)@[i] is None,
        forall|i: int|
            0 <= i < old(world)@.len() && (#[trigger] old(world)@[i] matches Some(c) && c.ball matches Some(b)
                && exhausted(lookup(old(world)@, b.owner))) ==> final(world)@[i] is None,
{
    let ghost s0 = world@;
    let n = world.len();
    let mut doomed: Vec<bool> = Vec::new();
    for i in 0..n
        invariant
            n == s0.len(),
            world@ == s0,
            doomed@.len() == i,
            forall|k: int| 0 <= k < i ==> #[trigger] doomed@[k] == dies(s0, k),
    {
        let s = world.slot(i);
        let d = exhausted_exec(s) || match s {
            Some(c) => match c.ball {
                Some(b) => exhausted_exec(world.get(b.owner)),
                None => false,
            },
            None => false,
        };
        doomed.push(d);
    }
    for i in 0..n
        invariant
            n == s0.len(),
            s0 == old(world)@,
            doomed@.len() == n,
            forall|k: int| 0 <= k < n ==> #[trigger] doomed@[k] == dies(s0, k),
            world@.len() == n,
            forall|k: int| 0 <= k < i ==> #[trigger] world@[k] == (if dies(s0, k) { None } else { s0[k] }),
            forall|k: int| i <= k < n ==> #[trigger] world@[k] == s0[k],
    {
        if doomed[i] {
            world.set_slot(i, None);
        }
    }
    assert(world@ =~= death_world(s0));
    assert forall|k: int| 0 <= k < world@.len() implies #[trigger] slot_ok(world@[k]) by {
        assert(slot_ok(s0[k]));
    }
}

/// The paddle and controls of the owner of ball `c`, if the owner is still
/// an entity with both and no ball of its own.
pub open spec fn holder(s: Seq<Slot>, c: Components) -> Option<Components> {
    match lookup(s, c.ball.unwrap().owner) {
        Some(o) => if o.position is Some && o.controls is Some && o.ball is None { Some(o) } else { None },
        None => None,
    }
}

/// What ball retention does to slot `i`: a resting ball follows its owner's
/// paddle and is launched straight up when the owner's launch key goes down;
/// a resting ball whose owner is gone is set free.
pub open spec fn retained(s: Seq<Slot>, i: int, input: Seq<KeyEntry>, screen: ScreenInfo) -> Slot {
    if is_ball(s[i]) && !s[i].unwrap().ball.unwrap().active {
        let c = s[i].unwrap();
        let b = c.ball.unwrap();
        match holder(s, c) {
            Some(o) => {
                let pos = Some(Position(Vec2 { x: o.position.unwrap().0.x, y: pin_y(screen.height) as i64 }));
                if key_state(input, o.controls.unwrap().launch).pressed {
                    Some(
                        Components {
                            position: pos,
                            velocity: Some(Velocity(Vec2 { x: 0, y: (-LAUNCH_SPEED) as i64 })),
                            ball: Some(Ball { active: true, ..b }),
                            ..c
                        },
                    )
                } else {
                    Some(Components { position: pos, ..c })
                }
            },
            None => Some(Components { ball: Some(Ball { active: true, ..b }), ..c }),
        }
    } else {
        s[i]
    }
}

pub open spec fn retention_world(s: Seq<Slot>, input: Seq<KeyEntry>, screen: ScreenInfo) -> Seq<Slot> {
    Seq::new(s.len(), |i: int| retained(s, i, input, screen))
}

/// Ball retention: resting balls follow their paddle until launched.
pub fn ball_retaining_logic(world: &mut World, input: &InputManager, screen: &ScreenInfo)
    requires
        old(world).wf(),
        screen.wf(),
        input.wf(),
    ensures
        final(world).wf(),
        final(world)@ == retention_world(old(world)@, input@, *screen),
{
    let ghost s0 = world@;
    let n = world.len();
    for i in 0..n
        invariant
            n == s0.len(),
            s0 == old(world)@,
            slots_ok(s0),
            screen.wf(),
            input.wf(),
            world@.len() == n,
            forall|k: int| 0 <= k < i ==> #[trigger] world@[k] == retained(s0, k, input@, *screen),
            forall|k: int| i <= k < n ==> #[trigger] world@[k] == s0[k],
    {
        assert(slot_ok(s0[i as int]));
        match world.slot(i) {
            Some(c) => {
                let b = c.ball.unwrap_or(Ball { radius: 1, active: true, owner: crate::store::Entity(0) });
                if c.ball.is_some() && c.position.is_some() && c.velocity.is_some() && c.player.is_none()
                    && c.brick.is_none() && !b.active {
                    let owner = world.get(b.owner);
                    proof {
                        let o = b.owner.0 as int;
                        if 0 <= o < n && (s0[o] matches Some(oc) && oc.ball is None) {
                            assert(world@[o] == s0[o]);
                        }
                        if 0 <= o < n && (world@[o] matches Some(oc) && oc.ball is None) {
                            assert(world@[o] == s0[o]);
                        }
                    }
                    let held = match owner {
                        Some(o) => if o.position.is_some() && o.controls.is_some() && o.ball.is_none() {
                            Some(o)
                        } else {
                            None
                        },
                        None => None,
                    };
                    match held {
                        Some(o) => {
                            assert(slot_ok(s0[b.owner.0 as int]));
                            let pos = Some(Position(Vec2 { x: o.position.unwrap().0.x, y: pin_y_exec(screen) }));
                            if input.is_key_pressed(o.controls.unwrap().launch) {
                                world.set_slot(
                                    i,
                                    Some(Components {
                                        position: pos,
                                        velocity: Some(Velocity(Vec2 { x: 0, y: -LAUNCH_SPEED })),
                                        ball: Some(Ball { active: true, ..b }),
                                        ..c
                                    }),
                                );
                            } else {
                                world.set_slot(i, Some(Components { position: pos, ..c }));
                            }
                        },
                        None => {
                            world.set_slot(i, Some(Components { ball: Some(Ball { active: true, ..b }), ..c }));
                        },
                    }
                }
            },
            None => {},
        }
        assert(world@[i as int] == retained(s0, i as int, input@, *screen));
    }
    assert(world@ =~= retention_world(s0, input@, *screen));
    assert forall|k: int| 0 <= k < world@.len() implies #[trigger] slot_ok(world@[k]) by {
        assert(slot_ok(s0[k]));
        if is_ball(s0[k]) {
            let o = s0[k].unwrap().ball.unwrap().owner.0 as int;
            if 0 <= o < n {
                assert(slot_ok(s0[o]));
            }
        }
    }
}

} // verus!
