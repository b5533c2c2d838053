use vstd::prelude::*;
use crate::components::{Colored, Position, Vec2, Velocity, clamp_coord, clamp_coord_exec, in_range};
use crate::entities::{BALL_RADIUS, Ball, BallBundle, ScreenInfo, pin_y, pin_y_exec};
use crate::store::{Components, Entity, Slot, World, is_ball, lookup, slot_ok, slots_ok};

verus! {

/// Where motion moves one slot: a ball advances by its velocity.
pub open spec fn moved(s: Slot) -> Slot {
    match s {
        Some(c) => if c.ball is Some && c.position is Some && c.velocity is Some {
            let p = c.position.unwrap().0;
            let v = c.velocity.unwrap().0;
            Some(
                Components {
                    position: Some(Position(Vec2 { x: clamp_coord(p.x + v.x) as i64, y: clamp_coord(p.y + v.y) as i64 })),
                    ..c
                },
            )
        } else {
            s
        },
        None => None,
    }
}

pub open spec fn motion_world(s: Seq<Slot>) -> Seq<Slot> {
    Seq::new(s.len(), |i: int| moved(s[i]))
}

/// Motion: every ball advances by its velocity. A coordinate that would
/// leave the range of stored coordinates stops at its edge.
pub fn update_ball_velocity(world: &mut World)
    requires
        old(world).wf(),
    ensures
        final(world).wf(),
        final(world)@ == motion_world(old(world)@),
        // In range, the new position is the old one plus the velocity.
        forall|i: int|
            0 <= i < old(world)@.len() && (#[trigger] old(world)@[i] matches Some(c) && c.ball is Some
                && c.position is Some && c.velocity is Some
                && in_range(c.position.unwrap().0.x + c.velocity.unwrap().0.x)
                && in_range(c.position.unwrap().0.y + c.velocity.unwrap().0.y)) ==> final(world)@[i].unwrap().position.unwrap().0.x
                == old(world)@[i].unwrap().position.unwrap().0.x + old(world)@[i].unwrap().velocity.unwrap().0.x
                && final(world)@[i].unwrap().position.unwrap().0.y == old(world)@[i].unwrap().position.unwrap().0.y
                + old(world)@[i].unwrap().velocity.unwrap().0.y,
{
    let ghost s0 = world@;
    let n = world.len();
    for i in 0..n
        invariant
            n == s0.len(),
            s0 == old(world)@,
            slots_ok(s0),
            world@.len() == n,
            forall|k: int| 0 <= k < i ==> #[trigger] world@[k] == moved(s0[k]),
            forall|k: int| i <= k < n ==> #[trigger] world@[k] == s0[k],
    {
        assert(slot_ok(s0[i as int]));
        match world.slot(i) {
            Some(c) => {
                if c.ball.is_some() && c.position.is_some() && c.velocity.is_some() {
                    let p = c.position.unwrap().0;
                    let v = c.velocity.unwrap().0;
                    let x = clamp_coord_exec(p.x as i128 + v.x as i128);
                    let y = clamp_coord_exec(p.y as i128 + v.y as i128);
                    world.set_slot(i, Some(Components { position: Some(Position(Vec2 { x, y })), ..c }));
                }
            },
            None => {},
        }
    }
    assert(world@ =~= motion_world(s0));
    assert forall|k: int| 0 <= k < world@.len() implies #[trigger] slot_ok(world@[k]) by {
        assert(slot_ok(s0[k]));
    }
}

/// A request to put a ball, or every ball, back on its paddle.
#[derive(Clone, Copy, Debug, PartialEq, Eq, Structural)]
pub struct BallResetEvent {
    pub target: Option<Entity>,
}

/// The owner of ball `c` if it is still a player with a position.
pub open spec fn owner_paddle(s: Seq<Slot>, c: Components) -> Option<Components> {
    match lookup(s, c.ball.unwrap().owner) {
        Some(o) => if o.position is Some && o.player is Some { Some(o) } else { None },
        None => None,
    }
}

/// Ball `c` put back on the paddle at `player_position`: resting, still, and
/// of the default radius.
pub open spec fn reset_components(c: Components, player_position: Position, screen: ScreenInfo) -> Components {
    Components {
        position: Some(Position(Vec2 { x: player_position.0.x, y: pin_y(screen.height) as i64 })),
        velocity: Some(Velocity(Vec2 { x: 0, y: 0 })),
        ball: Some(Ball { radius: BALL_RADIUS, active: false, ..c.ball.unwrap() }),
        ..c
    }
}

/// A ball whose owner is gone restarts from the origin, falling.
pub open spec fn orphan_components(c: Components) -> Components {
    Components { position: Some(Position(Vec2 { x: 0, y: 0 })), velocity: Some(Velocity(Vec2 { x: 0, y: 10 })), ..c }
}

/// What a reset does to slot `i`.
pub open spec fn reset_slot(s: Seq<Slot>, i: int, screen: ScreenInfo) -> Slot {
    if is_ball(s[i]) {
        let c = s[i].unwrap();
        match owner_paddle(s, c) {
            Some(o) => Some(reset_components(c, o.position.unwrap(), screen)),
            None => Some(orphan_components(c)),
        }
    } else {
        s[i]
    }
}

/// The store after one reset event: its target only, or every ball.
pub open spec fn apply_reset(s: Seq<Slot>, ev: BallResetEvent, screen: ScreenInfo) -> Seq<Slot> {
    match ev.target {
        Some(e) => if e.0 < s.len() {
            s.update(e.0 as int, reset_slot(s, e.0 as int, screen))
        } else {
            s
        },
        None => Seq::new(s.len(), |i: int| reset_slot(s, i, screen)),
    }
}

/// The store after the first `n` events, applied in order.
pub open spec fn resets_upto(s: Seq<Slot>, evs: Seq<BallResetEvent>, n: int, screen: ScreenInfo) -> Seq<Slot>
    decreases n,
{
    if n <= 0 {
        s
    } else {
        apply_reset(resets_upto(s, evs, n - 1, screen), evs[n - 1], screen)
    }
}

/// Puts the ball at `i` back on its owner's paddle, or drops it from the
/// origin if the owner is gone. The result is `reset_slot` of the store as
/// it was before.
fn reset_ball(world: &mut World, i: usize, screen: &ScreenInfo)
    requires
        old(world).wf(),
        screen.wf(),
        i < old(world)@.len(),
    ensures
        final(world)@ == old(world)@.update(i as int, reset_slot(old(world)@, i as int, *screen)),
        final(world).wf(),
{
    let ghost s = world@;
    assert(slot_ok(s[i as int]));
    match world.slot(i) {
        Some(c) => {
            if c.ball.is_some() && c.position.is_some() && c.velocity.is_some() && c.player.is_none()
                && c.brick.is_none() {
                let b = c.ball.unwrap();
                let owner = world.get(b.owner);
                let paddle = match owner {
                    Some(o) => if o.position.is_some() && o.player.is_some() {
                        o.position
                    } else {
                        None
                    },
                    None => None,
                };
                match paddle {
                    Some(pp) => {
                        proof {
                            assert(slot_ok(s[b.owner.0 as int]));
                        }
                        world.set_slot(
                            i,
                            Some(Components {
                                position: Some(Position(Vec2 { x: pp.0.x, y: pin_y_exec(screen) })),
                                velocity: Some(Velocity(Vec2 { x: 0, y: 0 })),
                                ball: Some(Ball { radius: BALL_RADIUS, active: false, ..b }),
                                ..c
                            }),
                        );
                    },
                    None => {
                        world.set_slot(
                            i,
                            Some(Components {
                                position: Some(Position(Vec2 { x: 0, y: 0 })),
                                velocity: Some(Velocity(Vec2 { x: 0, y: 10 })),
                                ..c
                            }),
                        );
                    },
                }
            }
        },
        None => {},
    }
    assert(world@ =~= s.update(i as int, reset_slot(s, i as int, *screen)));
    assert forall|k: int| 0 <= k < world@.len() implies #[trigger] slot_ok(world@[k]) by {
        assert(slot_ok(s[k]));
    }
}

/// Reset of one slot does not change what another slot's reset reads: the
/// owner of a ball is never itself a resettable ball.
proof fn lemma_reset_frame(s: Seq<Slot>, t: Seq<Slot>, i: int, screen: ScreenInfo)
    requires
        s.len() == t.len(),
        0 <= i < s.len(),
        t[i] == s[i],
        forall|k: int| 0 <= k < s.len() && !is_ball(#[trigger] s[k]) ==> t[k] == s[k],
        forall|k: int| 0 <= k < s.len() && is_ball(#[trigger] s[k]) ==> is_ball(t[k]),
    ensures
        reset_slot(t, i, screen) == reset_slot(s, i, screen),
{
    if is_ball(s[i]) {
        let c = s[i].unwrap();
        let o = c.ball.unwrap().owner;
        if o.0 < s.len() {
            if !is_ball(s[o.0 as int]) {
                assert(t[o.0 as int] == s[o.0 as int]);
            }
        }
    }
}

/// Applies every queued reset event in order and empties the queue.
pub fn ball_reset_event(world: &mut World, events: &mut Vec<BallResetEvent>, screen: &ScreenInfo)
    requires
        old(world).wf(),
        screen.wf(),
    ensures
        final(world).wf(),
        final(world)@ == resets_upto(old(world)@, old(events)@, old(events)@.len() as int, *screen),
        final(events)@.len() == 0,
{
    let ghost evs = events@;
    let m = events.len();
    for e in 0..m
        invariant
            m == evs.len(),
            events@ == evs,
            screen.wf(),
            world.wf(),
            world@ == resets_upto(old(world)@, evs, e as int, *screen),
    {
        let ghost s = world@;
        let ev = events[e];
        match ev.target {
            Some(t) => {
                if t.0 < world.len() {
                    reset_ball(world, t.0, screen);
                }
            },
            None => {
                let n = world.len();
                for i in 0..n
                    invariant
                        n == s.len(),
                        world@.len() == n,
                        world.wf(),
                        screen.wf(),
                        forall|k: int| 0 <= k < i ==> #[trigger] world@[k] == reset_slot(s, k, *screen),
                        forall|k: int| i <= k < n ==> #[trigger] world@[k] == s[k],
                {
                    proof {
                        assert forall|k: int| 0 <= k < n && !is_ball(#[trigger] s[k]) implies world@[k] == s[k] by {}
                        assert forall|k: int| 0 <= k < n && is_ball(#[trigger] s[k]) implies is_ball(world@[k]) by {}
                        lemma_reset_frame(s, world@, i as int, *screen);
                    }
                    reset_ball(world, i, screen);
                }
                assert(world@ =~= apply_reset(s, ev, *screen));
            },
        }
    }
    events.clear();
}


/// Whether slot `s` is a ball that belongs to the entity at index `p`.
pub open spec fn owned_by(s: Slot, p: int) -> bool {
    s matches Some(c) && c.ball is Some && c.player is None && c.ball.unwrap().owner.0 == p
}

/// Whether the entity at `p` is a player with a position that owns no ball.
pub open spec fn needs_ball(s: Seq<Slot>, p: int) -> bool {
    &&& 0 <= p < s.len()
    &&& s[p] matches Some(c) && c.player is Some && c.position is Some
    &&& forall|k: int| 0 <= k < s.len() ==> !owned_by(#[trigger] s[k], p)
}

/// One life less, unless the count is already at its smallest value.
pub open spec fn dec_life(l: i32) -> i32 {
    if l > i32::MIN {
        (l - 1) as i32
    } else {
        l
    }
}

/// The new ball given to the player at `p`.
pub open spec fn fresh_ball(s: Seq<Slot>, p: int, screen: ScreenInfo) -> Components {
    let c = s[p].unwrap();
    Components {
        position: Some(Position(Vec2 { x: c.position.unwrap().0.x, y: pin_y(screen.height) as i64 })),
        velocity: Some(Velocity(Vec2 { x: 0, y: 0 })),
        size: None,
        color: Some(Colored(c.player.unwrap().ball_color)),
        ball: Some(Ball { radius: BALL_RADIUS, active: false, owner: Entity(p as usize) }),
        brick: None,
        player: None,
        controls: None,
    }
}

/// The player at `p` after paying a life for a new ball.
pub open spec fn charged(c: Components) -> Components {
    let pl = c.player.unwrap();
    Components { player: Some(crate::entities::Player { life: dec_life(pl.life), ..pl }), ..c }
}

/// The balls spawned for the players at indices `0 .. m`, in order.
pub open spec fn spawned(s: Seq<Slot>, m: int, screen: ScreenInfo) -> Seq<Slot>
    decreases m,
{
    if m <= 0 {
        Seq::empty()
    } else {
        spawned(s, m - 1, screen) + (if needs_ball(s, m - 1) {
            seq![Some(fresh_ball(s, m - 1, screen))]
        } else {
            Seq::empty()
        })
    }
}

/// Ball respawn: each player that owns no ball pays a life, and a new
/// resting ball is spawned for it after the existing entities.
pub open spec fn respawn_world(s: Seq<Slot>, screen: ScreenInfo) -> Seq<Slot> {
    Seq::new(s.len(), |i: int| if needs_ball(s, i) { Some(charged(s[i].unwrap())) } else { s[i] })
        + spawned(s, s.len() as int, screen)
}

/// Whether some slot before `n` holds a ball of the entity at `p`.
fn owns_ball(world: &World, p: usize, n: usize) -> (r: bool)
    requires
        n <= world@.len(),
    ensures
        r == exists|k: int| 0 <= k < n && owned_by(#[trigger] world@[k], p as int),
{
    for k in 0..n
        invariant
            n <= world@.len(),
            forall|j: int| 0 <= j < k ==> !owned_by(#[trigger] world@[j], p as int),
    {
        match world.slot(k) {
            Some(c) => {
                if c.ball.is_some() && c.player.is_none() && c.ball.unwrap().owner.0 == p {
                    return true;
                }
            },
            None => {},
        }
    }
    false
}

/// Ball respawn: every player with a position that owns no ball gets a new
/// resting ball and loses a life.
pub fn ball_respawning(world: &mut World, screen: &ScreenInfo)
    requires
        old(world).wf(),
        screen.wf(),
    ensures
        final(world).wf(),
        final(world)@ == respawn_world(old(world)@, *screen),
{
    let ghost s0 = world@;
    let n = world.len();
    for i in 0..n
        invariant
            n == s0.len(),
            s0 == old(world)@,
            slots_ok(s0),
            screen.wf(),
            world.wf(),
            world@.len() == n + spawned(s0, i as int, *screen).len(),
            forall|k: int| 0 <= k < i ==> #[trigger] world@[k] == (if needs_ball(s0, k) { Some(charged(s0[k].unwrap())) } else { s0[k] }),
            forall|k: int| i <= k < n ==> #[trigger] world@[k] == s0[k],
            world@.subrange(n as int, world@.len() as int) == spawned(s0, i as int, *screen),
    {
        let ghost w = world@;
        assert(slot_ok(s0[i as int]));
        match world.slot(i) {
            Some(c) => {
                if c.player.is_some() && c.position.is_some() {
                    let owns = owns_ball(world, i, n);
                    proof {
                        assert forall|k: int| 0 <= k < n implies owned_by(#[trigger] w[k], i as int) == owned_by(s0[k], i as int) by {}
                        if owns {
                            let k = choose|k: int| 0 <= k < n && owned_by(#[trigger] w[k], i as int);
                            assert(owned_by(s0[k], i as int));
                            assert(!needs_ball(s0, i as int));
                        } else {
                            assert forall|k: int| 0 <= k < s0.len() implies !owned_by(#[trigger] s0[k], i as int) by {
                                assert(owned_by(w[k], i as int) == owned_by(s0[k], i as int));
                                assert(!(0 <= k < n && owned_by(w[k], i as int)));
                            }
                            assert(needs_ball(s0, i as int));
                        }
                    }
                    if !owns {
                        let pl = c.player.unwrap();
                        let life = if pl.life > i32::MIN {
                            pl.life - 1
                        } else {
                            pl.life
                        };
                        world.set_slot(i, Some(Components { player: Some(crate::entities::Player { life, ..pl }), ..c }));
                        let bundle = BallBundle::new(Entity(i), pl.ball_color, &c.position.unwrap(), screen);
                        world.spawn(bundle.into_components());
                    }
                }
            },
            None => {},
        }
        proof {
            if !(s0[i as int] matches Some(c) && c.player is Some && c.position is Some) {
                assert(!needs_ball(s0, i as int));
            }
        }
        assert(world@[i as int] == (if needs_ball(s0, i as int) { Some(charged(s0[i as int].unwrap())) } else { s0[i as int] }));
        assert(spawned(s0, i + 1, *screen) == spawned(s0, i as int, *screen) + (if needs_ball(s0, i as int) {
            seq![Some(fresh_ball(s0, i as int, *screen))]
        } else {
            Seq::empty()
        }));
        assert(world@.subrange(n as int, world@.len() as int) =~= spawned(s0, i + 1, *screen));
        assert forall|k: int| 0 <= k < world@.len() implies #[trigger] slot_ok(world@[k]) by {
            if k < n {
                assert(slot_ok(s0[k]));
            } else if k < w.len() {
                assert(slot_ok(w[k]));
            }
        }
    }
    assert(world@ =~= respawn_world(s0, *screen)) by {
        assert(world@ =~= world@.subrange(0, n as int) + world@.subrange(n as int, world@.len() as int));
    }
}

} // verus!
