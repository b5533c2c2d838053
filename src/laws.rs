use vstd::prelude::*;
use crate::ball::{
    BallResetEvent, apply_reset, charged, motion_world, needs_ball, owned_by, owner_paddle,
    resets_upto, respawn_world, spawned,
};
use crate::collisions::{border_world, brick_step, bricks_upto, fell, paddle_world, score_owner};
use crate::components::{Position, Vec2, Velocity};
use crate::entities::{BALL_RADIUS, ScreenInfo, pin_y};
use crate::game::tick_world;
use crate::input::KeyEntry;
use crate::player::{death_world, movement_world, retention_world};
use crate::store::{Slot, ball_of, is_ball, is_brick};

verus! {

proof fn lemma_score_owner_frame(s: Seq<Slot>, owner: crate::store::Entity, k: int)
    ensures
        score_owner(s, owner).len() == s.len(),
        0 <= k < s.len() && s[k] is None ==> score_owner(s, owner)[k] is None,
        0 <= k < s.len() && is_brick(s[k]) ==> is_brick(score_owner(s, owner)[k]),
{
}

proof fn lemma_brick_step_len(s: Seq<Slot>, i: int)
    ensures
        brick_step(s, i).0.len() == s.len(),
        forall|k: int| 0 <= k < s.len() && s[k] is None ==> (#[trigger] brick_step(s, i).0[k]) is None,
{
    if 0 <= i < s.len() && is_ball(s[i]) && ball_of(s[i]).active {
        let b = s[i].unwrap();
        crate::collisions::lemma_first_brick_hit(s, b, 0);
        if let Some((j, side)) = crate::collisions::first_brick_hit(s, b, 0) {
            let b2 = crate::store::Components {
                velocity: Some(Velocity(crate::collisions::reflect(b.velocity.unwrap().0, side))),
                ..b
            };
            let s1 = s.update(i, Some(b2));
            assert forall|k: int| 0 <= k < s.len() && s[k] is None implies (#[trigger] brick_step(s, i).0[k]) is None by {
                lemma_score_owner_frame(s1, b.ball.unwrap().owner, k);
            }
            lemma_score_owner_frame(s1, b.ball.unwrap().owner, 0);
        }
    }
}

proof fn lemma_bricks_keep_none(s: Seq<Slot>, n: int, i: int)
    requires
        0 <= i < s.len(),
        s[i] is None,
    ensures
        bricks_upto(s, n).0.len() == s.len(),
        bricks_upto(s, n).0[i] is None,
    decreases n,
{
    if n > 0 {
        lemma_bricks_keep_none(s, n - 1, i);
        lemma_brick_step_len(bricks_upto(s, n - 1).0, n - 1);
    }
}

proof fn lemma_resets_keep_none(s: Seq<Slot>, evs: Seq<BallResetEvent>, n: int, screen: ScreenInfo, i: int)
    requires
        0 <= i < s.len(),
        s[i] is None,
    ensures
        resets_upto(s, evs, n, screen).len() == s.len(),
        resets_upto(s, evs, n, screen)[i] is None,
    decreases n,
{
    if n > 0 {
        lemma_resets_keep_none(s, evs, n - 1, screen, i);
    }
}

/// A ball that is below the bottom border when border collision runs is no
/// longer in the store at the end of that tick, whatever else happens in it.
pub proof fn fallen_ball_is_gone(
    s: Seq<Slot>,
    input: Seq<KeyEntry>,
    screen: ScreenInfo,
    evs: Seq<BallResetEvent>,
    i: int,
)
    requires
        0 <= i < s.len(),
        is_ball(retention_world(motion_world(s), input, screen)[i]),
        fell(retention_world(motion_world(s), input, screen)[i].unwrap(), screen),
    ensures
        tick_world(s, input, screen, evs)[i] is None,
{
    let s1 = motion_world(s);
    let s2 = retention_world(s1, input, screen);
    let s3 = border_world(s2, screen);
    assert(s3[i] is None);
    lemma_bricks_keep_none(s3, s3.len() as int, i);
    let s4 = bricks_upto(s3, s3.len() as int).0;
    let s5 = death_world(s4);
    let s6 = paddle_world(s5);
    let s7 = movement_world(s6, input, screen);
    let s8 = respawn_world(s7, screen);
    assert(s5[i] is None);
    assert(s6[i] is None);
    assert(s7[i] is None);
    assert(s8[i] is None);
    lemma_resets_keep_none(s8, evs, evs.len() as int, screen, i);
}

/// Brick collision takes at most one brick away for each ball, and emits at
/// most one cue for it.
pub proof fn one_brick_per_ball(s: Seq<Slot>, i: int, j1: int, j2: int)
    requires
        0 <= j1 < s.len(),
        0 <= j2 < s.len(),
        is_brick(s[j1]),
        is_brick(s[j2]),
        brick_step(s, i).0[j1] is None,
        brick_step(s, i).0[j2] is None,
    ensures
        j1 == j2,
        brick_step(s, i).1.len() <= 1,
{
    if 0 <= i < s.len() && is_ball(s[i]) && ball_of(s[i]).active {
        let b = s[i].unwrap();
        crate::collisions::lemma_first_brick_hit(s, b, 0);
        if let Some((j, side)) = crate::collisions::first_brick_hit(s, b, 0) {
            let b2 = crate::store::Components {
                velocity: Some(Velocity(crate::collisions::reflect(b.velocity.unwrap().0, side))),
                ..b
            };
            let s1 = s.update(i, Some(b2));
            lemma_score_owner_frame(s1, b.ball.unwrap().owner, j1);
            lemma_score_owner_frame(s1, b.ball.unwrap().owner, j2);
            if j1 != j {
                assert(is_brick(s1[j1]));
            }
            if j2 != j {
                assert(is_brick(s1[j2]));
            }
        }
    }
}

/// What the balls spawned for the players before `m` are: resting balls of
/// players that needed one, exactly one for each such player.
proof fn lemma_spawned(s: Seq<Slot>, m: int, screen: ScreenInfo)
    requires
        0 <= m <= s.len(),
        s.len() <= usize::MAX,
    ensures
        forall|k: int| 0 <= k < spawned(s, m, screen).len() ==> {
            let t = #[trigger] spawned(s, m, screen)[k];
            &&& t matches Some(c) && c.ball is Some && c.player is None
            &&& !t.unwrap().ball.unwrap().active
            &&& t.unwrap().ball.unwrap().owner.0 < m
            &&& needs_ball(s, t.unwrap().ball.unwrap().owner.0 as int)
        },
        forall|p: int| 0 <= p < m && needs_ball(s, p) ==> exists|k: int| {
            &&& 0 <= k < spawned(s, m, screen).len()
            &&& owned_by(#[trigger] spawned(s, m, screen)[k], p)
            &&& forall|k2: int| 0 <= k2 < spawned(s, m, screen).len() && owned_by(#[trigger] spawned(s, m, screen)[k2], p) ==> k2 == k
        },
    decreases m,
{
    if m > 0 {
        lemma_spawned(s, m - 1, screen);
        let prev = spawned(s, m - 1, screen);
        let cur = spawned(s, m, screen);
        assert forall|p: int| 0 <= p < m && needs_ball(s, p) implies exists|k: int| {
            &&& 0 <= k < cur.len()
            &&& owned_by(#[trigger] cur[k], p)
            &&& forall|k2: int| 0 <= k2 < cur.len() && owned_by(#[trigger] cur[k2], p) ==> k2 == k
        } by {
            if p < m - 1 {
                let k = choose|k: int| {
                    &&& 0 <= k < prev.len()
                    &&& owned_by(#[trigger] prev[k], p)
                    &&& forall|k2: int| 0 <= k2 < prev.len() && owned_by(#[trigger] prev[k2], p) ==> k2 == k
                };
                assert(cur[k] == prev[k]);
                assert forall|k2: int| 0 <= k2 < cur.len() && owned_by(#[trigger] cur[k2], p) implies k2 == k by {
                    if k2 < prev.len() {
                        assert(cur[k2] == prev[k2]);
                    }
                }
            } else {
                let k = prev.len() as int;
                assert(cur[k] == Some(crate::ball::fresh_ball(s, p, screen)));
                assert forall|k2: int| 0 <= k2 < cur.len() && owned_by(#[trigger] cur[k2], p) implies k2 == k by {
                    if k2 < prev.len() {
                        assert(cur[k2] == prev[k2]);
                    }
                }
            }
        }
    }
}

/// A player with a position that owns no ball owns exactly one ball after
/// ball respawn, resting on its paddle, and has one life less.
pub proof fn respawn_gives_one_ball(s: Seq<Slot>, screen: ScreenInfo, p: int)
    requires
        needs_ball(s, p),
        s.len() <= usize::MAX,
    ensures
        respawn_world(s, screen)[p] == Some(charged(s[p].unwrap())),
        s[p].unwrap().player.unwrap().life > i32::MIN ==> respawn_world(s, screen)[p].unwrap().player.unwrap().life
            == s[p].unwrap().player.unwrap().life - 1,
        exists|k: int| {
            &&& 0 <= k < respawn_world(s, screen).len()
            &&& owned_by(#[trigger] respawn_world(s, screen)[k], p)
            &&& !ball_of(respawn_world(s, screen)[k]).active
            &&& forall|k2: int| 0 <= k2 < respawn_world(s, screen).len() && owned_by(#[trigger] respawn_world(s, screen)[k2], p) ==> k2 == k
        },
{
    let n = s.len() as int;
    let r = respawn_world(s, screen);
    let sp = spawned(s, n, screen);
    lemma_spawned(s, n, screen);
    let j = choose|k: int| {
        &&& 0 <= k < sp.len()
        &&& owned_by(#[trigger] sp[k], p)
        &&& forall|k2: int| 0 <= k2 < sp.len() && owned_by(#[trigger] sp[k2], p) ==> k2 == k
    };
    assert(r[n + j] == sp[j]);
    assert forall|k2: int| 0 <= k2 < r.len() && owned_by(#[trigger] r[k2], p) implies k2 == n + j by {
        if k2 < n {
            if !needs_ball(s, k2) {
                assert(r[k2] == s[k2]);
            }
        } else {
            assert(r[k2] == sp[k2 - n]);
        }
    }
}

/// A reset of every ball puts each ball whose owner still has a paddle back
/// on it, resting, still and of the default radius; a ball whose owner is
/// gone restarts from the origin, falling. Nothing else changes.
pub proof fn reset_all_balls(s: Seq<Slot>, screen: ScreenInfo, i: int)
    requires
        0 <= i < s.len(),
    ensures
        apply_reset(s, BallResetEvent { target: None }, screen).len() == s.len(),
        !is_ball(s[i]) ==> apply_reset(s, BallResetEvent { target: None }, screen)[i] == s[i],
        is_ball(s[i]) && owner_paddle(s, s[i].unwrap()) is Some ==> {
            let c = apply_reset(s, BallResetEvent { target: None }, screen)[i].unwrap();
            &&& !c.ball.unwrap().active
            &&& c.ball.unwrap().radius == BALL_RADIUS
            &&& c.velocity == Some(Velocity(Vec2 { x: 0, y: 0 }))
            &&& c.position == Some(Position(Vec2 {
                x: owner_paddle(s, s[i].unwrap()).unwrap().position.unwrap().0.x,
                y: pin_y(screen.height) as i64,
            }))
        },
        is_ball(s[i]) && owner_paddle(s, s[i].unwrap()) is None ==> {
            let c = apply_reset(s, BallResetEvent { target: None }, screen)[i].unwrap();
            &&& c.position == Some(Position(Vec2 { x: 0, y: 0 }))
            &&& c.velocity == Some(Velocity(Vec2 { x: 0, y: 10 }))
        },
{
}

/// A reset of one ball changes no other slot.
pub proof fn reset_target_only(s: Seq<Slot>, screen: ScreenInfo, t: crate::store::Entity, k: int)
    requires
        0 <= k < s.len(),
        k != t.0,
    ensures
        apply_reset(s, BallResetEvent { target: Some(t) }, screen).len() == s.len(),
        apply_reset(s, BallResetEvent { target: Some(t) }, screen)[k] == s[k],
{
}

} // verus!
