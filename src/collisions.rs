use vstd::prelude::*;
use crate::audio::AudioEvent;
use crate::components::{RADIUS_LIMIT, Vec2, Velocity, size_ok, vec_ok};
use crate::entities::ScreenInfo;
use crate::store::{Components, Entity, Slot, World, ball_of, components_ok, is_ball, is_brick, is_paddle, lookup, slot_ok, slots_ok};
use crate::components::{COORD_LIMIT, clamp_coord, clamp_coord_exec};

verus! {

/// The side of a brick that a ball hits.
#[derive(Clone, Copy, Debug, PartialEq, Eq, Structural)]
pub enum BrickSide {
    Below,
    Above,
    Left,
    Right,
}

pub open spec fn abs(v: int) -> int {
    if v < 0 {
        -v
    } else {
        v
    }
}

/// Which side of the brick centered at `kp` with size `ks` the ball at `bp`
/// with velocity `bv` and radius `r` hits, tested below, above, left, right
/// in that order.
///
/// A side is hit when the ball's edge is at or before the brick's edge and
/// would pass it once the velocity is applied, the ball moves towards it,
/// and on the other axis the centers are closer than half the brick plus
/// two thirds of the radius. Every quantity is scaled so that halves and
/// thirds stay integers.
pub open spec fn brick_hit(bp: Vec2, bv: Vec2, r: int, kp: Vec2, ks: Vec2) -> Option<BrickSide> {
    let near_x = 6 * abs(bp.x - kp.x) < 3 * ks.x + 4 * r;
    let near_y = 6 * abs(bp.y - kp.y) < 3 * ks.y + 4 * r;
    if 2 * (bp.y - r) <= 2 * kp.y + ks.y && 2 * (bp.y - r) > 2 * kp.y + ks.y + 2 * bv.y && near_x
        && bv.y < 0 {
        Some(BrickSide::Below)
    } else if 2 * (bp.y + r) >= 2 * kp.y - ks.y && 2 * (bp.y + r) < 2 * kp.y - ks.y + 2 * bv.y
        && near_x && bv.y > 0 {
        Some(BrickSide::Above)
    } else if 2 * (bp.x + r) >= 2 * kp.x - ks.x && 2 * (bp.x + r) < 2 * kp.x - ks.x + 2 * bv.x
        && near_y && bv.x > 0 {
        Some(BrickSide::Left)
    } else if 2 * (bp.x - r) <= 2 * kp.x + ks.x && 2 * (bp.x - r) > 2 * kp.x + ks.x + 2 * bv.x
        && near_y && bv.x < 0 {
        Some(BrickSide::Right)
    } else {
        None
    }
}

fn abs_exec(v: i64) -> (r: i64)
    requires
        v > i64::MIN,
    ensures
        r == abs(v as int),
{
    if v < 0 {
        -v
    } else {
        v
    }
}

fn brick_hit_exec(bp: Vec2, bv: Vec2, r: i32, kp: Vec2, ks: Vec2) -> (side: Option<BrickSide>)
    requires
        vec_ok(bp),
        vec_ok(bv),
        vec_ok(kp),
        size_ok(ks),
        0 < r <= RADIUS_LIMIT,
    ensures
        side == brick_hit(bp, bv, r as int, kp, ks),
{
    let r = r as i64;
    let near_x = 6 * abs_exec(bp.x - kp.x) < 3 * ks.x + 4 * r;
    let near_y = 6 * abs_exec(bp.y - kp.y) < 3 * ks.y + 4 * r;
    if 2 * (bp.y - r) <= 2 * kp.y + ks.y && 2 * (bp.y - r) > 2 * kp.y + ks.y + 2 * bv.y && near_x
        && bv.y < 0 {
        Some(BrickSide::Below)
    } else if 2 * (bp.y + r) >= 2 * kp.y - ks.y && 2 * (bp.y + r) < 2 * kp.y - ks.y + 2 * bv.y
        && near_x && bv.y > 0 {
        Some(BrickSide::Above)
    } else if 2 * (bp.x + r) >= 2 * kp.x - ks.x && 2 * (bp.x + r) < 2 * kp.x - ks.x + 2 * bv.x
        && near_y && bv.x > 0 {
        Some(BrickSide::Left)
    } else if 2 * (bp.x - r) <= 2 * kp.x + ks.x && 2 * (bp.x - r) > 2 * kp.x + ks.x + 2 * bv.x
        && near_y && bv.x < 0 {
        Some(BrickSide::Right)
    } else {
        None
    }
}

/// The side of brick slot `k` that ball `b` hits, if `k` is a brick.
pub open spec fn slot_hit(b: Components, k: Slot) -> Option<BrickSide> {
    if is_brick(k) {
        brick_hit(
            b.position.unwrap().0,
            b.velocity.unwrap().0,
            b.ball.unwrap().radius as int,
            k.unwrap().position.unwrap().0,
            k.unwrap().size.unwrap().0,
        )
    } else {
        None
    }
}

/// The first brick at index `j` or later that ball `b` hits, with the side.
pub open spec fn first_brick_hit(s: Seq<Slot>, b: Components, j: int) -> Option<(int, BrickSide)>
    decreases s.len() - j,
{
    if j < 0 || j >= s.len() {
        None
    } else if slot_hit(b, s[j]) is Some {
        Some((j, slot_hit(b, s[j]).unwrap()))
    } else {
        first_brick_hit(s, b, j + 1)
    }
}

/// A hit found by the search is a brick at or after the starting index.
pub proof fn lemma_first_brick_hit(s: Seq<Slot>, b: Components, j: int)
    ensures
        first_brick_hit(s, b, j) matches Some((k, side)) ==> j <= k < s.len() && is_brick(s[k])
            && slot_hit(b, s[k]) == Some(side),
    decreases s.len() - j,
{
    if 0 <= j < s.len() && slot_hit(b, s[j]) is None {
        lemma_first_brick_hit(s, b, j + 1);
    }
}

/// The velocity after bouncing off the given side.
pub open spec fn reflect(v: Vec2, side: BrickSide) -> Vec2 {
    match side {
        BrickSide::Below | BrickSide::Above => Vec2 { x: v.x, y: (-v.y) as i64 },
        BrickSide::Left | BrickSide::Right => Vec2 { x: (-v.x) as i64, y: v.y },
    }
}

/// One more point, unless the score is already at its largest value.
pub open spec fn inc_score(v: u32) -> u32 {
    if v < u32::MAX {
        (v + 1) as u32
    } else {
        v
    }
}

/// The store after a point is given to player `owner`; unchanged if there is
/// no such player.
pub open spec fn score_owner(s: Seq<Slot>, owner: Entity) -> Seq<Slot> {
    match lookup(s, owner) {
        Some(c) => if c.player is Some && c.brick is None {
            let p = c.player.unwrap();
            s.update(
                owner.0 as int,
                Some(Components { player: Some(crate::entities::Player { score: inc_score(p.score), ..p }), ..c }),
            )
        } else {
            s
        },
        None => s,
    }
}

/// What brick collision does for the entity at index `i`: an active ball
/// bounces off the first brick it hits, that brick is removed, its owner
/// scores a point, and a `Destroyed` cue is emitted. Nothing else happens.
pub open spec fn brick_step(s: Seq<Slot>, i: int) -> (Seq<Slot>, Seq<AudioEvent>) {
    if 0 <= i < s.len() && is_ball(s[i]) && ball_of(s[i]).active {
        let b = s[i].unwrap();
        match first_brick_hit(s, b, 0) {
            Some((j, side)) => {
                let b2 = Components { velocity: Some(Velocity(reflect(b.velocity.unwrap().0, side))), ..b };
                let s1 = s.update(i, Some(b2));
                let s2 = score_owner(s1, b.ball.unwrap().owner);
                (s2.update(j, None), seq![AudioEvent::Destroyed])
            },
            None => (s, Seq::empty()),
        }
    } else {
        (s, Seq::empty())
    }
}

/// Brick collision applied to the entities at indices `0 .. n`, in order:
/// the store and the cues emitted.
pub open spec fn bricks_upto(s: Seq<Slot>, n: int) -> (Seq<Slot>, Seq<AudioEvent>)
    decreases n,
{
    if n <= 0 {
        (s, Seq::empty())
    } else {
        let prev = bricks_upto(s, n - 1);
        let next = brick_step(prev.0, n - 1);
        (next.0, prev.1 + next.1)
    }
}

/// The first brick that `ball` hits, searched from index `j`.
fn find_brick_hit(world: &World, ball: &Components, j: usize) -> (r: Option<(usize, BrickSide)>)
    requires
        world.wf(),
        is_ball(Some(*ball)),
        crate::store::components_ok(*ball),
        j <= world@.len(),
    ensures
        r matches Some((k, side)) ==> first_brick_hit(world@, *ball, j as int) == Some((k as int, side)),
        r is None ==> first_brick_hit(world@, *ball, j as int) is None,
    decreases world@.len() - j,
{
    if j >= world.len() {
        return None;
    }
    let k = world.slot(j);
    assert(slots_ok(world@) ==> crate::store::slot_ok(world@[j as int]));
    let hit = match k {
        Some(kc) => {
            if kc.brick.is_some() && kc.position.is_some() && kc.size.is_some() && kc.player.is_none() {
                brick_hit_exec(
                    ball.position.unwrap().0,
                    ball.velocity.unwrap().0,
                    ball.ball.unwrap().radius,
                    kc.position.unwrap().0,
                    kc.size.unwrap().0,
                )
            } else {
                None
            }
        },
        None => None,
    };
    match hit {
        Some(side) => Some((j, side)),
        None => find_brick_hit(world, ball, j + 1),
    }
}

/// Brick collision: each active ball, in order, bounces off the first brick
/// it hits (tested in store order), destroys it, and scores a point for its
/// owner if the owner is still a player. At most one brick per ball.
pub fn collisions_ball_bricks(world: &mut World, audio: &mut Vec<AudioEvent>)
    requires
        old(world).wf(),
    ensures
        final(world).wf(),
        final(world)@ == bricks_upto(old(world)@, old(world)@.len() as int).0,
        final(audio)@ == old(audio)@ + bricks_upto(old(world)@, old(world)@.len() as int).1,
{
    let n = world.len();
    for i in 0..n
        invariant
            n == old(world)@.len(),
            world@.len() == n,
            world.wf(),
            world@ == bricks_upto(old(world)@, i as int).0,
            audio@ == old(audio)@ + bricks_upto(old(world)@, i as int).1,
    {
        let ghost s = world@;
        let ghost a = audio@;
        assert(crate::store::slot_ok(s[i as int]));
        match world.slot(i) {
            Some(b) => {
                if b.ball.is_some() && b.position.is_some() && b.velocity.is_some() && b.player.is_none()
                    && b.brick.is_none() && b.ball.unwrap().active {
                    match find_brick_hit(world, &b, 0) {
                        Some((j, side)) => {
                            proof {
                                lemma_first_brick_hit(s, b, 0);
                            }
                            let v = b.velocity.unwrap().0;
                            let v2 = match side {
                                BrickSide::Below | BrickSide::Above => Vec2 { x: v.x, y: -v.y },
                                BrickSide::Left | BrickSide::Right => Vec2 { x: -v.x, y: v.y },
                            };
                            world.set_slot(i, Some(Components { velocity: Some(Velocity(v2)), ..b }));
                            audio.push(AudioEvent::Destroyed);
                            let owner = b.ball.unwrap().owner;
                            match world.get(owner) {
                                Some(oc) => {
                                    if oc.player.is_some() && oc.brick.is_none() {
                                        let p = oc.player.unwrap();
                                        let score = if p.score < u32::MAX {
                                            p.score + 1
                                        } else {
                                            p.score
                                        };
                                        let p2 = crate::entities::Player { score, ..p };
                                        world.set_slot(owner.0, Some(Components { player: Some(p2), ..oc }));
                                    }
                                },
                                None => {},
                            }
                            world.set_slot(j, None);
                            assert(world@ =~= brick_step(s, i as int).0);
                        },
                        None => {},
                    }
                }
            },
            None => {},
        }
        assert(world@ == brick_step(s, i as int).0);
        assert(audio@ =~= a + brick_step(s, i as int).1);
        assert(slots_ok(world@)) by {
            assert forall|k: int| 0 <= k < world@.len() implies #[trigger] crate::store::slot_ok(world@[k]) by {
                assert(crate::store::slot_ok(s[k]));
            }
        }
    }
}


/// Speed scale of a ball leaving a paddle.
pub const BALL_SPEED: i64 = 10;

/// Whether an active ball touches the left or right border.
pub open spec fn hits_side(c: Components, screen: ScreenInfo) -> bool {
    let p = c.position.unwrap().0;
    let r = c.ball.unwrap().radius;
    c.ball.unwrap().active && (p.x + r >= screen.width || p.x - r <= 0)
}

/// Whether an active ball touches the top border.
pub open spec fn hits_top(c: Components) -> bool {
    c.ball.unwrap().active && c.position.unwrap().0.y - c.ball.unwrap().radius <= 0
}

/// Whether a ball has fallen below the bottom border.
pub open spec fn fell(c: Components, screen: ScreenInfo) -> bool {
    c.position.unwrap().0.y + c.ball.unwrap().radius >= screen.height
}

/// What border collision does to one slot: an active ball reverses its
/// horizontal velocity at a side border and its vertical velocity at the top;
/// any ball below the bottom border is removed.
pub open spec fn border_slot(s: Slot, screen: ScreenInfo) -> Slot {
    if is_ball(s) {
        let c = s.unwrap();
        let v = c.velocity.unwrap().0;
        if fell(c, screen) {
            None
        } else {
            let vx = if hits_side(c, screen) { -v.x } else { v.x as int };
            let vy = if hits_top(c) { -v.y } else { v.y as int };
            Some(Components { velocity: Some(Velocity(Vec2 { x: vx as i64, y: vy as i64 })), ..c })
        }
    } else {
        s
    }
}

/// The cues border collision emits for one slot: a bounce for a side and a
/// bounce for the top.
pub open spec fn border_cues(s: Slot, screen: ScreenInfo) -> Seq<AudioEvent> {
    if is_ball(s) {
        let c = s.unwrap();
        (if hits_side(c, screen) { seq![AudioEvent::Bounce] } else { Seq::empty() })
            + (if hits_top(c) { seq![AudioEvent::Bounce] } else { Seq::empty() })
    } else {
        Seq::empty()
    }
}

pub open spec fn border_world(s: Seq<Slot>, screen: ScreenInfo) -> Seq<Slot> {
    Seq::new(s.len(), |i: int| border_slot(s[i], screen))
}

/// The cues of the slots at indices `0 .. n`, in order.
pub open spec fn border_cues_upto(s: Seq<Slot>, screen: ScreenInfo, n: int) -> Seq<AudioEvent>
    decreases n,
{
    if n <= 0 {
        Seq::empty()
    } else {
        border_cues_upto(s, screen, n - 1) + border_cues(s[n - 1], screen)
    }
}

/// Border collision on every ball.
pub fn collisions_ball_borders(world: &mut World, audio: &mut Vec<AudioEvent>, screen: &ScreenInfo)
    requires
        old(world).wf(),
        screen.wf(),
    ensures
        final(world).wf(),
        final(world)@ == border_world(old(world)@, *screen),
        final(audio)@ == old(audio)@ + border_cues_upto(old(world)@, *screen, old(world)@.len() as int),
        // An active ball at the right border has its horizontal velocity
        // reversed once, and its first cue is a bounce.
        forall|i: int|
            0 <= i < old(world)@.len() && is_ball(#[trigger] old(world)@[i]) && ball_of(old(world)@[i]).active
                && old(world)@[i].unwrap().position.unwrap().0.x + ball_of(old(world)@[i]).radius >= screen.width
                && !fell(old(world)@[i].unwrap(), *screen)
                ==> final(world)@[i].unwrap().velocity.unwrap().0.x == -old(world)@[i].unwrap().velocity.unwrap().0.x
                && border_cues(old(world)@[i], *screen)[0] == AudioEvent::Bounce,
        // A ball below the bottom border is gone.
        forall|i: int|
            0 <= i < old(world)@.len() && is_ball(#[trigger] old(world)@[i]) && fell(old(world)@[i].unwrap(), *screen)
                ==> final(world)@[i] is None,
{
    let ghost s0 = world@;
    let n = world.len();
    for i in 0..n
        invariant
            n == s0.len(),
            s0 == old(world)@,
            slots_ok(s0),
            screen.wf(),
            world@.len() == n,
            forall|k: int| 0 <= k < i ==> #[trigger] world@[k] == border_slot(s0[k], *screen),
            forall|k: int| i <= k < n ==> #[trigger] world@[k] == s0[k],
            audio@ == old(audio)@ + border_cues_upto(s0, *screen, i as int),
    {
        let ghost a = audio@;
        assert(slot_ok(s0[i as int]));
        match world.slot(i) {
            Some(c) => {
                if c.ball.is_some() && c.position.is_some() && c.velocity.is_some() && c.player.is_none()
                    && c.brick.is_none() {
                    let b = c.ball.unwrap();
                    let p = c.position.unwrap().0;
                    let v = c.velocity.unwrap().0;
                    let r = b.radius as i64;
                    let mut vx = v.x;
                    let mut vy = v.y;
                    if b.active && (p.x + r >= screen.width || p.x - r <= 0) {
                        vx = -vx;
                        audio.push(AudioEvent::Bounce);
                    }
                    if b.active && p.y - r <= 0 {
                        vy = -vy;
                        audio.push(AudioEvent::Bounce);
                    }
                    if p.y + r >= screen.height {
                        world.set_slot(i, None);
                    } else {
                        world.set_slot(i, Some(Components { velocity: Some(Velocity(Vec2 { x: vx, y: vy })), ..c }));
                    }
                }
            },
            None => {},
        }
        assert(world@[i as int] == border_slot(s0[i as int], *screen));
        assert(audio@ =~= a + border_cues(s0[i as int], *screen));
    }
    assert(world@ =~= border_world(s0, *screen));
    assert forall|i: int|
        0 <= i < s0.len() && is_ball(#[trigger] s0[i]) && ball_of(s0[i]).active
            && s0[i].unwrap().position.unwrap().0.x + ball_of(s0[i]).radius >= screen.width
            && !fell(s0[i].unwrap(), *screen)
            implies world@[i].unwrap().velocity.unwrap().0.x == -s0[i].unwrap().velocity.unwrap().0.x
            && border_cues(s0[i], *screen)[0] == AudioEvent::Bounce by {
        assert(world@[i] == border_slot(s0[i], *screen));
        assert(hits_side(s0[i].unwrap(), *screen));
        let tail = if hits_top(s0[i].unwrap()) { seq![AudioEvent::Bounce] } else { Seq::<AudioEvent>::empty() };
        assert(border_cues(s0[i], *screen) == seq![AudioEvent::Bounce] + tail);
        assert((seq![AudioEvent::Bounce] + tail)[0] == AudioEvent::Bounce);
        assert(slot_ok(s0[i]));
    }
    assert forall|k: int| 0 <= k < world@.len() implies #[trigger] slot_ok(world@[k]) by {
        assert(slot_ok(s0[k]));
    }
}

/// Whether a circle touches an axis-aligned box: the box centered at `pp`
/// with full size `ps`, the circle centered at `bp` with radius `r`. This is
/// the test of raylib's `CheckCollisionCircleRec` on integer values, with
/// distances doubled so that half sizes stay integers.
pub open spec fn circle_touches_box(bp: Vec2, r: int, pp: Vec2, ps: Vec2) -> bool {
    let dx = abs(2 * bp.x - 2 * pp.x);
    let dy = abs(2 * bp.y - 2 * pp.y);
    if dx > ps.x + 2 * r || dy > ps.y + 2 * r {
        false
    } else if dx <= ps.x || dy <= ps.y {
        true
    } else {
        (dx - ps.x) * (dx - ps.x) + (dy - ps.y) * (dy - ps.y) <= 4 * r * r
    }
}

fn circle_touches_box_exec(bp: Vec2, r: i32, pp: Vec2, ps: Vec2) -> (t: bool)
    requires
        vec_ok(bp),
        vec_ok(pp),
        size_ok(ps),
        0 < r <= RADIUS_LIMIT,
    ensures
        t == circle_touches_box(bp, r as int, pp, ps),
{
    let r = r as i64;
    let dx = abs_exec(2 * bp.x - 2 * pp.x);
    let dy = abs_exec(2 * bp.y - 2 * pp.y);
    if dx > ps.x + 2 * r || dy > ps.y + 2 * r {
        false
    } else if dx <= ps.x || dy <= ps.y {
        true
    } else {
        let ex = dx - ps.x;
        let ey = dy - ps.y;
        assert(0 <= ex * ex <= 4 * r * r) by (nonlinear_arith)
            requires
                0 < ex <= 2 * r,
        ;
        assert(0 <= ey * ey <= 4 * r * r) by (nonlinear_arith)
            requires
                0 < ey <= 2 * r,
        ;
        assert(4 * r * r <= 4 * RADIUS_LIMIT * RADIUS_LIMIT) by (nonlinear_arith)
            requires
                0 < r <= RADIUS_LIMIT,
        ;
        ex * ex + ey * ey <= 4 * r * r
    }
}

/// Whether ball `b` bounces on the paddle in slot `k`: it touches the paddle
/// while moving down.
pub open spec fn paddle_hit(b: Components, k: Slot) -> bool {
    is_paddle(k) && b.velocity.unwrap().0.y > 0 && circle_touches_box(
        b.position.unwrap().0,
        b.ball.unwrap().radius as int,
        k.unwrap().position.unwrap().0,
        k.unwrap().size.unwrap().0,
    )
}

/// The first paddle at index `j` or later that ball `b` bounces on.
pub open spec fn first_paddle(s: Seq<Slot>, b: Components, j: int) -> Option<int>
    decreases s.len() - j,
{
    if j < 0 || j >= s.len() {
        None
    } else if paddle_hit(b, s[j]) {
        Some(j)
    } else {
        first_paddle(s, b, j + 1)
    }
}

/// Horizontal speed after a bounce at offset `d` from the center of a paddle
/// of width `w`: `d / (w / 2) * BALL_SPEED`, rounded towards zero.
pub open spec fn deflection(d: int, w: int) -> int {
    if d >= 0 {
        (2 * BALL_SPEED * d) / w
    } else {
        -((2 * BALL_SPEED * -d) / w)
    }
}

/// The velocity of ball `b` after bouncing on the paddle in slot `k`: the
/// vertical velocity is reversed and the horizontal one follows the offset
/// from the paddle's center. A paddle of no width leaves it unchanged.
pub open spec fn bounced(b: Components, k: Slot) -> Vec2 {
    let v = b.velocity.unwrap().0;
    let pp = k.unwrap().position.unwrap().0;
    let w = k.unwrap().size.unwrap().0.x;
    Vec2 {
        x: if w > 0 { clamp_coord(deflection(b.position.unwrap().0.x - pp.x, w as int)) as i64 } else { v.x },
        y: -v.y as i64,
    }
}

/// What paddle collision does to slot `i`: a ball bounces on the first
/// paddle it touches while moving down.
pub open spec fn paddle_slot(s: Seq<Slot>, i: int) -> Slot {
    if is_ball(s[i]) {
        let b = s[i].unwrap();
        match first_paddle(s, b, 0) {
            Some(j) => Some(Components { velocity: Some(Velocity(bounced(b, s[j]))), ..b }),
            None => s[i],
        }
    } else {
        s[i]
    }
}

/// The cue paddle collision emits for slot `i`.
pub open spec fn paddle_cues(s: Seq<Slot>, i: int) -> Seq<AudioEvent> {
    if is_ball(s[i]) && first_paddle(s, s[i].unwrap(), 0) is Some {
        seq![AudioEvent::Bounce]
    } else {
        Seq::empty()
    }
}

pub open spec fn paddle_world(s: Seq<Slot>) -> Seq<Slot> {
    Seq::new(s.len(), |i: int| paddle_slot(s, i))
}

/// The cues of the slots at indices `0 .. n`, in order.
pub open spec fn paddle_cues_upto(s: Seq<Slot>, n: int) -> Seq<AudioEvent>
    decreases n,
{
    if n <= 0 {
        Seq::empty()
    } else {
        paddle_cues_upto(s, n - 1) + paddle_cues(s, n - 1)
    }
}

/// Two stores that agree on their paddles give every ball the same paddle.
proof fn lemma_first_paddle_same(s: Seq<Slot>, t: Seq<Slot>, b: Components, j: int)
    requires
        s.len() == t.len(),
        forall|k: int| 0 <= k < s.len() ==> (is_paddle(#[trigger] s[k]) <==> is_paddle(t[k])),
        forall|k: int| 0 <= k < s.len() && is_paddle(#[trigger] s[k]) ==> s[k] == t[k],
    ensures
        first_paddle(s, b, j) == first_paddle(t, b, j),
    decreases s.len() - j,
{
    if 0 <= j < s.len() {
        lemma_first_paddle_same(s, t, b, j + 1);
    }
}

/// A paddle found by the search is one that the ball bounces on.
proof fn lemma_first_paddle(s: Seq<Slot>, b: Components, j: int)
    ensures
        first_paddle(s, b, j) matches Some(k) ==> j <= k < s.len() && paddle_hit(b, s[k]),
    decreases s.len() - j,
{
    if 0 <= j < s.len() && !paddle_hit(b, s[j]) {
        lemma_first_paddle(s, b, j + 1);
    }
}

fn find_paddle(world: &World, ball: &Components, j: usize) -> (r: Option<usize>)
    requires
        world.wf(),
        is_ball(Some(*ball)),
        components_ok(*ball),
        j <= world@.len(),
    ensures
        r matches Some(k) ==> first_paddle(world@, *ball, j as int) == Some(k as int),
        r is None ==> first_paddle(world@, *ball, j as int) is None,
    decreases world@.len() - j,
{
    if j >= world.len() {
        return None;
    }
    assert(slot_ok(world@[j as int]));
    let hit = match world.slot(j) {
        Some(kc) => kc.player.is_some() && kc.position.is_some() && kc.size.is_some()
            && ball.velocity.unwrap().0.y > 0 && circle_touches_box_exec(
            ball.position.unwrap().0,
            ball.ball.unwrap().radius,
            kc.position.unwrap().0,
            kc.size.unwrap().0,
        ),
        None => false,
    };
    if hit {
        Some(j)
    } else {
        find_paddle(world, ball, j + 1)
    }
}

fn deflection_exec(d: i64, w: i64) -> (r: i64)
    requires
        -2 * COORD_LIMIT <= d <= 2 * COORD_LIMIT,
        0 < w,
    ensures
        r == clamp_coord(deflection(d as int, w as int)),
{
    let q: i64 = if d >= 0 {
        (20 * d) / w
    } else {
        -((20 * -d) / w)
    };
    assert(-(2 * BALL_SPEED * 2 * COORD_LIMIT) <= q <= 2 * BALL_SPEED * 2 * COORD_LIMIT) by (nonlinear_arith)
        requires
            q == deflection(d as int, w as int),
            -2 * COORD_LIMIT <= d <= 2 * COORD_LIMIT,
            0 < w,
    ;
    clamp_coord_exec(q as i128)
}

/// Paddle collision: each ball moving down bounces on the first paddle it
/// touches, leaving at an angle set by where it hit, with a `Bounce` cue.
pub fn collisions_ball_player(world: &mut World, audio: &mut Vec<AudioEvent>)
    requires
        old(world).wf(),
    ensures
        final(world).wf(),
        final(world)@ == paddle_world(old(world)@),
        final(audio)@ == old(audio)@ + paddle_cues_upto(old(world)@, old(world)@.len() as int),
        // The vertical velocity only changes for a ball moving down, and then
        // it points up.
        forall|i: int|
            0 <= i < old(world)@.len() && is_ball(#[trigger] old(world)@[i])
                && final(world)@[i].unwrap().velocity.unwrap().0.y != old(world)@[i].unwrap().velocity.unwrap().0.y
                ==> old(world)@[i].unwrap().velocity.unwrap().0.y > 0 && final(world)@[i].unwrap().velocity.unwrap().0.y < 0,
{
    let ghost s0 = world@;
    let n = world.len();
    for i in 0..n
        invariant
            n == s0.len(),
            s0 == old(world)@,
            slots_ok(s0),
            world.wf(),
            world@.len() == n,
            forall|k: int| 0 <= k < i ==> #[trigger] world@[k] == paddle_slot(s0, k),
            forall|k: int| i <= k < n ==> #[trigger] world@[k] == s0[k],
            audio@ == old(audio)@ + paddle_cues_upto(s0, i as int),
    {
        let ghost a = audio@;
        assert(slot_ok(s0[i as int]));
        match world.slot(i) {
            Some(c) => {
                if c.ball.is_some() && c.position.is_some() && c.velocity.is_some() && c.player.is_none()
                    && c.brick.is_none() {
                    proof {
                        assert forall|k: int| 0 <= k < n && is_paddle(#[trigger] world@[k]) implies world@[k] == s0[k] by {
                            if k < i && is_ball(s0[k]) {
                                let b = s0[k].unwrap();
                                if first_paddle(s0, b, 0) is Some {
                                    assert(world@[k].unwrap().player is None);
                                }
                            }
                        }
                        assert forall|k: int| 0 <= k < n implies (is_paddle(#[trigger] world@[k]) <==> is_paddle(s0[k])) by {
                            if k < i && is_ball(s0[k]) {
                                let b = s0[k].unwrap();
                                if first_paddle(s0, b, 0) is Some {
                                    assert(world@[k].unwrap().player is None);
                                }
                            }
                        }
                        lemma_first_paddle_same(world@, s0, c, 0);
                        lemma_first_paddle(s0, c, 0);
                    }
                    match find_paddle(world, &c, 0) {
                        Some(j) => {
                            let k = world.slot(j).unwrap();
                            assert(slot_ok(world@[j as int]));
                            let pp = k.position.unwrap().0;
                            let w = k.size.unwrap().0.x;
                            let v = c.velocity.unwrap().0;
                            let vx = if w > 0 {
                                deflection_exec(c.position.unwrap().0.x - pp.x, w)
                            } else {
                                v.x
                            };
                            world.set_slot(i, Some(Components { velocity: Some(Velocity(Vec2 { x: vx, y: -v.y })), ..c }));
                            audio.push(AudioEvent::Bounce);
                        },
                        None => {},
                    }
                }
            },
            None => {},
        }
        assert(world@[i as int] == paddle_slot(s0, i as int));
        assert(audio@ =~= a + paddle_cues(s0, i as int));
        assert forall|k: int| 0 <= k < world@.len() implies #[trigger] slot_ok(world@[k]) by {
            assert(slot_ok(s0[k]));
            if k < i && is_ball(s0[k]) {
                let b = s0[k].unwrap();
                if let Some(j) = first_paddle(s0, b, 0) {
                    lemma_first_paddle(s0, b, 0);
                    assert(slot_ok(s0[j]));
                }
            }
        }
    }
    assert(world@ =~= paddle_world(s0));
    assert forall|i: int|
        0 <= i < s0.len() && is_ball(#[trigger] s0[i])
            && world@[i].unwrap().velocity.unwrap().0.y != s0[i].unwrap().velocity.unwrap().0.y
            implies s0[i].unwrap().velocity.unwrap().0.y > 0 && world@[i].unwrap().velocity.unwrap().0.y < 0 by {
        lemma_first_paddle(s0, s0[i].unwrap(), 0);
    }
}

} // verus!
