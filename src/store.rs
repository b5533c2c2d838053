use vstd::prelude::*;
use crate::components::{Colored, Position, Size, Velocity, vec_ok, size_ok};
use crate::components::RADIUS_LIMIT;
use crate::entities::{Ball, Brick, Player, PlayerControls};

verus! {

/// Identifier of an entity: the index of its slot in the store. Slots are
/// never reused, so an identifier never comes to denote another entity.
#[derive(Clone, Copy, Debug, PartialEq, Eq, Structural)]
pub struct Entity(pub usize);

/// The components an entity may carry, each present or absent.
#[derive(Clone, Copy, Debug, PartialEq, Eq, Structural)]
pub struct Components {
    pub position: Option<Position>,
    pub velocity: Option<Velocity>,
    pub size: Option<Size>,
    pub color: Option<Colored>,
    pub ball: Option<Ball>,
    pub brick: Option<Brick>,
    pub player: Option<Player>,
    pub controls: Option<PlayerControls>,
}

/// A slot of the store: the components of a living entity, or nothing once
/// it was despawned.
pub type Slot = Option<Components>;

/// Every component holds values in range.
pub open spec fn components_ok(c: Components) -> bool {
    &&& (c.position matches Some(p) ==> vec_ok(p.0))
    &&& (c.velocity matches Some(v) ==> vec_ok(v.0))
    &&& (c.size matches Some(z) ==> size_ok(z.0))
    &&& (c.ball matches Some(b) ==> 0 < b.radius <= RADIUS_LIMIT)
}

pub open spec fn slot_ok(s: Slot) -> bool {
    s matches Some(c) ==> components_ok(c)
}

pub open spec fn slots_ok(s: Seq<Slot>) -> bool {
    forall|i: int| 0 <= i < s.len() ==> #[trigger] slot_ok(s[i])
}

/// The components of entity `e`, if it is alive.
pub open spec fn lookup(s: Seq<Slot>, e: Entity) -> Slot {
    if e.0 < s.len() {
        s[e.0 as int]
    } else {
        None
    }
}

/// A ball in play: it has a position, a velocity and a ball component, and
/// is neither a player nor a brick.
pub open spec fn is_ball(s: Slot) -> bool {
    s matches Some(c) && c.ball is Some && c.position is Some && c.velocity is Some
        && c.player is None && c.brick is None
}

/// A brick that can be hit: it has a position and a size, and is no player.
pub open spec fn is_brick(s: Slot) -> bool {
    s matches Some(c) && c.brick is Some && c.position is Some && c.size is Some && c.player is None
}

/// A paddle: a player with a position and a size.
pub open spec fn is_paddle(s: Slot) -> bool {
    s matches Some(c) && c.player is Some && c.position is Some && c.size is Some
}

/// The kinds of entity the systems work on.
#[derive(Clone, Copy, Debug, PartialEq, Eq, Structural)]
pub enum Role {
    Ball,
    Brick,
    Paddle,
}

pub open spec fn has_role(s: Slot, role: Role) -> bool {
    match role {
        Role::Ball => is_ball(s),
        Role::Brick => is_brick(s),
        Role::Paddle => is_paddle(s),
    }
}

/// The ball component of a slot known to hold one.
pub open spec fn ball_of(s: Slot) -> Ball {
    s.unwrap().ball.unwrap()
}

/// The entity/component store. A despawned entity leaves an empty slot
/// behind, so a system that walks the slots by index while despawning never
/// loses its place.
pub struct World {
    slots: Vec<Slot>,
}

impl View for World {
    type V = Seq<Slot>;

    closed spec fn view(&self) -> Seq<Slot> {
        self.slots@
    }
}

impl World {
    pub open spec fn wf(&self) -> bool {
        slots_ok(self@)
    }

    /// An empty store.
    pub fn new() -> (r: World)
        ensures
            r@ == Seq::<Slot>::empty(),
    {
        World { slots: Vec::new() }
    }

    /// Number of slots, living or not.
    pub fn len(&self) -> (r: usize)
        ensures
            r == self@.len(),
    {
        self.slots.len()
    }

    /// The slot at index `i`.
    pub fn slot(&self, i: usize) -> (r: Slot)
        requires
            i < self@.len(),
        ensures
            r == self@[i as int],
    {
        self.slots[i]
    }

    pub(crate) fn set_slot(&mut self, i: usize, v: Slot)
        requires
            i < old(self)@.len(),
        ensures
            final(self)@ == old(self)@.update(i as int, v),
    {
        self.slots.set(i, v);
    }

    /// Adds an entity with the given components.
    pub fn spawn(&mut self, c: Components) -> (e: Entity)
        ensures
            final(self)@ == old(self)@.push(Some(c)),
            e.0 == old(self)@.len(),
    {
        let e = Entity(self.slots.len());
        self.slots.push(Some(c));
        e
    }

    /// Adds one entity per element of `cs`, in order.
    pub fn spawn_batch(&mut self, cs: Vec<Components>) -> (es: Vec<Entity>)
        ensures
            final(self)@ == old(self)@ + cs@.map_values(|c: Components| Some(c)),
            es@.len() == cs@.len(),
            forall|k: int| 0 <= k < es@.len() ==> (#[trigger] es@[k]).0 == old(self)@.len() + k,
    {
        let mut es: Vec<Entity> = Vec::new();
        let n = cs.len();
        for k in 0..n
            invariant
                n == cs@.len(),
                self@ == old(self)@ + cs@.subrange(0, k as int).map_values(|c: Components| Some(c)),
                es@.len() == k,
                forall|j: int| 0 <= j < k ==> (#[trigger] es@[j]).0 == old(self)@.len() + j,
        {
            let e = self.spawn(cs[k]);
            es.push(e);
            assert(cs@.subrange(0, k + 1) == cs@.subrange(0, k as int).push(cs@[k as int]));
            assert(self@ =~= old(self)@ + cs@.subrange(0, k + 1).map_values(|c: Components| Some(c)));
        }
        assert(cs@.subrange(0, n as int) == cs@);
        es
    }

    /// Removes entity `e` with all its components; nothing happens if it is
    /// already gone.
    pub fn despawn(&mut self, e: Entity)
        ensures
            final(self)@ == (if e.0 < old(self)@.len() {
                old(self)@.update(e.0 as int, None)
            } else {
                old(self)@
            }),
    {
        if e.0 < self.slots.len() {
            self.slots.set(e.0, None);
        }
    }

    /// The components of entity `e`, or `None` if it is not alive.
    pub fn get(&self, e: Entity) -> (r: Slot)
        ensures
            r == lookup(self@, e),
    {
        if e.0 < self.slots.len() {
            self.slots[e.0]
        } else {
            None
        }
    }

    /// Whether entity `e` is alive.
    pub fn contains(&self, e: Entity) -> (r: bool)
        ensures
            r == (lookup(self@, e) is Some),
    {
        match self.get(e) {
            Some(_) => true,
            None => false,
        }
    }

    /// The position of entity `e`, or `None` if it is gone or has none.
    pub fn get_position(&self, e: Entity) -> (r: Option<Position>)
        ensures
            r == (match lookup(self@, e) {
                Some(c) => c.position,
                None => None,
            }),
    {
        match self.get(e) {
            Some(c) => c.position,
            None => None,
        }
    }

    /// The ball component of entity `e`, or `None` if it is gone or has none.
    pub fn get_ball(&self, e: Entity) -> (r: Option<Ball>)
        ensures
            r == (match lookup(self@, e) {
                Some(c) => c.ball,
                None => None,
            }),
    {
        match self.get(e) {
            Some(c) => c.ball,
            None => None,
        }
    }

    /// The player component of entity `e`, or `None` if it is gone or has
    /// none.
    pub fn get_player(&self, e: Entity) -> (r: Option<Player>)
        ensures
            r == (match lookup(self@, e) {
                Some(c) => c.player,
                None => None,
            }),
    {
        match self.get(e) {
            Some(c) => c.player,
            None => None,
        }
    }

    /// The living entities that play the given role, in order.
    pub fn query(&self, role: Role) -> (r: Vec<Entity>)
        ensures
            forall|e: Entity| r@.contains(e) <==> e.0 < self@.len() && has_role(self@[e.0 as int], role),
    {
        let mut r: Vec<Entity> = Vec::new();
        for i in 0..self.slots.len()
            invariant
                forall|e: Entity| r@.contains(e) <==> e.0 < i && has_role(self@[e.0 as int], role),
        {
            let s = self.slots[i];
            let keep = match s {
                Some(c) => match role {
                    Role::Ball => c.ball.is_some() && c.position.is_some() && c.velocity.is_some()
                        && c.player.is_none() && c.brick.is_none(),
                    Role::Brick => c.brick.is_some() && c.position.is_some() && c.size.is_some()
                        && c.player.is_none(),
                    Role::Paddle => c.player.is_some() && c.position.is_some() && c.size.is_some(),
                },
                None => false,
            };
            let ghost r0 = r@;
            if keep {
                r.push(Entity(i));
            }
            assert forall|e: Entity| r@.contains(e) <==> e.0 < i + 1 && has_role(self@[e.0 as int], role) by {
                if e.0 == i && keep {
                    assert(r@[r@.len() - 1] == e);
                }
                if r@.contains(e) && !r0.contains(e) {
                    let k = choose|k: int| 0 <= k < r@.len() && r@[k] == e;
                    if k < r0.len() {
                        assert(r0[k] == e);
                    }
                }
                if r0.contains(e) {
                    let k = choose|k: int| 0 <= k < r0.len() && r0[k] == e;
                    assert(r@[k] == e);
                }
            }
        }
        r
    }

    /// Whether some living entity is a player.
    pub fn has_players(&self) -> (r: bool)
        ensures
            r == exists|i: int| 0 <= i < self@.len() && (#[trigger] self@[i] matches Some(c) && c.player is Some),
    {
        for i in 0..self.slots.len()
            invariant
                forall|j: int| 0 <= j < i ==> !(#[trigger] self@[j] matches Some(c) && c.player is Some),
        {
            match self.slots[i] {
                Some(c) => {
                    if c.player.is_some() {
                        return true;
                    }
                },
                None => {},
            }
        }
        false
    }
}

} // verus!
