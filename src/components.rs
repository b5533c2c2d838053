use vstd::prelude::*;

verus! {

/// Largest magnitude a stored coordinate, velocity or size may have.
pub const COORD_LIMIT: i64 = 1_000_000_000_000;

/// Largest radius a ball may have.
pub const RADIUS_LIMIT: i32 = 1_000_000;

/// A 2D integer vector.
#[derive(Clone, Copy, Debug, PartialEq, Eq, Structural)]
pub struct Vec2 {
    pub x: i64,
    pub y: i64,
}

pub open spec fn coord_ok(v: i64) -> bool {
    -COORD_LIMIT <= v <= COORD_LIMIT
}

pub open spec fn vec_ok(v: Vec2) -> bool {
    coord_ok(v.x) && coord_ok(v.y)
}

/// A size is a non-negative extent in both directions.
pub open spec fn size_ok(v: Vec2) -> bool {
    0 <= v.x <= COORD_LIMIT && 0 <= v.y <= COORD_LIMIT
}

/// Whether an exact value lies in the range of stored coordinates.
pub open spec fn in_range(v: int) -> bool {
    -COORD_LIMIT <= v <= COORD_LIMIT
}

/// Brings an exact value back into the range of stored coordinates.
pub open spec fn clamp_coord(v: int) -> int {
    if v < -COORD_LIMIT {
        -COORD_LIMIT as int
    } else if v > COORD_LIMIT {
        COORD_LIMIT as int
    } else {
        v
    }
}

pub fn clamp_coord_exec(v: i128) -> (r: i64)
    ensures
        r == clamp_coord(v as int),
{
    if v < -(COORD_LIMIT as i128) {
        -COORD_LIMIT
    } else if v > COORD_LIMIT as i128 {
        COORD_LIMIT
    } else {
        v as i64
    }
}

/// Position of an entity's center.
#[derive(Clone, Copy, Debug, PartialEq, Eq, Structural)]
pub struct Position(pub Vec2);

/// Displacement applied to a ball at each tick.
#[derive(Clone, Copy, Debug, PartialEq, Eq, Structural)]
pub struct Velocity(pub Vec2);

/// Full width and height of an axis-aligned box centered on the position.
#[derive(Clone, Copy, Debug, PartialEq, Eq, Structural)]
pub struct Size(pub Vec2);

/// An RGBA display color.
#[derive(Clone, Copy, Debug, PartialEq, Eq, Structural)]
pub struct Color {
    pub r: u8,
    pub g: u8,
    pub b: u8,
    pub a: u8,
}

/// Display color of an entity; cosmetic only.
#[derive(Clone, Copy, Debug, PartialEq, Eq, Structural)]
pub struct Colored(pub Color);

/// Gray.
pub fn gray() -> (c: Color)
    ensures
        c == (Color { r: 130, g: 130, b: 130, a: 255 }),
{
    Color { r: 130, g: 130, b: 130, a: 255 }
}

/// Light gray.
pub fn lightgray() -> (c: Color)
    ensures
        c == (Color { r: 200, g: 200, b: 200, a: 255 }),
{
    Color { r: 200, g: 200, b: 200, a: 255 }
}

/// Maroon.
pub fn maroon() -> (c: Color)
    ensures
        c == (Color { r: 190, g: 33, b: 55, a: 255 }),
{
    Color { r: 190, g: 33, b: 55, a: 255 }
}

/// Blue violet.
pub fn blueviolet() -> (c: Color)
    ensures
        c == (Color { r: 135, g: 60, b: 190, a: 255 }),
{
    Color { r: 135, g: 60, b: 190, a: 255 }
}

/// Black at half opacity.
pub fn half_black() -> (c: Color)
    ensures
        c == (Color { r: 0, g: 0, b: 0, a: 127 }),
{
    Color { r: 0, g: 0, b: 0, a: 127 }
}

/// Blue at half opacity.
pub fn half_blue() -> (c: Color)
    ensures
        c == (Color { r: 0, g: 121, b: 241, a: 127 }),
{
    Color { r: 0, g: 121, b: 241, a: 127 }
}

} // verus!
