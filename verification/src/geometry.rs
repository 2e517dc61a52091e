//! Geometry primitives: integer tile coordinates, sub-tile world coordinates,
//! and screen (pixel) coordinates, with conversions between the three spaces.
//!
//! One tile covers `TILE_WORLD` world units on each axis, and one screen
//! pixel covers `WORLD_PER_PIXEL` world units, so actors can move fractions
//! of a pixel per frame while staying in integer arithmetic throughout.

use vstd::prelude::*;

verus! {

/// World units covered by one tile edge.
pub const TILE_WORLD: i32 = 32;

/// World units covered by one screen pixel.
pub const WORLD_PER_PIXEL: i32 = 8;

/// A point in screen coordinates, i.e. pixels.
#[derive(Debug, Clone, Copy, PartialEq, Eq, Structural)]
pub struct ScreenPoint {
    pub sx: i32,
    pub sy: i32,
}

/// A point in world coordinates. World points are finer than screen points
/// because actors often move fractions of a pixel per frame.
#[derive(Debug, Clone, Copy, PartialEq, Eq, Structural)]
pub struct WorldPoint {
    pub x: i32,
    pub y: i32,
}

/// A point in tile coordinates, addressing one cell of the board grid.
#[derive(Debug, Clone, Copy, PartialEq, Eq, Structural)]
pub struct TilePoint {
    pub tx: i32,
    pub ty: i32,
}

/// Bound on coordinates under which every conversion below stays inside
/// `i32`. Boards are far smaller than this.
pub const COORD_LIMIT: i32 = 0x10000;

impl TilePoint {
    /// The world point of this tile's top-left corner.
    pub fn to_world(&self) -> (w: WorldPoint)
        requires
            -COORD_LIMIT <= self.tx <= COORD_LIMIT,
            -COORD_LIMIT <= self.ty <= COORD_LIMIT,
        ensures
            w.x == self.tx * TILE_WORLD,
            w.y == self.ty * TILE_WORLD,
    {
        WorldPoint { x: self.tx * TILE_WORLD, y: self.ty * TILE_WORLD }
    }

    /// Manhattan distance between two tiles.
    pub fn manhattan_dist(&self, other: &TilePoint) -> (d: i32)
        requires
            -COORD_LIMIT <= self.tx <= COORD_LIMIT,
            -COORD_LIMIT <= self.ty <= COORD_LIMIT,
            -COORD_LIMIT <= other.tx <= COORD_LIMIT,
            -COORD_LIMIT <= other.ty <= COORD_LIMIT,
        ensures
            d == spec_manhattan(*self, *other),
    {
        let dx = if self.tx >= other.tx { self.tx - other.tx } else { other.tx - self.tx };
        let dy = if self.ty >= other.ty { self.ty - other.ty } else { other.ty - self.ty };
        dx + dy
    }

    /// The neighbouring tile one step away in a direction given as a unit
    /// offset.
    pub fn translate(&self, dx: i32, dy: i32) -> (t: TilePoint)
        requires
            -COORD_LIMIT <= self.tx + dx <= COORD_LIMIT,
            -COORD_LIMIT <= self.ty + dy <= COORD_LIMIT,
            -COORD_LIMIT <= self.tx <= COORD_LIMIT,
            -COORD_LIMIT <= self.ty <= COORD_LIMIT,
        ensures
            t.tx == self.tx + dx,
            t.ty == self.ty + dy,
    {
        TilePoint { tx: self.tx + dx, ty: self.ty + dy }
    }
}

/// Manhattan distance as a mathematical function of two tile points.
pub open spec fn spec_manhattan(a: TilePoint, b: TilePoint) -> int {
    abs_int(a.tx - b.tx) + abs_int(a.ty - b.ty)
}

/// Absolute value of a mathematical integer.
pub open spec fn abs_int(x: int) -> int {
    if x >= 0 {
        x
    } else {
        -x
    }
}

impl WorldPoint {
    /// The tile containing this world point (floor division; positions on
    /// the board are never negative).
    pub fn to_tile(&self) -> (t: TilePoint)
        requires
            0 <= self.x,
            0 <= self.y,
        ensures
            t.tx == self.x / TILE_WORLD,
            t.ty == self.y / TILE_WORLD,
            0 <= t.tx,
            0 <= t.ty,
    {
        TilePoint { tx: self.x / TILE_WORLD, ty: self.y / TILE_WORLD }
    }

    /// The screen pixel containing this world point.
    pub fn to_screen(&self) -> (s: ScreenPoint)
        requires
            0 <= self.x,
            0 <= self.y,
        ensures
            s.sx == self.x / WORLD_PER_PIXEL,
            s.sy == self.y / WORLD_PER_PIXEL,
    {
        ScreenPoint { sx: self.x / WORLD_PER_PIXEL, sy: self.y / WORLD_PER_PIXEL }
    }
}

} // verus!
