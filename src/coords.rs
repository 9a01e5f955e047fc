use vstd::prelude::*;

verus! {

/// The side length of a single square tile, in pixels.
pub const TILE_SIZE: i64 = 16;

/// An integer grid cell.
#[derive(Clone, Copy, PartialEq, Eq, Structural, Debug, Hash)]
pub struct TileCoords {
    pub x: i32,
    pub y: i32,
}

/// The cell `dx` tiles along x and `dy` tiles along y from `c`.
pub open spec fn shifted(c: TileCoords, dx: int, dy: int) -> TileCoords {
    TileCoords { x: (c.x + dx) as i32, y: (c.y + dy) as i32 }
}

impl TileCoords {
    pub fn from_ivec2(x: i32, y: i32) -> (r: TileCoords)
        ensures
            r.x == x,
            r.y == y,
    {
        TileCoords { x, y }
    }

    /// The world position of the cell, in pixels.
    pub fn into_vec2(&self) -> (r: (i64, i64))
        ensures
            r.0 == self.x * TILE_SIZE,
            r.1 == self.y * TILE_SIZE,
    {
        Self::ivec2_to_vec2(*self)
    }

    /// The world position of a cell, in pixels.
    pub fn ivec2_to_vec2(c: TileCoords) -> (r: (i64, i64))
        ensures
            r.0 == c.x * TILE_SIZE,
            r.1 == c.y * TILE_SIZE,
    {
        (c.x as i64 * TILE_SIZE, c.y as i64 * TILE_SIZE)
    }
}

} // verus!
