//! Tile coordinates.

use vstd::prelude::*;

verus! {

/// A tile coordinate on the grid.
#[derive(Clone, Copy, Debug, PartialEq, Eq, Structural)]
pub struct Point2 {
    pub x: i32,
    pub y: i32,
}

/// A tile coordinate as schematics store it.
#[derive(Clone, Copy, Debug, PartialEq, Eq, Structural)]
pub struct PackedPoint2 {
    pub x: i16,
    pub y: i16,
}

/// The integer that stands for the tile `(x, y)` as a map key: distinct
/// tiles have distinct keys.
pub open spec fn tile_key(x: int, y: int) -> u64 {
    ((x + 0x8000_0000) * 0x1_0000_0000 + (y + 0x8000_0000)) as u64
}

/// Distinct tiles in the range of `i32` have distinct keys.
pub proof fn law_tile_keys_are_distinct(x1: int, y1: int, x2: int, y2: int)
    requires
        i32::MIN <= x1 <= i32::MAX,
        i32::MIN <= y1 <= i32::MAX,
        i32::MIN <= x2 <= i32::MAX,
        i32::MIN <= y2 <= i32::MAX,
        tile_key(x1, y1) == tile_key(x2, y2),
    ensures
        x1 == x2,
        y1 == y2,
{
}

impl Point2 {
    /// The point `(x, y)`.
    pub fn new(x: i32, y: i32) -> (p: Point2)
        ensures
            p.x == x,
            p.y == y,
    {
        Point2 { x, y }
    }

    /// The point that a packed coordinate names.
    pub fn unpack(p: PackedPoint2) -> (q: Point2)
        ensures
            q.x == p.x,
            q.y == p.y,
    {
        Point2 { x: p.x as i32, y: p.y as i32 }
    }

    /// The point `(dx, dy)` away from this one, unless a coordinate leaves
    /// the range of `i32`.
    pub open spec fn offset_spec(&self, dx: i32, dy: i32) -> Option<Point2> {
        if i32::MIN <= self.x + dx <= i32::MAX && i32::MIN <= self.y + dy <= i32::MAX {
            Some(Point2 { x: (self.x + dx) as i32, y: (self.y + dy) as i32 })
        } else {
            None
        }
    }

    /// The point `(dx, dy)` away from this one, unless a coordinate leaves
    /// the range of `i32`.
    #[verifier::when_used_as_spec(offset_spec)]
    pub fn offset(&self, dx: i32, dy: i32) -> (q: Option<Point2>)
        ensures
            q == self.offset_spec(dx, dy),
    {
        let x: i64 = self.x as i64 + dx as i64;
        let y: i64 = self.y as i64 + dy as i64;
        if x < i32::MIN as i64 || x > i32::MAX as i64 || y < i32::MIN as i64 || y > i32::MAX
            as i64 {
            None
        } else {
            Some(Point2 { x: x as i32, y: y as i32 })
        }
    }

    /// The key of this tile.
    pub open spec fn key_spec(self) -> u64 {
        tile_key(self.x as int, self.y as int)
    }

    /// The key of this tile.
    #[verifier::when_used_as_spec(key_spec)]
    pub fn key(self) -> (k: u64)
        ensures
            k == self.key_spec(),
    {
        key_of(self.x, self.y)
    }
}

/// The key of the tile `(x, y)`.
pub fn key_of(x: i32, y: i32) -> (k: u64)
    ensures
        k == tile_key(x as int, y as int),
{
    let col: u64 = (x as i64 + 0x8000_0000) as u64;
    let row: u64 = (y as i64 + 0x8000_0000) as u64;
    col * 0x1_0000_0000 + row
}

} // verus!
