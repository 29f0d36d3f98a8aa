//! The tiles that buildings cover.

use crate::point::{key_of, tile_key, Point2};
use crate::world::Tile;
use std::collections::HashMap;
use vstd::prelude::*;

verus! {

/// The column of the tile with key `k`.
pub open spec fn key_x(k: u64) -> int {
    k as int / 0x1_0000_0000 - 0x8000_0000
}

/// The row of the tile with key `k`.
pub open spec fn key_y(k: u64) -> int {
    k as int % 0x1_0000_0000 - 0x8000_0000
}

/// A key names the tile whose key it is.
pub proof fn lemma_key_inverse(x: int, y: int)
    requires
        i32::MIN <= x <= i32::MAX,
        i32::MIN <= y <= i32::MAX,
    ensures
        key_x(tile_key(x, y)) == x,
        key_y(tile_key(x, y)) == y,
{
}

/// The column of the tile with key `k`.
pub fn column_of(k: u64) -> (x: i32)
    ensures
        x == key_x(k),
{
    let col: i64 = (k / 0x1_0000_0000) as i64;
    (col - 0x8000_0000) as i32
}

/// The row of the tile with key `k`.
pub fn row_of(k: u64) -> (y: i32)
    ensures
        y == key_y(k),
{
    let row: i64 = (k % 0x1_0000_0000) as i64;
    (row - 0x8000_0000) as i32
}

/// Every key is the key of the tile that it names.
pub proof fn lemma_key_of_named(k: u64)
    ensures
        tile_key(key_x(k), key_y(k)) == k,
        i32::MIN <= key_x(k) <= i32::MAX,
        i32::MIN <= key_y(k) <= i32::MAX,
{
}

/// Whether the tile `(x, y)` lies in the square of edge `size` whose least
/// corner is `(x0, y0)`.
pub open spec fn in_square(x: int, y: int, x0: int, y0: int, size: int) -> bool {
    x0 <= x < x0 + size && y0 <= y < y0 + size
}

/// Whether `(x, y)` comes before `(x1, y1)` where a square is walked column
/// by column and each column upward.
pub open spec fn walked_before(x: int, y: int, x1: int, y1: int) -> bool {
    x < x1 || (x == x1 && y < y1)
}

/// The map that gives `tile` to every key of a square.
pub open spec fn square(x0: int, y0: int, size: int, tile: Tile) -> Map<u64, Tile> {
    Map::new(|k: u64| in_square(key_x(k), key_y(k), x0, y0, size), |k: u64| tile)
}

/// The keys of a square up to, and without, the tile `(x, y)` of the walk.
pub open spec fn walked(x0: int, y0: int, size: int, x: int, y: int, tile: Tile) -> Map<u64, Tile> {
    Map::new(
        |k: u64|
            in_square(key_x(k), key_y(k), x0, y0, size) && walked_before(key_x(k), key_y(k), x, y),
        |k: u64| tile,
    )
}

/// The first tile of a square, in the order of the walk, that a building covers.
pub fn first_occupied(tiles: &HashMap<u64, Tile>, x0: i32, y0: i32, size: i32) -> (r: Option<
    Point2,
>)
    requires
        1 <= size,
        x0 + size - 1 <= i32::MAX,
        y0 + size - 1 <= i32::MAX,
    ensures
        match r {
            Some(p) => {
                &&& in_square(p.x as int, p.y as int, x0 as int, y0 as int, size as int)
                &&& tiles@.contains_key(tile_key(p.x as int, p.y as int))
                &&& forall|x: int, y: int|
                    in_square(x, y, x0 as int, y0 as int, size as int) && walked_before(
                        x,
                        y,
                        p.x as int,
                        p.y as int,
                    ) ==> !tiles@.contains_key(#[trigger] tile_key(x, y))
            },
            None => forall|x: int, y: int|
                in_square(x, y, x0 as int, y0 as int, size as int) ==> !tiles@.contains_key(
                    #[trigger] tile_key(x, y),
                ),
        },
{
    broadcast use vstd::std_specs::hash::group_hash_axioms;

    let mut i: i32 = 0;
    while i < size
        invariant
            0 <= i <= size,
            1 <= size,
            x0 + size - 1 <= i32::MAX,
            y0 + size - 1 <= i32::MAX,
            forall|x: int, y: int|
                in_square(x, y, x0 as int, y0 as int, size as int) && x < x0 + i
                    ==> !tiles@.contains_key(#[trigger] tile_key(x, y)),
        decreases size - i,
    {
        let x: i32 = x0 + i;
        let mut j: i32 = 0;
        while j < size
            invariant
                0 <= j <= size,
                0 <= i < size,
                x == x0 + i,
                x0 + size - 1 <= i32::MAX,
                y0 + size - 1 <= i32::MAX,
                forall|x: int, y: int|
                    in_square(x, y, x0 as int, y0 as int, size as int) && walked_before(
                        x,
                        y,
                        x0 + i,
                        y0 + j,
                    ) ==> !tiles@.contains_key(#[trigger] tile_key(x, y)),
            decreases size - j,
        {
            let y: i32 = y0 + j;
            if tiles.contains_key(&key_of(x, y)) {
                return Some(Point2 { x, y });
            }
            j = j + 1;
        }
        i = i + 1;
    }
    None
}

/// Whether every key of a square is in the map and gives `tile`.
pub fn holds_square(tiles: &HashMap<u64, Tile>, x0: i32, y0: i32, size: i32, tile: Tile) -> (ok:
    bool)
    requires
        1 <= size,
        x0 + size - 1 <= i32::MAX,
        y0 + size - 1 <= i32::MAX,
    ensures
        ok == (forall|x: int, y: int|
            in_square(x, y, x0 as int, y0 as int, size as int) ==> tiles@.contains_key(
                #[trigger] tile_key(x, y),
            ) && tiles@[tile_key(x, y)] == tile),
{
    broadcast use vstd::std_specs::hash::group_hash_axioms;

    let mut i: i32 = 0;
    while i < size
        invariant
            0 <= i <= size,
            1 <= size,
            x0 + size - 1 <= i32::MAX,
            y0 + size - 1 <= i32::MAX,
            forall|x: int, y: int|
                in_square(x, y, x0 as int, y0 as int, size as int) && x < x0 + i
                    ==> tiles@.contains_key(#[trigger] tile_key(x, y)) && tiles@[tile_key(x, y)]
                    == tile,
        decreases size - i,
    {
        let x: i32 = x0 + i;
        let mut j: i32 = 0;
        while j < size
            invariant
                0 <= j <= size,
                0 <= i < size,
                x == x0 + i,
                x0 + size - 1 <= i32::MAX,
                y0 + size - 1 <= i32::MAX,
                forall|x: int, y: int|
                    in_square(x, y, x0 as int, y0 as int, size as int) && walked_before(
                        x,
                        y,
                        x0 + i,
                        y0 + j,
                    ) ==> tiles@.contains_key(#[trigger] tile_key(x, y)) && tiles@[tile_key(x, y)]
                        == tile,
            decreases size - j,
        {
            let y: i32 = y0 + j;
            let same: bool = match tiles.get(&key_of(x, y)) {
                Some(t) => t.processor == tile.processor && t.slot == tile.slot && t.block
                    == tile.block,
                None => false,
            };
            if !same {
                assert(in_square(x as int, y as int, x0 as int, y0 as int, size as int));
                return false;
            }
            j = j + 1;
        }
        i = i + 1;
    }
    true
}

/// Gives `tile` to every key of a square.
pub fn cover(tiles: &mut HashMap<u64, Tile>, x0: i32, y0: i32, size: i32, tile: Tile)
    requires
        1 <= size,
        x0 + size - 1 <= i32::MAX,
        y0 + size - 1 <= i32::MAX,
    ensures
        final(tiles)@ == old(tiles)@.union_prefer_right(
            square(x0 as int, y0 as int, size as int, tile),
        ),
{
    broadcast use vstd::std_specs::hash::group_hash_axioms;

    let mut i: i32 = 0;
    assert(tiles@ =~= old(tiles)@.union_prefer_right(
        walked(x0 as int, y0 as int, size as int, x0 as int, y0 as int, tile),
    ));
    while i < size
        invariant
            0 <= i <= size,
            1 <= size,
            x0 + size - 1 <= i32::MAX,
            y0 + size - 1 <= i32::MAX,
            tiles@ == old(tiles)@.union_prefer_right(
                walked(x0 as int, y0 as int, size as int, x0 + i, y0 as int, tile),
            ),
        decreases size - i,
    {
        let x: i32 = x0 + i;
        let mut j: i32 = 0;
        while j < size
            invariant
                0 <= j <= size,
                0 <= i < size,
                x == x0 + i,
                1 <= size,
                x0 + size - 1 <= i32::MAX,
                y0 + size - 1 <= i32::MAX,
                tiles@ == old(tiles)@.union_prefer_right(
                    walked(x0 as int, y0 as int, size as int, x0 + i, y0 + j, tile),
                ),
            decreases size - j,
        {
            let y: i32 = y0 + j;
            let ghost before = tiles@;
            tiles.insert(key_of(x, y), tile);
            proof {
                lemma_key_inverse(x as int, y as int);
                assert forall|k: u64|
                    #![auto]
                    tile_key(key_x(k), key_y(k)) == k by {
                    lemma_key_of_named(k);
                }
                assert(tiles@ =~= old(tiles)@.union_prefer_right(
                    walked(x0 as int, y0 as int, size as int, x0 + i, y0 + j + 1, tile),
                ));
            }
            j = j + 1;
        }
        assert(tiles@ =~= old(tiles)@.union_prefer_right(
            walked(x0 as int, y0 as int, size as int, x0 + i + 1, y0 as int, tile),
        ));
        i = i + 1;
    }
    assert(tiles@ =~= old(tiles)@.union_prefer_right(
        square(x0 as int, y0 as int, size as int, tile),
    ));
}

/// The walk of a square has come by `i` whole columns and `j` tiles of the
/// next when it stands before the tile `(x0 + i, y0 + j)`.
proof fn lemma_walked_count(x0: int, y0: int, size: int, i: int, j: int, tile: Tile)
    requires
        i32::MIN <= x0,
        i32::MIN <= y0,
        x0 + size - 1 <= i32::MAX,
        y0 + size - 1 <= i32::MAX,
        0 <= i,
        0 <= j,
        (i < size && j <= size) || (i == size && j == 0),
    ensures
        walked(x0, y0, size, x0 + i, y0 + j, tile).dom().finite(),
        walked(x0, y0, size, x0 + i, y0 + j, tile).dom().len() == i * size + j,
    decreases i, j,
{
    let now = walked(x0, y0, size, x0 + i, y0 + j, tile).dom();
    assert forall|k: u64| #![auto] tile_key(key_x(k), key_y(k)) == k by {
        lemma_key_of_named(k);
    }
    if j > 0 {
        lemma_walked_count(x0, y0, size, i, j - 1, tile);
        let before = walked(x0, y0, size, x0 + i, y0 + j - 1, tile).dom();
        let k = tile_key(x0 + i, y0 + j - 1);
        lemma_key_inverse(x0 + i, y0 + j - 1);
        assert(now =~= before.insert(k));
        assert(!before.contains(k));
    } else if i > 0 {
        lemma_walked_count(x0, y0, size, i - 1, size, tile);
        let before = walked(x0, y0, size, x0 + i - 1, y0 + size, tile).dom();
        assert(now =~= before);
        assert((i - 1) * size + size == i * size) by (nonlinear_arith);
    } else {
        assert(now =~= Set::<u64>::empty());
        assert(0 * size + 0 == 0) by (nonlinear_arith);
    }
}

/// A square of edge `size` has `size * size` tiles.
pub proof fn law_square_counts(x0: int, y0: int, size: int, tile: Tile)
    requires
        i32::MIN <= x0,
        i32::MIN <= y0,
        0 <= size,
        x0 + size - 1 <= i32::MAX,
        y0 + size - 1 <= i32::MAX,
    ensures
        square(x0, y0, size, tile).dom().finite(),
        square(x0, y0, size, tile).dom().len() == size * size,
{
    lemma_walked_count(x0, y0, size, size, 0, tile);
    assert(square(x0, y0, size, tile).dom() =~= walked(x0, y0, size, x0 + size, y0, tile).dom());
}

} // verus!
