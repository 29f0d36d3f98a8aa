//! How the tiles agree with the buildings.

use crate::building::{Building, Place};
use crate::catalog::Catalog;
use crate::grid;
use crate::point::tile_key;
use crate::world::Tile;
use std::collections::HashMap;
use vstd::prelude::*;
use vstd::std_specs::iter::IteratorSpec;

verus! {

/// The places of a sequence of buildings.
pub open spec fn places(buildings: Seq<Building>) -> Seq<Place> {
    Seq::new(buildings.len(), |i: int| buildings[i].place())
}

/// Whether every building of `places` fits the catalog.
pub open spec fn fitting(places: Seq<Place>, catalog: &Catalog) -> bool {
    forall|i: int| 0 <= i < places.len() ==> (#[trigger] places[i]).fits(catalog)
}

/// Whether every tile that a building of `places` covers is a key that
/// names the building, as a processor or as another building, and its
/// block.
pub open spec fn claimed(
    places: Seq<Place>,
    processor: bool,
    tiles: Map<u64, Tile>,
    catalog: &Catalog,
) -> bool {
    forall|i: int, x: int, y: int|
        0 <= i < places.len() && #[trigger] places[i].covers(catalog, x, y) ==> {
            &&& tiles.contains_key(tile_key(x, y))
            &&& tiles[tile_key(x, y)] == Tile { processor, slot: i as usize, block: places[i].block }
        }
}

/// Whether a tile names one of the buildings, its block, and lies in the
/// square of that building.
pub open spec fn named(
    processors: Seq<Place>,
    others: Seq<Place>,
    k: u64,
    t: Tile,
    catalog: &Catalog,
) -> bool {
    if t.processor {
        &&& t.slot < processors.len()
        &&& t.block == processors[t.slot as int].block
        &&& processors[t.slot as int].covers(catalog, grid::key_x(k), grid::key_y(k))
    } else {
        &&& t.slot < others.len()
        &&& t.block == others[t.slot as int].block
        &&& others[t.slot as int].covers(catalog, grid::key_x(k), grid::key_y(k))
    }
}

/// The tiles agree with the buildings: every building fits the catalog,
/// every tile that a building covers is a key that names the building and
/// its block, and every key is a tile that the building it names covers.
pub open spec fn grid_wf(
    processors: Seq<Place>,
    others: Seq<Place>,
    tiles: Map<u64, Tile>,
    catalog: &Catalog,
) -> bool {
    &&& fitting(processors, catalog)
    &&& fitting(others, catalog)
    &&& claimed(processors, true, tiles, catalog)
    &&& claimed(others, false, tiles, catalog)
    &&& forall|k: u64| #[trigger]
        tiles.contains_key(k) ==> named(processors, others, k, tiles[k], catalog)
}

/// A grid stays well formed when a processor is added on free tiles.
pub proof fn lemma_grid_add_processor(
    processors: Seq<Place>,
    others: Seq<Place>,
    tiles: Map<u64, Tile>,
    catalog: &Catalog,
    place: Place,
)
    requires
        grid_wf(processors, others, tiles, catalog),
        catalog.wf(),
        place.fits(catalog),
        processors.len() <= usize::MAX,
        others.len() <= usize::MAX,
        forall|x: int, y: int|
            place.covers(catalog, x, y) ==> !tiles.contains_key(#[trigger] tile_key(x, y)),
    ensures
        grid_wf(
            processors.push(place),
            others,
            tiles.union_prefer_right(
                grid::square(
                    place.position.x as int,
                    place.position.y as int,
                    catalog.blocks@[place.block as int].size as int,
                    Tile { processor: true, slot: processors.len() as usize, block: place.block },
                ),
            ),
            catalog,
        ),
{
    let tile = Tile { processor: true, slot: processors.len() as usize, block: place.block };
    let size = catalog.blocks@[place.block as int].size as int;
    let added = grid::square(place.position.x as int, place.position.y as int, size, tile);
    let after = tiles.union_prefer_right(added);
    let ps = processors.push(place);
    assert forall|k: u64| #[trigger] after.contains_key(k) implies {
        let t = after[k];
        if t.processor {
            &&& t.slot < ps.len()
            &&& t.block == ps[t.slot as int].block
            &&& ps[t.slot as int].covers(catalog, grid::key_x(k), grid::key_y(k))
        } else {
            &&& t.slot < others.len()
            &&& t.block == others[t.slot as int].block
            &&& others[t.slot as int].covers(catalog, grid::key_x(k), grid::key_y(k))
        }
    } by {
        grid::lemma_key_of_named(k);
        if added.contains_key(k) {
        } else {
            assert(tiles.contains_key(k));
        }
    }
    assert forall|i: int, x: int, y: int|
        0 <= i < ps.len() && #[trigger] ps[i].covers(catalog, x, y) implies {
        &&& after.contains_key(tile_key(x, y))
        &&& after[tile_key(x, y)] == Tile { processor: true, slot: i as usize, block: ps[i].block }
    } by {
        grid::lemma_key_inverse(x, y);
        if i < processors.len() {
            assert(processors[i].covers(catalog, x, y));
            assert(tiles.contains_key(tile_key(x, y)));
            if added.contains_key(tile_key(x, y)) {
                assert(place.covers(catalog, x, y));
            }
        }
    }
    assert forall|i: int, x: int, y: int|
        0 <= i < others.len() && #[trigger] others[i].covers(catalog, x, y) implies {
        &&& after.contains_key(tile_key(x, y))
        &&& after[tile_key(x, y)] == Tile {
            processor: false,
            slot: i as usize,
            block: others[i].block,
        }
    } by {
        grid::lemma_key_inverse(x, y);
        assert(tiles.contains_key(tile_key(x, y)));
        if added.contains_key(tile_key(x, y)) {
            assert(place.covers(catalog, x, y));
        }
    }
    assert forall|i: int| 0 <= i < ps.len() implies (#[trigger] ps[i]).fits(catalog) by {
        if i < processors.len() {
            assert(processors[i].fits(catalog));
        }
    }
}

/// A grid stays well formed when another building is added on free tiles.
pub proof fn lemma_grid_add_other(
    processors: Seq<Place>,
    others: Seq<Place>,
    tiles: Map<u64, Tile>,
    catalog: &Catalog,
    place: Place,
)
    requires
        grid_wf(processors, others, tiles, catalog),
        catalog.wf(),
        place.fits(catalog),
        processors.len() <= usize::MAX,
        others.len() <= usize::MAX,
        forall|x: int, y: int|
            place.covers(catalog, x, y) ==> !tiles.contains_key(#[trigger] tile_key(x, y)),
    ensures
        grid_wf(
            processors,
            others.push(place),
            tiles.union_prefer_right(
                grid::square(
                    place.position.x as int,
                    place.position.y as int,
                    catalog.blocks@[place.block as int].size as int,
                    Tile { processor: false, slot: others.len() as usize, block: place.block },
                ),
            ),
            catalog,
        ),
{
    let tile = Tile { processor: false, slot: others.len() as usize, block: place.block };
    let size = catalog.blocks@[place.block as int].size as int;
    let added = grid::square(place.position.x as int, place.position.y as int, size, tile);
    let after = tiles.union_prefer_right(added);
    let os = others.push(place);
    assert forall|k: u64| #[trigger] after.contains_key(k) implies {
        let t = after[k];
        if t.processor {
            &&& t.slot < processors.len()
            &&& t.block == processors[t.slot as int].block
            &&& processors[t.slot as int].covers(catalog, grid::key_x(k), grid::key_y(k))
        } else {
            &&& t.slot < os.len()
            &&& t.block == os[t.slot as int].block
            &&& os[t.slot as int].covers(catalog, grid::key_x(k), grid::key_y(k))
        }
    } by {
        grid::lemma_key_of_named(k);
        if added.contains_key(k) {
        } else {
            assert(tiles.contains_key(k));
        }
    }
    assert forall|i: int, x: int, y: int|
        0 <= i < os.len() && #[trigger] os[i].covers(catalog, x, y) implies {
        &&& after.contains_key(tile_key(x, y))
        &&& after[tile_key(x, y)] == Tile { processor: false, slot: i as usize, block: os[i].block }
    } by {
        grid::lemma_key_inverse(x, y);
        if i < others.len() {
            assert(others[i].covers(catalog, x, y));
            assert(tiles.contains_key(tile_key(x, y)));
            if added.contains_key(tile_key(x, y)) {
                assert(place.covers(catalog, x, y));
            }
        }
    }
    assert forall|i: int, x: int, y: int|
        0 <= i < processors.len() && #[trigger] processors[i].covers(catalog, x, y) implies {
        &&& after.contains_key(tile_key(x, y))
        &&& after[tile_key(x, y)] == Tile {
            processor: true,
            slot: i as usize,
            block: processors[i].block,
        }
    } by {
        grid::lemma_key_inverse(x, y);
        assert(tiles.contains_key(tile_key(x, y)));
        if added.contains_key(tile_key(x, y)) {
            assert(place.covers(catalog, x, y));
        }
    }
    assert forall|i: int| 0 <= i < os.len() implies (#[trigger] os[i]).fits(catalog) by {
        if i < others.len() {
            assert(others[i].fits(catalog));
        }
    }
}

/// Whether every building fits the catalog.
fn check_fitting(buildings: &Vec<Building>, catalog: &Catalog) -> (ok: bool)
    ensures
        ok == fitting(places(buildings@), catalog),
{
    let n: usize = buildings.len();
    let mut i: usize = 0;
    while i < n
        invariant
            i <= n == buildings@.len(),
            forall|j: int| 0 <= j < i ==> (#[trigger] places(buildings@)[j]).fits(catalog),
        decreases n - i,
    {
        let b = &buildings[i];
        assert(places(buildings@)[i as int] == b.place());
        if b.block >= catalog.blocks.len() {
            return false;
        }
        let size: i64 = catalog.blocks[b.block].size as i64;
        let limit: i64 = 0x7fff_ffff;
        if b.position.x as i64 + size - 1 > limit || b.position.y as i64 + size - 1 > limit {
            return false;
        }
        i = i + 1;
    }
    true
}

/// Whether every tile that a building covers is a key that names the
/// building, as a processor or as another building, and its block.
fn check_claimed(
    buildings: &Vec<Building>,
    processor: bool,
    tiles: &HashMap<u64, Tile>,
    catalog: &Catalog,
) -> (ok: bool)
    requires
        catalog.wf(),
        fitting(places(buildings@), catalog),
    ensures
        ok == claimed(places(buildings@), processor, tiles@, catalog),
{
    let ghost all = places(buildings@);
    let n: usize = buildings.len();
    let mut i: usize = 0;
    while i < n
        invariant
            i <= n == buildings@.len(),
            all == places(buildings@),
            catalog.wf(),
            fitting(all, catalog),
            forall|j: int, x: int, y: int|
                0 <= j < i && #[trigger] all[j].covers(catalog, x, y) ==> {
                    &&& tiles@.contains_key(tile_key(x, y))
                    &&& tiles@[tile_key(x, y)] == Tile {
                        processor,
                        slot: j as usize,
                        block: all[j].block,
                    }
                },
        decreases n - i,
    {
        let b = &buildings[i];
        assert(all[i as int] == b.place());
        assert(all[i as int].fits(catalog));
        let tile = Tile { processor, slot: i, block: b.block };
        let size: i32 = catalog.blocks[b.block].size;
        if !grid::holds_square(tiles, b.position.x, b.position.y, size, tile) {
            proof {
                if claimed(all, processor, tiles@, catalog) {
                    assert forall|x: int, y: int|
                        grid::in_square(
                            x,
                            y,
                            b.position.x as int,
                            b.position.y as int,
                            size as int,
                        ) implies tiles@.contains_key(#[trigger] tile_key(x, y)) && tiles@[tile_key(
                        x,
                        y,
                    )] == tile by {
                        assert(all[i as int].covers(catalog, x, y));
                    }
                }
            }
            return false;
        }
        i = i + 1;
    }
    true
}

/// Whether every tile names one of the buildings, its block, and lies in
/// the square of that building.
fn check_named(
    processors: &Vec<Building>,
    others: &Vec<Building>,
    tiles: &HashMap<u64, Tile>,
    catalog: &Catalog,
) -> (ok: bool)
    requires
        fitting(places(processors@), catalog),
        fitting(places(others@), catalog),
    ensures
        ok == (forall|k: u64| #[trigger]
            tiles@.contains_key(k) ==> named(
                places(processors@),
                places(others@),
                k,
                tiles@[k],
                catalog,
            )),
{
    broadcast use vstd::std_specs::hash::group_hash_axioms;

    let ghost all = IteratorSpec::remaining(&tiles.iter());
    for pair in iter: tiles.iter()
        invariant
            iter.seq() == all,
            all == IteratorSpec::remaining(&tiles.iter()),
            fitting(places(processors@), catalog),
            fitting(places(others@), catalog),
            forall|j: int|
                0 <= j < iter.index() ==> named(
                    places(processors@),
                    places(others@),
                    *(#[trigger] all[j]).0,
                    *all[j].1,
                    catalog,
                ),
    {
        let (k, t) = pair;
        assert(tiles@.contains_key(*k) && tiles@[*k] == *t);
        let among: &Vec<Building> = if t.processor {
            processors
        } else {
            others
        };
        if t.slot >= among.len() {
            return false;
        }
        let b = &among[t.slot];
        assert(places(among@)[t.slot as int] == b.place());
        assert(places(among@)[t.slot as int].fits(catalog));
        if t.block != b.block {
            return false;
        }
        let size: i64 = catalog.blocks[b.block].size as i64;
        let x: i64 = grid::column_of(*k) as i64;
        let y: i64 = grid::row_of(*k) as i64;
        let x0: i64 = b.position.x as i64;
        let y0: i64 = b.position.y as i64;
        if !(x0 <= x && x < x0 + size && y0 <= y && y < y0 + size) {
            return false;
        }
    }
    assert forall|k: u64| #[trigger] tiles@.contains_key(k) implies named(
        places(processors@),
        places(others@),
        k,
        tiles@[k],
        catalog,
    ) by {
        let i = choose|i: int| 0 <= i < all.len() && all[i] == (&k, &tiles@[k]);
        assert(all[i] == (&k, &tiles@[k]));
    }
    true
}

/// Whether the tiles agree with the buildings.
pub fn check_grid(
    processors: &Vec<Building>,
    others: &Vec<Building>,
    tiles: &HashMap<u64, Tile>,
    catalog: &Catalog,
) -> (ok: bool)
    requires
        catalog.wf(),
    ensures
        ok == grid_wf(places(processors@), places(others@), tiles@, catalog),
{
    check_fitting(processors, catalog) && check_fitting(others, catalog) && check_claimed(
        processors,
        true,
        tiles,
        catalog,
    ) && check_claimed(others, false, tiles, catalog) && check_named(
        processors,
        others,
        tiles,
        catalog,
    )
}

} // verus!
