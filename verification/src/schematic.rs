//! Loading buildings from configurations and schematic tiles.

use crate::building::{
    from_tile, load, loads, Building, ProcessorConfig, ProcessorLink, Schematic, SchematicTile,
    TileConfig,
};
use crate::catalog::{BlockKind, Catalog};
use crate::error::VMLoadError;
use crate::names::position;
use crate::point::Point2;
use crate::processor::Processor;
use crate::unit::FloatUnit;
use crate::vm::LogicVM;
use vstd::prelude::*;
use vstd::string::*;

verus! {

impl Building {
    /// A processor of the block named `name` with the given configuration,
    /// for the machine `vm`.
    ///
    /// A name that the catalog does not hold is an error, and so is the
    /// name of a block that is no processor. Otherwise the result is what
    /// loading the processor gives.
    pub fn from_processor_config<U: FloatUnit>(
        name: &str,
        at: Point2,
        config: &ProcessorConfig,
        vm: &LogicVM<'_, U>,
    ) -> (r: Result<Building, VMLoadError>)
        requires
            vm.wf(),
            position(vm.world.catalog.block_names(), name@) matches Some(i) ==> at.x
                + vm.world.catalog.blocks@[i].size - 1 <= i32::MAX && at.y
                + vm.world.catalog.blocks@[i].size - 1 <= i32::MAX,
        ensures
            r matches Ok(b) ==> b.wf(&vm.world.catalog),
            match position(vm.world.catalog.block_names(), name@) {
                None => r matches Err(VMLoadError::UnknownBlockType(n)) && n@ == name@,
                Some(i) => match vm.world.catalog.blocks@[i].kind {
                    BlockKind::Plain => r matches Err(VMLoadError::BadBlockType { want, got })
                        && want@ == "processor"@ && got@ == name@,
                    BlockKind::Processor(kind) => loads(
                        r,
                        i as usize,
                        kind,
                        at,
                        config.code@,
                        config.links@,
                        &vm.table(),
                        &vm.world.catalog,
                    ),
                },
            },
    {
        let catalog = &vm.world.catalog;
        let block: usize = match catalog.find_block(name) {
            None => {
                return Err(VMLoadError::UnknownBlockType(name.to_owned()));
            },
            Some(block) => block,
        };
        match catalog.blocks[block].kind {
            BlockKind::Plain => Err(
                VMLoadError::BadBlockType { want: "processor".to_owned(), got: name.to_owned() },
            ),
            BlockKind::Processor(kind) => load(
                block,
                kind,
                at,
                config.code.as_str(),
                &config.links,
                vm.globals(),
                catalog,
                &vm.unit,
            ),
        }
    }

    /// The building that a schematic tile denotes, for the machine `vm`.
    pub fn from_schematic_tile<U: FloatUnit>(tile: &SchematicTile, vm: &LogicVM<'_, U>) -> (r:
        Result<Building, VMLoadError>)
        requires
            vm.wf(),
        ensures
            r matches Ok(b) ==> b.wf(&vm.world.catalog),
            from_tile(r, tile, &vm.table(), &vm.world.catalog),
    {
        let catalog = &vm.world.catalog;
        let at = Point2::unpack(tile.position);
        let block: usize = match catalog.find_block(tile.block.as_str()) {
            None => {
                return Err(VMLoadError::UnknownBlockType(tile.block.clone()));
            },
            Some(block) => block,
        };
        match catalog.blocks[block].kind {
            BlockKind::Plain => Ok(Building::unknown(at, block, tile.config.shape())),
            BlockKind::Processor(kind) => match &tile.config {
                TileConfig::Processor(config) => load(
                    block,
                    kind,
                    at,
                    config.code.as_str(),
                    &config.links,
                    vm.globals(),
                    catalog,
                    &vm.unit,
                ),
                _ => {
                    let none: Vec<ProcessorLink> = Vec::new();
                    let r = load(block, kind, at, "", &none, vm.globals(), catalog, &vm.unit);
                    proof {
                        reveal_strlit("");
                        assert(""@ =~= Seq::<char>::empty());
                        assert(none@ =~= Seq::<ProcessorLink>::empty());
                    }
                    r
                },
            },
        }
    }
}

/// Where a machine keeps its buildings, the tiles that were placed into
/// the one were placed into the other.
pub proof fn lemma_same_tiles<U: FloatUnit>(
    start: LogicVM<'_, U>,
    mid: LogicVM<'_, U>,
    end: LogicVM<'_, U>,
    tiles: Seq<SchematicTile>,
)
    requires
        start.with_tiles(&mid, tiles),
        mid.same_buildings(&end),
    ensures
        start.with_tiles(&end, tiles),
{
    if tiles.len() > 0 {
        let before = choose|before: LogicVM<'_, U>|
            start.with_tiles(&before, tiles.drop_last()) && #[trigger] before.with_tile(
                &mid,
                &tiles.last(),
            );
        let b = choose|b: Building|
            {
                &&& #[trigger] from_tile(
                    Ok::<Building, VMLoadError>(b),
                    &tiles.last(),
                    &before.table(),
                    &before.world.catalog,
                )
                &&& before.free_for(b)
                &&& before.with_building(&mid, b)
            };
        assert(before.with_building(&end, b));
        assert(before.with_tile(&end, &tiles.last()));
    }
}

/// A machine that keeps its buildings refuses what it refused.
pub proof fn lemma_refuses_same<U: FloatUnit>(
    mid: LogicVM<'_, U>,
    end: LogicVM<'_, U>,
    tile: &SchematicTile,
    e: VMLoadError,
)
    requires
        mid.refuses(tile, e),
        mid.same_buildings(&end),
    ensures
        end.refuses(tile, e),
{
    if !from_tile(Err::<Building, VMLoadError>(e), tile, &mid.table(), &mid.world.catalog) {
        let b = choose|b: Building|
            {
                &&& #[trigger] from_tile(
                    Ok::<Building, VMLoadError>(b),
                    tile,
                    &mid.table(),
                    &mid.world.catalog,
                )
                &&& e matches VMLoadError::Overlap(p)
                &&& mid.first_clash(b, p)
            };
        assert(from_tile(
            Ok::<Building, VMLoadError>(b),
            tile,
            &end.table(),
            &end.world.catalog,
        ));
        assert(e matches VMLoadError::Overlap(p) && end.first_clash(b, p));
    }
}

impl<'a, U: FloatUnit> LogicVM<'a, U> {
    /// Whether the machine refuses a schematic tile with the error `e`: the
    /// tile denotes no building, or the building that it denotes clashes
    /// at the tile that the error names.
    pub open spec fn refuses(&self, tile: &SchematicTile, e: VMLoadError) -> bool {
        ||| from_tile(Err::<Building, VMLoadError>(e), tile, &self.table(), &self.world.catalog)
        ||| exists|b: Building|
            {
                &&& #[trigger] from_tile(
                    Ok::<Building, VMLoadError>(b),
                    tile,
                    &self.table(),
                    &self.world.catalog,
                )
                &&& e matches VMLoadError::Overlap(p)
                &&& self.first_clash(b, p)
            }
    }

    /// Whether `after` is `self` with the building placed that a schematic
    /// tile denotes.
    pub open spec fn with_tile(&self, after: &Self, tile: &SchematicTile) -> bool {
        exists|b: Building|
            {
                &&& #[trigger] from_tile(
                    Ok::<Building, VMLoadError>(b),
                    tile,
                    &self.table(),
                    &self.world.catalog,
                )
                &&& self.free_for(b)
                &&& self.with_building(after, b)
            }
    }

    /// Whether `after` is `self` with the buildings placed that schematic
    /// tiles denote, one after the other.
    pub open spec fn with_tiles(&self, after: &Self, tiles: Seq<SchematicTile>) -> bool
        decreases tiles.len(),
    {
        if tiles.len() == 0 {
            self.same_buildings(after)
        } else {
            exists|mid: Self|
                self.with_tiles(&mid, tiles.drop_last()) && #[trigger] mid.with_tile(
                    after,
                    &tiles.last(),
                )
        }
    }

    /// Whether `r` is what loading schematic tiles into `self` gives: the
    /// machine with all of them placed, or the error of the first that the
    /// machine with those before it refuses.
    pub open spec fn loaded(
        &self,
        r: Result<Self, VMLoadError>,
        tiles: Seq<SchematicTile>,
    ) -> bool {
        match r {
            Ok(vm) => self.with_tiles(&vm, tiles),
            Err(e) => exists|mid: Self, k: int|
                {
                    &&& 0 <= k < tiles.len()
                    &&& #[trigger] self.with_tiles(&mid, tiles.subrange(0, k))
                    &&& mid.refuses(&tiles[k], e)
                },
        }
    }

    /// Places the building that a schematic tile denotes.
    ///
    /// Where the tile denotes none, or the building would cover a tile
    /// that another covers, the machine keeps its buildings and returns
    /// the error.
    pub fn add_schematic_tile(&mut self, tile: &SchematicTile) -> (r: Result<(), VMLoadError>)
        requires
            old(self).wf(),
        ensures
            final(self).wf(),
            match r {
                Ok(_) => old(self).with_tile(final(self), tile),
                Err(e) => old(self).same_buildings(final(self)) && old(self).refuses(tile, e),
            },
    {
        let building = match Building::from_schematic_tile(tile, self) {
            Ok(building) => building,
            Err(e) => {
                return Err(e);
            },
        };
        let ghost b = building;
        proof {
            assert(from_tile(
                Ok::<Building, VMLoadError>(b),
                tile,
                &old(self).table(),
                &old(self).world.catalog,
            ));
        }
        self.add_building(building)
    }

    /// Places the buildings that schematic tiles denote, one after the
    /// other, up to the first that the machine refuses.
    pub fn add_schematic_tiles(&mut self, tiles: &[SchematicTile]) -> (r: Result<(), VMLoadError>)
        requires
            old(self).wf(),
        ensures
            final(self).wf(),
            match r {
                Ok(_) => old(self).with_tiles(final(self), tiles@),
                Err(e) => exists|k: int|
                    {
                        &&& 0 <= k < tiles@.len()
                        &&& #[trigger] old(self).with_tiles(final(self), tiles@.subrange(0, k))
                        &&& final(self).refuses(&tiles@[k], e)
                    },
            },
    {
        let n: usize = tiles.len();
        let mut i: usize = 0;
        assert(tiles@.subrange(0, 0) =~= Seq::<SchematicTile>::empty());
        while i < n
            invariant
                self.wf(),
                i <= n == tiles@.len(),
                old(self).with_tiles(self, tiles@.subrange(0, i as int)),
            decreases n - i,
        {
            let ghost mid = *self;
            match self.add_schematic_tile(&tiles[i]) {
                Ok(_) => {
                    proof {
                        assert(tiles@.subrange(0, i + 1).drop_last() =~= tiles@.subrange(
                            0,
                            i as int,
                        ));
                        assert(tiles@.subrange(0, i + 1).last() == tiles@[i as int]);
                        assert(mid.with_tile(self, &tiles@[i as int]));
                    }
                },
                Err(e) => {
                    proof {
                        lemma_same_tiles(*old(self), mid, *self, tiles@.subrange(0, i as int));
                        lemma_refuses_same(mid, *self, &tiles@[i as int], e);
                    }
                    return Err(e);
                },
            }
            i = i + 1;
        }
        assert(tiles@.subrange(0, n as int) =~= tiles@);
        Ok(())
    }

    /// A machine with the buildings that schematic tiles denote.
    pub fn from_schematic_tiles(tiles: &[SchematicTile], catalog: Catalog, unit: U) -> (r: Result<
        Self,
        VMLoadError,
    >)
        requires
            catalog.wf(),
        ensures
            r matches Ok(vm) ==> vm.wf(),
            exists|empty: Self| #[trigger] empty.is_new(catalog, unit) && empty.loaded(r, tiles@),
    {
        let mut vm = Self::new(catalog, unit);
        let ghost empty = vm;
        let r = match vm.add_schematic_tiles(tiles) {
            Ok(_) => Ok(vm),
            Err(e) => Err(e),
        };
        proof {
            assert(empty.is_new(catalog, unit));
            assert(empty.loaded(r, tiles@));
        }
        r
    }

    /// A machine with the buildings of a schematic.
    pub fn from_schematic(schematic: &Schematic, catalog: Catalog, unit: U) -> (r: Result<
        Self,
        VMLoadError,
    >)
        requires
            catalog.wf(),
        ensures
            r matches Ok(vm) ==> vm.wf(),
            exists|empty: Self|
                #[trigger] empty.is_new(catalog, unit) && empty.loaded(r, schematic.tiles@),
    {
        Self::from_schematic_tiles(schematic.tiles().as_slice(), catalog, unit)
    }
}

} // verus!
