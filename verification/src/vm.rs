//! The machine: a grid of buildings, the processors among them, and the
//! clock that they share.

use crate::building::{Building, BuildingData};
use crate::catalog::Catalog;
use crate::{clock, grid};
use crate::error::VMLoadError;
use crate::layout::{check_grid, grid_wf, lemma_grid_add_other, lemma_grid_add_processor, places};
use crate::point::{tile_key, Point2};
use crate::processor::Processor;
use crate::running::{
    check_buildings, count_running, lemma_running_bounds, lemma_running_prefix,
    lemma_running_update, running_among,
};
use crate::unit::FloatUnit;
use crate::variables::Globals;
use crate::world::{Clock, Tile, World};
use std::borrow::Cow;
use std::collections::HashMap;
use std::time::Instant;
use vstd::prelude::*;

verus! {

/// A machine.
///
/// The buildings are the processors, in the order in which they were
/// added, and then the other buildings, in the order in which they were
/// added: a building keeps its place among its like for the life of the
/// machine.
pub struct LogicVM<'a, U: FloatUnit> {
    pub processors: Vec<Building>,
    pub others: Vec<Building>,
    pub world: World,
    /// The number of processors that have not stopped.
    pub running_processors: usize,
    /// The globals, the machine's own or another's.
    pub globals: Cow<'a, Globals>,
    pub unit: U,
}

/// The time after a tick of `delta` nanoseconds: a negative delta counts
/// as none, and the clock stays at its end once it has reached it.
pub open spec fn advanced(time: u64, delta: i64) -> u64 {
    if delta <= 0 {
        time
    } else if time + delta > u64::MAX {
        u64::MAX
    } else {
        (time + delta) as u64
    }
}

/// The table that a handle holds.
pub open spec fn table_of(globals: Cow<'_, Globals>) -> Globals {
    match globals {
        Cow::Borrowed(g) => *g,
        Cow::Owned(g) => g,
    }
}

impl<'a, U: FloatUnit> LogicVM<'a, U> {
    /// The globals of the machine.
    pub open spec fn table(&self) -> Globals {
        table_of(self.globals)
    }

    /// The globals of the machine.
    pub fn globals(&self) -> (g: &Globals)
        ensures
            *g == self.table(),
    {
        match &self.globals {
            Cow::Borrowed(g) => g,
            Cow::Owned(g) => g,
        }
    }

    /// The number of processors.
    pub open spec fn total_processors(&self) -> nat {
        self.processors@.len()
    }

    /// All buildings: the processors first, then the others.
    pub open spec fn buildings(&self) -> Seq<Building> {
        self.processors@ + self.others@
    }

    /// The time of the machine, in nanoseconds.
    pub open spec fn time(&self) -> u64 {
        self.world.time
    }

    /// The machine is well formed: the world and the globals are, the
    /// clock shows the time, the processors are exactly the first
    /// buildings, every building is well formed, the tiles agree with the
    /// buildings, and the count of running processors is true.
    pub open spec fn wf(&self) -> bool {
        &&& self.world.wf()
        &&& self.world.clock == Clock::at(self.world.time)
        &&& self.table().wf()
        &&& forall|i: int|
            0 <= i < self.processors@.len() ==> (#[trigger] self.processors@[i]).wf(
                &self.world.catalog,
            ) && self.processors@[i].is_processor()
        &&& forall|i: int|
            0 <= i < self.others@.len() ==> (#[trigger] self.others@[i]).wf(&self.world.catalog)
                && !self.others@[i].is_processor()
        &&& grid_wf(
            places(self.processors@),
            places(self.others@),
            self.world.tiles@,
            &self.world.catalog,
        )
        &&& self.running_processors == running_among(
            self.processors@,
            self.processors@.len() as int,
        )
    }

    /// Whether the machine is well formed.
    pub fn check(&self) -> (ok: bool)
        ensures
            ok == self.wf(),
    {
        if !self.world.catalog.check() || !self.world.clock.check() || !self.world.clock.shows(
            self.world.time,
        ) || !self.globals().check() {
            return false;
        }
        let catalog = &self.world.catalog;
        if !check_buildings(&self.processors, true, catalog) || !check_buildings(
            &self.others,
            false,
            catalog,
        ) {
            return false;
        }
        if !check_grid(&self.processors, &self.others, &self.world.tiles, catalog) {
            return false;
        }
        assert(self.world.wf()) by {
            assert forall|k: u64| #[trigger] self.world.tiles@.contains_key(k) implies
                self.world.tiles@[k].block < catalog.blocks@.len() by {
                let t = self.world.tiles@[k];
                if t.processor {
                    assert(places(self.processors@)[t.slot as int].fits(catalog));
                } else {
                    assert(places(self.others@)[t.slot as int].fits(catalog));
                }
            }
        }
        count_running(&self.processors) == self.running_processors
    }

    /// Whether a building covers the tile at `p`.
    pub open spec fn covered(&self, p: Point2) -> bool {
        exists|i: int|
            0 <= i < self.buildings().len() && (#[trigger] self.buildings()[i]).place().covers(
                &self.world.catalog,
                p.x as int,
                p.y as int,
            )
    }

    /// An empty machine at time 0, with globals of its own or of another.
    pub fn new_with_globals(globals: Cow<'a, Globals>, catalog: Catalog, unit: U) -> (vm: Self)
        requires
            table_of(globals).wf(),
            catalog.wf(),
        ensures
            vm.wf(),
            vm.processors@.len() == 0,
            vm.others@.len() == 0,
            vm.world.tiles@ == Map::<u64, Tile>::empty(),
            vm.world.catalog == catalog,
            vm.world.time == 0,
            vm.running_processors == 0,
            vm.globals == globals,
            vm.unit == unit,
    {
        broadcast use vstd::std_specs::hash::group_hash_axioms;

        LogicVM {
            processors: Vec::new(),
            others: Vec::new(),
            world: World {
                tiles: HashMap::new(),
                catalog,
                time: 0,
                clock: Clock::read(0),
            },
            running_processors: 0,
            globals,
            unit,
        }
    }

    /// Whether the machine is empty, at time 0, with the globals of its catalog.
    pub open spec fn is_new(&self, catalog: Catalog, unit: U) -> bool {
        &&& self.wf()
        &&& self.processors@.len() == 0
        &&& self.others@.len() == 0
        &&& self.world.tiles@ == Map::<u64, Tile>::empty()
        &&& self.world.catalog == catalog
        &&& self.world.time == 0
        &&& self.running_processors == 0
        &&& self.table().pairs() == crate::variables::standard_globals(&catalog)
        &&& self.unit == unit
    }

    /// An empty machine at time 0, with the globals of the catalog.
    pub fn new(catalog: Catalog, unit: U) -> (vm: Self)
        requires
            catalog.wf(),
        ensures
            vm.is_new(catalog, unit),
    {
        let globals = Globals::create(&catalog);
        Self::new_with_globals(Cow::Owned(globals), catalog, unit)
    }
}

/// Whether a tick at the time of `world` leads from one building to another:
/// the building stays where it is, and the processor in it has run a tick.
pub open spec fn ticked(before: Building, after: Building, world: &World) -> bool {
    &&& after.position == before.position
    &&& after.block == before.block
    &&& match (before.data, after.data) {
        (BuildingData::Processor(p), BuildingData::Processor(q)) => q.ticked(&p, world),
        _ => false,
    }
}

impl<'a, U: FloatUnit> LogicVM<'a, U> {
    /// The tile that names `building` once it is placed.
    pub open spec fn tile_for(&self, building: Building) -> Tile {
        Tile {
            processor: building.is_processor(),
            slot: if building.is_processor() {
                self.processors@.len() as usize
            } else {
                self.others@.len() as usize
            },
            block: building.block,
        }
    }

    /// Whether no building covers a tile that `building` would cover.
    pub open spec fn free_for(&self, building: Building) -> bool {
        forall|x: int, y: int|
            building.place().covers(&self.world.catalog, x, y) ==> !self.world.tiles@.contains_key(
                #[trigger] tile_key(x, y),
            )
    }

    /// Whether `p` is the first tile that `building` would cover and that
    /// another building covers, going through the square of the building
    /// column by column and each column upward.
    pub open spec fn first_clash(&self, building: Building, p: Point2) -> bool {
        &&& building.place().covers(&self.world.catalog, p.x as int, p.y as int)
        &&& self.world.occupied(p)
        &&& forall|x: int, y: int|
            building.place().covers(&self.world.catalog, x, y) && grid::walked_before(
                x,
                y,
                p.x as int,
                p.y as int,
            ) ==> !self.world.tiles@.contains_key(#[trigger] tile_key(x, y))
    }

    /// Whether `after` is `self` with `building` placed: a processor as
    /// the last of the processors, any other building as the last of the
    /// others, each tile of its square naming it.
    pub open spec fn with_building(&self, after: &Self, building: Building) -> bool {
        &&& after.world.catalog == self.world.catalog
        &&& after.world.time == self.world.time
        &&& after.world.clock == self.world.clock
        &&& after.globals == self.globals
        &&& after.unit == self.unit
        &&& building.is_processor() ==> after.processors@ == self.processors@.push(building)
            && after.others@ == self.others@
        &&& !building.is_processor() ==> after.others@ == self.others@.push(building)
            && after.processors@ == self.processors@
        &&& after.world.tiles@ == self.world.tiles@.union_prefer_right(
            grid::square(
                building.position.x as int,
                building.position.y as int,
                self.world.catalog.blocks@[building.block as int].size as int,
                self.tile_for(building),
            ),
        )
        &&& after.running_processors == self.running_processors + if building.running() {
            1int
        } else {
            0
        }
    }

    /// Whether `after` holds the buildings of `self` and no others.
    pub open spec fn same_buildings(&self, after: &Self) -> bool {
        &&& after.world.catalog == self.world.catalog
        &&& after.world.time == self.world.time
        &&& after.world.clock == self.world.clock
        &&& after.globals == self.globals
        &&& after.unit == self.unit
        &&& after.processors@ == self.processors@
        &&& after.others@ == self.others@
        &&& after.world.tiles@ == self.world.tiles@
        &&& after.running_processors == self.running_processors
    }

    /// Places a building, unless it would cover a tile that another
    /// building covers: then the machine stays as it is, and the error
    /// names the first such tile.
    pub fn add_building(&mut self, building: Building) -> (r: Result<(), VMLoadError>)
        requires
            old(self).wf(),
            building.wf(&old(self).world.catalog),
        ensures
            final(self).wf(),
            match r {
                Ok(_) => old(self).free_for(building) && old(self).with_building(
                    final(self),
                    building,
                ),
                Err(e) => e matches VMLoadError::Overlap(p) && old(self).first_clash(building, p)
                    && old(self).same_buildings(final(self)),
            },
    {
        let position = building.position;
        let block: usize = building.block;
        let size: i32 = self.world.catalog.blocks[block].size;
        match grid::first_occupied(&self.world.tiles, position.x, position.y, size) {
            Some(p) => {
                return Err(VMLoadError::Overlap(p));
            },
            None => {},
        }
        let running: bool = match &building.data {
            BuildingData::Processor(p) => p.enabled(),
            BuildingData::Unknown { .. } => false,
        };
        let is_processor: bool = match &building.data {
            BuildingData::Processor(_) => true,
            BuildingData::Unknown { .. } => false,
        };
        let ghost place = building.place();
        let processors: usize = self.processors.len();
        let others: usize = self.others.len();
        if is_processor {
            let slot: usize = processors;
            grid::cover(
                &mut self.world.tiles,
                position.x,
                position.y,
                size,
                Tile { processor: true, slot, block },
            );
            self.processors.push(building);
            let grown: usize = self.processors.len();
            proof {
                lemma_grid_add_processor(
                    places(old(self).processors@),
                    places(old(self).others@),
                    old(self).world.tiles@,
                    &old(self).world.catalog,
                    place,
                );
                assert(places(self.processors@) =~= places(old(self).processors@).push(place));
                lemma_running_prefix(old(self).processors@, self.processors@, slot as int);
                lemma_running_bounds(old(self).processors@, slot as int);
            }
            assert(self.running_processors < grown);
            if running {
                self.running_processors = self.running_processors + 1;
            }
        } else {
            let slot: usize = others;
            grid::cover(
                &mut self.world.tiles,
                position.x,
                position.y,
                size,
                Tile { processor: false, slot, block },
            );
            self.others.push(building);
            proof {
                lemma_grid_add_other(
                    places(old(self).processors@),
                    places(old(self).others@),
                    old(self).world.tiles@,
                    &old(self).world.catalog,
                    place,
                );
                assert(places(self.others@) =~= places(old(self).others@).push(place));
            }
        }
        Ok(())
    }

    /// The building that covers the tile at `position`, if one does.
    pub fn building(&self, position: Point2) -> (r: Option<&Building>)
        requires
            self.wf(),
        ensures
            match r {
                Some(b) => {
                    &&& b.place().covers(&self.world.catalog, position.x as int, position.y as int)
                    &&& exists|i: int|
                        0 <= i < self.buildings().len() && #[trigger] self.buildings()[i] == *b
                },
                None => !self.covered(position),
            },
    {
        proof {
            grid::lemma_key_inverse(position.x as int, position.y as int);
        }
        match self.world.tile(position) {
            Some(t) => {
                if t.processor {
                    let b = &self.processors[t.slot];
                    assert(places(self.processors@)[t.slot as int] == b.place());
                    assert(self.buildings()[t.slot as int] == *b);
                    Some(b)
                } else {
                    let b = &self.others[t.slot];
                    assert(places(self.others@)[t.slot as int] == b.place());
                    assert(self.buildings()[self.processors@.len() + t.slot] == *b);
                    Some(b)
                }
            },
            None => {
                assert forall|i: int| 0 <= i < self.buildings().len() implies !(
                #[trigger] self.buildings()[i]).place().covers(
                    &self.world.catalog,
                    position.x as int,
                    position.y as int,
                ) by {
                    if i < self.processors@.len() {
                        assert(places(self.processors@)[i] == self.buildings()[i].place());
                    } else {
                        let j = i - self.processors@.len();
                        assert(places(self.others@)[j] == self.buildings()[i].place());
                    }
                }
                None
            },
        }
    }
}

/// Where a machine keeps its buildings, what was placed into the one was
/// placed into the other.
pub proof fn lemma_same_buildings<U: FloatUnit>(
    start: LogicVM<'_, U>,
    mid: LogicVM<'_, U>,
    end: LogicVM<'_, U>,
    buildings: Seq<Building>,
)
    requires
        start.with_buildings(&mid, buildings),
        mid.same_buildings(&end),
    ensures
        start.with_buildings(&end, buildings),
{
    if buildings.len() > 0 {
        let before = choose|before: LogicVM<'_, U>|
            {
                &&& start.with_buildings(&before, buildings.drop_last())
                &&& before.free_for(buildings.last())
                &&& #[trigger] before.with_building(&mid, buildings.last())
            };
        assert(before.with_building(&end, buildings.last()));
    }
}

impl<'a, U: FloatUnit> LogicVM<'a, U> {
    /// Whether `after` is `self` some ticks later: the time has not gone
    /// back, and the buildings stand where they stood.
    pub open spec fn later(&self, after: &Self) -> bool {
        &&& after.world.time >= self.world.time
        &&& after.world.tiles@ == self.world.tiles@
        &&& after.world.catalog == self.world.catalog
        &&& after.globals == self.globals
        &&& after.others@ == self.others@
        &&& after.processors@.len() == self.processors@.len()
        &&& forall|i: int|
            0 <= i < self.processors@.len() ==> {
                &&& (#[trigger] after.processors@[i]).place() == self.processors@[i].place()
                &&& self.processors@[i].data matches BuildingData::Processor(p)
                &&& after.processors@[i].data matches BuildingData::Processor(q)
                &&& q.core == p.core
            }
    }

    /// Whether `after` is `self` one tick of `delta` nanoseconds later: the
    /// time has moved on by `delta`, a negative delta counting as none,
    /// the clock shows the new time, every processor has run a tick at the
    /// new time, and the buildings stand where they stood.
    pub open spec fn tick_of(&self, after: &Self, delta: i64) -> bool {
        &&& after.wf()
        &&& after.world.time == advanced(self.world.time, delta)
        &&& after.world.clock == Clock::at(after.world.time)
        &&& self.later(after)
        &&& after.unit == self.unit
        &&& forall|i: int|
            0 <= i < self.processors@.len() ==> ticked(
                self.processors@[i],
                #[trigger] after.processors@[i],
                &after.world,
            )
        &&& after.running_processors <= self.running_processors
    }

    /// Whether `after` is `self` after `n` ticks, none of which but the
    /// last left every processor stopped, and each of which moved the
    /// time on by what had passed, which is never negative.
    pub open spec fn ticks_of(&self, after: &Self, n: nat) -> bool
        decreases n,
    {
        if n == 0 {
            after == self
        } else {
            exists|mid: Self, delta: i64|
                {
                    &&& self.ticks_of(&mid, (n - 1) as nat)
                    &&& n > 1 ==> mid.running_processors != 0
                    &&& delta >= 0
                    &&& #[trigger] mid.tick_of(after, delta)
                }
        }
    }

    /// Runs one tick: moves the time on by `delta` nanoseconds, a negative
    /// delta counting as none, and then runs every processor for one tick
    /// at the new time, in the order of the processors.
    pub fn do_tick(&mut self, delta: i64)
        requires
            old(self).wf(),
        ensures
            old(self).tick_of(final(self), delta),
    {
        if delta > 0 {
            let step: u64 = delta as u64;
            self.world.time = if step > u64::MAX - self.world.time {
                u64::MAX
            } else {
                self.world.time + step
            };
        }
        self.world.clock = Clock::read(self.world.time);
        let n: usize = self.processors.len();
        let mut i: usize = 0;
        assert(places(self.processors@) =~= places(old(self).processors@));
        while i < n
            invariant
                i <= n == old(self).processors@.len(),
                self.processors@.len() == n,
                self.world.wf(),
                self.table().wf(),
                self.world.time == advanced(old(self).world.time, delta),
                self.world.clock == Clock::at(self.world.time),
                self.world.tiles@ == old(self).world.tiles@,
                self.world.catalog == old(self).world.catalog,
                self.globals == old(self).globals,
                self.unit == old(self).unit,
                self.others@ == old(self).others@,
                self.running_processors == running_among(self.processors@, n as int),
                self.running_processors <= old(self).running_processors,
                forall|j: int|
                    0 <= j < n ==> (#[trigger] self.processors@[j]).wf(&self.world.catalog)
                        && self.processors@[j].is_processor() && self.processors@[j].place() == old(
                        self,
                    ).processors@[j].place(),
                forall|j: int|
                    0 <= j < i ==> ticked(
                        old(self).processors@[j],
                        #[trigger] self.processors@[j],
                        &self.world,
                    ),
                forall|j: int|
                    i <= j < n ==> #[trigger] self.processors@[j] == old(self).processors@[j],
            decreases n - i,
        {
            let ghost before = self.processors@;
            let mut was: bool = false;
            let mut now: bool = false;
            let building = &mut self.processors[i];
            match &mut building.data {
                BuildingData::Processor(p) => {
                    was = p.enabled();
                    p.do_tick(&self.world, &self.unit);
                    now = p.enabled();
                },
                BuildingData::Unknown { .. } => {},
            }
            proof {
                lemma_running_update(before, self.processors@, i as int, n as int);
                lemma_running_bounds(self.processors@, n as int);
            }
            if was && !now {
                self.running_processors = self.running_processors - 1;
            }
            i = i + 1;
        }
        assert(places(self.processors@) =~= places(old(self).processors@));
    }

    /// Runs ticks until every processor has stopped, and returns true; or
    /// until `max_ticks` ticks are done, and returns false. At least one
    /// tick is run, each with the time that has passed since the one
    /// before. Without a limit the run ends after `usize::MAX` ticks.
    pub fn run(&mut self, max_ticks: Option<usize>) -> (halted: bool)
        requires
            old(self).wf(),
        ensures
            final(self).wf(),
            halted <==> final(self).running_processors == 0,
            exists|n: nat|
                {
                    &&& #[trigger] old(self).ticks_of(final(self), n)
                    &&& 1 <= n
                    &&& n == 1 || n <= match max_ticks {
                        Some(m) => m,
                        None => usize::MAX,
                    }
                    &&& !halted ==> n >= match max_ticks {
                        Some(m) => m,
                        None => usize::MAX,
                    }
                },
    {
        let limit: usize = match max_ticks {
            Some(m) => m,
            None => usize::MAX,
        };
        let mut now: Instant = Instant::now();
        let mut tick: usize = 0;
        loop
            invariant
                self.wf(),
                old(self).ticks_of(self, tick as nat),
                tick > 0 ==> self.running_processors != 0,
                tick < limit || tick == 0,
                limit == match max_ticks {
                    Some(m) => m,
                    None => usize::MAX,
                },
            decreases limit - tick,
        {
            let ghost mid = *self;
            let delta: i64 = clock::nanos_since(&now);
            self.do_tick(delta);
            now = Instant::now();
            proof {
                assert(mid.tick_of(self, delta));
                assert(old(self).ticks_of(self, (tick + 1) as nat));
            }
            if self.running_processors == 0 {
                return true;
            }
            tick = tick + 1;
            if tick >= limit {
                return false;
            }
        }
    }

    /// Whether `after` is `self` with `buildings` placed one after the other.
    pub open spec fn with_buildings(&self, after: &Self, buildings: Seq<Building>) -> bool
        decreases buildings.len(),
    {
        if buildings.len() == 0 {
            self.same_buildings(after)
        } else {
            exists|mid: Self|
                {
                    &&& self.with_buildings(&mid, buildings.drop_last())
                    &&& mid.free_for(buildings.last())
                    &&& #[trigger] mid.with_building(after, buildings.last())
                }
        }
    }

    /// Places buildings one after the other, up to the first that cannot
    /// be placed: the error names the first tile at which it clashes with
    /// those that stand.
    pub fn add_buildings(&mut self, buildings: Vec<Building>) -> (r: Result<(), VMLoadError>)
        requires
            old(self).wf(),
            forall|i: int|
                0 <= i < buildings@.len() ==> (#[trigger] buildings@[i]).wf(
                    &old(self).world.catalog,
                ),
        ensures
            final(self).wf(),
            match r {
                Ok(_) => old(self).with_buildings(final(self), buildings@),
                Err(e) => exists|k: int|
                    {
                        &&& 0 <= k < buildings@.len()
                        &&& #[trigger] old(self).with_buildings(
                            final(self),
                            buildings@.subrange(0, k),
                        )
                        &&& e matches VMLoadError::Overlap(p)
                        &&& final(self).first_clash(buildings@[k], p)
                    },
            },
    {
        let ghost all = buildings@;
        assert(all.subrange(0, 0) =~= Seq::<Building>::empty());
        for building in iter: buildings
            invariant
                self.wf(),
                self.world.catalog == old(self).world.catalog,
                iter.seq() == all,
                forall|j: int| 0 <= j < all.len() ==> (#[trigger] all[j]).wf(&self.world.catalog),
                old(self).with_buildings(self, all.subrange(0, iter.index() as int)),
        {
            let ghost mid = *self;
            let ghost k = iter.index() as int;
            let placed = self.add_building(building);
            match placed {
                Ok(_) => {
                    proof {
                        assert(all.subrange(0, k + 1).drop_last() =~= all.subrange(0, k));
                        assert(all.subrange(0, k + 1).last() == building);
                        assert(mid.with_building(self, building));
                    }
                },
                Err(e) => {
                    proof {
                        assert(mid.same_buildings(self));
                        lemma_same_buildings(*old(self), mid, *self, all.subrange(0, k));
                    }
                    return Err(e);
                },
            }
        }
        assert(all.subrange(0, all.len() as int) =~= all);
        Ok(())
    }

    /// Whether `after` is `self` with the state of the processor at
    /// `index` replaced by `state`, and the count of running processors
    /// kept true.
    pub open spec fn with_state(
        &self,
        after: &Self,
        index: int,
        state: crate::model::State,
    ) -> bool {
        &&& self.later(after)
        &&& after.world.time == self.world.time
        &&& after.world.clock == self.world.clock
        &&& after.processors@[index].data matches BuildingData::Processor(q)
        &&& q.state@ == state
        &&& forall|i: int|
            0 <= i < self.processors@.len() && i != index ==> after.processors@[i]
                == self.processors@[i]
        &&& after.running_processors == running_among(
            after.processors@,
            after.processors@.len() as int,
        )
    }

    /// Stops the processor at `index`, or lets it run again.
    pub fn set_stopped(&mut self, index: usize, stopped: bool)
        requires
            old(self).wf(),
            index < old(self).processors@.len(),
        ensures
            final(self).wf(),
            old(self).processors@[index as int].data matches BuildingData::Processor(p)
                && old(self).with_state(
                final(self),
                index as int,
                crate::model::State { stopped, ..p.state@ },
            ),
    {
        let n: usize = self.processors.len();
        let ghost before = self.processors@;
        let mut was: bool = false;
        let building = &mut self.processors[index];
        match &mut building.data {
            BuildingData::Processor(p) => {
                was = p.stopped();
                p.set_stopped(stopped);
            },
            BuildingData::Unknown { .. } => {},
        }
        proof {
            lemma_running_update(before, self.processors@, index as int, n as int);
            lemma_running_bounds(self.processors@, n as int);
            lemma_running_bounds(before, n as int);
            assert(places(self.processors@) =~= places(before));
        }
        if was && !stopped {
            self.running_processors = self.running_processors + 1;
        } else if !was && stopped {
            self.running_processors = self.running_processors - 1;
        }
    }

    /// Moves the counter of the processor at `index` to the instruction
    /// that `counter` names: the remainder of `counter` by the length of
    /// the program.
    pub fn set_counter(&mut self, index: usize, counter: usize)
        requires
            old(self).wf(),
            index < old(self).processors@.len(),
        ensures
            final(self).wf(),
            old(self).processors@[index as int].data matches BuildingData::Processor(p)
                && old(self).with_state(
                final(self),
                index as int,
                crate::model::State {
                    counter: if p.core.program.instructions@.len() == 0 {
                        0
                    } else {
                        (counter as int % p.core.program.instructions@.len() as int) as usize
                    },
                    ..p.state@
                },
            ),
    {
        let n: usize = self.processors.len();
        let ghost before = self.processors@;
        let building = &mut self.processors[index];
        match &mut building.data {
            BuildingData::Processor(p) => {
                p.set_counter(counter);
            },
            BuildingData::Unknown { .. } => {},
        }
        proof {
            lemma_running_update(before, self.processors@, index as int, n as int);
            assert(places(self.processors@) =~= places(before));
        }
    }

    /// The processor at `index` among the processors.
    pub fn processor(&self, index: usize) -> (p: &Processor)
        requires
            self.wf(),
            index < self.processors@.len(),
        ensures
            self.processors@[index as int].data == BuildingData::Processor(*p),
            p.wf(),
    {
        match &self.processors[index].data {
            BuildingData::Processor(p) => p,
            BuildingData::Unknown { .. } => vstd::pervasive::unreached(),
        }
    }
}

impl<'a, U: FloatUnit + Default> Default for LogicVM<'a, U> {
    /// An empty machine at time 0 for a catalog without content.
    fn default() -> (vm: Self)
        ensures
            exists|unit: U| vm.is_new(vm.world.catalog, unit),
            vm.world.catalog.blocks@.len() == 0,
            vm.world.catalog.items@.len() == 0,
            vm.world.catalog.liquids@.len() == 0,
            vm.world.catalog.units@.len() == 0,
            vm.world.catalog.colors@.len() == 0,
    {
        let catalog = Catalog {
            blocks: Vec::new(),
            items: Vec::new(),
            liquids: Vec::new(),
            units: Vec::new(),
            colors: Vec::new(),
        };
        let vm = Self::new(catalog, U::default());
        assert(vm.is_new(vm.world.catalog, vm.unit));
        vm
    }
}

} // verus!
