//! Buildings, and the schematic tiles that they are made from.

use crate::catalog::{BlockKind, Catalog, ProcessorKind};
use crate::decoder::{decode, decodes, linked, links_draft};
use crate::error::{message, message_of, DecodeFault, VMLoadError};
use crate::names::position;
use crate::point::{PackedPoint2, Point2};
use crate::processor::Processor;
use crate::program::Program;
use crate::unit::FloatUnit;
use crate::variables::Globals;
use vstd::prelude::*;

verus! {

/// A building that a processor is linked to: the name of the variable
/// that holds it, and where it stands relative to the processor.
#[derive(Clone, Debug)]
pub struct ProcessorLink {
    pub name: String,
    pub x: i16,
    pub y: i16,
}

/// The configuration of a processor: its code and its links.
#[derive(Clone, Debug)]
pub struct ProcessorConfig {
    pub code: String,
    pub links: Vec<ProcessorLink>,
}

/// The configuration that a schematic gives a tile.
#[derive(Clone, Debug)]
pub enum TileConfig {
    /// None at all.
    Empty,
    /// That of a processor.
    Processor(ProcessorConfig),
    /// Something that the machine does not simulate.
    Other,
}

/// One block of a schematic.
#[derive(Clone, Debug)]
pub struct SchematicTile {
    pub block: String,
    pub position: PackedPoint2,
    pub config: TileConfig,
    pub rotation: u8,
}

/// A schematic: the blocks to place.
#[derive(Clone, Debug)]
pub struct Schematic {
    pub tiles: Vec<SchematicTile>,
}

/// The shape of a configuration.
#[derive(Clone, Copy, Debug, PartialEq, Eq, Structural)]
pub enum ConfigShape {
    Empty,
    Processor,
    Other,
}

/// What a building is to the machine: a processor, or something that is
/// not simulated, of which the shape of its configuration is kept.
#[derive(Clone, Debug)]
pub enum BuildingData {
    Processor(Processor),
    Unknown { config: ConfigShape },
}

/// A block placed on the grid. It covers the square whose least corner is
/// `position` and whose edge is the size of the block.
#[derive(Clone, Debug)]
pub struct Building {
    pub position: Point2,
    /// The index of the block in the catalog.
    pub block: usize,
    pub data: BuildingData,
}

/// Where a building stands and what block it is of.
#[derive(Clone, Copy, Debug, PartialEq, Eq, Structural)]
pub struct Place {
    pub position: Point2,
    pub block: usize,
}

impl Place {
    /// The block is of the catalog, and the square lies within the
    /// coordinates that a point can hold.
    pub open spec fn fits(self, catalog: &Catalog) -> bool {
        &&& self.block < catalog.blocks@.len()
        &&& self.position.x + catalog.blocks@[self.block as int].size - 1 <= i32::MAX
        &&& self.position.y + catalog.blocks@[self.block as int].size - 1 <= i32::MAX
    }

    /// Whether the building covers the tile `(x, y)`.
    pub open spec fn covers(self, catalog: &Catalog, x: int, y: int) -> bool {
        crate::grid::in_square(
            x,
            y,
            self.position.x as int,
            self.position.y as int,
            catalog.blocks@[self.block as int].size as int,
        )
    }
}

impl ProcessorConfig {
    /// The configuration of a processor with the given code and no links.
    pub fn from_code(code: &str) -> (c: ProcessorConfig)
        ensures
            c.code@ == code@,
            c.links@.len() == 0,
    {
        ProcessorConfig { code: code.to_owned(), links: Vec::new() }
    }
}

impl Schematic {
    /// The tiles of the schematic.
    pub fn tiles(&self) -> (t: &Vec<SchematicTile>)
        ensures
            t == &self.tiles,
    {
        &self.tiles
    }
}

impl Building {
    /// Where the building stands and what block it is of.
    pub open spec fn place(&self) -> Place {
        Place { position: self.position, block: self.block }
    }

    /// Whether the building is a processor.
    pub open spec fn is_processor(&self) -> bool {
        self.data is Processor
    }

    /// Whether the building is a processor that has not stopped.
    pub open spec fn running(&self) -> bool {
        self.data matches BuildingData::Processor(p) && !p.state.stopped
    }

    /// The building fits the catalog, and a processor in it is well
    /// formed and knows where it stands.
    pub open spec fn wf(&self, catalog: &Catalog) -> bool {
        &&& self.place().fits(catalog)
        &&& self.data matches BuildingData::Processor(p) ==> p.wf() && p.core.position
            == self.position
    }

    /// Whether the building is well formed for a catalog.
    pub fn check(&self, catalog: &Catalog) -> (ok: bool)
        requires
            catalog.wf(),
        ensures
            ok == self.wf(catalog),
    {
        if self.block >= catalog.blocks.len() {
            return false;
        }
        let size: i32 = catalog.blocks[self.block].size;
        if self.position.x > i32::MAX - size + 1 || self.position.y > i32::MAX - size + 1 {
            return false;
        }
        match &self.data {
            BuildingData::Processor(p) => p.check() && p.core.position.x == self.position.x
                && p.core.position.y == self.position.y,
            BuildingData::Unknown { .. } => true,
        }
    }

    /// A building that is not simulated.
    pub fn unknown(position: Point2, block: usize, config: ConfigShape) -> (b: Building)
        ensures
            b.position == position,
            b.block == block,
            b.data == (BuildingData::Unknown { config }),
    {
        Building { position, block, data: BuildingData::Unknown { config } }
    }

    /// A building that holds a processor.
    pub fn processor(position: Point2, block: usize, processor: Processor) -> (b: Building)
        ensures
            b.position == position,
            b.block == block,
            b.data == BuildingData::Processor(processor),
    {
        Building { position, block, data: BuildingData::Processor(processor) }
    }
}


impl TileConfig {
    /// The shape of the configuration.
    pub open spec fn shape_spec(&self) -> ConfigShape {
        match self {
            TileConfig::Empty => ConfigShape::Empty,
            TileConfig::Processor(_) => ConfigShape::Processor,
            TileConfig::Other => ConfigShape::Other,
        }
    }

    /// The shape of the configuration.
    #[verifier::when_used_as_spec(shape_spec)]
    pub fn shape(&self) -> (s: ConfigShape)
        ensures
            s == self.shape_spec(),
    {
        match self {
            TileConfig::Empty => ConfigShape::Empty,
            TileConfig::Processor(_) => ConfigShape::Processor,
            TileConfig::Other => ConfigShape::Other,
        }
    }

    /// The code that the configuration gives a processor: none, unless it
    /// is the configuration of a processor.
    pub open spec fn code(&self) -> Seq<char> {
        match self {
            TileConfig::Processor(c) => c.code@,
            _ => Seq::empty(),
        }
    }

    /// The links that the configuration gives a processor.
    pub open spec fn links(&self) -> Seq<ProcessorLink> {
        match self {
            TileConfig::Processor(c) => c.links@,
            _ => Seq::empty(),
        }
    }
}

/// Whether `r` is what loading a processor gives, for some answers of the
/// unit: a building of the block at the position, with a processor of the
/// kind at the start of the program that the code denotes; or the message
/// of the fault of the code.
pub open spec fn loads(
    r: Result<Building, VMLoadError>,
    block: usize,
    kind: ProcessorKind,
    at: Point2,
    code: Seq<char>,
    links: Seq<ProcessorLink>,
    globals: &Globals,
    catalog: &Catalog,
) -> bool {
    match r {
        Ok(b) => {
            &&& b.position == at
            &&& b.block == block
            &&& b.data matches BuildingData::Processor(p)
            &&& p.wf()
            &&& p.starts(p.core.program, kind, at)
            &&& decodes(
                code,
                links_draft(at, links),
                globals,
                catalog,
                Ok::<Program, (DecodeFault, usize)>(p.core.program),
            )
        },
        Err(VMLoadError::BadProcessorCode(text)) => exists|fault: DecodeFault, line: usize|
            {
                &&& text@ == message_of(fault, line)
                &&& #[trigger] decodes(
                    code,
                    links_draft(at, links),
                    globals,
                    catalog,
                    Err::<Program, (DecodeFault, usize)>((fault, line)),
                )
            },
        Err(_) => false,
    }
}

/// Whether `r` is what a schematic tile gives at a machine with these
/// globals and this catalog. A tile of a block that the catalog does not
/// hold is an error. A tile of a processor gives what loading the
/// processor gives, with the code and the links of its configuration. Any
/// other tile gives a building that is not simulated.
pub open spec fn from_tile(
    r: Result<Building, VMLoadError>,
    tile: &SchematicTile,
    globals: &Globals,
    catalog: &Catalog,
) -> bool {
    let at = Point2 { x: tile.position.x as i32, y: tile.position.y as i32 };
    match position(catalog.block_names(), tile.block@) {
        None => r matches Err(VMLoadError::UnknownBlockType(name)) && name@ == tile.block@,
        Some(i) => match catalog.blocks@[i].kind {
            BlockKind::Plain => r matches Ok(b) && b.position == at && b.block == i && b.data
                == (BuildingData::Unknown { config: tile.config.shape() }),
            BlockKind::Processor(kind) => loads(
                r,
                i as usize,
                kind,
                at,
                tile.config.code(),
                tile.config.links(),
                globals,
                catalog,
            ),
        },
    }
}

/// Loads a processor.
pub fn load<U: FloatUnit>(
    block: usize,
    kind: ProcessorKind,
    at: Point2,
    code: &str,
    links: &Vec<ProcessorLink>,
    globals: &Globals,
    catalog: &Catalog,
    unit: &U,
) -> (r: Result<Building, VMLoadError>)
    requires
        globals.wf(),
    ensures
        loads(r, block, kind, at, code@, links@, globals, catalog),
{
    let base = linked(at, links);
    match decode(code, base, globals, catalog, unit) {
        Ok(program) => Ok(Building::processor(at, block, Processor::new(program, kind, at))),
        Err((fault, line)) => {
            let r = Err(VMLoadError::BadProcessorCode(message(fault, line)));
            assert(decodes(
                code@,
                links_draft(at, links@),
                globals,
                catalog,
                Err::<Program, (DecodeFault, usize)>((fault, line)),
            ));
            r
        },
    }
}

} // verus!
