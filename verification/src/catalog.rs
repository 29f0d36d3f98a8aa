//! The game content that a machine is built against: blocks, items,
//! liquids, units, teams and named colors, each with a stable index.

use crate::names::{lemma_position_found, lemma_position_none, position};
use crate::value::{Content, ContentKind, LValue, Team};
use vstd::prelude::*;
use vstd::string::*;

verus! {

/// The name of the processor block with the smallest budget.
pub const MICRO_PROCESSOR: &'static str = "micro-processor";

/// The name of the standard processor block.
pub const LOGIC_PROCESSOR: &'static str = "logic-processor";

/// The name of the fastest processor block that players build.
pub const HYPER_PROCESSOR: &'static str = "hyper-processor";

/// The name of the privileged processor block.
pub const WORLD_PROCESSOR: &'static str = "world-processor";

/// The greatest edge length of a block, `i32::MAX - i16::MAX`: with it a
/// block at any position that a schematic can name lies within the grid.
pub const MAX_BLOCK_SIZE: i32 = 2_147_450_880;

/// The four kinds of processor. They differ in their budget of
/// instructions per tick and in whether they may change it.
#[derive(Clone, Copy, Debug, PartialEq, Eq, Structural)]
pub enum ProcessorKind {
    Micro,
    Logic,
    Hyper,
    World,
}

/// What a block is to the machine.
#[derive(Clone, Copy, Debug, PartialEq, Eq, Structural)]
pub enum BlockKind {
    Plain,
    Processor(ProcessorKind),
}

/// One kind of block.
#[derive(Clone, Debug)]
pub struct Block {
    pub name: String,
    pub size: i32,
    pub kind: BlockKind,
}

/// A color with a name, as `0xRRGGBBAA`.
#[derive(Clone, Debug)]
pub struct NamedColor {
    pub name: String,
    pub rgba: u32,
}

/// What `lookup` can look up.
#[derive(Clone, Copy, Debug, PartialEq, Eq, Structural)]
pub enum LookupKind {
    Block,
    Item,
    Liquid,
    Unit,
    Team,
}

/// The content catalogs.
#[derive(Clone, Debug)]
pub struct Catalog {
    pub blocks: Vec<Block>,
    pub items: Vec<String>,
    pub liquids: Vec<String>,
    pub units: Vec<String>,
    pub colors: Vec<NamedColor>,
}

impl ProcessorKind {
    /// The budget that a processor of this kind starts with.
    pub open spec fn default_ipt_spec(self) -> usize {
        match self {
            ProcessorKind::Micro => 2,
            ProcessorKind::Logic => 8,
            ProcessorKind::Hyper => 25,
            ProcessorKind::World => 1000,
        }
    }

    /// The budget that a processor of this kind starts with.
    #[verifier::when_used_as_spec(default_ipt_spec)]
    pub fn default_ipt(self) -> (ipt: usize)
        ensures
            ipt == self.default_ipt_spec(),
    {
        match self {
            ProcessorKind::Micro => 2,
            ProcessorKind::Logic => 8,
            ProcessorKind::Hyper => 25,
            ProcessorKind::World => 1000,
        }
    }

    /// Whether a processor of this kind may change its own budget.
    pub open spec fn privileged_spec(self) -> bool {
        self == ProcessorKind::World
    }

    /// Whether a processor of this kind may change its own budget.
    #[verifier::when_used_as_spec(privileged_spec)]
    pub fn privileged(self) -> (p: bool)
        ensures
            p == self.privileged_spec(),
    {
        match self {
            ProcessorKind::World => true,
            _ => false,
        }
    }
}

/// Whether two strings hold the same characters.
pub fn same_text(a: &str, b: &str) -> (r: bool)
    ensures
        r == (a@ == b@),
{
    let n: usize = a.unicode_len();
    if n != b.unicode_len() {
        return false;
    }
    let mut i: usize = 0;
    while i < n
        invariant
            n == a@.len(),
            n == b@.len(),
            i <= n,
            forall|j: int| 0 <= j < i ==> a@[j] == b@[j],
        decreases n - i,
    {
        if a.get_char(i) != b.get_char(i) {
            return false;
        }
        i = i + 1;
    }
    assert(a@ =~= b@);
    true
}

impl Catalog {
    /// Every block has an edge of at least one tile, and of at most
    /// `MAX_BLOCK_SIZE` tiles, which is what the grid holds.
    pub open spec fn wf(&self) -> bool {
        forall|i: int|
            0 <= i < self.blocks@.len() ==> 1 <= (#[trigger] self.blocks@[i]).size
                <= MAX_BLOCK_SIZE
    }

    /// Whether the catalog is well formed.
    pub fn check(&self) -> (ok: bool)
        ensures
            ok == self.wf(),
    {
        let n: usize = self.blocks.len();
        let mut i: usize = 0;
        while i < n
            invariant
                i <= n == self.blocks@.len(),
                forall|j: int|
                    0 <= j < i ==> 1 <= (#[trigger] self.blocks@[j]).size <= MAX_BLOCK_SIZE,
            decreases n - i,
        {
            if self.blocks[i].size < 1 || self.blocks[i].size > MAX_BLOCK_SIZE {
                return false;
            }
            i = i + 1;
        }
        true
    }

    /// The number of entries that `lookup` can reach for a kind.
    pub open spec fn size(&self, kind: LookupKind) -> nat {
        match kind {
            LookupKind::Block => self.blocks@.len(),
            LookupKind::Item => self.items@.len(),
            LookupKind::Liquid => self.liquids@.len(),
            LookupKind::Unit => self.units@.len(),
            LookupKind::Team => Team::COUNT as nat,
        }
    }

    /// What `lookup` gives for a kind and an index: null outside the
    /// catalog, else the team or the handle of that index.
    pub open spec fn entry(&self, kind: LookupKind, index: int) -> LValue {
        if 0 <= index < self.size(kind) {
            match kind {
                LookupKind::Block => LValue::Content(
                    Content { kind: ContentKind::Block, id: index as usize },
                ),
                LookupKind::Item => LValue::Content(
                    Content { kind: ContentKind::Item, id: index as usize },
                ),
                LookupKind::Liquid => LValue::Content(
                    Content { kind: ContentKind::Liquid, id: index as usize },
                ),
                LookupKind::Unit => LValue::Content(
                    Content { kind: ContentKind::Unit, id: index as usize },
                ),
                LookupKind::Team => LValue::Team(Team::of(index as u8)),
            }
        } else {
            LValue::Null
        }
    }

    /// The number of entries of a kind.
    pub fn count(&self, kind: LookupKind) -> (n: usize)
        ensures
            n == self.size(kind),
    {
        match kind {
            LookupKind::Block => self.blocks.len(),
            LookupKind::Item => self.items.len(),
            LookupKind::Liquid => self.liquids.len(),
            LookupKind::Unit => self.units.len(),
            LookupKind::Team => Team::COUNT,
        }
    }

    /// Looks an index up in the catalog of a kind. The result is null
    /// exactly where the index is outside the catalog.
    pub fn lookup(&self, kind: LookupKind, index: i64) -> (v: LValue)
        ensures
            v == self.entry(kind, index as int),
            v != LValue::Null <==> 0 <= index < self.size(kind),
            v.wf(),
    {
        if index < 0 || index as u64 >= self.count(kind) as u64 {
            return LValue::Null;
        }
        let id: usize = index as usize;
        match kind {
            LookupKind::Block => LValue::Content(Content { kind: ContentKind::Block, id }),
            LookupKind::Item => LValue::Content(Content { kind: ContentKind::Item, id }),
            LookupKind::Liquid => LValue::Content(Content { kind: ContentKind::Liquid, id }),
            LookupKind::Unit => LValue::Content(Content { kind: ContentKind::Unit, id }),
            LookupKind::Team => LValue::Team(Team::of(id as u8)),
        }
    }

    /// Whether a handle names an entry of this catalog.
    pub open spec fn holds(&self, content: Content) -> bool {
        content.id < match content.kind {
            ContentKind::Block => self.blocks@.len(),
            ContentKind::Item => self.items@.len(),
            ContentKind::Liquid => self.liquids@.len(),
            ContentKind::Unit => self.units@.len(),
        }
    }

    /// The name of the entry that a handle names.
    pub open spec fn name_spec(&self, content: Content) -> Seq<char> {
        match content.kind {
            ContentKind::Block => self.blocks@[content.id as int].name@,
            ContentKind::Item => self.items@[content.id as int]@,
            ContentKind::Liquid => self.liquids@[content.id as int]@,
            ContentKind::Unit => self.units@[content.id as int]@,
        }
    }

    /// The name of the entry that a handle names, if it names one.
    pub fn name(&self, content: Content) -> (r: Option<&str>)
        ensures
            match r {
                Some(s) => self.holds(content) && s@ == self.name_spec(content),
                None => !self.holds(content),
            },
    {
        let id: usize = content.id;
        match content.kind {
            ContentKind::Block => if id < self.blocks.len() {
                Some(self.blocks[id].name.as_str())
            } else {
                None
            },
            ContentKind::Item => if id < self.items.len() {
                Some(self.items[id].as_str())
            } else {
                None
            },
            ContentKind::Liquid => if id < self.liquids.len() {
                Some(self.liquids[id].as_str())
            } else {
                None
            },
            ContentKind::Unit => if id < self.units.len() {
                Some(self.units[id].as_str())
            } else {
                None
            },
        }
    }

    /// The names of the blocks, in their order.
    pub open spec fn block_names(&self) -> Seq<Seq<char>> {
        Seq::new(self.blocks@.len(), |i: int| self.blocks@[i].name@)
    }

    /// The names of the colors, in their order.
    pub open spec fn color_names(&self) -> Seq<Seq<char>> {
        Seq::new(self.colors@.len(), |i: int| self.colors@[i].name@)
    }

    /// The color of the given name, as `0xRRGGBBAA`: that of the first
    /// entry of the name.
    pub open spec fn color(&self, name: Seq<char>) -> Option<u32> {
        match position(self.color_names(), name) {
            Some(i) => Some(self.colors@[i].rgba),
            None => None,
        }
    }

    /// The index of the first block of the given name.
    pub fn find_block(&self, name: &str) -> (r: Option<usize>)
        ensures
            match r {
                Some(i) => position(self.block_names(), name@) == Some(i as int) && i
                    < self.blocks@.len(),
                None => position(self.block_names(), name@) is None,
            },
    {
        let n: usize = self.blocks.len();
        let mut i: usize = 0;
        while i < n
            invariant
                n == self.blocks@.len(),
                i <= n,
                forall|j: int| 0 <= j < i ==> self.block_names()[j] != name@,
            decreases n - i,
        {
            if same_text(self.blocks[i].name.as_str(), name) {
                proof {
                    assert(self.block_names()[i as int] == name@);
                    lemma_position_found(self.block_names(), name@, i as int);
                }
                return Some(i);
            }
            i = i + 1;
        }
        proof {
            lemma_position_none(self.block_names(), name@);
        }
        None
    }

    /// The color of the given name.
    pub fn find_color(&self, name: &str) -> (r: Option<u32>)
        ensures
            r == self.color(name@),
    {
        let n: usize = self.colors.len();
        let mut i: usize = 0;
        while i < n
            invariant
                n == self.colors@.len(),
                i <= n,
                forall|j: int| 0 <= j < i ==> self.color_names()[j] != name@,
            decreases n - i,
        {
            if same_text(self.colors[i].name.as_str(), name) {
                proof {
                    assert(self.color_names()[i as int] == name@);
                    lemma_position_found(self.color_names(), name@, i as int);
                }
                return Some(self.colors[i].rgba);
            }
            i = i + 1;
        }
        proof {
            lemma_position_none(self.color_names(), name@);
        }
        None
    }
}

} // verus!
