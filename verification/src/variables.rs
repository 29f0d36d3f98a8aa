//! The names that every program can use.

use crate::catalog::{same_text, Catalog};
use crate::instruction::LVar;
use crate::names::{lemma_position_found, lemma_position_none, position};
use crate::number;
use crate::value::{Content, ContentKind, LValue};
use vstd::prelude::*;
use vstd::string::*;

verus! {

/// The pattern of pi as programs know it: the nearest `f32`.
pub const PI: u64 = 0x4009_21fb_6000_0000;

/// The pattern of Euler's number as programs know it: the nearest `f32`.
pub const E: u64 = 0x4005_bf0a_8000_0000;

/// The pattern of the number of radians in a degree, as an `f32`.
pub const DEG_TO_RAD: u64 = 0x3f91_df46_a000_0000;

/// The pattern of the number of degrees in a radian, as an `f32`.
pub const RAD_TO_DEG: u64 = 0x404c_a5dc_0000_0000;

/// A name and what it is bound to in every program.
#[derive(Clone, Debug)]
pub struct Global {
    pub name: String,
    pub var: LVar,
}

/// The table of globals. Where a name stands twice, the first entry counts.
#[derive(Clone, Debug)]
pub struct Globals {
    pub entries: Vec<Global>,
}

/// What a global may be bound to: a constant that is no string and holds no
/// number that is not finite, or a reading of the machine; never a slot.
pub open spec fn shared(var: LVar) -> bool {
    match var {
        LVar::Slot(_) => false,
        LVar::Constant(v) => !(v is String) && v.wf(),
        _ => true,
    }
}

impl Globals {
    /// Every entry is bound to what a global may be bound to.
    pub open spec fn wf(&self) -> bool {
        forall|i: int| 0 <= i < self.entries@.len() ==> shared((#[trigger] self.entries@[i]).var)
    }

    /// Whether the table is well formed.
    pub fn check(&self) -> (ok: bool)
        ensures
            ok == self.wf(),
    {
        let n: usize = self.entries.len();
        let mut i: usize = 0;
        while i < n
            invariant
                i <= n == self.entries@.len(),
                forall|j: int| 0 <= j < i ==> shared((#[trigger] self.entries@[j]).var),
            decreases n - i,
        {
            let ok: bool = match self.entries[i].var {
                LVar::Slot(_) => false,
                LVar::Constant(LValue::String(_)) => false,
                LVar::Constant(LValue::Number(bits)) => number::is_finite(bits),
                _ => true,
            };
            if !ok {
                return false;
            }
            i = i + 1;
        }
        true
    }

    /// The names of the entries, in their order.
    pub open spec fn names(&self) -> Seq<Seq<char>> {
        Seq::new(self.entries@.len(), |i: int| self.entries@[i].name@)
    }

    /// What a name is bound to: the binding of its first entry.
    pub open spec fn lookup(&self, name: Seq<char>) -> Option<LVar> {
        match position(self.names(), name) {
            Some(i) => Some(self.entries@[i].var),
            None => None,
        }
    }

    /// What a name is bound to.
    pub fn find(&self, name: &str) -> (r: Option<LVar>)
        requires
            self.wf(),
        ensures
            r == self.lookup(name@),
            r matches Some(var) ==> shared(var),
    {
        let n: usize = self.entries.len();
        let mut i: usize = 0;
        while i < n
            invariant
                self.wf(),
                n == self.entries@.len(),
                i <= n,
                forall|j: int| 0 <= j < i ==> self.names()[j] != name@,
            decreases n - i,
        {
            if same_text(self.entries[i].name.as_str(), name) {
                proof {
                    assert(self.names()[i as int] == name@);
                    lemma_position_found(self.names(), name@, i as int);
                }
                return Some(self.entries[i].var);
            }
            i = i + 1;
        }
        proof {
            lemma_position_none(self.names(), name@);
        }
        None
    }
}


/// The globals that every table starts with: the truth values and null,
/// the mathematical constants, and the readings of the machine.
pub open spec fn fixed_globals() -> Seq<(Seq<char>, LVar)> {
    seq![
        ("false"@, LVar::Constant(LValue::Number(0))),
        ("true"@, LVar::Constant(LValue::Number(number::ONE))),
        ("null"@, LVar::Constant(LValue::Null)),
        ("@pi"@, LVar::Constant(LValue::Number(PI))),
        ("@e"@, LVar::Constant(LValue::Number(E))),
        ("@degToRad"@, LVar::Constant(LValue::Number(DEG_TO_RAD))),
        ("@radToDeg"@, LVar::Constant(LValue::Number(RAD_TO_DEG))),
        ("@counter"@, LVar::Counter),
        ("@ipt"@, LVar::Ipt),
        ("@time"@, LVar::Time),
        ("@tick"@, LVar::Tick),
        ("@second"@, LVar::Second),
        ("@this"@, LVar::This),
        ("@blockCount"@, LVar::BlockCount),
        ("@itemCount"@, LVar::ItemCount),
        ("@liquidCount"@, LVar::LiquidCount),
        ("@unitCount"@, LVar::UnitCount),
    ]
}

/// The globals that name the content of one kind: `@` and the name of each
/// entry, bound to its handle.
pub open spec fn content_globals(kind: ContentKind, names: Seq<Seq<char>>) -> Seq<
    (Seq<char>, LVar),
> {
    Seq::new(
        names.len(),
        |i: int|
            ("@"@ + names[i], LVar::Constant(LValue::Content(Content { kind, id: i as usize }))),
    )
}

/// The names of a sequence of strings.
pub open spec fn texts(names: Seq<String>) -> Seq<Seq<char>> {
    Seq::new(names.len(), |i: int| names[i]@)
}

/// The globals of a catalog: the fixed ones, then the items, the liquids,
/// the units and the blocks.
pub open spec fn standard_globals(catalog: &Catalog) -> Seq<(Seq<char>, LVar)> {
    fixed_globals() + content_globals(ContentKind::Item, texts(catalog.items@)) + content_globals(
        ContentKind::Liquid,
        texts(catalog.liquids@),
    ) + content_globals(ContentKind::Unit, texts(catalog.units@)) + content_globals(
        ContentKind::Block,
        catalog.block_names(),
    )
}

impl Globals {
    /// The names and bindings of the entries, in their order.
    pub open spec fn pairs(&self) -> Seq<(Seq<char>, LVar)> {
        Seq::new(self.entries@.len(), |i: int| (self.entries@[i].name@, self.entries@[i].var))
    }

    fn put(&mut self, name: &str, var: LVar)
        requires
            old(self).wf(),
            shared(var),
        ensures
            final(self).wf(),
            final(self).pairs() == old(self).pairs().push((name@, var)),
    {
        self.entries.push(Global { name: name.to_owned(), var });
        assert(self.pairs() =~= old(self).pairs().push((name@, var)));
    }

    fn put_content(&mut self, kind: ContentKind, id: usize, name: &str)
        requires
            old(self).wf(),
        ensures
            final(self).wf(),
            final(self).pairs() == old(self).pairs().push(
                ("@"@ + name@, LVar::Constant(LValue::Content(Content { kind, id }))),
            ),
    {
        let var = LVar::Constant(LValue::Content(Content { kind, id }));
        let full = String::from_str("@").concat(name);
        self.entries.push(Global { name: full, var });
        assert(self.pairs() =~= old(self).pairs().push(("@"@ + name@, var)));
    }

    fn put_names(&mut self, kind: ContentKind, names: &Vec<String>)
        requires
            old(self).wf(),
        ensures
            final(self).wf(),
            final(self).pairs() == old(self).pairs() + content_globals(kind, texts(names@)),
    {
        let n: usize = names.len();
        let mut i: usize = 0;
        assert(self.pairs() =~= old(self).pairs() + content_globals(
            kind,
            texts(names@),
        ).subrange(0, 0));
        while i < n
            invariant
                i <= n == names@.len(),
                self.wf(),
                self.pairs() == old(self).pairs() + content_globals(kind, texts(names@)).subrange(
                    0,
                    i as int,
                ),
            decreases n - i,
        {
            self.put_content(kind, i, names[i].as_str());
            i = i + 1;
            assert(self.pairs() =~= old(self).pairs() + content_globals(
                kind,
                texts(names@),
            ).subrange(0, i as int));
        }
        assert(content_globals(kind, texts(names@)).subrange(0, n as int) =~= content_globals(
            kind,
            texts(names@),
        ));
    }

    /// The globals of a catalog.
    pub fn create(catalog: &Catalog) -> (g: Globals)
        ensures
            g.wf(),
            g.pairs() == standard_globals(catalog),
    {
        let mut g = Globals { entries: Vec::new() };
        assert(number::finite(0));
        assert(number::finite(number::ONE));
        assert(number::finite(PI));
        assert(number::finite(E));
        assert(number::finite(DEG_TO_RAD));
        assert(number::finite(RAD_TO_DEG));
        g.put("false", LVar::Constant(LValue::Number(0)));
        g.put("true", LVar::Constant(LValue::Number(number::ONE)));
        g.put("null", LVar::Constant(LValue::Null));
        g.put("@pi", LVar::Constant(LValue::Number(PI)));
        g.put("@e", LVar::Constant(LValue::Number(E)));
        g.put("@degToRad", LVar::Constant(LValue::Number(DEG_TO_RAD)));
        g.put("@radToDeg", LVar::Constant(LValue::Number(RAD_TO_DEG)));
        g.put("@counter", LVar::Counter);
        g.put("@ipt", LVar::Ipt);
        g.put("@time", LVar::Time);
        g.put("@tick", LVar::Tick);
        g.put("@second", LVar::Second);
        g.put("@this", LVar::This);
        g.put("@blockCount", LVar::BlockCount);
        g.put("@itemCount", LVar::ItemCount);
        g.put("@liquidCount", LVar::LiquidCount);
        g.put("@unitCount", LVar::UnitCount);
        assert(g.pairs() =~= fixed_globals());
        g.put_names(ContentKind::Item, &catalog.items);
        g.put_names(ContentKind::Liquid, &catalog.liquids);
        g.put_names(ContentKind::Unit, &catalog.units);
        let n: usize = catalog.blocks.len();
        let mut i: usize = 0;
        let ghost before = g.pairs();
        assert(g.pairs() =~= before + content_globals(
            ContentKind::Block,
            catalog.block_names(),
        ).subrange(0, 0));
        while i < n
            invariant
                i <= n == catalog.blocks@.len(),
                g.wf(),
                g.pairs() == before + content_globals(
                    ContentKind::Block,
                    catalog.block_names(),
                ).subrange(0, i as int),
            decreases n - i,
        {
            g.put_content(ContentKind::Block, i, catalog.blocks[i].name.as_str());
            i = i + 1;
            assert(g.pairs() =~= before + content_globals(
                ContentKind::Block,
                catalog.block_names(),
            ).subrange(0, i as int));
        }
        assert(content_globals(ContentKind::Block, catalog.block_names()).subrange(
            0,
            n as int,
        ) =~= content_globals(ContentKind::Block, catalog.block_names()));
        g
    }
}

} // verus!
