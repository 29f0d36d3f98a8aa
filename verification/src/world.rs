//! What a processor reads of the machine around it.

use crate::catalog::Catalog;
use crate::point::Point2;
use crate::ratio::{quotient, ratio};
use crate::value::LValue;
use std::collections::HashMap;
use vstd::prelude::*;

verus! {

/// What stands on a tile: a building and the block it is of. A processor is
/// named by its index among the processors, any other building by its index
/// among the other buildings.
#[derive(Clone, Copy, Debug, PartialEq, Eq, Structural)]
pub struct Tile {
    pub processor: bool,
    pub slot: usize,
    pub block: usize,
}

/// The nanoseconds in a millisecond.
pub const NANOS_PER_MILLI: u64 = 1_000_000;

/// The nanoseconds in a second.
pub const NANOS_PER_SEC: u64 = 1_000_000_000;

/// The ticks in a second.
pub const TICKS_PER_SEC: u64 = 60;

/// The time as programs read it.
#[derive(Clone, Copy, Debug, PartialEq, Eq, Structural)]
pub struct Clock {
    /// Milliseconds.
    pub time: LValue,
    /// Sixtieths of a second.
    pub tick: LValue,
    /// Seconds.
    pub second: LValue,
}

/// The grid of tiles, the catalogs and the clock.
pub struct World {
    /// The tiles that buildings cover, by key.
    pub tiles: HashMap<u64, Tile>,
    pub catalog: Catalog,
    /// Nanoseconds since the machine started.
    pub time: u64,
    pub clock: Clock,
}

impl Clock {
    /// Each reading is a finite number or null.
    pub open spec fn wf(self) -> bool {
        &&& self.time is Null || (self.time is Number && self.time.wf())
        &&& self.tick is Null || (self.tick is Number && self.tick.wf())
        &&& self.second is Null || (self.second is Number && self.second.wf())
    }
}

impl Clock {
    /// Whether each reading is a finite number or null.
    pub fn check(&self) -> (ok: bool)
        ensures
            ok == self.wf(),
    {
        reading(self.time) && reading(self.tick) && reading(self.second)
    }

    /// The readings of the clock `time` nanoseconds after the start: the
    /// doubles nearest to the time in milliseconds, in ticks and in
    /// seconds.
    pub open spec fn at(time: u64) -> Clock {
        Clock {
            time: LValue::Number(quotient(time as nat, NANOS_PER_MILLI as nat) as u64),
            tick: LValue::Number(
                quotient(time as nat * TICKS_PER_SEC as nat, NANOS_PER_SEC as nat) as u64,
            ),
            second: LValue::Number(quotient(time as nat, NANOS_PER_SEC as nat) as u64),
        }
    }

    /// The readings of the clock `time` nanoseconds after the start.
    pub fn read(time: u64) -> (c: Clock)
        ensures
            c == Clock::at(time),
            c.wf(),
    {
        let nanos: u128 = time as u128;
        Clock {
            time: LValue::Number(ratio(nanos, NANOS_PER_MILLI)),
            tick: LValue::Number(ratio(nanos * (TICKS_PER_SEC as u128), NANOS_PER_SEC)),
            second: LValue::Number(ratio(nanos, NANOS_PER_SEC)),
        }
    }

    /// Whether the readings are those of the clock `time` nanoseconds
    /// after the start.
    pub fn shows(&self, time: u64) -> (ok: bool)
        ensures
            ok == (*self == Clock::at(time)),
    {
        let c = Clock::read(time);
        same_reading(self.time, c.time) && same_reading(self.tick, c.tick) && same_reading(
            self.second,
            c.second,
        )
    }
}

/// Whether a value is the number `n`.
fn same_reading(v: LValue, n: LValue) -> (ok: bool)
    requires
        n is Number,
    ensures
        ok == (v == n),
{
    match (v, n) {
        (LValue::Number(a), LValue::Number(b)) => a == b,
        _ => false,
    }
}

/// Whether a value is a finite number or null.
fn reading(v: LValue) -> (ok: bool)
    ensures
        ok == (v is Null || (v is Number && v.wf())),
{
    match v {
        LValue::Null => true,
        LValue::Number(bits) => crate::number::is_finite(bits),
        _ => false,
    }
}

impl World {
    /// The catalog is well formed, every tile is of a block of the
    /// catalog, and the clock holds finite numbers.
    pub open spec fn wf(&self) -> bool {
        &&& self.catalog.wf()
        &&& self.clock.wf()
        &&& forall|k: u64| #[trigger]
            self.tiles@.contains_key(k) ==> self.tiles@[k].block < self.catalog.blocks@.len()
    }

    /// Whether a building covers the tile at `p`.
    pub open spec fn occupied(&self, p: Point2) -> bool {
        self.tiles@.contains_key(p.key())
    }

    /// What stands on the tile at `p`.
    pub fn tile(&self, p: Point2) -> (r: Option<Tile>)
        ensures
            r == (if self.occupied(p) {
                Some(self.tiles@[p.key()])
            } else {
                None
            }),
    {
        broadcast use vstd::std_specs::hash::group_hash_axioms;

        match self.tiles.get(&p.key()) {
            Some(t) => Some(*t),
            None => None,
        }
    }
}

} // verus!
