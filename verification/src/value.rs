//! The values that variables hold.

use crate::number;
use crate::point::Point2;
use vstd::prelude::*;

verus! {

/// The four catalogs of game content.
#[derive(Clone, Copy, Debug, PartialEq, Eq, Structural)]
pub enum ContentKind {
    Block,
    Item,
    Liquid,
    Unit,
}

/// A handle into one catalog.
#[derive(Clone, Copy, Debug, PartialEq, Eq, Structural)]
pub struct Content {
    pub kind: ContentKind,
    pub id: usize,
}

/// A team: one of the six that have a name, or any other by its number.
#[derive(Clone, Copy, Debug, PartialEq, Eq, Structural)]
pub enum Team {
    Derelict,
    Sharded,
    Crux,
    Malis,
    Green,
    Blue,
    Unknown(u8),
}

/// A tagged value.
///
/// A number is the bit pattern of a double. A string is an index into the
/// string table of the processor that holds the value. A building is named
/// by the position of one of its tiles.
#[derive(Clone, Copy, Debug, PartialEq, Eq, Structural)]
pub enum LValue {
    Null,
    Number(u64),
    String(usize),
    Content(Content),
    Team(Team),
    Building(Point2),
}

impl Team {
    /// The number of teams.
    pub const COUNT: usize = 256;

    /// The team with the given number.
    pub open spec fn of_spec(id: u8) -> Team {
        if id == 0 {
            Team::Derelict
        } else if id == 1 {
            Team::Sharded
        } else if id == 2 {
            Team::Crux
        } else if id == 3 {
            Team::Malis
        } else if id == 4 {
            Team::Green
        } else if id == 5 {
            Team::Blue
        } else {
            Team::Unknown(id)
        }
    }

    /// The team with the given number.
    #[verifier::when_used_as_spec(of_spec)]
    pub fn of(id: u8) -> (t: Team)
        ensures
            t == Team::of_spec(id),
    {
        if id == 0 {
            Team::Derelict
        } else if id == 1 {
            Team::Sharded
        } else if id == 2 {
            Team::Crux
        } else if id == 3 {
            Team::Malis
        } else if id == 4 {
            Team::Green
        } else if id == 5 {
            Team::Blue
        } else {
            Team::Unknown(id)
        }
    }
}

impl LValue {
    /// The value that storing the number `bits` leaves: the number itself
    /// if it is finite, and null otherwise.
    pub open spec fn stored(bits: u64) -> LValue {
        if number::finite(bits) {
            LValue::Number(bits)
        } else {
            LValue::Null
        }
    }

    /// A value holds no number that is not finite.
    pub open spec fn wf(self) -> bool {
        self matches LValue::Number(bits) ==> number::finite(bits)
    }

    /// The value that storing the number `bits` leaves.
    pub fn number(bits: u64) -> (v: LValue)
        ensures
            v == LValue::stored(bits),
            v.wf(),
    {
        if number::is_finite(bits) {
            LValue::Number(bits)
        } else {
            LValue::Null
        }
    }

    /// The value of an integer.
    pub fn integer(n: i64) -> (v: LValue)
        ensures
            v == LValue::stored(number::int_encoding(n as int) as u64),
            v.wf(),
    {
        LValue::number(number::from_int(n))
    }

    /// The value of a truth value: 1 or 0.
    pub fn truth(b: bool) -> (v: LValue)
        ensures
            v == LValue::Number(if b { number::ONE } else { 0 }),
            v.wf(),
    {
        assert(number::finite(number::ONE));
        assert(number::finite(0));
        LValue::Number(number::from_bool(b))
    }
}

} // verus!
