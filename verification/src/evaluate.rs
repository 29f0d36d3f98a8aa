//! Values as numbers and as text, tests, and the operations of `op`.

use crate::{arith, number, text};
use crate::instruction::{BinaryOp, Condition, UnaryOp};
use crate::model::{bitwise, index_of, rate_of, Core, MAX_IPT};
use crate::near::is_near;
use crate::unit::Answer;
use crate::value::{Content, LValue, Team};
use crate::world::World;
use vstd::prelude::*;

verus! {

/// The result of an operation on the bits of two integers.
pub fn bit_operation(op: BinaryOp, x: i64, y: i64) -> (r: i64)
    ensures
        r == bitwise(op, x, y),
{
    let k: u32 = (y & 63) as u32;
    assert(k < 64) by (bit_vector)
        requires
            k == (y & 63) as u32,
    ;
    match op {
        BinaryOp::Shl => x << k,
        BinaryOp::Shr => x >> k,
        BinaryOp::Ushr => ((x as u64) >> k) as i64,
        BinaryOp::Or => x | y,
        BinaryOp::And => x & y,
        BinaryOp::Xor => x ^ y,
        _ => 0,
    }
}

/// The budget that a number asks for.
pub fn rate(bits: u64) -> (r: usize)
    ensures
        r == rate_of(bits),
        1 <= r <= MAX_IPT,
{
    let t: i64 = number::to_int(bits);
    if t < 1 {
        1
    } else if t > MAX_IPT as i64 {
        MAX_IPT
    } else {
        t as usize
    }
}

/// The index that a number names in a program of `len` instructions.
pub fn index(bits: u64, len: usize) -> (r: usize)
    ensures
        r == index_of(bits, len as nat),
        r < len || r == 0,
{
    let t: i64 = number::to_int(bits);
    if len == 0 || t < 0 {
        0
    } else {
        ((t as u64) % (len as u64)) as usize
    }
}

impl Core {
    /// What a value is worth as a number.
    pub fn number(&self, v: LValue, world: &World) -> (r: u64)
        requires
            self.program.valid_value(v),
        ensures
            r == self.num(v, world),
            number::finite(r),
    {
        assert(number::finite(number::ONE));
        assert(number::finite(0));
        match v {
            LValue::Number(bits) => bits,
            LValue::Null => 0,
            LValue::String(id) => if self.program.strings[id].len() > 0 {
                number::ONE
            } else {
                0
            },
            LValue::Building(p) => match world.tile(p) {
                Some(_) => number::ONE,
                None => 0,
            },
            LValue::Content(_) => number::ONE,
            LValue::Team(_) => number::ONE,
        }
    }

    /// Whether two values are the same value.
    pub fn same_value(&self, x: LValue, y: LValue) -> (r: bool)
        requires
            self.program.valid_value(x),
            self.program.valid_value(y),
        ensures
            r == self.identical(x, y),
    {
        match (x, y) {
            (LValue::Number(a), LValue::Number(b)) => number::equals(a, b),
            (LValue::String(a), LValue::String(b)) => text::same_units(
                &self.program.strings[a],
                &self.program.strings[b],
            ),
            _ => x == y,
        }
    }

    /// Whether two values are equal to `equal`.
    pub fn loosely_equal(&self, x: LValue, y: LValue, world: &World) -> (r: bool)
        requires
            self.program.valid_value(x),
            self.program.valid_value(y),
        ensures
            r == self.alike(x, y, world),
    {
        let x_numeric: bool = match x {
            LValue::Number(_) => true,
            LValue::Null => true,
            _ => false,
        };
        let y_numeric: bool = match y {
            LValue::Number(_) => true,
            LValue::Null => true,
            _ => false,
        };
        if x_numeric && y_numeric {
            is_near(self.number(x, world), self.number(y, world))
        } else {
            match (x, y) {
                (LValue::Number(_), LValue::String(_)) => true,
                (LValue::String(_), LValue::Number(_)) => true,
                _ => self.same_value(x, y),
            }
        }
    }

    /// Whether a test passes.
    pub fn test(
        &self,
        condition: Condition,
        x: LValue,
        y: LValue,
        world: &World,
    ) -> (r: bool)
        requires
            self.program.valid_value(x),
            self.program.valid_value(y),
        ensures
            r == self.passes(condition, x, y, world),
    {
        let a: u64 = self.number(x, world);
        let b: u64 = self.number(y, world);
        match condition {
            Condition::Equal => self.loosely_equal(x, y, world),
            Condition::NotEqual => !self.loosely_equal(x, y, world),
            Condition::LessThan => number::less_than(a, b),
            Condition::LessThanEq => number::less_than(a, b) || number::equals(a, b),
            Condition::GreaterThan => number::less_than(b, a),
            Condition::GreaterThanEq => number::less_than(b, a) || number::equals(a, b),
            Condition::StrictEqual => self.same_value(x, y),
            Condition::Always => true,
        }
    }

    /// The result of a unary operation.
    pub fn unary(&self, op: UnaryOp, x: u64, answers: &Vec<Answer>) -> (v: LValue)
        requires
            answers@.len() >= arith::unary_questions(op, x).len(),
        ensures
            v == self.unary_value(op, x, answers@),
            self.program.valid_value(v),
    {
        match op {
            UnaryOp::Not => LValue::integer(!number::to_int(x)),
            UnaryOp::Abs => LValue::number(number::absolute(x)),
            UnaryOp::Sign => LValue::number(number::sign_of(x)),
            UnaryOp::Floor => LValue::number(number::floor(x)),
            UnaryOp::Ceil => LValue::number(number::ceil(x)),
            UnaryOp::Round => LValue::number(number::round(x)),
            _ => LValue::number(arith::unary_answer(op, x, answers)),
        }
    }

    /// The result of a binary operation.
    pub fn binary(
        &self,
        op: BinaryOp,
        x: LValue,
        y: LValue,
        world: &World,
        answers: &Vec<Answer>,
    ) -> (v: LValue)
        requires
            self.program.valid_value(x),
            self.program.valid_value(y),
            answers@.len() >= arith::float_questions(
                op,
                self.num(x, world),
                self.num(y, world),
            ).len(),
        ensures
            v == self.binary_value(op, x, y, world, answers@),
            self.program.valid_value(v),
    {
        let a: u64 = self.number(x, world);
        let b: u64 = self.number(y, world);
        match op {
            BinaryOp::Land => LValue::truth(!number::is_zero(a) && !number::is_zero(b)),
            BinaryOp::Shl | BinaryOp::Shr | BinaryOp::Ushr | BinaryOp::Or | BinaryOp::And
            | BinaryOp::Xor => LValue::integer(
                bit_operation(op, number::to_int(a), number::to_int(b)),
            ),
            BinaryOp::Max => LValue::number(number::larger(a, b)),
            BinaryOp::Min => LValue::number(number::smaller(a, b)),
            BinaryOp::Test(condition) => LValue::truth(self.test(condition, x, y, world)),
            _ => LValue::number(arith::float_answer(op, a, b, answers)),
        }
    }

    /// A value as text.
    pub fn text(&self, v: LValue, world: &World, answers: &Vec<Answer>) -> (t: Vec<u16>)
        requires
            self.program.valid_value(v),
            world.wf(),
            Self::needs_format(v) ==> answers@.len() >= 1,
        ensures
            t@ == self.text_of(v, world, answers@),
    {
        match v {
            LValue::Null => text::encode("null"),
            LValue::Number(bits) => if number::is_whole_number(bits) {
                text::digits(number::to_int(bits))
            } else {
                text::copy(&answers[0].text)
            },
            LValue::String(id) => text::copy(&self.program.strings[id]),
            LValue::Content(c) => match world.catalog.name(c) {
                Some(name) => text::encode(name),
                None => text::encode("null"),
            },
            LValue::Team(team) => match team {
                Team::Derelict => text::encode("derelict"),
                Team::Sharded => text::encode("sharded"),
                Team::Crux => text::encode("crux"),
                Team::Malis => text::encode("malis"),
                Team::Green => text::encode("green"),
                Team::Blue => text::encode("blue"),
                Team::Unknown(id) => {
                    let mut t = text::encode("team#");
                    let mut d = text::digits(id as i64);
                    t.append(&mut d);
                    t
                },
            },
            LValue::Building(p) => match world.tile(p) {
                Some(tile) => text::encode(world.catalog.blocks[tile.block].name.as_str()),
                None => text::encode("null"),
            },
        }
    }
}

} // verus!
