//! What each instruction does to the state of a processor.
//!
//! The meaning of an instruction is the function [`Core::effect`] on the
//! model [`State`], given the answers of the unit to what the instruction
//! asks. The executable code is proved to do exactly that, for every answer.

use crate::{arith, color, number, text};
use crate::instruction::{BinaryOp, Condition, Flow, Instruction, LVar, UnaryOp};
use crate::near::near;
use crate::point::Point2;
use crate::program::Program;
use crate::unit::{shaped, Answer, Request};
use crate::value::{Content, LValue, Team};
use crate::world::World;
use vstd::prelude::*;

verus! {

/// The greatest budget of instructions per tick.
pub const MAX_IPT: usize = 1000;

/// The mathematical model of the state of a processor.
pub struct State {
    pub counter: usize,
    pub stopped: bool,
    pub wait_until: Option<u64>,
    pub printbuffer: Seq<u16>,
    pub ipt: usize,
    pub slots: Seq<LValue>,
}

/// What stays as it is while a processor runs.
#[derive(Clone, Debug)]
pub struct Core {
    pub program: Program,
    /// Whether the processor may change its own budget.
    pub privileged: bool,
    /// Where the processor stands.
    pub position: Point2,
}

/// The number of a count or an index, as a value.
pub open spec fn number_of(n: nat) -> LValue {
    LValue::stored(number::encoding(n) as u64)
}

/// The value of a signed integer.
pub open spec fn integer_of(n: int) -> LValue {
    LValue::stored(number::int_encoding(n) as u64)
}

/// The value of a truth value.
pub open spec fn truth_of(b: bool) -> LValue {
    LValue::Number(if b { number::ONE } else { 0 })
}

/// The budget that a number asks for: its whole part, held to `1..=MAX_IPT`.
pub open spec fn rate_of(bits: u64) -> usize {
    let t = number::truncation(bits);
    if t < 1 {
        1
    } else if t > MAX_IPT {
        MAX_IPT
    } else {
        t as usize
    }
}

/// The index that a number names in a program of `len` instructions: its
/// whole part modulo `len`, and 0 for a negative number.
pub open spec fn index_of(bits: u64, len: nat) -> usize {
    let t = number::truncation(bits);
    if len == 0 || t < 0 {
        0
    } else {
        (t % len as int) as usize
    }
}

/// The index after `pc`, which after the last is 0.
pub open spec fn successor(pc: usize, len: nat) -> usize {
    if pc + 1 >= len {
        0
    } else {
        (pc + 1) as usize
    }
}

/// The time at which a wait of `seconds` that starts at `now` is over.
pub open spec fn deadline(now: u64, seconds: u64) -> u64 {
    let t = now + number::nanoseconds(seconds);
    if t > u64::MAX {
        u64::MAX
    } else {
        t as u64
    }
}

/// The code unit that `printchar` writes for a number: the low 16 bits of
/// its whole part.
pub open spec fn char_unit(bits: u64) -> u16 {
    (number::truncation(bits) % 0x1_0000) as u16
}

/// Whether a value takes part in arithmetic comparison as a number: null
/// counts as 0.
pub open spec fn numeric(v: LValue) -> bool {
    v is Number || v is Null
}

/// The amount of a shift: the low six bits of the right operand.
pub open spec fn shift_amount(y: i64) -> u32 {
    (y & 63) as u32
}

/// The result of an operation on the bits of two 64-bit integers; other
/// operations give 0.
pub open spec fn bitwise(op: BinaryOp, x: i64, y: i64) -> i64 {
    match op {
        BinaryOp::Shl => x << shift_amount(y),
        BinaryOp::Shr => x >> shift_amount(y),
        BinaryOp::Ushr => ((x as u64) >> shift_amount(y)) as i64,
        BinaryOp::Or => x | y,
        BinaryOp::And => x & y,
        BinaryOp::Xor => x ^ y,
        _ => 0,
    }
}

/// The name of a team.
pub open spec fn team_name(team: Team) -> Seq<u16> {
    match team {
        Team::Derelict => text::utf16("derelict"@),
        Team::Sharded => text::utf16("sharded"@),
        Team::Crux => text::utf16("crux"@),
        Team::Malis => text::utf16("malis"@),
        Team::Green => text::utf16("green"@),
        Team::Blue => text::utf16("blue"@),
        Team::Unknown(id) => text::utf16("team#"@) + text::decimal(id as int),
    }
}

impl Core {
    /// What a value is worth as a number: a number itself, null 0, a
    /// string 1 unless it is empty, a building 1 while it stands, and
    /// content and teams 1.
    pub open spec fn num(&self, v: LValue, world: &World) -> u64 {
        match v {
            LValue::Number(bits) => bits,
            LValue::Null => 0,
            LValue::String(id) => if self.program.strings@[id as int]@.len() > 0 {
                number::ONE
            } else {
                0
            },
            LValue::Building(p) => if world.occupied(p) {
                number::ONE
            } else {
                0
            },
            LValue::Content(_) | LValue::Team(_) => number::ONE,
        }
    }

    /// Whether a value counts as true: its number is not zero.
    pub open spec fn truthy(&self, v: LValue, world: &World) -> bool {
        !number::zero(self.num(v, world))
    }

    /// What reading an operand gives in state `s`.
    pub open spec fn value_of(&self, s: State, var: LVar, world: &World) -> LValue {
        match var {
            LVar::Constant(v) => v,
            LVar::Slot(i) => s.slots[i as int],
            LVar::Counter => number_of(s.counter as nat),
            LVar::Ipt => number_of(s.ipt as nat),
            LVar::Time => world.clock.time,
            LVar::Tick => world.clock.tick,
            LVar::Second => world.clock.second,
            LVar::This => LValue::Building(self.position),
            LVar::BlockCount => number_of(world.catalog.blocks@.len()),
            LVar::ItemCount => number_of(world.catalog.items@.len()),
            LVar::LiquidCount => number_of(world.catalog.liquids@.len()),
            LVar::UnitCount => number_of(world.catalog.units@.len()),
        }
    }

    /// The number that an operand is worth in state `s`.
    pub open spec fn number_at(&self, s: State, var: LVar, world: &World) -> u64 {
        self.num(self.value_of(s, var, world), world)
    }

    /// The state after `v` is assigned to an operand. A slot takes the
    /// value. The counter takes the index that a number names, and the
    /// budget of a privileged processor the rate that a number asks for;
    /// neither takes anything else. Assigning to any other operand, a
    /// constant among them, changes nothing.
    pub open spec fn assigned(&self, s: State, dest: LVar, v: LValue) -> State {
        match dest {
            LVar::Slot(i) => State { slots: s.slots.update(i as int, v), ..s },
            LVar::Counter => match v {
                LValue::Number(bits) => State {
                    counter: index_of(bits, self.program.instructions@.len()),
                    ..s
                },
                _ => s,
            },
            LVar::Ipt => match v {
                LValue::Number(bits) => if self.privileged {
                    State { ipt: rate_of(bits), ..s }
                } else {
                    s
                },
                _ => s,
            },
            _ => s,
        }
    }

    /// Whether two values are the same value: the same kind, and numbers
    /// equal as numbers, strings unit for unit, all else part for part.
    pub open spec fn identical(&self, x: LValue, y: LValue) -> bool {
        match (x, y) {
            (LValue::Number(a), LValue::Number(b)) => number::same(a, b),
            (LValue::String(a), LValue::String(b)) => self.program.strings@[a as int]@
                == self.program.strings@[b as int]@,
            _ => x == y,
        }
    }

    /// Whether two values are equal to `equal`. Two numbers, null counting
    /// as 0, are equal where they are a millionth apart at most. A number
    /// and a string are equal. All other values are equal where they are
    /// identical.
    pub open spec fn alike(&self, x: LValue, y: LValue, world: &World) -> bool {
        if numeric(x) && numeric(y) {
            near(self.num(x, world), self.num(y, world))
        } else if (x is Number && y is String) || (x is String && y is Number) {
            true
        } else {
            self.identical(x, y)
        }
    }

    /// Whether a test passes.
    pub open spec fn passes(
        &self,
        condition: Condition,
        x: LValue,
        y: LValue,
        world: &World,
    ) -> bool {
        let a = self.num(x, world);
        let b = self.num(y, world);
        match condition {
            Condition::Equal => self.alike(x, y, world),
            Condition::NotEqual => !self.alike(x, y, world),
            Condition::LessThan => number::below(a, b),
            Condition::LessThanEq => number::below(a, b) || number::same(a, b),
            Condition::GreaterThan => number::below(b, a),
            Condition::GreaterThanEq => number::below(b, a) || number::same(a, b),
            Condition::StrictEqual => self.identical(x, y),
            Condition::Always => true,
        }
    }

    /// The result of a unary operation on a number.
    pub open spec fn unary_value(&self, op: UnaryOp, x: u64, answers: Seq<Answer>) -> LValue {
        match op {
            UnaryOp::Not => integer_of((!(number::truncation(x) as i64)) as int),
            UnaryOp::Abs => LValue::stored(number::magnitude(x)),
            UnaryOp::Sign => LValue::stored(number::signum(x)),
            UnaryOp::Floor => LValue::stored(number::floor_of(x)),
            UnaryOp::Ceil => LValue::stored(number::ceil_of(x)),
            UnaryOp::Round => LValue::stored(number::round_of(x)),
            _ => LValue::stored(arith::unary_result(op, answers)),
        }
    }

    /// The result of a binary operation on two values.
    pub open spec fn binary_value(
        &self,
        op: BinaryOp,
        x: LValue,
        y: LValue,
        world: &World,
        answers: Seq<Answer>,
    ) -> LValue {
        let a = self.num(x, world);
        let b = self.num(y, world);
        match op {
            BinaryOp::Land => truth_of(self.truthy(x, world) && self.truthy(y, world)),
            BinaryOp::Shl | BinaryOp::Shr | BinaryOp::Ushr | BinaryOp::Or | BinaryOp::And
            | BinaryOp::Xor => integer_of(
                bitwise(op, number::truncation(a) as i64, number::truncation(b) as i64) as int,
            ),
            BinaryOp::Max => LValue::stored(
                if number::below(a, b) {
                    b
                } else {
                    a
                },
            ),
            BinaryOp::Min => LValue::stored(
                if number::below(b, a) {
                    b
                } else {
                    a
                },
            ),
            BinaryOp::Test(condition) => truth_of(self.passes(condition, x, y, world)),
            _ => LValue::stored(arith::float_result(op, answers)),
        }
    }

    /// Whether printing a value takes the unit: the value is a number that
    /// is not a whole number below `2^63` in magnitude.
    pub open spec fn needs_format(v: LValue) -> bool {
        v matches LValue::Number(bits) && !number::whole_number(bits)
    }

    /// A value as text.
    pub open spec fn text_of(&self, v: LValue, world: &World, answers: Seq<Answer>) -> Seq<u16> {
        match v {
            LValue::Null => text::utf16("null"@),
            LValue::Number(bits) => if number::whole_number(bits) {
                text::decimal(number::truncation(bits))
            } else {
                answers[0].text@
            },
            LValue::String(id) => self.program.strings@[id as int]@,
            LValue::Content(c) => if world.catalog.holds(c) {
                text::utf16(world.catalog.name_spec(c))
            } else {
                text::utf16("null"@)
            },
            LValue::Team(t) => team_name(t),
            LValue::Building(p) => if world.occupied(p) {
                text::utf16(world.catalog.blocks@[world.tiles@[p.key()].block as int].name@)
            } else {
                text::utf16("null"@)
            },
        }
    }

    /// The print buffer after `text` fills the placeholder that is next;
    /// a buffer without a placeholder stays as it is.
    pub open spec fn formatted(buf: Seq<u16>, text: Seq<u16>) -> Seq<u16> {
        if exists|i: int| text::next_placeholder(buf, i) {
            text::substituted(buf, choose|i: int| text::next_placeholder(buf, i), text)
        } else {
            buf
        }
    }

    /// The channel that an operand names: its number, held to the range
    /// from 0 to 1, times 255, without what lies below the units.
    pub open spec fn channel_at(&self, s: State, var: LVar, world: &World) -> u8 {
        color::byte_of(color::unit_range(self.number_at(s, var, world)))
    }

    /// What an instruction asks of the unit in state `s`.
    #[verifier::opaque]
    pub open spec fn questions(&self, s: State, instruction: Instruction, world: &World) -> Seq<
        Request,
    > {
        match instruction {
            Instruction::Unary { op, dest, x } => arith::unary_questions(
                op,
                self.number_at(s, x, world),
            ),
            Instruction::Binary { op, dest, x, y } => match op {
                BinaryOp::Test(condition) => Seq::empty(),
                _ => arith::float_questions(
                    op,
                    self.number_at(s, x, world),
                    self.number_at(s, y, world),
                ),
            },
            Instruction::Print { value } | Instruction::Format { value } => match self.value_of(
                s,
                value,
                world,
            ) {
                LValue::Number(bits) => if number::whole_number(bits) {
                    Seq::empty()
                } else {
                    seq![Request::Format(bits)]
                },
                _ => Seq::empty(),
            },
            _ => Seq::empty(),
        }
    }

    /// What an instruction that stood at `pc` does to the state `s`, whose
    /// counter has moved on already, given the answers of the unit; and
    /// whether the processor then goes on within the tick.
    #[verifier::opaque]
    pub open spec fn effect(
        &self,
        s: State,
        pc: usize,
        instruction: Instruction,
        world: &World,
        answers: Seq<Answer>,
    ) -> (State, Flow) {
        match instruction {
            Instruction::Noop => (s, Flow::Continue),
            Instruction::Assign { dest, value } => (
                self.assigned(s, dest, self.value_of(s, value, world)),
                Flow::Continue,
            ),
            Instruction::Unary { op, dest, x } => (
                self.assigned(s, dest, self.unary_value(op, self.number_at(s, x, world), answers)),
                Flow::Continue,
            ),
            Instruction::Binary { op, dest, x, y } => (
                self.assigned(
                    s,
                    dest,
                    self.binary_value(
                        op,
                        self.value_of(s, x, world),
                        self.value_of(s, y, world),
                        world,
                        answers,
                    ),
                ),
                Flow::Continue,
            ),
            Instruction::Jump { target, condition, x, y } => if self.passes(
                condition,
                self.value_of(s, x, world),
                self.value_of(s, y, world),
                world,
            ) {
                (State { counter: target, ..s }, Flow::Continue)
            } else {
                (s, Flow::Continue)
            },
            Instruction::Select { dest, condition, x, y, if_true, if_false } => (
                self.assigned(
                    s,
                    dest,
                    if self.passes(
                        condition,
                        self.value_of(s, x, world),
                        self.value_of(s, y, world),
                        world,
                    ) {
                        self.value_of(s, if_true, world)
                    } else {
                        self.value_of(s, if_false, world)
                    },
                ),
                Flow::Continue,
            ),
            Instruction::Wait { seconds } => {
                let n = self.number_at(s, seconds, world);
                if number::below(0, n) {
                    (State { wait_until: Some(deadline(world.time, n)), ..s }, Flow::Yield)
                } else {
                    (s, Flow::Continue)
                }
            },
            Instruction::Stop => (State { stopped: true, counter: pc, ..s }, Flow::Yield),
            Instruction::End => (State { counter: 0, ..s }, Flow::Yield),
            Instruction::Print { value } => (
                State {
                    printbuffer: text::clipped(
                        s.printbuffer + self.text_of(
                            self.value_of(s, value, world),
                            world,
                            answers,
                        ),
                    ),
                    ..s
                },
                Flow::Continue,
            ),
            Instruction::PrintChar { code } => (
                State {
                    printbuffer: text::clipped(
                        s.printbuffer.push(char_unit(self.number_at(s, code, world))),
                    ),
                    ..s
                },
                Flow::Continue,
            ),
            Instruction::Format { value } => (
                State {
                    printbuffer: Self::formatted(
                        s.printbuffer,
                        self.text_of(self.value_of(s, value, world), world, answers),
                    ),
                    ..s
                },
                Flow::Continue,
            ),
            Instruction::PackColor { dest, r, g, b, a } => (
                self.assigned(
                    s,
                    dest,
                    LValue::Number(
                        color::packing(
                            self.channel_at(s, r, world),
                            self.channel_at(s, g, world),
                            self.channel_at(s, b, world),
                            self.channel_at(s, a, world),
                        ),
                    ),
                ),
                Flow::Continue,
            ),
            Instruction::UnpackColor { r, g, b, a, packed } => {
                let c = color::channels(self.number_at(s, packed, world));
                let s1 = self.assigned(s, r, LValue::Number(color::share(c.0)));
                let s2 = self.assigned(s1, g, LValue::Number(color::share(c.1)));
                let s3 = self.assigned(s2, b, LValue::Number(color::share(c.2)));
                (self.assigned(s3, a, LValue::Number(color::share(c.3))), Flow::Continue)
            },
            Instruction::Lookup { kind, dest, index } => (
                self.assigned(
                    s,
                    dest,
                    world.catalog.entry(kind, number::truncation(self.number_at(s, index, world))),
                ),
                Flow::Continue,
            ),
            Instruction::SetRate { rate } => if self.privileged {
                (State { ipt: rate_of(self.number_at(s, rate, world)), ..s }, Flow::Continue)
            } else {
                (s, Flow::Continue)
            },
        }
    }

    /// The state with the counter moved to the next instruction.
    pub open spec fn fetched(&self, s: State) -> State {
        State { counter: successor(s.counter, self.program.instructions@.len()), ..s }
    }

    /// One step: the counter moves on, and the instruction that stood at
    /// it takes effect.
    pub open spec fn stepped(&self, s: State, world: &World, answers: Seq<Answer>) -> (
        State,
        Flow,
    ) {
        self.effect(
            self.fetched(s),
            s.counter,
            self.program.instructions@[s.counter as int],
            world,
            answers,
        )
    }

    /// Whether `answers` answer what the instruction at the counter of `s`
    /// asks: there is one for each question, in the shape that the
    /// question asks for.
    pub open spec fn answered(&self, s: State, world: &World, answers: Seq<Answer>) -> bool {
        let asked = self.questions(
            self.fetched(s),
            self.program.instructions@[s.counter as int],
            world,
        );
        &&& answers.len() == asked.len()
        &&& forall|k: int| 0 <= k < asked.len() ==> shaped(asked[k], #[trigger] answers[k])
    }

    /// Whether a processor in state `s` lets a tick pass: it is stopped,
    /// it has no program, or it waits for a time that has not come.
    pub open spec fn idle(&self, s: State, world: &World) -> bool {
        ||| s.stopped
        ||| self.program.instructions@.len() == 0
        ||| (s.wait_until matches Some(until) && world.time < until)
    }

    /// The state of a processor that waits for nothing.
    pub open spec fn woken(s: State) -> State {
        State { wait_until: None, ..s }
    }

    /// Whether `n` steps lead from `s` to `t`, for some answers of the
    /// unit to what each step asks, each step but the last letting the
    /// processor go on, and the last ending in `flow`. Without a step `t`
    /// is `s`.
    pub open spec fn reaches(&self, s: State, t: State, n: nat, flow: Flow, world: &World) -> bool
        decreases n,
    {
        if n == 0 {
            s == t && flow == Flow::Continue
        } else {
            exists|mid: State, answers: Seq<Answer>|
                {
                    &&& self.reaches(s, mid, (n - 1) as nat, Flow::Continue, world)
                    &&& self.answered(mid, world, answers)
                    &&& #[trigger] self.stepped(mid, world, answers) == (t, flow)
                }
        }
    }
}

} // verus!
