//! One processor: its program and its state, and how it runs.

use crate::{arith, color, number, text};
use crate::catalog::LookupKind;
use crate::evaluate::{index, rate};
use crate::instruction::{BinaryOp, Condition, Flow, Instruction, LVar, UnaryOp};
use crate::model::{Core, MAX_IPT, State};
use crate::point::Point2;
use crate::program::{check_value, Program};
use crate::unit::{ask, Answer, FloatUnit, Request};
use crate::value::LValue;
use crate::world::World;
use vstd::prelude::*;

verus! {

/// What changes while a processor runs.
#[derive(Clone, Debug)]
pub struct ProcessorState {
    /// The index of the instruction to run next.
    pub counter: usize,
    pub stopped: bool,
    /// The time, in nanoseconds, before which the processor does not run.
    pub wait_until: Option<u64>,
    pub printbuffer: Vec<u16>,
    /// The budget of instructions per tick.
    pub ipt: usize,
    /// The values of the variables.
    pub slots: Vec<LValue>,
}

impl View for ProcessorState {
    type V = State;

    open spec fn view(&self) -> State {
        State {
            counter: self.counter,
            stopped: self.stopped,
            wait_until: self.wait_until,
            printbuffer: self.printbuffer@,
            ipt: self.ipt,
            slots: self.slots@,
        }
    }
}

/// A processor placed in a machine.
#[derive(Clone, Debug)]
pub struct Processor {
    pub state: ProcessorState,
    pub core: Core,
}

impl Processor {
    /// The program is well formed and the state fits it.
    pub open spec fn wf(&self) -> bool {
        self.core.program.wf() && self.core.program.fits(self.state@)
    }

    /// Reads an operand.
    pub fn read(&self, var: LVar, world: &World) -> (v: LValue)
        requires
            self.wf(),
            world.wf(),
            self.core.program.valid_var(var),
        ensures
            v == self.core.value_of(self.state@, var, world),
            self.core.program.valid_value(v),
    {
        match var {
            LVar::Constant(v) => v,
            LVar::Slot(i) => self.state.slots[i],
            LVar::Counter => LValue::number(number::from_magnitude(self.state.counter as u64)),
            LVar::Ipt => LValue::number(number::from_magnitude(self.state.ipt as u64)),
            LVar::Time => world.clock.time,
            LVar::Tick => world.clock.tick,
            LVar::Second => world.clock.second,
            LVar::This => LValue::Building(self.core.position),
            LVar::BlockCount => LValue::number(
                number::from_magnitude(world.catalog.blocks.len() as u64),
            ),
            LVar::ItemCount => LValue::number(
                number::from_magnitude(world.catalog.items.len() as u64),
            ),
            LVar::LiquidCount => LValue::number(
                number::from_magnitude(world.catalog.liquids.len() as u64),
            ),
            LVar::UnitCount => LValue::number(
                number::from_magnitude(world.catalog.units.len() as u64),
            ),
        }
    }

    /// Reads an operand as a number.
    pub fn read_number(&self, var: LVar, world: &World) -> (r: u64)
        requires
            self.wf(),
            world.wf(),
            self.core.program.valid_var(var),
        ensures
            r == self.core.number_at(self.state@, var, world),
            number::finite(r),
    {
        let v = self.read(var, world);
        self.core.number(v, world)
    }

    /// Assigns a value to an operand.
    pub fn assign(&mut self, dest: LVar, v: LValue)
        requires
            old(self).wf(),
            old(self).core.program.valid_var(dest),
            old(self).core.program.valid_value(v),
        ensures
            final(self).state@ == old(self).core.assigned(old(self).state@, dest, v),
            final(self).core == old(self).core,
            final(self).wf(),
    {
        match dest {
            LVar::Slot(i) => {
                self.state.slots.set(i, v);
            },
            LVar::Counter => match v {
                LValue::Number(bits) => {
                    self.state.counter = index(bits, self.core.program.instructions.len());
                },
                _ => {},
            },
            LVar::Ipt => match v {
                LValue::Number(bits) => {
                    if self.core.privileged {
                        self.state.ipt = rate(bits);
                    }
                },
                _ => {},
            },
            _ => {},
        }
    }

    /// What an instruction asks of the unit in the present state.
    pub fn requests_for(&self, instruction: Instruction, world: &World) -> (r: Vec<Request>)
        requires
            self.wf(),
            world.wf(),
            self.core.program.valid_instruction(instruction),
        ensures
            r@ == self.core.questions(self.state@, instruction, world),
    {
        reveal(Core::questions);
        let mut r: Vec<Request> = Vec::new();
        match instruction {
            Instruction::Unary { op, dest, x } => {
                r = arith::unary_requests(op, self.read_number(x, world));
            },
            Instruction::Binary { op, dest, x, y } => {
                match op {
                    BinaryOp::Test(condition) => {},
                    _ => {
                        r = arith::float_requests(
                            op,
                            self.read_number(x, world),
                            self.read_number(y, world),
                        );
                    },
                }
            },
            Instruction::Print { value } | Instruction::Format { value } => {
                match self.read(value, world) {
                    LValue::Number(bits) => {
                        if !number::is_whole_number(bits) {
                            r.push(Request::Format(bits));
                        }
                    },
                    _ => {},
                }
            },
            _ => {},
        }
        assert(r@ =~= self.core.questions(self.state@, instruction, world));
        r
    }

    /// Moves the counter to the next instruction, and returns where it
    /// stood and the instruction that stood there.
    pub fn fetch(&mut self) -> (r: (usize, Instruction))
        requires
            old(self).wf(),
            old(self).core.program.instructions@.len() > 0,
        ensures
            r.0 == old(self).state.counter,
            r.1 == old(self).core.program.instructions@[r.0 as int],
            old(self).core.program.valid_instruction(r.1),
            final(self).state@ == old(self).core.fetched(old(self).state@),
            final(self).core == old(self).core,
            final(self).wf(),
    {
        let pc: usize = self.state.counter;
        let instruction = self.core.program.instructions[pc];
        self.state.counter = if pc >= self.core.program.instructions.len() - 1 {
            0
        } else {
            pc + 1
        };
        (pc, instruction)
    }

    /// `set`.
    fn run_assign(
        &mut self,
        pc: usize,
        dest: LVar,
        value: LVar,
        world: &World,
        answers: &Vec<Answer>,
    ) -> (flow: Flow)
        requires
            old(self).wf(),
            world.wf(),
            old(self).core.program.valid_instruction(Instruction::Assign { dest, value }),
            pc < old(self).core.program.instructions@.len(),
            answers@.len() >= old(self).core.questions(
                old(self).state@,
                Instruction::Assign { dest, value },
                world,
            ).len(),
        ensures
            (final(self).state@, flow) == old(self).core.effect(
                old(self).state@,
                pc,
                Instruction::Assign { dest, value },
                world,
                answers@,
            ),
            final(self).core == old(self).core,
            final(self).wf(),
    {
        reveal(Core::effect);
        reveal(Core::questions);
        let v = self.read(value, world);
        self.assign(dest, v);
        Flow::Continue
    }

    /// `op` with one operand.
    fn run_unary(
        &mut self,
        pc: usize,
        op: UnaryOp,
        dest: LVar,
        x: LVar,
        world: &World,
        answers: &Vec<Answer>,
    ) -> (flow: Flow)
        requires
            old(self).wf(),
            world.wf(),
            old(self).core.program.valid_instruction(Instruction::Unary { op, dest, x }),
            pc < old(self).core.program.instructions@.len(),
            answers@.len() >= old(self).core.questions(
                old(self).state@,
                Instruction::Unary { op, dest, x },
                world,
            ).len(),
        ensures
            (final(self).state@, flow) == old(self).core.effect(
                old(self).state@,
                pc,
                Instruction::Unary { op, dest, x },
                world,
                answers@,
            ),
            final(self).core == old(self).core,
            final(self).wf(),
    {
        reveal(Core::effect);
        reveal(Core::questions);
        let n: u64 = self.read_number(x, world);
        let v = self.core.unary(op, n, answers);
        self.assign(dest, v);
        Flow::Continue
    }

    /// `op` with two operands.
    fn run_binary(
        &mut self,
        pc: usize,
        op: BinaryOp,
        dest: LVar,
        x: LVar,
        y: LVar,
        world: &World,
        answers: &Vec<Answer>,
    ) -> (flow: Flow)
        requires
            old(self).wf(),
            world.wf(),
            old(self).core.program.valid_instruction(Instruction::Binary { op, dest, x, y }),
            pc < old(self).core.program.instructions@.len(),
            answers@.len() >= old(self).core.questions(
                old(self).state@,
                Instruction::Binary { op, dest, x, y },
                world,
            ).len(),
        ensures
            (final(self).state@, flow) == old(self).core.effect(
                old(self).state@,
                pc,
                Instruction::Binary { op, dest, x, y },
                world,
                answers@,
            ),
            final(self).core == old(self).core,
            final(self).wf(),
    {
        reveal(Core::effect);
        reveal(Core::questions);
        let xv = self.read(x, world);
        let yv = self.read(y, world);
        let v = self.core.binary(op, xv, yv, world, answers);
        self.assign(dest, v);
        Flow::Continue
    }

    /// `jump`.
    fn run_jump(
        &mut self,
        pc: usize,
        target: usize,
        condition: Condition,
        x: LVar,
        y: LVar,
        world: &World,
        answers: &Vec<Answer>,
    ) -> (flow: Flow)
        requires
            old(self).wf(),
            world.wf(),
            old(self).core.program.valid_instruction(Instruction::Jump { target, condition, x, y }),
            pc < old(self).core.program.instructions@.len(),
            answers@.len() >= old(self).core.questions(
                old(self).state@,
                Instruction::Jump { target, condition, x, y },
                world,
            ).len(),
        ensures
            (final(self).state@, flow) == old(self).core.effect(
                old(self).state@,
                pc,
                Instruction::Jump { target, condition, x, y },
                world,
                answers@,
            ),
            final(self).core == old(self).core,
            final(self).wf(),
    {
        reveal(Core::effect);
        reveal(Core::questions);
        let xv = self.read(x, world);
        let yv = self.read(y, world);
        if self.core.test(condition, xv, yv, world) {
            self.state.counter = target;
        }
        Flow::Continue
    }

    /// `select`.
    fn run_select(
        &mut self,
        pc: usize,
        dest: LVar,
        condition: Condition,
        x: LVar,
        y: LVar,
        if_true: LVar,
        if_false: LVar,
        world: &World,
        answers: &Vec<Answer>,
    ) -> (flow: Flow)
        requires
            old(self).wf(),
            world.wf(),
            old(self).core.program.valid_instruction(
                Instruction::Select { dest, condition, x, y, if_true, if_false },
            ),
            pc < old(self).core.program.instructions@.len(),
            answers@.len() >= old(self).core.questions(
                old(self).state@,
                Instruction::Select { dest, condition, x, y, if_true, if_false },
                world,
            ).len(),
        ensures
            (final(self).state@, flow) == old(self).core.effect(
                old(self).state@,
                pc,
                Instruction::Select { dest, condition, x, y, if_true, if_false },
                world,
                answers@,
            ),
            final(self).core == old(self).core,
            final(self).wf(),
    {
        reveal(Core::effect);
        reveal(Core::questions);
        let xv = self.read(x, world);
        let yv = self.read(y, world);
        let v = if self.core.test(condition, xv, yv, world) {
            self.read(if_true, world)
        } else {
            self.read(if_false, world)
        };
        self.assign(dest, v);
        Flow::Continue
    }

    /// `wait`.
    fn run_wait(
        &mut self,
        pc: usize,
        seconds: LVar,
        world: &World,
        answers: &Vec<Answer>,
    ) -> (flow: Flow)
        requires
            old(self).wf(),
            world.wf(),
            old(self).core.program.valid_instruction(Instruction::Wait { seconds }),
            pc < old(self).core.program.instructions@.len(),
            answers@.len() >= old(self).core.questions(
                old(self).state@,
                Instruction::Wait { seconds },
                world,
            ).len(),
        ensures
            (final(self).state@, flow) == old(self).core.effect(
                old(self).state@,
                pc,
                Instruction::Wait { seconds },
                world,
                answers@,
            ),
            final(self).core == old(self).core,
            final(self).wf(),
    {
        reveal(Core::effect);
        reveal(Core::questions);
        let n: u64 = self.read_number(seconds, world);
        if number::less_than(0, n) {
            let span: u64 = number::to_nanoseconds(n);
            let until: u64 = if span > u64::MAX - world.time {
                u64::MAX
            } else {
                world.time + span
            };
            self.state.wait_until = Some(until);
            Flow::Yield
        } else {
            Flow::Continue
        }
    }

    /// `print`.
    fn run_print(
        &mut self,
        pc: usize,
        value: LVar,
        world: &World,
        answers: &Vec<Answer>,
    ) -> (flow: Flow)
        requires
            old(self).wf(),
            world.wf(),
            old(self).core.program.valid_instruction(Instruction::Print { value }),
            pc < old(self).core.program.instructions@.len(),
            answers@.len() >= old(self).core.questions(
                old(self).state@,
                Instruction::Print { value },
                world,
            ).len(),
        ensures
            (final(self).state@, flow) == old(self).core.effect(
                old(self).state@,
                pc,
                Instruction::Print { value },
                world,
                answers@,
            ),
            final(self).core == old(self).core,
            final(self).wf(),
    {
        reveal(Core::effect);
        reveal(Core::questions);
        let v = self.read(value, world);
        let t = self.core.text(v, world, answers);
        text::append_clipped(&mut self.state.printbuffer, &t);
        Flow::Continue
    }

    /// `printchar`.
    fn run_printchar(
        &mut self,
        pc: usize,
        code: LVar,
        world: &World,
        answers: &Vec<Answer>,
    ) -> (flow: Flow)
        requires
            old(self).wf(),
            world.wf(),
            old(self).core.program.valid_instruction(Instruction::PrintChar { code }),
            pc < old(self).core.program.instructions@.len(),
            answers@.len() >= old(self).core.questions(
                old(self).state@,
                Instruction::PrintChar { code },
                world,
            ).len(),
        ensures
            (final(self).state@, flow) == old(self).core.effect(
                old(self).state@,
                pc,
                Instruction::PrintChar { code },
                world,
                answers@,
            ),
            final(self).core == old(self).core,
            final(self).wf(),
    {
        reveal(Core::effect);
        reveal(Core::questions);
        let n: u64 = self.read_number(code, world);
        let t: i64 = number::to_int(n);
        let unit: u16 = (t & 0xffff) as u16;
        assert(unit == (t as int % 0x1_0000) as u16) by (bit_vector)
            requires
                unit == (t & 0xffff) as u16,
        ;
        let ghost before = self.state.printbuffer@;
        if self.state.printbuffer.len() < text::PRINT_CAPACITY {
            self.state.printbuffer.push(unit);
        }
        assert(self.state.printbuffer@ =~= text::clipped(before.push(unit)));
        Flow::Continue
    }

    /// `format`.
    fn run_format(
        &mut self,
        pc: usize,
        value: LVar,
        world: &World,
        answers: &Vec<Answer>,
    ) -> (flow: Flow)
        requires
            old(self).wf(),
            world.wf(),
            old(self).core.program.valid_instruction(Instruction::Format { value }),
            pc < old(self).core.program.instructions@.len(),
            answers@.len() >= old(self).core.questions(
                old(self).state@,
                Instruction::Format { value },
                world,
            ).len(),
        ensures
            (final(self).state@, flow) == old(self).core.effect(
                old(self).state@,
                pc,
                Instruction::Format { value },
                world,
                answers@,
            ),
            final(self).core == old(self).core,
            final(self).wf(),
    {
        reveal(Core::effect);
        reveal(Core::questions);
        let v = self.read(value, world);
        let t = self.core.text(v, world, answers);
        let ghost before = self.state.printbuffer@;
        let found = text::substitute(&mut self.state.printbuffer, &t);
        proof {
            match found {
                Some(at) => {
                    let chosen = choose|i: int| text::next_placeholder(before, i);
                    text::lemma_next_placeholder_unique(before, at as int, chosen);
                },
                None => {},
            }
        }
        Flow::Continue
    }

    /// `packcolor`.
    fn run_packcolor(
        &mut self,
        pc: usize,
        dest: LVar,
        r: LVar,
        g: LVar,
        b: LVar,
        a: LVar,
        world: &World,
        answers: &Vec<Answer>,
    ) -> (flow: Flow)
        requires
            old(self).wf(),
            world.wf(),
            old(self).core.program.valid_instruction(Instruction::PackColor { dest, r, g, b, a }),
            pc < old(self).core.program.instructions@.len(),
            answers@.len() >= old(self).core.questions(
                old(self).state@,
                Instruction::PackColor { dest, r, g, b, a },
                world,
            ).len(),
        ensures
            (final(self).state@, flow) == old(self).core.effect(
                old(self).state@,
                pc,
                Instruction::PackColor { dest, r, g, b, a },
                world,
                answers@,
            ),
            final(self).core == old(self).core,
            final(self).wf(),
    {
        reveal(Core::effect);
        reveal(Core::questions);
        let bits: u64 = color::pack(
            color::to_byte(color::clamp_unit(self.read_number(r, world))),
            color::to_byte(color::clamp_unit(self.read_number(g, world))),
            color::to_byte(color::clamp_unit(self.read_number(b, world))),
            color::to_byte(color::clamp_unit(self.read_number(a, world))),
        );
        self.assign(dest, LValue::Number(bits));
        Flow::Continue
    }

    /// `unpackcolor`.
    fn run_unpackcolor(
        &mut self,
        pc: usize,
        r: LVar,
        g: LVar,
        b: LVar,
        a: LVar,
        packed: LVar,
        world: &World,
        answers: &Vec<Answer>,
    ) -> (flow: Flow)
        requires
            old(self).wf(),
            world.wf(),
            old(self).core.program.valid_instruction(
                Instruction::UnpackColor { r, g, b, a, packed },
            ),
            pc < old(self).core.program.instructions@.len(),
            answers@.len() >= old(self).core.questions(
                old(self).state@,
                Instruction::UnpackColor { r, g, b, a, packed },
                world,
            ).len(),
        ensures
            (final(self).state@, flow) == old(self).core.effect(
                old(self).state@,
                pc,
                Instruction::UnpackColor { r, g, b, a, packed },
                world,
                answers@,
            ),
            final(self).core == old(self).core,
            final(self).wf(),
    {
        reveal(Core::effect);
        reveal(Core::questions);
        let c = color::unpack(self.read_number(packed, world));
        self.assign(r, LValue::Number(color::to_share(c.0)));
        self.assign(g, LValue::Number(color::to_share(c.1)));
        self.assign(b, LValue::Number(color::to_share(c.2)));
        self.assign(a, LValue::Number(color::to_share(c.3)));
        Flow::Continue
    }

    /// `lookup`.
    fn run_lookup(
        &mut self,
        pc: usize,
        kind: LookupKind,
        dest: LVar,
        index: LVar,
        world: &World,
        answers: &Vec<Answer>,
    ) -> (flow: Flow)
        requires
            old(self).wf(),
            world.wf(),
            old(self).core.program.valid_instruction(Instruction::Lookup { kind, dest, index }),
            pc < old(self).core.program.instructions@.len(),
            answers@.len() >= old(self).core.questions(
                old(self).state@,
                Instruction::Lookup { kind, dest, index },
                world,
            ).len(),
        ensures
            (final(self).state@, flow) == old(self).core.effect(
                old(self).state@,
                pc,
                Instruction::Lookup { kind, dest, index },
                world,
                answers@,
            ),
            final(self).core == old(self).core,
            final(self).wf(),
    {
        reveal(Core::effect);
        reveal(Core::questions);
        let n: u64 = self.read_number(index, world);
        let v = world.catalog.lookup(kind, number::to_int(n));
        self.assign(dest, v);
        Flow::Continue
    }

    /// `setrate`.
    fn run_setrate(
        &mut self,
        pc: usize,
        wanted: LVar,
        world: &World,
        answers: &Vec<Answer>,
    ) -> (flow: Flow)
        requires
            old(self).wf(),
            world.wf(),
            old(self).core.program.valid_instruction(Instruction::SetRate { rate: wanted }),
            pc < old(self).core.program.instructions@.len(),
            answers@.len() >= old(self).core.questions(
                old(self).state@,
                Instruction::SetRate { rate: wanted },
                world,
            ).len(),
        ensures
            (final(self).state@, flow) == old(self).core.effect(
                old(self).state@,
                pc,
                Instruction::SetRate { rate: wanted },
                world,
                answers@,
            ),
            final(self).core == old(self).core,
            final(self).wf(),
    {
        reveal(Core::effect);
        reveal(Core::questions);
        if self.core.privileged {
            let n: u64 = self.read_number(wanted, world);
            self.state.ipt = rate(n);
        }
        Flow::Continue
    }

    /// Lets an instruction that stood at `pc` take effect, given the
    /// answers of the unit to what it asks.
    pub fn perform(
        &mut self,
        pc: usize,
        instruction: Instruction,
        world: &World,
        answers: &Vec<Answer>,
    ) -> (flow: Flow)
        requires
            old(self).wf(),
            world.wf(),
            old(self).core.program.valid_instruction(instruction),
            pc < old(self).core.program.instructions@.len(),
            answers@.len() >= old(self).core.questions(old(self).state@, instruction, world).len(),
        ensures
            (final(self).state@, flow) == old(self).core.effect(
                old(self).state@,
                pc,
                instruction,
                world,
                answers@,
            ),
            final(self).core == old(self).core,
            final(self).wf(),
    {
        match instruction {
            Instruction::Noop => {
                reveal(Core::effect);
                Flow::Continue
            },
            Instruction::Stop => {
                reveal(Core::effect);
                self.state.stopped = true;
                self.state.counter = pc;
                Flow::Yield
            },
            Instruction::End => {
                reveal(Core::effect);
                self.state.counter = 0;
                Flow::Yield
            },
            Instruction::Assign { dest, value } => self.run_assign(pc, dest, value, world, answers),
            Instruction::Unary { op, dest, x } => self.run_unary(pc, op, dest, x, world, answers),
            Instruction::Binary { op, dest, x, y } => self.run_binary(
                pc,
                op,
                dest,
                x,
                y,
                world,
                answers,
            ),
            Instruction::Jump { target, condition, x, y } => self.run_jump(
                pc,
                target,
                condition,
                x,
                y,
                world,
                answers,
            ),
            Instruction::Select { dest, condition, x, y, if_true, if_false } => self.run_select(
                pc,
                dest,
                condition,
                x,
                y,
                if_true,
                if_false,
                world,
                answers,
            ),
            Instruction::Wait { seconds } => self.run_wait(pc, seconds, world, answers),
            Instruction::Print { value } => self.run_print(pc, value, world, answers),
            Instruction::PrintChar { code } => self.run_printchar(pc, code, world, answers),
            Instruction::Format { value } => self.run_format(pc, value, world, answers),
            Instruction::PackColor { dest, r, g, b, a } => self.run_packcolor(
                pc,
                dest,
                r,
                g,
                b,
                a,
                world,
                answers,
            ),
            Instruction::UnpackColor { r, g, b, a, packed } => self.run_unpackcolor(
                pc,
                r,
                g,
                b,
                a,
                packed,
                world,
                answers,
            ),
            Instruction::Lookup { kind, dest, index } => self.run_lookup(
                pc,
                kind,
                dest,
                index,
                world,
                answers,
            ),
            Instruction::SetRate { rate } => self.run_setrate(pc, rate, world, answers),
        }
    }

    /// Runs the instruction at the counter: asks the unit what the
    /// instruction asks, and lets the instruction take effect with the
    /// answers, of which there is one for each question, in its shape.
    pub fn step<U: FloatUnit>(&mut self, world: &World, unit: &U) -> (flow: Flow)
        requires
            old(self).wf(),
            world.wf(),
            old(self).core.program.instructions@.len() > 0,
        ensures
            exists|answers: Seq<Answer>|
                {
                    &&& old(self).core.answered(old(self).state@, world, answers)
                    &&& #[trigger] old(self).core.stepped(old(self).state@, world, answers) == (
                        final(self).state@,
                        flow,
                    )
                },
            final(self).core == old(self).core,
            final(self).wf(),
    {
        let (pc, instruction) = self.fetch();
        let requests = self.requests_for(instruction, world);
        let answers = ask(unit, &requests);
        let flow = self.perform(pc, instruction, world, &answers);
        assert(old(self).core.answered(old(self).state@, world, answers@));
        assert(old(self).core.stepped(old(self).state@, world, answers@) == (self.state@, flow));
        flow
    }

    /// Whether a tick of `steps` instructions at the time of `world` leads
    /// from `before` to `self`.
    ///
    /// An idle processor stays as it is. Any other first forgets what it
    /// waited for and then takes steps until one of them yields or as many
    /// are taken as the budget was when the tick began.
    pub open spec fn ran(&self, before: &Processor, world: &World, steps: nat) -> bool {
        &&& self.core == before.core
        &&& before.core.idle(before.state@, world) ==> steps == 0 && self.state@ == before.state@
        &&& !before.core.idle(before.state@, world) ==> {
            &&& 1 <= steps <= before.state.ipt
            &&& exists|flow: Flow|
                {
                    &&& #[trigger] before.core.reaches(
                        Core::woken(before.state@),
                        self.state@,
                        steps,
                        flow,
                        world,
                    )
                    &&& steps < before.state.ipt ==> flow == Flow::Yield
                }
        }
    }

    /// Whether a tick at the time of `world` leads from `before` to `self`.
    pub open spec fn ticked(&self, before: &Processor, world: &World) -> bool {
        exists|steps: nat| self.ran(before, world, steps)
    }

    /// Whether the processor is at the start of `program`, at `position`,
    /// with the budget of its kind, an empty print buffer and every
    /// variable null.
    pub open spec fn starts(
        &self,
        program: Program,
        kind: crate::catalog::ProcessorKind,
        position: Point2,
    ) -> bool {
        &&& self.core.program == program
        &&& self.core.privileged == kind.privileged()
        &&& self.core.position == position
        &&& self.state.counter == 0
        &&& !self.state.stopped
        &&& self.state.wait_until is None
        &&& self.state.printbuffer@.len() == 0
        &&& self.state.ipt == kind.default_ipt()
        &&& self.state.slots@.len() == program.slots
        &&& forall|i: int|
            0 <= i < self.state.slots@.len() ==> self.state.slots@[i] == LValue::Null
    }

    /// A processor at the start of its program.
    pub fn new(program: Program, kind: crate::catalog::ProcessorKind, position: Point2) -> (p:
        Processor)
        requires
            program.wf(),
        ensures
            p.wf(),
            p.starts(program, kind, position),
    {
        let mut slots: Vec<LValue> = Vec::new();
        let n: usize = program.slots;
        let mut i: usize = 0;
        while i < n
            invariant
                i <= n,
                slots@.len() == i,
                forall|j: int| 0 <= j < i ==> slots@[j] == LValue::Null,
            decreases n - i,
        {
            slots.push(LValue::Null);
            i = i + 1;
        }
        Processor {
            state: ProcessorState {
                counter: 0,
                stopped: false,
                wait_until: None,
                printbuffer: Vec::new(),
                ipt: kind.default_ipt(),
                slots,
            },
            core: Core { program, privileged: kind.privileged(), position },
        }
    }

    /// Whether the processor still runs.
    pub fn enabled(&self) -> (r: bool)
        ensures
            r == !self.state.stopped,
    {
        !self.state.stopped
    }

    /// Whether the processor has stopped.
    pub fn stopped(&self) -> (r: bool)
        ensures
            r == self.state.stopped,
    {
        self.state.stopped
    }

    /// Runs the processor for one tick at the time of `world`, and returns
    /// the number of instructions that it ran, which is at most the budget.
    pub fn do_tick<U: FloatUnit>(&mut self, world: &World, unit: &U) -> (steps: usize)
        requires
            old(self).wf(),
            world.wf(),
        ensures
            final(self).wf(),
            final(self).ran(old(self), world, steps as nat),
            steps <= old(self).state.ipt,
            old(self).state.stopped ==> final(self).state.stopped,
    {
        if self.state.stopped || self.program_len() == 0 {
            return 0;
        }
        match self.state.wait_until {
            Some(until) => {
                if world.time < until {
                    return 0;
                }
            },
            None => {},
        }
        self.state.wait_until = None;
        let ghost start = self.state@;
        let budget: usize = self.state.ipt;
        let mut steps: usize = 0;
        let mut going: bool = true;
        let ghost mut last: Flow = Flow::Continue;
        while going && steps < budget
            invariant
                self.wf(),
                world.wf(),
                self.core == old(self).core,
                self.core.program.instructions@.len() > 0,
                steps <= budget,
                going <==> last == Flow::Continue,
                !going ==> steps >= 1,
                self.core.reaches(start, self.state@, steps as nat, last, world),
            decreases budget - steps,
        {
            let ghost before = self.state@;
            let flow = self.step(world, unit);
            proof {
                let answers = choose|answers: Seq<Answer>| #[trigger]
                    self.core.stepped(before, world, answers) == (self.state@, flow);
                assert(self.core.reaches(start, before, steps as nat, Flow::Continue, world));
                assert(self.core.stepped(before, world, answers) == (self.state@, flow));
                last = flow;
            }
            steps = steps + 1;
            going = match flow {
                Flow::Continue => true,
                Flow::Yield => false,
            };
        }
        steps
    }

    /// The number of instructions of the program.
    pub fn program_len(&self) -> (n: usize)
        ensures
            n == self.core.program.instructions@.len(),
    {
        self.core.program.instructions.len()
    }

    /// The value of the variable of the given name: what the slot holds
    /// that the program binds the name to, or the constant that it binds
    /// the name to. A name that the program does not mention has none.
    pub fn variable(&self, name: &str) -> (r: Option<LValue>)
        requires
            self.wf(),
        ensures
            r == match self.core.program.binding(name@) {
                Some(LVar::Slot(i)) => Some(self.state.slots@[i as int]),
                Some(LVar::Constant(v)) => Some(v),
                _ => None,
            },
    {
        match self.core.program.lookup(name) {
            Some(LVar::Slot(i)) => {
                proof {
                    crate::names::lemma_position_holds(self.core.program.names(), name@);
                }
                Some(self.state.slots[i])
            },
            Some(LVar::Constant(v)) => Some(v),
            _ => None,
        }
    }

    /// Moves the counter to the instruction that `counter` names: the
    /// remainder of `counter` by the length of the program.
    pub fn set_counter(&mut self, counter: usize)
        requires
            old(self).wf(),
        ensures
            final(self).wf(),
            final(self).core == old(self).core,
            final(self).state@ == (State {
                counter: if old(self).core.program.instructions@.len() == 0 {
                    0
                } else {
                    (counter as int % old(self).core.program.instructions@.len() as int) as usize
                },
                ..old(self).state@
            }),
    {
        let len: usize = self.core.program.instructions.len();
        self.state.counter = if len == 0 {
            0
        } else {
            counter % len
        };
    }

    /// Stops the processor, or lets it run again.
    pub fn set_stopped(&mut self, stopped: bool)
        requires
            old(self).wf(),
        ensures
            final(self).wf(),
            final(self).core == old(self).core,
            final(self).state@ == (State { stopped, ..old(self).state@ }),
    {
        self.state.stopped = stopped;
    }

    /// Whether the processor is well formed.
    pub fn check(&self) -> (ok: bool)
        ensures
            ok == self.wf(),
    {
        if !self.core.program.check() {
            return false;
        }
        let len: usize = self.core.program.instructions.len();
        if !(self.state.counter < len || self.state.counter == 0) {
            return false;
        }
        if self.state.printbuffer.len() > text::PRINT_CAPACITY {
            return false;
        }
        if self.state.ipt < 1 || self.state.ipt > MAX_IPT {
            return false;
        }
        if self.state.slots.len() != self.core.program.slots {
            return false;
        }
        let strings: usize = self.core.program.strings.len();
        let n: usize = self.state.slots.len();
        let mut i: usize = 0;
        while i < n
            invariant
                i <= n == self.state.slots@.len(),
                strings == self.core.program.strings@.len(),
                forall|j: int|
                    0 <= j < i ==> self.core.program.valid_value(#[trigger] self.state.slots@[j]),
            decreases n - i,
        {
            if !check_value(self.state.slots[i], strings) {
                return false;
            }
            i = i + 1;
        }
        true
    }
}

} // verus!
