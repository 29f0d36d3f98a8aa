//! Decoded programs, and what makes their operands valid.

use crate::instruction::{Instruction, LVar};
use crate::model::{MAX_IPT, State};
use crate::{number, text};
use crate::value::LValue;
use vstd::prelude::*;

verus! {

/// A name of the program and what it is bound to.
#[derive(Clone, Debug)]
pub struct Variable {
    pub name: String,
    pub var: LVar,
}

/// A decoded program.
#[derive(Clone, Debug)]
pub struct Program {
    pub instructions: Vec<Instruction>,
    /// The texts of the program's string values, which name them by index.
    pub strings: Vec<Vec<u16>>,
    /// The names that the program mentions, each once.
    pub variables: Vec<Variable>,
    /// The number of slots that the operands use.
    pub slots: usize,
}

/// A value holds a finite number, or names one of the first `strings` strings.
pub open spec fn value_ok(v: LValue, strings: nat) -> bool {
    match v {
        LValue::Number(bits) => number::finite(bits),
        LValue::String(id) => id < strings,
        _ => true,
    }
}

/// An operand names one of the first `slots` slots or holds a valid value.
pub open spec fn var_ok(var: LVar, slots: nat, strings: nat) -> bool {
    match var {
        LVar::Constant(v) => value_ok(v, strings),
        LVar::Slot(i) => i < slots,
        _ => true,
    }
}

/// Every operand of an instruction is valid, and a jump goes to one of the
/// first `count` instructions.
pub open spec fn instruction_ok(
    instruction: Instruction,
    slots: nat,
    strings: nat,
    count: nat,
) -> bool {
    match instruction {
        Instruction::Noop | Instruction::Stop | Instruction::End => true,
        Instruction::Assign { dest, value } => var_ok(dest, slots, strings) && var_ok(
            value,
            slots,
            strings,
        ),
        Instruction::Unary { op, dest, x } => var_ok(dest, slots, strings) && var_ok(
            x,
            slots,
            strings,
        ),
        Instruction::Binary { op, dest, x, y } => var_ok(dest, slots, strings) && var_ok(
            x,
            slots,
            strings,
        ) && var_ok(y, slots, strings),
        Instruction::Jump { target, condition, x, y } => target < count && var_ok(
            x,
            slots,
            strings,
        ) && var_ok(y, slots, strings),
        Instruction::Select { dest, condition, x, y, if_true, if_false } => var_ok(
            dest,
            slots,
            strings,
        ) && var_ok(x, slots, strings) && var_ok(y, slots, strings) && var_ok(
            if_true,
            slots,
            strings,
        ) && var_ok(if_false, slots, strings),
        Instruction::Wait { seconds } => var_ok(seconds, slots, strings),
        Instruction::Print { value } => var_ok(value, slots, strings),
        Instruction::PrintChar { code } => var_ok(code, slots, strings),
        Instruction::Format { value } => var_ok(value, slots, strings),
        Instruction::PackColor { dest, r, g, b, a } => var_ok(dest, slots, strings) && var_ok(
            r,
            slots,
            strings,
        ) && var_ok(g, slots, strings) && var_ok(b, slots, strings) && var_ok(a, slots, strings),
        Instruction::UnpackColor { r, g, b, a, packed } => var_ok(r, slots, strings) && var_ok(
            g,
            slots,
            strings,
        ) && var_ok(b, slots, strings) && var_ok(a, slots, strings) && var_ok(
            packed,
            slots,
            strings,
        ),
        Instruction::Lookup { kind, dest, index } => var_ok(dest, slots, strings) && var_ok(
            index,
            slots,
            strings,
        ),
        Instruction::SetRate { rate } => var_ok(rate, slots, strings),
    }
}

impl Program {
    /// A value holds a finite number or names a string of the program.
    pub open spec fn valid_value(&self, v: LValue) -> bool {
        value_ok(v, self.strings@.len())
    }

    /// An operand names a slot of the program or holds a valid value.
    pub open spec fn valid_var(&self, var: LVar) -> bool {
        var_ok(var, self.slots as nat, self.strings@.len())
    }

    /// Every operand of an instruction is valid, and a jump stays in the program.
    pub open spec fn valid_instruction(&self, instruction: Instruction) -> bool {
        instruction_ok(
            instruction,
            self.slots as nat,
            self.strings@.len(),
            self.instructions@.len(),
        )
    }

    /// Every instruction and every name of the program is valid.
    pub open spec fn wf(&self) -> bool {
        &&& forall|i: int|
            0 <= i < self.instructions@.len() ==> self.valid_instruction(
                #[trigger] self.instructions@[i],
            )
        &&& forall|i: int|
            0 <= i < self.variables@.len() ==> self.valid_var((#[trigger] self.variables@[i]).var)
    }

    /// A state fits the program: the counter is an index of the program
    /// (0 where the program is empty), the print buffer is within its
    /// capacity, the budget is within its bounds, and every slot holds a
    /// valid value.
    pub open spec fn fits(&self, s: State) -> bool {
        &&& s.counter < self.instructions@.len() || s.counter == 0
        &&& s.printbuffer.len() <= text::PRINT_CAPACITY
        &&& 1 <= s.ipt <= MAX_IPT
        &&& s.slots.len() == self.slots
        &&& forall|i: int| 0 <= i < s.slots.len() ==> self.valid_value(#[trigger] s.slots[i])
    }

    /// The names of the program, in the order in which it first mentions them.
    pub open spec fn names(&self) -> Seq<Seq<char>> {
        Seq::new(self.variables@.len(), |i: int| self.variables@[i].name@)
    }

    /// What the program binds a name to.
    pub open spec fn binding(&self, name: Seq<char>) -> Option<LVar> {
        match crate::names::position(self.names(), name) {
            Some(i) => Some(self.variables@[i].var),
            None => None,
        }
    }

    /// What the program binds a name to.
    pub fn lookup(&self, name: &str) -> (r: Option<LVar>)
        ensures
            r == self.binding(name@),
    {
        let n: usize = self.variables.len();
        let mut i: usize = 0;
        while i < n
            invariant
                n == self.variables@.len(),
                i <= n,
                forall|j: int| 0 <= j < i ==> self.names()[j] != name@,
            decreases n - i,
        {
            if crate::catalog::same_text(self.variables[i].name.as_str(), name) {
                proof {
                    assert(self.names()[i as int] == name@);
                    crate::names::lemma_position_found(self.names(), name@, i as int);
                }
                return Some(self.variables[i].var);
            }
            i = i + 1;
        }
        proof {
            crate::names::lemma_position_none(self.names(), name@);
        }
        None
    }
}

/// Whether a value is valid among `strings` strings.
pub fn check_value(v: LValue, strings: usize) -> (ok: bool)
    ensures
        ok == value_ok(v, strings as nat),
{
    match v {
        LValue::Number(bits) => number::is_finite(bits),
        LValue::String(id) => id < strings,
        _ => true,
    }
}

/// Whether an operand is valid among `slots` slots and `strings` strings.
pub fn check_var(var: LVar, slots: usize, strings: usize) -> (ok: bool)
    ensures
        ok == var_ok(var, slots as nat, strings as nat),
{
    match var {
        LVar::Constant(v) => check_value(v, strings),
        LVar::Slot(i) => i < slots,
        _ => true,
    }
}

/// Whether an instruction is valid among `slots` slots, `strings` strings
/// and `count` instructions.
pub fn check_instruction(
    instruction: Instruction,
    slots: usize,
    strings: usize,
    count: usize,
) -> (ok: bool)
    ensures
        ok == instruction_ok(instruction, slots as nat, strings as nat, count as nat),
{
    match instruction {
        Instruction::Noop | Instruction::Stop | Instruction::End => true,
        Instruction::Assign { dest, value } => check_var(dest, slots, strings) && check_var(
            value,
            slots,
            strings,
        ),
        Instruction::Unary { op, dest, x } => check_var(dest, slots, strings) && check_var(
            x,
            slots,
            strings,
        ),
        Instruction::Binary { op, dest, x, y } => check_var(dest, slots, strings) && check_var(
            x,
            slots,
            strings,
        ) && check_var(y, slots, strings),
        Instruction::Jump { target, condition, x, y } => target < count && check_var(
            x,
            slots,
            strings,
        ) && check_var(y, slots, strings),
        Instruction::Select { dest, condition, x, y, if_true, if_false } => check_var(
            dest,
            slots,
            strings,
        ) && check_var(x, slots, strings) && check_var(y, slots, strings) && check_var(
            if_true,
            slots,
            strings,
        ) && check_var(if_false, slots, strings),
        Instruction::Wait { seconds } => check_var(seconds, slots, strings),
        Instruction::Print { value } => check_var(value, slots, strings),
        Instruction::PrintChar { code } => check_var(code, slots, strings),
        Instruction::Format { value } => check_var(value, slots, strings),
        Instruction::PackColor { dest, r, g, b, a } => check_var(dest, slots, strings)
            && check_var(r, slots, strings) && check_var(g, slots, strings) && check_var(
            b,
            slots,
            strings,
        ) && check_var(a, slots, strings),
        Instruction::UnpackColor { r, g, b, a, packed } => check_var(r, slots, strings)
            && check_var(g, slots, strings) && check_var(b, slots, strings) && check_var(
            a,
            slots,
            strings,
        ) && check_var(packed, slots, strings),
        Instruction::Lookup { kind, dest, index } => check_var(dest, slots, strings) && check_var(
            index,
            slots,
            strings,
        ),
        Instruction::SetRate { rate } => check_var(rate, slots, strings),
    }
}

impl Program {
    /// Whether the program is well formed.
    pub fn check(&self) -> (ok: bool)
        ensures
            ok == self.wf(),
    {
        let count: usize = self.instructions.len();
        let strings: usize = self.strings.len();
        let mut i: usize = 0;
        while i < count
            invariant
                i <= count == self.instructions@.len(),
                strings == self.strings@.len(),
                forall|j: int|
                    0 <= j < i ==> self.valid_instruction(#[trigger] self.instructions@[j]),
            decreases count - i,
        {
            if !check_instruction(self.instructions[i], self.slots, strings, count) {
                return false;
            }
            i = i + 1;
        }
        let n: usize = self.variables.len();
        let mut k: usize = 0;
        while k < n
            invariant
                k <= n == self.variables@.len(),
                strings == self.strings@.len(),
                forall|j: int|
                    0 <= j < self.instructions@.len() ==> self.valid_instruction(
                        #[trigger] self.instructions@[j],
                    ),
                forall|j: int| 0 <= j < k ==> self.valid_var((#[trigger] self.variables@[j]).var),
            decreases n - k,
        {
            if !check_var(self.variables[k].var, self.slots, strings) {
                return false;
            }
            k = k + 1;
        }
        true
    }
}

} // verus!
