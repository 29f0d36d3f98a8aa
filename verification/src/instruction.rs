//! The instruction set, with every operand resolved.

use crate::catalog::LookupKind;
use crate::value::LValue;
use vstd::prelude::*;

verus! {

/// What an operand names.
///
/// A constant cannot be assigned. A slot is a variable of the processor
/// that runs the instruction. The others are read from the state of the
/// processor or of the machine; of these only the counter and, on a
/// privileged processor, the budget can be assigned.
#[derive(Clone, Copy, Debug, PartialEq, Eq, Structural)]
pub enum LVar {
    Constant(LValue),
    Slot(usize),
    Counter,
    Ipt,
    Time,
    Tick,
    Second,
    This,
    BlockCount,
    ItemCount,
    LiquidCount,
    UnitCount,
}

/// The operations of `op` on one number.
#[derive(Clone, Copy, Debug, PartialEq, Eq, Structural)]
pub enum UnaryOp {
    Not,
    Abs,
    Sign,
    Log,
    Log10,
    Floor,
    Ceil,
    Round,
    Sqrt,
    Sin,
    Cos,
    Tan,
    Asin,
    Acos,
    Atan,
}

/// The tests of `jump`, `select` and `op`.
#[derive(Clone, Copy, Debug, PartialEq, Eq, Structural)]
pub enum Condition {
    Equal,
    NotEqual,
    LessThan,
    LessThanEq,
    GreaterThan,
    GreaterThanEq,
    StrictEqual,
    Always,
}

/// The operations of `op` on two values.
#[derive(Clone, Copy, Debug, PartialEq, Eq, Structural)]
pub enum BinaryOp {
    Add,
    Sub,
    Mul,
    Div,
    Idiv,
    Mod,
    Emod,
    Pow,
    Land,
    Shl,
    Shr,
    Ushr,
    Or,
    And,
    Xor,
    Max,
    Min,
    Angle,
    AngleDiff,
    Len,
    Noise,
    Logn,
    Test(Condition),
}

/// One decoded instruction.
#[allow(inconsistent_fields)]
#[derive(Clone, Copy, Debug, PartialEq, Eq, Structural)]
pub enum Instruction {
    Noop,
    Assign { dest: LVar, value: LVar },
    Unary { op: UnaryOp, dest: LVar, x: LVar },
    Binary { op: BinaryOp, dest: LVar, x: LVar, y: LVar },
    Jump { target: usize, condition: Condition, x: LVar, y: LVar },
    Select { dest: LVar, condition: Condition, x: LVar, y: LVar, if_true: LVar, if_false: LVar },
    Wait { seconds: LVar },
    Stop,
    End,
    Print { value: LVar },
    PrintChar { code: LVar },
    Format { value: LVar },
    PackColor { dest: LVar, r: LVar, g: LVar, b: LVar, a: LVar },
    UnpackColor { r: LVar, g: LVar, b: LVar, a: LVar, packed: LVar },
    Lookup { kind: LookupKind, dest: LVar, index: LVar },
    SetRate { rate: LVar },
}

/// Whether a processor goes on to its next instruction within a tick.
#[derive(Clone, Copy, Debug, PartialEq, Eq, Structural)]
pub enum Flow {
    Continue,
    Yield,
}

} // verus!
