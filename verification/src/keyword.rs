//! The words of the language: instructions, operations, tests and kinds.

use crate::catalog::LookupKind;
use crate::instruction::{BinaryOp, Condition, UnaryOp};
use vstd::prelude::*;
use vstd::string::*;

verus! {

/// The instructions by name.
#[derive(Clone, Copy, Debug, PartialEq, Eq, Structural)]
pub enum Opcode {
    Noop,
    Assign,
    Op,
    Jump,
    Select,
    Wait,
    Stop,
    End,
    Print,
    PrintChar,
    Format,
    PackColor,
    UnpackColor,
    Lookup,
    SetRate,
}

/// The instruction that a word names.
pub open spec fn opcode_of(w: Seq<char>) -> Option<Opcode> {
    if w == "noop"@ {
        Some(Opcode::Noop)
    } else if w == "set"@ {
        Some(Opcode::Assign)
    } else if w == "op"@ {
        Some(Opcode::Op)
    } else if w == "jump"@ {
        Some(Opcode::Jump)
    } else if w == "select"@ {
        Some(Opcode::Select)
    } else if w == "wait"@ {
        Some(Opcode::Wait)
    } else if w == "stop"@ {
        Some(Opcode::Stop)
    } else if w == "end"@ {
        Some(Opcode::End)
    } else if w == "print"@ {
        Some(Opcode::Print)
    } else if w == "printchar"@ {
        Some(Opcode::PrintChar)
    } else if w == "format"@ {
        Some(Opcode::Format)
    } else if w == "packcolor"@ {
        Some(Opcode::PackColor)
    } else if w == "unpackcolor"@ {
        Some(Opcode::UnpackColor)
    } else if w == "lookup"@ {
        Some(Opcode::Lookup)
    } else if w == "setrate"@ {
        Some(Opcode::SetRate)
    } else {
        None
    }
}

/// The operation on one number that a word names.
pub open spec fn unary_of(w: Seq<char>) -> Option<UnaryOp> {
    if w == "not"@ {
        Some(UnaryOp::Not)
    } else if w == "abs"@ {
        Some(UnaryOp::Abs)
    } else if w == "sign"@ {
        Some(UnaryOp::Sign)
    } else if w == "log"@ {
        Some(UnaryOp::Log)
    } else if w == "log10"@ {
        Some(UnaryOp::Log10)
    } else if w == "floor"@ {
        Some(UnaryOp::Floor)
    } else if w == "ceil"@ {
        Some(UnaryOp::Ceil)
    } else if w == "round"@ {
        Some(UnaryOp::Round)
    } else if w == "sqrt"@ {
        Some(UnaryOp::Sqrt)
    } else if w == "sin"@ {
        Some(UnaryOp::Sin)
    } else if w == "cos"@ {
        Some(UnaryOp::Cos)
    } else if w == "tan"@ {
        Some(UnaryOp::Tan)
    } else if w == "asin"@ {
        Some(UnaryOp::Asin)
    } else if w == "acos"@ {
        Some(UnaryOp::Acos)
    } else if w == "atan"@ {
        Some(UnaryOp::Atan)
    } else {
        None
    }
}

/// The test that a word names.
pub open spec fn condition_of(w: Seq<char>) -> Option<Condition> {
    if w == "equal"@ {
        Some(Condition::Equal)
    } else if w == "notEqual"@ {
        Some(Condition::NotEqual)
    } else if w == "lessThan"@ {
        Some(Condition::LessThan)
    } else if w == "lessThanEq"@ {
        Some(Condition::LessThanEq)
    } else if w == "greaterThan"@ {
        Some(Condition::GreaterThan)
    } else if w == "greaterThanEq"@ {
        Some(Condition::GreaterThanEq)
    } else if w == "strictEqual"@ {
        Some(Condition::StrictEqual)
    } else if w == "always"@ {
        Some(Condition::Always)
    } else {
        None
    }
}

/// The operation on two values that a word names: an arithmetic one, or
/// any test but `always`.
pub open spec fn binary_of(w: Seq<char>) -> Option<BinaryOp> {
    if w == "add"@ {
        Some(BinaryOp::Add)
    } else if w == "sub"@ {
        Some(BinaryOp::Sub)
    } else if w == "mul"@ {
        Some(BinaryOp::Mul)
    } else if w == "div"@ {
        Some(BinaryOp::Div)
    } else if w == "idiv"@ {
        Some(BinaryOp::Idiv)
    } else if w == "mod"@ {
        Some(BinaryOp::Mod)
    } else if w == "emod"@ {
        Some(BinaryOp::Emod)
    } else if w == "pow"@ {
        Some(BinaryOp::Pow)
    } else if w == "land"@ {
        Some(BinaryOp::Land)
    } else if w == "shl"@ {
        Some(BinaryOp::Shl)
    } else if w == "shr"@ {
        Some(BinaryOp::Shr)
    } else if w == "ushr"@ {
        Some(BinaryOp::Ushr)
    } else if w == "or"@ {
        Some(BinaryOp::Or)
    } else if w == "and"@ {
        Some(BinaryOp::And)
    } else if w == "xor"@ {
        Some(BinaryOp::Xor)
    } else if w == "max"@ {
        Some(BinaryOp::Max)
    } else if w == "min"@ {
        Some(BinaryOp::Min)
    } else if w == "angle"@ {
        Some(BinaryOp::Angle)
    } else if w == "angleDiff"@ {
        Some(BinaryOp::AngleDiff)
    } else if w == "len"@ {
        Some(BinaryOp::Len)
    } else if w == "noise"@ {
        Some(BinaryOp::Noise)
    } else if w == "logn"@ {
        Some(BinaryOp::Logn)
    } else {
        match condition_of(w) {
            Some(Condition::Always) => None,
            Some(c) => Some(BinaryOp::Test(c)),
            None => None,
        }
    }
}

/// The kind of content that a word names.
pub open spec fn kind_of(w: Seq<char>) -> Option<LookupKind> {
    if w == "block"@ {
        Some(LookupKind::Block)
    } else if w == "item"@ {
        Some(LookupKind::Item)
    } else if w == "liquid"@ {
        Some(LookupKind::Liquid)
    } else if w == "unit"@ {
        Some(LookupKind::Unit)
    } else if w == "team"@ {
        Some(LookupKind::Team)
    } else {
        None
    }
}

/// Whether the characters from `start` up to `end` spell `word`.
pub fn word_is(src: &Vec<char>, start: usize, end: usize, word: &str) -> (r: bool)
    requires
        start <= end <= src@.len(),
    ensures
        r == (src@.subrange(start as int, end as int) == word@),
{
    let n: usize = word.unicode_len();
    if end - start != n {
        return false;
    }
    let mut i: usize = 0;
    while i < n
        invariant
            n == word@.len(),
            end - start == n,
            start <= end <= src@.len(),
            i <= n,
            forall|j: int| 0 <= j < i ==> src@[start + j] == word@[j],
        decreases n - i,
    {
        if src[start + i] != word.get_char(i) {
            assert(src@.subrange(start as int, end as int)[i as int] != word@[i as int]);
            return false;
        }
        i = i + 1;
    }
    assert(src@.subrange(start as int, end as int) =~= word@);
    true
}

/// The instruction that the word from `start` up to `end` names.
pub fn opcode(src: &Vec<char>, start: usize, end: usize) -> (r: Option<Opcode>)
    requires
        start <= end <= src@.len(),
    ensures
        r == opcode_of(src@.subrange(start as int, end as int)),
{
    if word_is(src, start, end, "noop") {
        Some(Opcode::Noop)
    } else if word_is(src, start, end, "set") {
        Some(Opcode::Assign)
    } else if word_is(src, start, end, "op") {
        Some(Opcode::Op)
    } else if word_is(src, start, end, "jump") {
        Some(Opcode::Jump)
    } else if word_is(src, start, end, "select") {
        Some(Opcode::Select)
    } else if word_is(src, start, end, "wait") {
        Some(Opcode::Wait)
    } else if word_is(src, start, end, "stop") {
        Some(Opcode::Stop)
    } else if word_is(src, start, end, "end") {
        Some(Opcode::End)
    } else if word_is(src, start, end, "print") {
        Some(Opcode::Print)
    } else if word_is(src, start, end, "printchar") {
        Some(Opcode::PrintChar)
    } else if word_is(src, start, end, "format") {
        Some(Opcode::Format)
    } else if word_is(src, start, end, "packcolor") {
        Some(Opcode::PackColor)
    } else if word_is(src, start, end, "unpackcolor") {
        Some(Opcode::UnpackColor)
    } else if word_is(src, start, end, "lookup") {
        Some(Opcode::Lookup)
    } else if word_is(src, start, end, "setrate") {
        Some(Opcode::SetRate)
    } else {
        None
    }
}

/// The operation on one number that the word from `start` up to `end` names.
pub fn unary(src: &Vec<char>, start: usize, end: usize) -> (r: Option<UnaryOp>)
    requires
        start <= end <= src@.len(),
    ensures
        r == unary_of(src@.subrange(start as int, end as int)),
{
    if word_is(src, start, end, "not") {
        Some(UnaryOp::Not)
    } else if word_is(src, start, end, "abs") {
        Some(UnaryOp::Abs)
    } else if word_is(src, start, end, "sign") {
        Some(UnaryOp::Sign)
    } else if word_is(src, start, end, "log") {
        Some(UnaryOp::Log)
    } else if word_is(src, start, end, "log10") {
        Some(UnaryOp::Log10)
    } else if word_is(src, start, end, "floor") {
        Some(UnaryOp::Floor)
    } else if word_is(src, start, end, "ceil") {
        Some(UnaryOp::Ceil)
    } else if word_is(src, start, end, "round") {
        Some(UnaryOp::Round)
    } else if word_is(src, start, end, "sqrt") {
        Some(UnaryOp::Sqrt)
    } else if word_is(src, start, end, "sin") {
        Some(UnaryOp::Sin)
    } else if word_is(src, start, end, "cos") {
        Some(UnaryOp::Cos)
    } else if word_is(src, start, end, "tan") {
        Some(UnaryOp::Tan)
    } else if word_is(src, start, end, "asin") {
        Some(UnaryOp::Asin)
    } else if word_is(src, start, end, "acos") {
        Some(UnaryOp::Acos)
    } else if word_is(src, start, end, "atan") {
        Some(UnaryOp::Atan)
    } else {
        None
    }
}

/// The test that the word from `start` up to `end` names.
pub fn condition(src: &Vec<char>, start: usize, end: usize) -> (r: Option<Condition>)
    requires
        start <= end <= src@.len(),
    ensures
        r == condition_of(src@.subrange(start as int, end as int)),
{
    if word_is(src, start, end, "equal") {
        Some(Condition::Equal)
    } else if word_is(src, start, end, "notEqual") {
        Some(Condition::NotEqual)
    } else if word_is(src, start, end, "lessThan") {
        Some(Condition::LessThan)
    } else if word_is(src, start, end, "lessThanEq") {
        Some(Condition::LessThanEq)
    } else if word_is(src, start, end, "greaterThan") {
        Some(Condition::GreaterThan)
    } else if word_is(src, start, end, "greaterThanEq") {
        Some(Condition::GreaterThanEq)
    } else if word_is(src, start, end, "strictEqual") {
        Some(Condition::StrictEqual)
    } else if word_is(src, start, end, "always") {
        Some(Condition::Always)
    } else {
        None
    }
}

/// The operation on two values that the word from `start` up to `end` names.
pub fn binary(src: &Vec<char>, start: usize, end: usize) -> (r: Option<BinaryOp>)
    requires
        start <= end <= src@.len(),
    ensures
        r == binary_of(src@.subrange(start as int, end as int)),
{
    if word_is(src, start, end, "add") {
        Some(BinaryOp::Add)
    } else if word_is(src, start, end, "sub") {
        Some(BinaryOp::Sub)
    } else if word_is(src, start, end, "mul") {
        Some(BinaryOp::Mul)
    } else if word_is(src, start, end, "div") {
        Some(BinaryOp::Div)
    } else if word_is(src, start, end, "idiv") {
        Some(BinaryOp::Idiv)
    } else if word_is(src, start, end, "mod") {
        Some(BinaryOp::Mod)
    } else if word_is(src, start, end, "emod") {
        Some(BinaryOp::Emod)
    } else if word_is(src, start, end, "pow") {
        Some(BinaryOp::Pow)
    } else if word_is(src, start, end, "land") {
        Some(BinaryOp::Land)
    } else if word_is(src, start, end, "shl") {
        Some(BinaryOp::Shl)
    } else if word_is(src, start, end, "shr") {
        Some(BinaryOp::Shr)
    } else if word_is(src, start, end, "ushr") {
        Some(BinaryOp::Ushr)
    } else if word_is(src, start, end, "or") {
        Some(BinaryOp::Or)
    } else if word_is(src, start, end, "and") {
        Some(BinaryOp::And)
    } else if word_is(src, start, end, "xor") {
        Some(BinaryOp::Xor)
    } else if word_is(src, start, end, "max") {
        Some(BinaryOp::Max)
    } else if word_is(src, start, end, "min") {
        Some(BinaryOp::Min)
    } else if word_is(src, start, end, "angle") {
        Some(BinaryOp::Angle)
    } else if word_is(src, start, end, "angleDiff") {
        Some(BinaryOp::AngleDiff)
    } else if word_is(src, start, end, "len") {
        Some(BinaryOp::Len)
    } else if word_is(src, start, end, "noise") {
        Some(BinaryOp::Noise)
    } else if word_is(src, start, end, "logn") {
        Some(BinaryOp::Logn)
    } else {
        match condition(src, start, end) {
            Some(Condition::Always) => None,
            Some(c) => Some(BinaryOp::Test(c)),
            None => None,
        }
    }
}

/// The kind of content that the word from `start` up to `end` names.
pub fn kind(src: &Vec<char>, start: usize, end: usize) -> (r: Option<LookupKind>)
    requires
        start <= end <= src@.len(),
    ensures
        r == kind_of(src@.subrange(start as int, end as int)),
{
    if word_is(src, start, end, "block") {
        Some(LookupKind::Block)
    } else if word_is(src, start, end, "item") {
        Some(LookupKind::Item)
    } else if word_is(src, start, end, "liquid") {
        Some(LookupKind::Liquid)
    } else if word_is(src, start, end, "unit") {
        Some(LookupKind::Unit)
    } else if word_is(src, start, end, "team") {
        Some(LookupKind::Team)
    } else {
        None
    }
}

} // verus!
