//! The operations of `op` that round, made of the elementary functions of
//! a unit.
//!
//! Programs measure angles in degrees and the unit in radians. Angles and
//! lengths are rounded to single precision.

use crate::instruction::{BinaryOp, UnaryOp};
use crate::number;
use crate::unit::{Answer, Arg, BinaryFn, Request, UnaryFn};
use vstd::prelude::*;

verus! {

/// The pattern of the radians in a degree.
pub const RADS_PER_DEG: u64 = 0x3f91_df46_a252_9d39;

/// The pattern of the degrees in a radian.
pub const DEGS_PER_RAD: u64 = 0x404c_a5dc_1a63_c1f8;

/// The pattern of `360.0`, the degrees in a full turn.
pub const FULL_TURN: u64 = 0x4076_8000_0000_0000;

/// The one question `f(x)`.
pub open spec fn one(f: UnaryFn, x: u64) -> Seq<Request> {
    seq![Request::Unary(f, Arg::Bits(x))]
}

/// The questions of `f` at an angle of `x` degrees: the angle in radians,
/// and `f` of that.
pub open spec fn of_degrees(f: UnaryFn, x: u64) -> Seq<Request> {
    seq![
        Request::Binary(BinaryFn::Mul, Arg::Bits(x), Arg::Bits(RADS_PER_DEG)),
        Request::Unary(f, Arg::Answer(0)),
    ]
}

/// The questions of an angle `f(x)` in degrees: `f(x)`, and that in degrees.
pub open spec fn in_degrees(f: UnaryFn, x: u64) -> Seq<Request> {
    seq![
        Request::Unary(f, Arg::Bits(x)),
        Request::Binary(BinaryFn::Mul, Arg::Answer(0), Arg::Bits(DEGS_PER_RAD)),
    ]
}

/// What a unary operation on `x` asks of the unit.
pub open spec fn unary_questions(op: UnaryOp, x: u64) -> Seq<Request> {
    match op {
        UnaryOp::Log => one(UnaryFn::Ln, x),
        UnaryOp::Log10 => one(UnaryFn::Log10, x),
        UnaryOp::Sqrt => one(UnaryFn::Sqrt, x),
        UnaryOp::Sin => of_degrees(UnaryFn::Sin, x),
        UnaryOp::Cos => of_degrees(UnaryFn::Cos, x),
        UnaryOp::Tan => of_degrees(UnaryFn::Tan, x),
        UnaryOp::Asin => in_degrees(UnaryFn::Asin, x),
        UnaryOp::Acos => in_degrees(UnaryFn::Acos, x),
        UnaryOp::Atan => in_degrees(UnaryFn::Atan, x),
        _ => Seq::empty(),
    }
}

/// The result of a unary operation that asks the unit: the last answer.
pub open spec fn unary_result(op: UnaryOp, answers: Seq<Answer>) -> u64 {
    match op {
        UnaryOp::Log | UnaryOp::Log10 | UnaryOp::Sqrt => answers[0].bits,
        _ => answers[1].bits,
    }
}

/// The one question `f(x, y)`.
pub open spec fn pair(f: BinaryFn, x: u64, y: u64) -> Seq<Request> {
    seq![Request::Binary(f, Arg::Bits(x), Arg::Bits(y))]
}

/// What a binary operation on `x` and `y` asks of the unit.
///
/// `emod` asks for the remainder, for the remainder plus the divisor, and
/// for the remainder of that. `angle` asks for the angle in radians, in
/// degrees, and a full turn later. `angleDiff` asks for both angles within
/// a full turn and for their differences either way within a full turn.
/// `logn` asks for both natural logarithms and for their quotient.
pub open spec fn float_questions(op: BinaryOp, x: u64, y: u64) -> Seq<Request> {
    match op {
        BinaryOp::Add => pair(BinaryFn::Add, x, y),
        BinaryOp::Sub => pair(BinaryFn::Sub, x, y),
        BinaryOp::Mul => pair(BinaryFn::Mul, x, y),
        BinaryOp::Div | BinaryOp::Idiv => pair(BinaryFn::Div, x, y),
        BinaryOp::Mod => pair(BinaryFn::Rem, x, y),
        BinaryOp::Pow => pair(BinaryFn::Pow, x, y),
        BinaryOp::Noise => pair(BinaryFn::Noise, x, y),
        BinaryOp::Emod => seq![
            Request::Binary(BinaryFn::Rem, Arg::Bits(x), Arg::Bits(y)),
            Request::Binary(BinaryFn::Add, Arg::Answer(0), Arg::Bits(y)),
            Request::Binary(BinaryFn::Rem, Arg::Answer(1), Arg::Bits(y)),
        ],
        BinaryOp::Angle => seq![
            Request::Binary(BinaryFn::Atan2, Arg::Bits(y), Arg::Bits(x)),
            Request::Binary(BinaryFn::Mul, Arg::Answer(0), Arg::Bits(DEGS_PER_RAD)),
            Request::Binary(BinaryFn::Add, Arg::Answer(1), Arg::Bits(FULL_TURN)),
        ],
        BinaryOp::AngleDiff => seq![
            Request::Binary(BinaryFn::RemEuclid, Arg::Bits(x), Arg::Bits(FULL_TURN)),
            Request::Binary(BinaryFn::RemEuclid, Arg::Bits(y), Arg::Bits(FULL_TURN)),
            Request::Binary(BinaryFn::Sub, Arg::Answer(0), Arg::Answer(1)),
            Request::Binary(BinaryFn::RemEuclid, Arg::Answer(2), Arg::Bits(FULL_TURN)),
            Request::Binary(BinaryFn::Sub, Arg::Answer(1), Arg::Answer(0)),
            Request::Binary(BinaryFn::RemEuclid, Arg::Answer(4), Arg::Bits(FULL_TURN)),
        ],
        BinaryOp::Len => pair(BinaryFn::Hypot, x, y),
        BinaryOp::Logn => seq![
            Request::Unary(UnaryFn::Ln, Arg::Bits(x)),
            Request::Unary(UnaryFn::Ln, Arg::Bits(y)),
            Request::Binary(BinaryFn::Div, Arg::Answer(0), Arg::Answer(1)),
        ],
        _ => Seq::empty(),
    }
}

/// The result of a binary operation that asks the unit.
///
/// `idiv` is the floor of the quotient. `angle` is the angle in degrees, a
/// full turn later where it is negative, in single precision. `angleDiff`
/// is the lesser of the two differences, in single precision. `len` is the
/// length in single precision. All others are the last answer.
pub open spec fn float_result(op: BinaryOp, answers: Seq<Answer>) -> u64 {
    match op {
        BinaryOp::Idiv => number::floor_of(answers[0].bits),
        BinaryOp::Emod | BinaryOp::Logn => answers[2].bits,
        BinaryOp::Angle => number::single_of(
            if number::below(answers[1].bits, 0) {
                answers[2].bits
            } else {
                answers[1].bits
            },
        ),
        BinaryOp::AngleDiff => number::single_of(
            if number::below(answers[5].bits, answers[3].bits) {
                answers[5].bits
            } else {
                answers[3].bits
            },
        ),
        BinaryOp::Len => number::single_of(answers[0].bits),
        _ => answers[0].bits,
    }
}

fn ask_one(f: UnaryFn, x: u64) -> (r: Vec<Request>)
    ensures
        r@ == one(f, x),
{
    let mut r: Vec<Request> = Vec::new();
    r.push(Request::Unary(f, Arg::Bits(x)));
    assert(r@ =~= one(f, x));
    r
}

fn ask_of_degrees(f: UnaryFn, x: u64) -> (r: Vec<Request>)
    ensures
        r@ == of_degrees(f, x),
{
    let mut r: Vec<Request> = Vec::new();
    r.push(Request::Binary(BinaryFn::Mul, Arg::Bits(x), Arg::Bits(RADS_PER_DEG)));
    r.push(Request::Unary(f, Arg::Answer(0)));
    assert(r@ =~= of_degrees(f, x));
    r
}

fn ask_in_degrees(f: UnaryFn, x: u64) -> (r: Vec<Request>)
    ensures
        r@ == in_degrees(f, x),
{
    let mut r: Vec<Request> = Vec::new();
    r.push(Request::Unary(f, Arg::Bits(x)));
    r.push(Request::Binary(BinaryFn::Mul, Arg::Answer(0), Arg::Bits(DEGS_PER_RAD)));
    assert(r@ =~= in_degrees(f, x));
    r
}

fn ask_pair(f: BinaryFn, x: u64, y: u64) -> (r: Vec<Request>)
    ensures
        r@ == pair(f, x, y),
{
    let mut r: Vec<Request> = Vec::new();
    r.push(Request::Binary(f, Arg::Bits(x), Arg::Bits(y)));
    assert(r@ =~= pair(f, x, y));
    r
}

/// What a unary operation on `x` asks of the unit.
pub fn unary_requests(op: UnaryOp, x: u64) -> (r: Vec<Request>)
    ensures
        r@ == unary_questions(op, x),
{
    match op {
        UnaryOp::Log => ask_one(UnaryFn::Ln, x),
        UnaryOp::Log10 => ask_one(UnaryFn::Log10, x),
        UnaryOp::Sqrt => ask_one(UnaryFn::Sqrt, x),
        UnaryOp::Sin => ask_of_degrees(UnaryFn::Sin, x),
        UnaryOp::Cos => ask_of_degrees(UnaryFn::Cos, x),
        UnaryOp::Tan => ask_of_degrees(UnaryFn::Tan, x),
        UnaryOp::Asin => ask_in_degrees(UnaryFn::Asin, x),
        UnaryOp::Acos => ask_in_degrees(UnaryFn::Acos, x),
        UnaryOp::Atan => ask_in_degrees(UnaryFn::Atan, x),
        _ => Vec::new(),
    }
}

/// The result of a unary operation that asks the unit.
pub fn unary_answer(op: UnaryOp, x: u64, answers: &Vec<Answer>) -> (r: u64)
    requires
        unary_questions(op, x).len() > 0,
        answers@.len() >= unary_questions(op, x).len(),
    ensures
        r == unary_result(op, answers@),
{
    match op {
        UnaryOp::Log | UnaryOp::Log10 | UnaryOp::Sqrt => answers[0].bits,
        _ => answers[1].bits,
    }
}

/// What a binary operation on `x` and `y` asks of the unit.
pub fn float_requests(op: BinaryOp, x: u64, y: u64) -> (r: Vec<Request>)
    ensures
        r@ == float_questions(op, x, y),
{
    let mut r: Vec<Request> = Vec::new();
    match op {
        BinaryOp::Add => {
            r = ask_pair(BinaryFn::Add, x, y);
        },
        BinaryOp::Sub => {
            r = ask_pair(BinaryFn::Sub, x, y);
        },
        BinaryOp::Mul => {
            r = ask_pair(BinaryFn::Mul, x, y);
        },
        BinaryOp::Div | BinaryOp::Idiv => {
            r = ask_pair(BinaryFn::Div, x, y);
        },
        BinaryOp::Mod => {
            r = ask_pair(BinaryFn::Rem, x, y);
        },
        BinaryOp::Pow => {
            r = ask_pair(BinaryFn::Pow, x, y);
        },
        BinaryOp::Noise => {
            r = ask_pair(BinaryFn::Noise, x, y);
        },
        BinaryOp::Emod => {
            r.push(Request::Binary(BinaryFn::Rem, Arg::Bits(x), Arg::Bits(y)));
            r.push(Request::Binary(BinaryFn::Add, Arg::Answer(0), Arg::Bits(y)));
            r.push(Request::Binary(BinaryFn::Rem, Arg::Answer(1), Arg::Bits(y)));
        },
        BinaryOp::Angle => {
            r.push(Request::Binary(BinaryFn::Atan2, Arg::Bits(y), Arg::Bits(x)));
            r.push(Request::Binary(BinaryFn::Mul, Arg::Answer(0), Arg::Bits(DEGS_PER_RAD)));
            r.push(Request::Binary(BinaryFn::Add, Arg::Answer(1), Arg::Bits(FULL_TURN)));
        },
        BinaryOp::AngleDiff => {
            r.push(Request::Binary(BinaryFn::RemEuclid, Arg::Bits(x), Arg::Bits(FULL_TURN)));
            r.push(Request::Binary(BinaryFn::RemEuclid, Arg::Bits(y), Arg::Bits(FULL_TURN)));
            r.push(Request::Binary(BinaryFn::Sub, Arg::Answer(0), Arg::Answer(1)));
            r.push(Request::Binary(BinaryFn::RemEuclid, Arg::Answer(2), Arg::Bits(FULL_TURN)));
            r.push(Request::Binary(BinaryFn::Sub, Arg::Answer(1), Arg::Answer(0)));
            r.push(Request::Binary(BinaryFn::RemEuclid, Arg::Answer(4), Arg::Bits(FULL_TURN)));
        },
        BinaryOp::Len => {
            r = ask_pair(BinaryFn::Hypot, x, y);
        },
        BinaryOp::Logn => {
            r.push(Request::Unary(UnaryFn::Ln, Arg::Bits(x)));
            r.push(Request::Unary(UnaryFn::Ln, Arg::Bits(y)));
            r.push(Request::Binary(BinaryFn::Div, Arg::Answer(0), Arg::Answer(1)));
        },
        _ => {},
    }
    assert(r@ =~= float_questions(op, x, y));
    r
}

/// The result of a binary operation that asks the unit.
pub fn float_answer(op: BinaryOp, x: u64, y: u64, answers: &Vec<Answer>) -> (r: u64)
    requires
        float_questions(op, x, y).len() > 0,
        answers@.len() >= float_questions(op, x, y).len(),
    ensures
        r == float_result(op, answers@),
{
    match op {
        BinaryOp::Idiv => number::floor(answers[0].bits),
        BinaryOp::Emod | BinaryOp::Logn => answers[2].bits,
        BinaryOp::Angle => number::single(
            if number::less_than(answers[1].bits, 0) {
                answers[2].bits
            } else {
                answers[1].bits
            },
        ),
        BinaryOp::AngleDiff => number::single(number::smaller(answers[3].bits, answers[5].bits)),
        BinaryOp::Len => number::single(answers[0].bits),
        _ => answers[0].bits,
    }
}

} // verus!
