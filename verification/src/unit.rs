//! The arithmetic that is left to the caller.
//!
//! Sums, products, quotients, remainders, powers, roots, logarithms,
//! trigonometry and noise are asked of a [`FloatUnit`], as is the reading
//! and writing of decimal fractions. The machine promises nothing about
//! the answers and is proved for every one of them: a number that is not
//! finite becomes null when it is stored.

use vstd::prelude::*;

verus! {

/// The functions of one number that a unit computes. Angles are in radians.
#[derive(Clone, Copy, Debug, PartialEq, Eq, Structural)]
pub enum UnaryFn {
    /// The natural logarithm.
    Ln,
    /// The logarithm to base 10.
    Log10,
    Sqrt,
    Sin,
    Cos,
    Tan,
    Asin,
    Acos,
    Atan,
}

/// The functions of two numbers that a unit computes.
#[derive(Clone, Copy, Debug, PartialEq, Eq, Structural)]
pub enum BinaryFn {
    Add,
    Sub,
    Mul,
    Div,
    /// The remainder of the division that rounds toward zero.
    Rem,
    /// The least remainder that is not negative.
    RemEuclid,
    /// The first number to the power of the second.
    Pow,
    /// The angle, in radians, of the point whose ordinate is the first
    /// number and whose abscissa is the second.
    Atan2,
    /// The length of the hypotenuse.
    Hypot,
    /// Simplex noise at a point of the plane.
    Noise,
}

/// An argument of a question: a number, or the answer to an earlier
/// question of the same instruction.
#[derive(Clone, Copy, Debug, PartialEq, Eq, Structural)]
pub enum Arg {
    Bits(u64),
    Answer(usize),
}

/// A question put to a unit.
#[derive(Clone, Copy, Debug, PartialEq, Eq, Structural)]
pub enum Request {
    Unary(UnaryFn, Arg),
    Binary(BinaryFn, Arg, Arg),
    /// The number in decimal.
    Format(u64),
}

/// What a unit answered: a number, or for `Format` a text.
#[derive(Clone, Debug)]
pub struct Answer {
    pub bits: u64,
    pub text: Vec<u16>,
}

/// Floating-point arithmetic on doubles, each given and returned as its
/// bit pattern.
pub trait FloatUnit {
    /// `f(x)`.
    fn unary(&self, f: UnaryFn, x: u64) -> u64;

    /// `f(x, y)`.
    fn binary(&self, f: BinaryFn, x: u64, y: u64) -> u64;

    /// The number that a decimal literal denotes, if it denotes one.
    fn parse(&self, literal: &str) -> Option<u64>;

    /// A number in decimal, without trailing zeros.
    fn format(&self, x: u64) -> String;
}

/// The number that an argument stands for, given the answers so far; 0
/// where it names an answer that is not there.
pub open spec fn argument(arg: Arg, answers: Seq<Answer>) -> u64 {
    match arg {
        Arg::Bits(x) => x,
        Arg::Answer(i) => if i < answers.len() {
            answers[i as int].bits
        } else {
            0
        },
    }
}

/// The number that an argument stands for.
pub fn resolve(arg: Arg, answers: &Vec<Answer>) -> (x: u64)
    ensures
        x == argument(arg, answers@),
{
    match arg {
        Arg::Bits(x) => x,
        Arg::Answer(i) => if i < answers.len() {
            answers[i].bits
        } else {
            0
        },
    }
}

/// Whether an answer has the shape of what its question asks for: a text
/// and no number for `Format`, a number and no text for any other.
pub open spec fn shaped(request: Request, answer: Answer) -> bool {
    if request is Format {
        answer.bits == 0
    } else {
        answer.text@.len() == 0
    }
}

/// Puts each question to the unit, in their order, and gives each answer
/// to the questions after it that name it. What the answers are is for
/// the unit to say.
pub fn ask<U: FloatUnit>(unit: &U, requests: &Vec<Request>) -> (answers: Vec<Answer>)
    ensures
        answers@.len() == requests@.len(),
        forall|k: int| 0 <= k < requests@.len() ==> shaped(requests@[k], #[trigger] answers@[k]),
{
    let mut answers: Vec<Answer> = Vec::new();
    let n: usize = requests.len();
    let mut i: usize = 0;
    while i < n
        invariant
            n == requests@.len(),
            i <= n,
            answers@.len() == i,
            forall|k: int| 0 <= k < i ==> shaped(requests@[k], #[trigger] answers@[k]),
        decreases n - i,
    {
        let answer = match requests[i] {
            Request::Unary(f, x) => Answer {
                bits: unit.unary(f, resolve(x, &answers)),
                text: Vec::new(),
            },
            Request::Binary(f, x, y) => Answer {
                bits: unit.binary(f, resolve(x, &answers), resolve(y, &answers)),
                text: Vec::new(),
            },
            Request::Format(x) => {
                let s = unit.format(x);
                Answer { bits: 0, text: crate::text::encode(s.as_str()) }
            },
        };
        answers.push(answer);
        i = i + 1;
    }
    answers
}

} // verus!
