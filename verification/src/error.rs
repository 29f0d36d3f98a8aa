//! What can go wrong while a machine is loaded.

use crate::point::Point2;
use vstd::prelude::*;
use vstd::std_specs::convert::FromSpecImpl;
use vstd::string::*;

verus! {

/// The error with which `binrw` fails to decode a processor's configuration.
/// The machine carries it and never looks inside.
#[verifier::external_type_specification]
#[verifier::external_body]
pub struct ExBinrwError(binrw::Error);

/// Why a program could not be decoded.
#[derive(Clone, Copy, Debug, PartialEq, Eq, Structural)]
pub enum DecodeFault {
    /// The first word of a statement names no instruction.
    UnknownInstruction,
    /// A statement has fewer operands than its instruction takes.
    MissingOperand,
    /// A statement has more operands than its instruction takes.
    ExtraOperand,
    /// A word that starts like a number is none.
    BadNumber,
    /// A string is not closed, or holds an escape that is none.
    BadString,
    /// A color literal names no color.
    UnknownColor,
    /// A word names no operation, test or kind of content.
    UnknownName,
    /// A jump names a label that the program does not define.
    UnknownLabel,
}

/// An error of loading.
#[derive(Debug)]
pub enum VMLoadError {
    /// A tile is of a block that the catalog does not hold.
    UnknownBlockType(String),
    /// A block of one shape was given a configuration of another.
    BadBlockType { want: String, got: String },
    /// The configuration of a processor could not be decoded.
    BadProcessorConfig(binrw::Error),
    /// The code of a processor could not be decoded: what is wrong, and in
    /// which line.
    BadProcessorCode(String),
    /// A building would cover a tile that another covers.
    Overlap(Point2),
}

/// What loading gives.
pub type VMLoadResult<T> = Result<T, VMLoadError>;

/// What a fault is called.
pub open spec fn fault_text(fault: DecodeFault) -> Seq<char> {
    match fault {
        DecodeFault::UnknownInstruction => "unknown instruction"@,
        DecodeFault::MissingOperand => "missing operand"@,
        DecodeFault::ExtraOperand => "too many operands"@,
        DecodeFault::BadNumber => "bad number"@,
        DecodeFault::BadString => "bad string"@,
        DecodeFault::UnknownColor => "unknown color"@,
        DecodeFault::UnknownName => "unknown name"@,
        DecodeFault::UnknownLabel => "unknown label"@,
    }
}

/// The character of a decimal digit.
pub open spec fn digit_char(d: nat) -> char {
    if d == 0 {
        '0'
    } else if d == 1 {
        '1'
    } else if d == 2 {
        '2'
    } else if d == 3 {
        '3'
    } else if d == 4 {
        '4'
    } else if d == 5 {
        '5'
    } else if d == 6 {
        '6'
    } else if d == 7 {
        '7'
    } else if d == 8 {
        '8'
    } else {
        '9'
    }
}

/// A natural number in decimal.
pub open spec fn numeral_of(n: nat) -> Seq<char>
    decreases n,
{
    if n < 10 {
        seq![digit_char(n)]
    } else {
        numeral_of(n / 10).push(digit_char(n % 10))
    }
}

/// The message of a fault in a line, the lines counted from 0: what the
/// fault is called, and the number of the line, counted from 1.
pub open spec fn message_of(fault: DecodeFault, line: usize) -> Seq<char> {
    fault_text(fault) + " in line "@ + numeral_of((line + 1) as nat)
}

/// A decimal digit as a string.
fn digit_str(d: u128) -> (s: &'static str)
    requires
        d < 10,
    ensures
        s@ == seq![digit_char(d as nat)],
{
    proof {
        reveal_strlit("0");
        reveal_strlit("1");
        reveal_strlit("2");
        reveal_strlit("3");
        reveal_strlit("4");
        reveal_strlit("5");
        reveal_strlit("6");
        reveal_strlit("7");
        reveal_strlit("8");
        reveal_strlit("9");
    }
    let s = if d == 0 {
        "0"
    } else if d == 1 {
        "1"
    } else if d == 2 {
        "2"
    } else if d == 3 {
        "3"
    } else if d == 4 {
        "4"
    } else if d == 5 {
        "5"
    } else if d == 6 {
        "6"
    } else if d == 7 {
        "7"
    } else if d == 8 {
        "8"
    } else {
        "9"
    };
    assert(s@ =~= seq![digit_char(d as nat)]);
    s
}

/// A natural number in decimal.
pub fn numeral(n: u128) -> (s: String)
    ensures
        s@ == numeral_of(n as nat),
    decreases n,
{
    if n < 10 {
        digit_str(n).to_owned()
    } else {
        let head = numeral(n / 10);
        let s = head.concat(digit_str(n % 10));
        assert(s@ =~= numeral_of((n / 10) as nat).push(digit_char((n % 10) as nat)));
        s
    }
}

/// The message of a fault in a line.
pub fn message(fault: DecodeFault, line: usize) -> (s: String)
    ensures
        s@ == message_of(fault, line),
{
    let name: &'static str = match fault {
        DecodeFault::UnknownInstruction => "unknown instruction",
        DecodeFault::MissingOperand => "missing operand",
        DecodeFault::ExtraOperand => "too many operands",
        DecodeFault::BadNumber => "bad number",
        DecodeFault::BadString => "bad string",
        DecodeFault::UnknownColor => "unknown color",
        DecodeFault::UnknownName => "unknown name",
        DecodeFault::UnknownLabel => "unknown label",
    };
    let number = numeral(line as u128 + 1);
    name.to_owned().concat(" in line ").concat(number.as_str())
}

impl From<binrw::Error> for VMLoadError {
    fn from(e: binrw::Error) -> (r: VMLoadError) {
        VMLoadError::BadProcessorConfig(e)
    }
}

impl FromSpecImpl<binrw::Error> for VMLoadError {
    open spec fn obeys_from_spec() -> bool {
        true
    }

    open spec fn from_spec(e: binrw::Error) -> VMLoadError {
        VMLoadError::BadProcessorConfig(e)
    }
}

} // verus!
