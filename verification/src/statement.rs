//! Statements: how tokens are parted into them, which of them are
//! labels, and what each of the others asks for.
//!
//! The tokens of a source are parted into statements at the breaks. A
//! statement of one word that ends in a colon is a label; it names the
//! instruction that follows it. Any other statement is an instruction: a
//! word that names it, and its operands.

use crate::catalog::LookupKind;
use crate::error::DecodeFault;
use crate::instruction::{BinaryOp, Condition, UnaryOp};
use crate::keyword;
use crate::keyword::Opcode;
use crate::lexer::{Token, TokenKind};
use vstd::prelude::*;

verus! {

/// The characters of a token.
pub open spec fn word(src: Seq<char>, t: Token) -> Seq<char> {
    src.subrange(t.start as int, t.end as int)
}

/// The statements read so far: the index of the token at which the next
/// statement starts, and the statements, each from its first token up to
/// its break.
pub struct Split {
    pub start: usize,
    pub ranges: Seq<(usize, usize)>,
}

/// The statements among the first `n` tokens. A break ends a statement;
/// a statement without tokens is none.
pub open spec fn splitting(tokens: Seq<Token>, n: nat) -> Split
    decreases n,
{
    if n == 0 {
        Split { start: 0, ranges: Seq::empty() }
    } else {
        let s = splitting(tokens, (n - 1) as nat);
        if tokens[n - 1].kind == TokenKind::Break {
            Split {
                start: n as usize,
                ranges: if s.start < n - 1 {
                    s.ranges.push((s.start, (n - 1) as usize))
                } else {
                    s.ranges
                },
            }
        } else {
            s
        }
    }
}

/// The statements of a sequence of tokens.
pub open spec fn statements_of(tokens: Seq<Token>) -> Seq<(usize, usize)> {
    splitting(tokens, tokens.len()).ranges
}

/// Every statement is a run of at least one token that holds no break.
pub open spec fn statements_ok(tokens: Seq<Token>, ranges: Seq<(usize, usize)>) -> bool {
    forall|i: int|
        0 <= i < ranges.len() ==> {
            &&& (#[trigger] ranges[i]).0 < ranges[i].1 <= tokens.len()
            &&& forall|k: int|
                ranges[i].0 <= k < ranges[i].1 ==> (#[trigger] tokens[k]).kind != TokenKind::Break
        }
}

/// Parts tokens into statements.
pub fn split(tokens: &Vec<Token>) -> (ranges: Vec<(usize, usize)>)
    ensures
        ranges@ == statements_of(tokens@),
        statements_ok(tokens@, ranges@),
{
    let n: usize = tokens.len();
    let mut ranges: Vec<(usize, usize)> = Vec::new();
    let mut start: usize = 0;
    let mut i: usize = 0;
    while i < n
        invariant
            i <= n == tokens@.len(),
            start <= i,
            splitting(tokens@, i as nat) == (Split { start, ranges: ranges@ }),
            statements_ok(tokens@, ranges@),
            forall|k: int| start <= k < i ==> (#[trigger] tokens@[k]).kind != TokenKind::Break,
        decreases n - i,
    {
        match tokens[i].kind {
            TokenKind::Break => {
                if start < i {
                    ranges.push((start, i));
                }
                start = i + 1;
            },
            _ => {},
        }
        i = i + 1;
    }
    ranges
}

/// Whether the statement from token `a` up to token `b` is a label: one
/// word of at least two characters, the last of them a colon.
pub open spec fn is_label(src: Seq<char>, tokens: Seq<Token>, a: int, b: int) -> bool {
    &&& b == a + 1
    &&& tokens[a].kind == TokenKind::Word
    &&& word(src, tokens[a]).len() >= 2
    &&& word(src, tokens[a]).last() == ':'
}

/// The labels read so far: the number of instructions, and each label with
/// the number of instructions before it.
pub struct Labels {
    pub count: nat,
    pub names: Seq<Seq<char>>,
    pub targets: Seq<usize>,
}

/// The labels among the first `n` statements.
pub open spec fn labelling(
    src: Seq<char>,
    tokens: Seq<Token>,
    ranges: Seq<(usize, usize)>,
    n: nat,
) -> Labels
    decreases n,
{
    if n == 0 {
        Labels { count: 0, names: Seq::empty(), targets: Seq::empty() }
    } else {
        let l = labelling(src, tokens, ranges, (n - 1) as nat);
        let (a, b) = ranges[n - 1];
        if is_label(src, tokens, a as int, b as int) {
            Labels {
                names: l.names.push(word(src, tokens[a as int]).drop_last()),
                targets: l.targets.push(l.count as usize),
                ..l
            }
        } else {
            Labels { count: l.count + 1, ..l }
        }
    }
}

/// The labels of a program, in executable form.
pub struct LabelTable {
    pub count: usize,
    pub starts: Vec<usize>,
    pub ends: Vec<usize>,
    pub targets: Vec<usize>,
}

impl LabelTable {
    /// The table holds the names that stand in `src` from each start up to
    /// each end.
    pub open spec fn model(&self, src: Seq<char>) -> Labels {
        Labels {
            count: self.count as nat,
            names: Seq::new(
                self.starts@.len(),
                |i: int| src.subrange(self.starts@[i] as int, self.ends@[i] as int),
            ),
            targets: self.targets@,
        }
    }

    /// The table holds a start, an end and a target for each label, and
    /// each name lies within the source.
    pub open spec fn wf(&self, src: Seq<char>) -> bool {
        &&& self.starts@.len() == self.ends@.len()
        &&& self.starts@.len() == self.targets@.len()
        &&& forall|i: int|
            0 <= i < self.starts@.len() ==> (#[trigger] self.starts@[i]) <= self.ends@[i]
                <= src.len()
    }
}

/// Whether the statement from token `a` up to token `b` is a label.
pub fn statement_is_label(src: &Vec<char>, tokens: &Vec<Token>, a: usize, b: usize) -> (r: bool)
    requires
        a < b <= tokens@.len(),
        crate::lexer::within(tokens@, src@.len()),
    ensures
        r == is_label(src@, tokens@, a as int, b as int),
{
    if b != a + 1 {
        return false;
    }
    let t: Token = tokens[a];
    match t.kind {
        TokenKind::Word => t.end - t.start >= 2 && src[t.end - 1] == ':',
        _ => false,
    }
}

/// Finds the labels of a program and counts its instructions.
pub fn find_labels(src: &Vec<char>, tokens: &Vec<Token>, ranges: &Vec<(usize, usize)>) -> (l:
    LabelTable)
    requires
        crate::lexer::within(tokens@, src@.len()),
        statements_ok(tokens@, ranges@),
    ensures
        l.wf(src@),
        l.model(src@) == labelling(src@, tokens@, ranges@, ranges@.len()),
        l.count <= ranges@.len(),
{
    let mut l = LabelTable { count: 0, starts: Vec::new(), ends: Vec::new(), targets: Vec::new() };
    let n: usize = ranges.len();
    let mut i: usize = 0;
    assert(l.model(src@).names =~= Seq::<Seq<char>>::empty());
    while i < n
        invariant
            i <= n == ranges@.len(),
            crate::lexer::within(tokens@, src@.len()),
            statements_ok(tokens@, ranges@),
            l.wf(src@),
            l.count <= i,
            l.model(src@) == labelling(src@, tokens@, ranges@, i as nat),
        decreases n - i,
    {
        let (a, b) = ranges[i];
        let ghost before = l.model(src@);
        if statement_is_label(src, tokens, a, b) {
            let t: Token = tokens[a];
            l.starts.push(t.start);
            l.ends.push(t.end - 1);
            l.targets.push(l.count);
            proof {
                assert(word(src@, t).drop_last() =~= src@.subrange(
                    t.start as int,
                    t.end - 1,
                ));
                assert(l.model(src@).names =~= before.names.push(word(src@, t).drop_last()));
            }
        } else {
            l.count = l.count + 1;
            assert(l.model(src@).names =~= before.names);
        }
        i = i + 1;
    }
    l
}

/// What a statement asks for, before its operands are read: the
/// instruction, the operation, test or kind that a word of it names, the
/// token that names the target of a jump, and the tokens that are operands:
/// the token `lead`, if there is one, and then the tokens from `from` up to
/// the end of the statement.
#[derive(Clone, Copy, Debug, PartialEq, Eq, Structural)]
pub struct Plan {
    pub opcode: Opcode,
    pub unary: Option<UnaryOp>,
    pub binary: Option<BinaryOp>,
    pub condition: Option<Condition>,
    pub kind: Option<LookupKind>,
    pub target: Option<usize>,
    pub lead: Option<usize>,
    pub from: usize,
}

/// A plan without an operation, test, kind or target.
pub open spec fn plain(opcode: Opcode, from: usize) -> Plan {
    Plan {
        opcode,
        unary: None,
        binary: None,
        condition: None,
        kind: None,
        target: None,
        lead: None,
        from,
    }
}

/// The plan, if the number `n` of operands is between `min` and `max`.
pub open spec fn arity(n: int, min: int, max: int, plan: Plan) -> Result<Plan, DecodeFault> {
    if n < min {
        Err(DecodeFault::MissingOperand)
    } else if n > max {
        Err(DecodeFault::ExtraOperand)
    } else {
        Ok(plan)
    }
}

/// The word that a token holds, if the token is a word.
pub open spec fn keyword_at(src: Seq<char>, tokens: Seq<Token>, i: int) -> Option<Seq<char>> {
    if tokens[i].kind == TokenKind::Word {
        Some(word(src, tokens[i]))
    } else {
        None
    }
}

/// The plan of `op`, whose operation is the token after the first.
pub open spec fn op_plan(src: Seq<char>, tokens: Seq<Token>, a: int, b: int) -> Result<
    Plan,
    DecodeFault,
> {
    if b - a - 1 < 1 {
        Err(DecodeFault::MissingOperand)
    } else {
        match keyword_at(src, tokens, a + 1) {
            None => Err(DecodeFault::UnknownName),
            Some(w) => match keyword::unary_of(w) {
                Some(u) => arity(
                    b - a - 2,
                    2,
                    3,
                    Plan { unary: Some(u), ..plain(Opcode::Op, (a + 2) as usize) },
                ),
                None => match keyword::binary_of(w) {
                    Some(op) => arity(
                        b - a - 2,
                        3,
                        3,
                        Plan { binary: Some(op), ..plain(Opcode::Op, (a + 2) as usize) },
                    ),
                    None => Err(DecodeFault::UnknownName),
                },
            },
        }
    }
}

/// The plan of `jump`: the target, the test, and up to two operands.
pub open spec fn jump_plan(src: Seq<char>, tokens: Seq<Token>, a: int, b: int) -> Result<
    Plan,
    DecodeFault,
> {
    if b - a - 1 < 2 {
        Err(DecodeFault::MissingOperand)
    } else if tokens[a + 1].kind != TokenKind::Word {
        Err(DecodeFault::UnknownLabel)
    } else {
        match keyword_at(src, tokens, a + 2) {
            None => Err(DecodeFault::UnknownName),
            Some(w) => match keyword::condition_of(w) {
                None => Err(DecodeFault::UnknownName),
                Some(c) => arity(
                    b - a - 3,
                    0,
                    2,
                    Plan {
                        condition: Some(c),
                        target: Some((a + 1) as usize),
                        ..plain(Opcode::Jump, (a + 3) as usize)
                    },
                ),
            },
        }
    }
}

/// The plan of `select`: the destination, the test, and four operands.
pub open spec fn select_plan(src: Seq<char>, tokens: Seq<Token>, a: int, b: int) -> Result<
    Plan,
    DecodeFault,
> {
    if b - a - 1 < 2 {
        Err(DecodeFault::MissingOperand)
    } else {
        match keyword_at(src, tokens, a + 2) {
            None => Err(DecodeFault::UnknownName),
            Some(w) => match keyword::condition_of(w) {
                None => Err(DecodeFault::UnknownName),
                Some(c) => arity(
                    b - a - 3,
                    4,
                    4,
                    Plan {
                        condition: Some(c),
                        lead: Some((a + 1) as usize),
                        ..plain(Opcode::Select, (a + 3) as usize)
                    },
                ),
            },
        }
    }
}

/// The plan of `lookup`: the kind, and two operands.
pub open spec fn lookup_plan(src: Seq<char>, tokens: Seq<Token>, a: int, b: int) -> Result<
    Plan,
    DecodeFault,
> {
    if b - a - 1 < 1 {
        Err(DecodeFault::MissingOperand)
    } else {
        match keyword_at(src, tokens, a + 1) {
            None => Err(DecodeFault::UnknownName),
            Some(w) => match keyword::kind_of(w) {
                None => Err(DecodeFault::UnknownName),
                Some(k) => arity(
                    b - a - 2,
                    2,
                    2,
                    Plan { kind: Some(k), ..plain(Opcode::Lookup, (a + 2) as usize) },
                ),
            },
        }
    }
}

/// The plan of the statement from token `a` up to token `b`.
pub open spec fn plan_of(src: Seq<char>, tokens: Seq<Token>, a: int, b: int) -> Result<
    Plan,
    DecodeFault,
> {
    match keyword_at(src, tokens, a) {
        None => Err(DecodeFault::UnknownInstruction),
        Some(w) => match keyword::opcode_of(w) {
            None => Err(DecodeFault::UnknownInstruction),
            Some(opcode) => {
                let n = b - a - 1;
                let p = plain(opcode, (a + 1) as usize);
                match opcode {
                    Opcode::Noop | Opcode::Stop | Opcode::End => arity(n, 0, 0, p),
                    Opcode::Assign => arity(n, 2, 2, p),
                    Opcode::Wait | Opcode::Print | Opcode::PrintChar | Opcode::Format
                    | Opcode::SetRate => arity(n, 1, 1, p),
                    Opcode::PackColor | Opcode::UnpackColor => arity(n, 5, 5, p),
                    Opcode::Op => op_plan(src, tokens, a, b),
                    Opcode::Jump => jump_plan(src, tokens, a, b),
                    Opcode::Select => select_plan(src, tokens, a, b),
                    Opcode::Lookup => lookup_plan(src, tokens, a, b),
                }
            },
        }
    }
}

/// The number of operands of a plan for a statement that ends at token `b`.
pub open spec fn operand_count(plan: Plan, b: int) -> int {
    (b - plan.from) + if plan.lead is Some {
        1int
    } else {
        0
    }
}

/// The token of the `k`th operand of a plan.
pub open spec fn operand_token(plan: Plan, k: int) -> int {
    match plan.lead {
        Some(lead) => if k == 0 {
            lead as int
        } else {
            plan.from + k - 1
        },
        None => plan.from + k,
    }
}

/// A plan fits its statement: its tokens are tokens of the statement after
/// the first, and it has as many operands as its instruction takes.
pub open spec fn plan_ok(plan: Plan, a: int, b: int) -> bool {
    &&& a < plan.from <= b
    &&& plan.lead matches Some(lead) ==> a < lead < b
    &&& plan.target matches Some(target) ==> a < target < b
    &&& match plan.opcode {
        Opcode::Noop | Opcode::Stop | Opcode::End => operand_count(plan, b) == 0,
        Opcode::Assign => operand_count(plan, b) == 2,
        Opcode::Wait | Opcode::Print | Opcode::PrintChar | Opcode::Format
        | Opcode::SetRate => operand_count(plan, b) == 1,
        Opcode::PackColor | Opcode::UnpackColor => operand_count(plan, b) == 5,
        Opcode::Op => if plan.unary is Some {
            2 <= operand_count(plan, b) <= 3
        } else {
            plan.binary is Some && operand_count(plan, b) == 3
        },
        Opcode::Jump => plan.condition is Some && plan.target is Some && operand_count(plan, b)
            <= 2,
        Opcode::Select => plan.condition is Some && operand_count(plan, b) == 5,
        Opcode::Lookup => plan.kind is Some && operand_count(plan, b) == 2,
    }
}

fn plain_plan(opcode: Opcode, from: usize) -> (p: Plan)
    ensures
        p == plain(opcode, from),
{
    Plan {
        opcode,
        unary: None,
        binary: None,
        condition: None,
        kind: None,
        target: None,
        lead: None,
        from,
    }
}

fn check_arity(n: usize, min: usize, max: usize, plan: Plan) -> (r: Result<Plan, DecodeFault>)
    ensures
        r == arity(n as int, min as int, max as int, plan),
{
    if n < min {
        Err(DecodeFault::MissingOperand)
    } else if n > max {
        Err(DecodeFault::ExtraOperand)
    } else {
        Ok(plan)
    }
}

/// The plan of the statement from token `a` up to token `b`.
pub fn plan(src: &Vec<char>, tokens: &Vec<Token>, a: usize, b: usize) -> (r: Result<
    Plan,
    DecodeFault,
>)
    requires
        a < b <= tokens@.len(),
        crate::lexer::within(tokens@, src@.len()),
    ensures
        r == plan_of(src@, tokens@, a as int, b as int),
        r matches Ok(p) ==> plan_ok(p, a as int, b as int),
{
    let head: Token = tokens[a];
    match head.kind {
        TokenKind::Word => {},
        _ => {
            return Err(DecodeFault::UnknownInstruction);
        },
    }
    let opcode = match keyword::opcode(src, head.start, head.end) {
        None => {
            return Err(DecodeFault::UnknownInstruction);
        },
        Some(opcode) => opcode,
    };
    let n: usize = b - a - 1;
    let p = plain_plan(opcode, a + 1);
    match opcode {
        Opcode::Noop | Opcode::Stop | Opcode::End => check_arity(n, 0, 0, p),
        Opcode::Assign => check_arity(n, 2, 2, p),
        Opcode::Wait | Opcode::Print | Opcode::PrintChar | Opcode::Format
        | Opcode::SetRate => check_arity(n, 1, 1, p),
        Opcode::PackColor | Opcode::UnpackColor => check_arity(n, 5, 5, p),
        Opcode::Op => {
            if n < 1 {
                return Err(DecodeFault::MissingOperand);
            }
            let t: Token = tokens[a + 1];
            match t.kind {
                TokenKind::Word => {},
                _ => {
                    return Err(DecodeFault::UnknownName);
                },
            }
            match keyword::unary(src, t.start, t.end) {
                Some(u) => check_arity(
                    n - 1,
                    2,
                    3,
                    Plan { unary: Some(u), ..plain_plan(Opcode::Op, a + 2) },
                ),
                None => match keyword::binary(src, t.start, t.end) {
                    Some(op) => check_arity(
                        n - 1,
                        3,
                        3,
                        Plan { binary: Some(op), ..plain_plan(Opcode::Op, a + 2) },
                    ),
                    None => Err(DecodeFault::UnknownName),
                },
            }
        },
        Opcode::Jump => {
            if n < 2 {
                return Err(DecodeFault::MissingOperand);
            }
            match tokens[a + 1].kind {
                TokenKind::Word => {},
                _ => {
                    return Err(DecodeFault::UnknownLabel);
                },
            }
            let t: Token = tokens[a + 2];
            match t.kind {
                TokenKind::Word => {},
                _ => {
                    return Err(DecodeFault::UnknownName);
                },
            }
            match keyword::condition(src, t.start, t.end) {
                None => Err(DecodeFault::UnknownName),
                Some(c) => check_arity(
                    n - 2,
                    0,
                    2,
                    Plan {
                        condition: Some(c),
                        target: Some(a + 1),
                        ..plain_plan(Opcode::Jump, a + 3)
                    },
                ),
            }
        },
        Opcode::Select => {
            if n < 2 {
                return Err(DecodeFault::MissingOperand);
            }
            let t: Token = tokens[a + 2];
            match t.kind {
                TokenKind::Word => {},
                _ => {
                    return Err(DecodeFault::UnknownName);
                },
            }
            match keyword::condition(src, t.start, t.end) {
                None => Err(DecodeFault::UnknownName),
                Some(c) => check_arity(
                    n - 2,
                    4,
                    4,
                    Plan {
                        condition: Some(c),
                        lead: Some(a + 1),
                        ..plain_plan(Opcode::Select, a + 3)
                    },
                ),
            }
        },
        Opcode::Lookup => {
            if n < 1 {
                return Err(DecodeFault::MissingOperand);
            }
            let t: Token = tokens[a + 1];
            match t.kind {
                TokenKind::Word => {},
                _ => {
                    return Err(DecodeFault::UnknownName);
                },
            }
            match keyword::kind(src, t.start, t.end) {
                None => Err(DecodeFault::UnknownName),
                Some(k) => check_arity(
                    n - 1,
                    2,
                    2,
                    Plan { kind: Some(k), ..plain_plan(Opcode::Lookup, a + 2) },
                ),
            }
        },
    }
}

} // verus!
