//! From source text to a program.
//!
//! The labels of a source are found first. Then its statements are read
//! one after the other: each operand is bound to a constant, to what the
//! program or the globals bind its name to, or to a new slot.

use crate::building::ProcessorLink;
use crate::catalog::{Catalog, LookupKind};
use crate::error::DecodeFault;
use crate::instruction::{BinaryOp, Condition, Instruction, LVar};
use crate::keyword::Opcode;
use crate::lexer::{Token, TokenKind};
use crate::literal;
use crate::names::{lemma_position_found, lemma_position_none, position};
use crate::point::Point2;
use crate::program::{instruction_ok, var_ok, Program, Variable};
use crate::statement::{
    find_labels, is_label, labelling, operand_count, operand_token, plan, plan_of, plan_ok, split,
    statement_is_label, statements_of, statements_ok, word, Labels, LabelTable, Plan,
};
use crate::unit::FloatUnit;
use crate::value::LValue;
use crate::variables::Globals;
use vstd::prelude::*;
use vstd::string::*;

verus! {

/// What a program holds besides its instructions: the names it mentions
/// and what each is bound to, the texts of its strings, and the number of
/// its slots.
pub struct Draft {
    pub names: Seq<Seq<char>>,
    pub vars: Seq<LVar>,
    pub strings: Seq<Seq<u16>>,
    pub slots: nat,
}

/// A program as far as it is decoded.
pub struct Assembly {
    pub draft: Draft,
    pub instructions: Seq<Instruction>,
}

/// What is decoded: the characters of the source, its tokens, what the
/// unit answered for each token, the globals and the catalog.
pub struct Input {
    pub src: Seq<char>,
    pub tokens: Seq<Token>,
    pub answers: Seq<Option<u64>>,
    pub globals: Globals,
    pub catalog: Catalog,
}

/// What is decoded, in executable form.
pub struct Context<'a> {
    pub src: &'a Vec<char>,
    pub source: &'a str,
    pub tokens: &'a Vec<Token>,
    pub answers: &'a Vec<Option<u64>>,
    pub globals: &'a Globals,
    pub catalog: &'a Catalog,
}

impl<'a> Context<'a> {
    /// What is decoded, as mathematics.
    pub open spec fn model(&self) -> Input {
        Input {
            src: self.src@,
            tokens: self.tokens@,
            answers: self.answers@,
            globals: *self.globals,
            catalog: *self.catalog,
        }
    }

    /// The characters are those of the source, the tokens lie within
    /// them, there is an answer for each token, and the globals are well formed.
    pub open spec fn wf(&self) -> bool {
        &&& self.src@ == self.source@
        &&& crate::lexer::within(self.tokens@, self.src@.len())
        &&& self.answers@.len() == self.tokens@.len()
        &&& self.globals.wf()
    }
}

/// The draft of a program.
pub open spec fn draft_of(p: &Program) -> Draft {
    Draft {
        names: Seq::new(p.variables@.len(), |i: int| p.variables@[i].name@),
        vars: Seq::new(p.variables@.len(), |i: int| p.variables@[i].var),
        strings: Seq::new(p.strings@.len(), |i: int| p.strings@[i]@),
        slots: p.slots as nat,
    }
}

/// The program as an assembly.
pub open spec fn assembly_of(p: &Program) -> Assembly {
    Assembly { draft: draft_of(p), instructions: p.instructions@ }
}

/// Every name of a program under construction is bound to a valid
/// operand, and there are at most as many slots as names.
pub open spec fn draft_ok(p: &Program) -> bool {
    &&& p.slots <= p.variables@.len()
    &&& forall|i: int|
        0 <= i < p.variables@.len() ==> var_ok(
            (#[trigger] p.variables@[i]).var,
            p.slots as nat,
            p.strings@.len(),
        )
}

/// The name that a word stands for: itself, but for the one alias of the language.
pub open spec fn canonical(w: Seq<char>) -> Seq<char> {
    if w == "π"@ {
        "@pi"@
    } else {
        w
    }
}

/// What a name is bound to: what the program binds it to; else what the
/// globals bind it to; else a new slot, which the name is then bound to.
pub open spec fn name_var(globals: &Globals, d: Draft, name: Seq<char>) -> (LVar, Draft) {
    match position(d.names, name) {
        Some(i) => (d.vars[i], d),
        None => match globals.lookup(name) {
            Some(var) => (var, d),
            None => (
                LVar::Slot(d.slots as usize),
                Draft {
                    names: d.names.push(name),
                    vars: d.vars.push(LVar::Slot(d.slots as usize)),
                    slots: d.slots + 1,
                    ..d
                },
            ),
        },
    }
}

/// The constant that a color literal `%[name]` denotes: the color of that
/// name, packed.
pub open spec fn color_var(input: Input, w: Seq<char>) -> Result<LVar, DecodeFault> {
    if w.len() >= 3 && w[1] == '[' && w.last() == ']' {
        match input.catalog.color(w.subrange(2, w.len() - 1)) {
            Some(rgba) => Ok(LVar::Constant(LValue::Number(rgba as u64))),
            None => Err(DecodeFault::UnknownColor),
        }
    } else {
        Err(DecodeFault::UnknownColor)
    }
}

/// The constant that a number denotes: the integer that it is, or else
/// what the unit answered; a number that is not finite is null.
pub open spec fn number_var(w: Seq<char>, answer: Option<u64>) -> Result<LVar, DecodeFault> {
    match literal::exact(w) {
        Some(bits) => Ok(LVar::Constant(LValue::stored(bits))),
        None => match answer {
            Some(bits) => Ok(LVar::Constant(LValue::stored(bits))),
            None => Err(DecodeFault::BadNumber),
        },
    }
}

/// Whether the unit is asked what a token denotes: the token is a word
/// that is to be read as a number and is no integer below `2^64`.
pub open spec fn asks(src: Seq<char>, t: Token) -> bool {
    t.kind == TokenKind::Word && literal::number_like(word(src, t)) && literal::exact(
        word(src, t),
    ) is None
}

/// The operand that token `i` denotes, and the draft after it is read.
pub open spec fn operand_of(input: Input, d: Draft, i: int) -> Result<(LVar, Draft), DecodeFault> {
    let t = input.tokens[i];
    let w = word(input.src, t);
    match t.kind {
        TokenKind::Break => Err(DecodeFault::MissingOperand),
        TokenKind::Text => match literal::unescaped(w) {
            Some(units) => Ok(
                (
                    LVar::Constant(LValue::String(d.strings.len() as usize)),
                    Draft { strings: d.strings.push(units), ..d },
                ),
            ),
            None => Err(DecodeFault::BadString),
        },
        TokenKind::Word => if w.len() > 0 && w[0] == '%' {
            match color_var(input, w) {
                Ok(var) => Ok((var, d)),
                Err(f) => Err(f),
            }
        } else if literal::number_like(w) {
            match number_var(w, input.answers[i]) {
                Ok(var) => Ok((var, d)),
                Err(f) => Err(f),
            }
        } else {
            Ok(name_var(&input.globals, d, canonical(w)))
        },
    }
}

/// The first `k` operands of a plan, and the draft after they are read.
pub open spec fn operands_of(input: Input, d: Draft, plan: Plan, k: nat) -> Result<
    (Seq<LVar>, Draft),
    DecodeFault,
>
    decreases k,
{
    if k == 0 {
        Ok((Seq::empty(), d))
    } else {
        match operands_of(input, d, plan, (k - 1) as nat) {
            Err(f) => Err(f),
            Ok((vars, d1)) => match operand_of(input, d1, operand_token(plan, k - 1)) {
                Err(f) => Err(f),
                Ok((var, d2)) => Ok((vars.push(var), d2)),
            },
        }
    }
}

/// The index that the target of a jump names: that of the first label of
/// the name, or else the number that the word is, if it is the index of
/// an instruction. A label after the last instruction names the first.
pub open spec fn target_of(input: Input, labels: Labels, plan: Plan) -> Result<usize, DecodeFault> {
    match plan.target {
        None => Ok(0),
        Some(t) => {
            let w = word(input.src, input.tokens[t as int]);
            match position(labels.names, w) {
                Some(i) => Ok(
                    if labels.targets[i] >= labels.count {
                        0
                    } else {
                        labels.targets[i]
                    },
                ),
                None => match literal::natural_of(w) {
                    Some(v) => if v < labels.count {
                        Ok(v as usize)
                    } else {
                        Err(DecodeFault::UnknownLabel)
                    },
                    None => Err(DecodeFault::UnknownLabel),
                },
            }
        },
    }
}

/// The operand at `k`, or null where there is none.
pub open spec fn operand_or_null(vars: Seq<LVar>, k: int) -> LVar {
    if k < vars.len() {
        vars[k]
    } else {
        LVar::Constant(LValue::Null)
    }
}

/// The instruction of a plan with its operands and the target of its jump.
pub open spec fn instruction_of(plan: Plan, vars: Seq<LVar>, target: usize) -> Instruction {
    match plan.opcode {
        Opcode::Noop => Instruction::Noop,
        Opcode::Stop => Instruction::Stop,
        Opcode::End => Instruction::End,
        Opcode::Assign => Instruction::Assign { dest: vars[0], value: vars[1] },
        Opcode::Wait => Instruction::Wait { seconds: vars[0] },
        Opcode::Print => Instruction::Print { value: vars[0] },
        Opcode::PrintChar => Instruction::PrintChar { code: vars[0] },
        Opcode::Format => Instruction::Format { value: vars[0] },
        Opcode::SetRate => Instruction::SetRate { rate: vars[0] },
        Opcode::PackColor => Instruction::PackColor {
            dest: vars[0],
            r: vars[1],
            g: vars[2],
            b: vars[3],
            a: vars[4],
        },
        Opcode::UnpackColor => Instruction::UnpackColor {
            r: vars[0],
            g: vars[1],
            b: vars[2],
            a: vars[3],
            packed: vars[4],
        },
        Opcode::Op => match plan.unary {
            Some(op) => Instruction::Unary { op, dest: vars[0], x: vars[1] },
            None => Instruction::Binary {
                op: match plan.binary {
                    Some(op) => op,
                    None => BinaryOp::Add,
                },
                dest: vars[0],
                x: vars[1],
                y: vars[2],
            },
        },
        Opcode::Jump => Instruction::Jump {
            target,
            condition: match plan.condition {
                Some(c) => c,
                None => Condition::Always,
            },
            x: operand_or_null(vars, 0),
            y: operand_or_null(vars, 1),
        },
        Opcode::Select => Instruction::Select {
            dest: vars[0],
            condition: match plan.condition {
                Some(c) => c,
                None => Condition::Always,
            },
            x: vars[1],
            y: vars[2],
            if_true: vars[3],
            if_false: vars[4],
        },
        Opcode::Lookup => Instruction::Lookup {
            kind: match plan.kind {
                Some(k) => k,
                None => LookupKind::Block,
            },
            dest: vars[0],
            index: vars[1],
        },
    }
}

/// The instruction that the statement from token `a` up to token `b`
/// denotes, and the draft after it is read. What is wrong with the
/// statement is found in this order: its words, the number of its
/// operands, the target of its jump, its operands from the first to the last.
pub open spec fn statement_of(input: Input, labels: Labels, d: Draft, a: int, b: int) -> Result<
    (Instruction, Draft),
    DecodeFault,
> {
    match plan_of(input.src, input.tokens, a, b) {
        Err(f) => Err(f),
        Ok(plan) => match target_of(input, labels, plan) {
            Err(f) => Err(f),
            Ok(target) => match operands_of(
                input,
                d,
                plan,
                operand_count(plan, b) as nat,
            ) {
                Err(f) => Err(f),
                Ok((vars, d1)) => Ok((instruction_of(plan, vars, target), d1)),
            },
        },
    }
}

/// The program that the first `n` statements denote, given the draft
/// before them; or the first fault and the line of its statement.
pub open spec fn assembling(
    input: Input,
    labels: Labels,
    ranges: Seq<(usize, usize)>,
    d: Draft,
    n: nat,
) -> Result<Assembly, (DecodeFault, usize)>
    decreases n,
{
    if n == 0 {
        Ok(Assembly { draft: d, instructions: Seq::empty() })
    } else {
        match assembling(input, labels, ranges, d, (n - 1) as nat) {
            Err(e) => Err(e),
            Ok(s) => {
                let (a, b) = ranges[n - 1];
                if is_label(input.src, input.tokens, a as int, b as int) {
                    Ok(s)
                } else {
                    match statement_of(input, labels, s.draft, a as int, b as int) {
                        Ok((instruction, d1)) => Ok(
                            Assembly { draft: d1, instructions: s.instructions.push(instruction) },
                        ),
                        Err(f) => Err((f, input.tokens[a as int].line)),
                    }
                }
            },
        }
    }
}

/// The program that the tokens denote, given the draft before them.
pub open spec fn assembled(input: Input, d: Draft) -> Result<Assembly, (DecodeFault, usize)> {
    let ranges = statements_of(input.tokens);
    assembling(
        input,
        labelling(input.src, input.tokens, ranges, ranges.len()),
        ranges,
        d,
        ranges.len(),
    )
}

/// What the program binds a name to.
fn find_variable(p: &Program, name: &str) -> (r: Option<LVar>)
    ensures
        r == match position(draft_of(p).names, name@) {
            Some(i) => Some(draft_of(p).vars[i]),
            None => None,
        },
{
    let n: usize = p.variables.len();
    let mut i: usize = 0;
    while i < n
        invariant
            n == p.variables@.len(),
            i <= n,
            forall|j: int| 0 <= j < i ==> draft_of(p).names[j] != name@,
        decreases n - i,
    {
        if crate::catalog::same_text(p.variables[i].name.as_str(), name) {
            proof {
                assert(draft_of(p).names[i as int] == name@);
                lemma_position_found(draft_of(p).names, name@, i as int);
            }
            return Some(p.variables[i].var);
        }
        i = i + 1;
    }
    proof {
        lemma_position_none(draft_of(p).names, name@);
    }
    None
}

/// What a name is bound to; a name that nothing binds is bound to a new slot.
fn bind(globals: &Globals, p: &mut Program, name: &str) -> (var: LVar)
    requires
        globals.wf(),
        draft_ok(old(p)),
    ensures
        final(p).instructions == old(p).instructions,
        final(p).strings == old(p).strings,
        draft_ok(final(p)),
        final(p).slots >= old(p).slots,
        var_ok(var, final(p).slots as nat, final(p).strings@.len()),
        name_var(globals, draft_of(old(p)), name@) == (var, draft_of(final(p))),
{
    match find_variable(p, name) {
        Some(var) => {
            proof {
                crate::names::lemma_position_holds(draft_of(p).names, name@);
            }
            var
        },
        None => match globals.find(name) {
            Some(var) => var,
            None => {
                let slot: usize = p.slots;
                let ghost before = draft_of(p);
                let count: usize = p.variables.len();
                p.variables.push(Variable { name: name.to_owned(), var: LVar::Slot(slot) });
                let grown: usize = p.variables.len();
                p.slots = slot + 1;
                proof {
                    assert(draft_of(p).names =~= before.names.push(name@));
                    assert(draft_of(p).vars =~= before.vars.push(LVar::Slot(slot)));
                    assert(draft_of(p).strings =~= before.strings);
                }
                LVar::Slot(slot)
            },
        },
    }
}

/// Reads the operand that token `i` denotes.
fn operand(ctx: &Context, p: &mut Program, i: usize) -> (r: Result<LVar, DecodeFault>)
    requires
        ctx.wf(),
        i < ctx.tokens@.len(),
        draft_ok(old(p)),
    ensures
        final(p).instructions == old(p).instructions,
        draft_ok(final(p)),
        final(p).slots >= old(p).slots,
        final(p).strings@.len() >= old(p).strings@.len(),
        match r {
            Ok(var) => operand_of(ctx.model(), draft_of(old(p)), i as int) == Ok::<
                (LVar, Draft),
                DecodeFault,
            >((var, draft_of(final(p)))) && var_ok(
                var,
                final(p).slots as nat,
                final(p).strings@.len(),
            ),
            Err(f) => operand_of(ctx.model(), draft_of(old(p)), i as int) == Err::<
                (LVar, Draft),
                DecodeFault,
            >(f),
        },
{
    let t: Token = ctx.tokens[i];
    let ghost w = word(ctx.src@, t);
    match t.kind {
        TokenKind::Break => Err(DecodeFault::MissingOperand),
        TokenKind::Text => match literal::unescape(ctx.src, t.start, t.end) {
            Some(units) => {
                let id: usize = p.strings.len();
                let ghost before = draft_of(p);
                p.strings.push(units);
                proof {
                    assert(draft_of(p).strings =~= before.strings.push(units@));
                    assert(draft_of(p).names =~= before.names);
                    assert(draft_of(p).vars =~= before.vars);
                }
                Ok(LVar::Constant(LValue::String(id)))
            },
            None => Err(DecodeFault::BadString),
        },
        TokenKind::Word => {
            if t.end > t.start && ctx.src[t.start] == '%' {
                if t.end - t.start >= 3 && ctx.src[t.start + 1] == '[' && ctx.src[t.end - 1]
                    == ']' {
                    let name = ctx.source.substring_char(t.start + 2, t.end - 1);
                    assert(name@ =~= w.subrange(2, w.len() - 1));
                    match ctx.catalog.find_color(name) {
                        Some(rgba) => {
                            assert(crate::number::finite(rgba as u64));
                            Ok(LVar::Constant(LValue::Number(rgba as u64)))
                        },
                        None => Err(DecodeFault::UnknownColor),
                    }
                } else {
                    Err(DecodeFault::UnknownColor)
                }
            } else if literal::is_number_like(ctx.src, t.start, t.end) {
                match literal::exact_number(ctx.src, t.start, t.end) {
                    Some(bits) => Ok(LVar::Constant(LValue::number(bits))),
                    None => match ctx.answers[i] {
                        Some(bits) => Ok(LVar::Constant(LValue::number(bits))),
                        None => Err(DecodeFault::BadNumber),
                    },
                }
            } else {
                let text = ctx.source.substring_char(t.start, t.end);
                let name = if crate::catalog::same_text(text, "π") {
                    "@pi"
                } else {
                    text
                };
                Ok(bind(ctx.globals, p, name))
            }
        },
    }
}

/// The token of the `k`th operand of a plan.
fn token_of(plan: Plan, k: usize, a: usize, b: usize) -> (i: usize)
    requires
        plan_ok(plan, a as int, b as int),
        k < operand_count(plan, b as int),
    ensures
        i == operand_token(plan, k as int),
        a < i < b,
{
    match plan.lead {
        Some(lead) => if k == 0 {
            lead
        } else {
            plan.from + k - 1
        },
        None => plan.from + k,
    }
}

/// Reads the operands of a plan.
fn operands(ctx: &Context, p: &mut Program, plan: Plan, a: usize, b: usize) -> (r: Result<
    Vec<LVar>,
    DecodeFault,
>)
    requires
        ctx.wf(),
        a < b <= ctx.tokens@.len(),
        plan_ok(plan, a as int, b as int),
        draft_ok(old(p)),
    ensures
        final(p).instructions == old(p).instructions,
        draft_ok(final(p)),
        final(p).slots >= old(p).slots,
        final(p).strings@.len() >= old(p).strings@.len(),
        match r {
            Ok(vars) => {
                &&& operands_of(
                    ctx.model(),
                    draft_of(old(p)),
                    plan,
                    operand_count(plan, b as int) as nat,
                ) == Ok::<(Seq<LVar>, Draft), DecodeFault>((vars@, draft_of(final(p))))
                &&& vars@.len() == operand_count(plan, b as int)
                &&& forall|k: int|
                    0 <= k < vars@.len() ==> var_ok(
                        #[trigger] vars@[k],
                        final(p).slots as nat,
                        final(p).strings@.len(),
                    )
            },
            Err(f) => operands_of(
                ctx.model(),
                draft_of(old(p)),
                plan,
                operand_count(plan, b as int) as nat,
            ) == Err::<(Seq<LVar>, Draft), DecodeFault>(f),
        },
{
    let count: usize = (b - plan.from) + match plan.lead {
        Some(_) => 1,
        None => 0,
    };
    let mut vars: Vec<LVar> = Vec::new();
    let mut k: usize = 0;
    while k < count
        invariant
            ctx.wf(),
            a < b <= ctx.tokens@.len(),
            plan_ok(plan, a as int, b as int),
            count == operand_count(plan, b as int),
            k <= count,
            p.instructions == old(p).instructions,
            draft_ok(p),
            p.slots >= old(p).slots,
            p.strings@.len() >= old(p).strings@.len(),
            vars@.len() == k,
            operands_of(ctx.model(), draft_of(old(p)), plan, k as nat) == Ok::<
                (Seq<LVar>, Draft),
                DecodeFault,
            >((vars@, draft_of(p))),
            forall|j: int|
                0 <= j < vars@.len() ==> var_ok(
                    #[trigger] vars@[j],
                    p.slots as nat,
                    p.strings@.len(),
                ),
        decreases count - k,
    {
        let i: usize = token_of(plan, k, a, b);
        match operand(ctx, p, i) {
            Ok(var) => {
                vars.push(var);
            },
            Err(f) => {
                proof {
                    lemma_operands_fail(
                        ctx.model(),
                        draft_of(old(p)),
                        plan,
                        (k + 1) as nat,
                        count as nat,
                    );
                }
                return Err(f);
            },
        }
        k = k + 1;
    }
    Ok(vars)
}

/// Once an operand is at fault, the operands are at fault with it.
proof fn lemma_operands_fail(input: Input, d: Draft, plan: Plan, k: nat, n: nat)
    requires
        k <= n,
        operands_of(input, d, plan, k) is Err,
    ensures
        operands_of(input, d, plan, n) == operands_of(input, d, plan, k),
    decreases n,
{
    if k < n {
        lemma_operands_fail(input, d, plan, k, (n - 1) as nat);
    }
}

/// Finds the instruction that the target of a jump names.
fn target(ctx: &Context, labels: &LabelTable, plan: Plan) -> (r: Result<usize, DecodeFault>)
    requires
        ctx.wf(),
        labels.wf(ctx.src@),
        plan.target matches Some(t) ==> t < ctx.tokens@.len(),
    ensures
        r == target_of(ctx.model(), labels.model(ctx.src@), plan),
        r matches Ok(i) ==> i < labels.count || i == 0,
{
    let t: Token = match plan.target {
        None => {
            return Ok(0);
        },
        Some(t) => ctx.tokens[t],
    };
    let ghost w = word(ctx.src@, t);
    let ghost names = labels.model(ctx.src@).names;
    let n: usize = labels.starts.len();
    let mut i: usize = 0;
    while i < n
        invariant
            ctx.wf(),
            labels.wf(ctx.src@),
            n == labels.starts@.len(),
            i <= n,
            names == labels.model(ctx.src@).names,
            plan.target matches Some(at) && at < ctx.tokens@.len() && ctx.tokens@[at as int] == t,
            w == word(ctx.src@, t),
            t.start <= t.end <= ctx.src@.len(),
            forall|j: int| 0 <= j < i ==> names[j] != w,
        decreases n - i,
    {
        if same_range(ctx.src, labels.starts[i], labels.ends[i], t.start, t.end) {
            proof {
                assert(names[i as int] == w);
                lemma_position_found(names, w, i as int);
            }
            let found: usize = labels.targets[i];
            return Ok(
                if found >= labels.count {
                    0
                } else {
                    found
                },
            );
        }
        i = i + 1;
    }
    proof {
        lemma_position_none(names, w);
    }
    match literal::natural(ctx.src, t.start, t.end) {
        Some(v) => if v < labels.count as u64 {
            Ok(v as usize)
        } else {
            Err(DecodeFault::UnknownLabel)
        },
        None => Err(DecodeFault::UnknownLabel),
    }
}

/// Whether two runs of characters of a source are the same.
fn same_range(src: &Vec<char>, a: usize, b: usize, c: usize, d: usize) -> (r: bool)
    requires
        a <= b <= src@.len(),
        c <= d <= src@.len(),
    ensures
        r == (src@.subrange(a as int, b as int) == src@.subrange(c as int, d as int)),
{
    if b - a != d - c {
        assert(src@.subrange(a as int, b as int).len() != src@.subrange(c as int, d as int).len());
        return false;
    }
    let n: usize = b - a;
    let mut i: usize = 0;
    while i < n
        invariant
            a <= b <= src@.len(),
            c <= d <= src@.len(),
            n == b - a,
            n == d - c,
            i <= n,
            forall|j: int|
                0 <= j < i ==> src@.subrange(a as int, b as int)[j] == src@.subrange(
                    c as int,
                    d as int,
                )[j],
        decreases n - i,
    {
        if src[a + i] != src[c + i] {
            assert(src@.subrange(a as int, b as int)[i as int] != src@.subrange(
                c as int,
                d as int,
            )[i as int]);
            return false;
        }
        i = i + 1;
    }
    assert(src@.subrange(a as int, b as int) =~= src@.subrange(c as int, d as int));
    true
}

/// Builds the instruction of a plan from its operands and the target of its jump.
fn build(plan: Plan, vars: &Vec<LVar>, target: usize, b: usize) -> (r: Instruction)
    requires
        exists|a: int| plan_ok(plan, a, b as int),
        vars@.len() == operand_count(plan, b as int),
    ensures
        r == instruction_of(plan, vars@, target),
{
    let null = LVar::Constant(LValue::Null);
    match plan.opcode {
        Opcode::Noop => Instruction::Noop,
        Opcode::Stop => Instruction::Stop,
        Opcode::End => Instruction::End,
        Opcode::Assign => Instruction::Assign { dest: vars[0], value: vars[1] },
        Opcode::Wait => Instruction::Wait { seconds: vars[0] },
        Opcode::Print => Instruction::Print { value: vars[0] },
        Opcode::PrintChar => Instruction::PrintChar { code: vars[0] },
        Opcode::Format => Instruction::Format { value: vars[0] },
        Opcode::SetRate => Instruction::SetRate { rate: vars[0] },
        Opcode::PackColor => Instruction::PackColor {
            dest: vars[0],
            r: vars[1],
            g: vars[2],
            b: vars[3],
            a: vars[4],
        },
        Opcode::UnpackColor => Instruction::UnpackColor {
            r: vars[0],
            g: vars[1],
            b: vars[2],
            a: vars[3],
            packed: vars[4],
        },
        Opcode::Op => match plan.unary {
            Some(op) => Instruction::Unary { op, dest: vars[0], x: vars[1] },
            None => Instruction::Binary {
                op: match plan.binary {
                    Some(op) => op,
                    None => BinaryOp::Add,
                },
                dest: vars[0],
                x: vars[1],
                y: vars[2],
            },
        },
        Opcode::Jump => Instruction::Jump {
            target,
            condition: match plan.condition {
                Some(c) => c,
                None => Condition::Always,
            },
            x: if vars.len() > 0 {
                vars[0]
            } else {
                null
            },
            y: if vars.len() > 1 {
                vars[1]
            } else {
                null
            },
        },
        Opcode::Select => Instruction::Select {
            dest: vars[0],
            condition: match plan.condition {
                Some(c) => c,
                None => Condition::Always,
            },
            x: vars[1],
            y: vars[2],
            if_true: vars[3],
            if_false: vars[4],
        },
        Opcode::Lookup => Instruction::Lookup {
            kind: match plan.kind {
                Some(k) => k,
                None => LookupKind::Block,
            },
            dest: vars[0],
            index: vars[1],
        },
    }
}

/// Reads the statement from token `a` up to token `b`.
fn statement(ctx: &Context, labels: &LabelTable, p: &mut Program, a: usize, b: usize) -> (r:
    Result<Instruction, DecodeFault>)
    requires
        ctx.wf(),
        labels.wf(ctx.src@),
        a < b <= ctx.tokens@.len(),
        draft_ok(old(p)),
    ensures
        final(p).instructions == old(p).instructions,
        draft_ok(final(p)),
        final(p).slots >= old(p).slots,
        final(p).strings@.len() >= old(p).strings@.len(),
        match r {
            Ok(instruction) => {
                &&& statement_of(
                    ctx.model(),
                    labels.model(ctx.src@),
                    draft_of(old(p)),
                    a as int,
                    b as int,
                ) == Ok::<(Instruction, Draft), DecodeFault>((instruction, draft_of(final(p))))
                &&& instruction_ok(
                    instruction,
                    final(p).slots as nat,
                    final(p).strings@.len(),
                    if labels.count == 0 {
                        1
                    } else {
                        labels.count as nat
                    },
                )
            },
            Err(f) => statement_of(
                ctx.model(),
                labels.model(ctx.src@),
                draft_of(old(p)),
                a as int,
                b as int,
            ) == Err::<(Instruction, Draft), DecodeFault>(f),
        },
{
    let plan = match plan(ctx.src, ctx.tokens, a, b) {
        Err(f) => {
            return Err(f);
        },
        Ok(plan) => plan,
    };
    let target = match target(ctx, labels, plan) {
        Err(f) => {
            return Err(f);
        },
        Ok(target) => target,
    };
    let vars = match operands(ctx, p, plan, a, b) {
        Err(f) => {
            return Err(f);
        },
        Ok(vars) => vars,
    };
    Ok(build(plan, &vars, target, b))
}

/// Reads the statements of a source: its labels first, then its instructions.
fn assemble(ctx: &Context, base: Program) -> (r: Result<Program, (DecodeFault, usize)>)
    requires
        ctx.wf(),
        base.instructions@.len() == 0,
        draft_ok(&base),
    ensures
        match r {
            Ok(p) => assembled(ctx.model(), draft_of(&base)) == Ok::<
                Assembly,
                (DecodeFault, usize),
            >(assembly_of(&p)) && p.wf(),
            Err(e) => assembled(ctx.model(), draft_of(&base)) == Err::<
                Assembly,
                (DecodeFault, usize),
            >(e),
        },
{
    let ranges = split(ctx.tokens);
    let labels = find_labels(ctx.src, ctx.tokens, &ranges);
    let mut p = base;
    let n: usize = ranges.len();
    let mut i: usize = 0;
    assert(p.instructions@ =~= Seq::<Instruction>::empty());
    while i < n
        invariant
            ctx.wf(),
            labels.wf(ctx.src@),
            statements_ok(ctx.tokens@, ranges@),
            ranges@ == statements_of(ctx.tokens@),
            labels.model(ctx.src@) == labelling(ctx.src@, ctx.tokens@, ranges@, ranges@.len()),
            i <= n == ranges@.len(),
            draft_ok(&p),
            assembling(
                ctx.model(),
                labels.model(ctx.src@),
                ranges@,
                draft_of(&base),
                i as nat,
            ) == Ok::<Assembly, (DecodeFault, usize)>(assembly_of(&p)),
            p.instructions@.len() == labelling(ctx.src@, ctx.tokens@, ranges@, i as nat).count,
            forall|k: int|
                0 <= k < p.instructions@.len() ==> instruction_ok(
                    #[trigger] p.instructions@[k],
                    p.slots as nat,
                    p.strings@.len(),
                    if labels.count == 0 {
                        1
                    } else {
                        labels.count as nat
                    },
                ),
        decreases n - i,
    {
        let (a, b) = ranges[i];
        if !statement_is_label(ctx.src, ctx.tokens, a, b) {
            match statement(ctx, &labels, &mut p, a, b) {
                Ok(instruction) => {
                    p.instructions.push(instruction);
                },
                Err(f) => {
                    proof {
                        lemma_assembling_fails(
                            ctx.model(),
                            labels.model(ctx.src@),
                            ranges@,
                            draft_of(&base),
                            (i + 1) as nat,
                            n as nat,
                        );
                    }
                    return Err((f, ctx.tokens[a].line));
                },
            }
        }
        i = i + 1;
    }
    Ok(p)
}

/// Once a statement is at fault, the program is at fault with it.
proof fn lemma_assembling_fails(
    input: Input,
    labels: Labels,
    ranges: Seq<(usize, usize)>,
    d: Draft,
    k: nat,
    n: nat,
)
    requires
        k <= n,
        assembling(input, labels, ranges, d, k) is Err,
    ensures
        assembling(input, labels, ranges, d, n) == assembling(input, labels, ranges, d, k),
    decreases n,
{
    if k < n {
        lemma_assembling_fails(input, labels, ranges, d, k, (n - 1) as nat);
    }
}

/// Whether there is no answer for any token that the unit is not asked about.
pub open spec fn unasked(src: Seq<char>, tokens: Seq<Token>, answers: Seq<Option<u64>>) -> bool {
    forall|k: int| 0 <= k < tokens.len() && !asks(src, tokens[k]) ==> answers[k] is None
}

/// What the unit says each token denotes: it is asked about the words
/// that are to be read as numbers and are no integers below `2^64`.
fn consult<U: FloatUnit>(src: &Vec<char>, source: &str, tokens: &Vec<Token>, unit: &U) -> (answers:
    Vec<Option<u64>>)
    requires
        src@ == source@,
        crate::lexer::within(tokens@, src@.len()),
    ensures
        answers@.len() == tokens@.len(),
        unasked(src@, tokens@, answers@),
{
    let mut answers: Vec<Option<u64>> = Vec::new();
    let n: usize = tokens.len();
    let mut i: usize = 0;
    while i < n
        invariant
            src@ == source@,
            crate::lexer::within(tokens@, src@.len()),
            i <= n == tokens@.len(),
            answers@.len() == i,
            forall|k: int| 0 <= k < i && !asks(src@, tokens@[k]) ==> answers@[k] is None,
        decreases n - i,
    {
        let t: Token = tokens[i];
        let asked: bool = match t.kind {
            TokenKind::Word => {
                literal::is_number_like(src, t.start, t.end) && literal::exact_number(
                    src,
                    t.start,
                    t.end,
                ).is_none()
            },
            _ => false,
        };
        if asked {
            answers.push(unit.parse(source.substring_char(t.start, t.end)));
        } else {
            answers.push(None);
        }
        i = i + 1;
    }
    answers
}

/// What the tokens of a source denote, given what the unit answered for
/// each, and the draft before them.
pub open spec fn decoded(
    source: Seq<char>,
    tokens: Seq<Token>,
    answers: Seq<Option<u64>>,
    globals: &Globals,
    catalog: &Catalog,
    d: Draft,
) -> Result<Assembly, (DecodeFault, usize)> {
    assembled(
        Input { src: source, tokens, answers, globals: *globals, catalog: *catalog },
        d,
    )
}

/// Whether a result is what was to be decoded: the program of that
/// assembly, or that fault.
pub open spec fn agrees(
    r: Result<Program, (DecodeFault, usize)>,
    expected: Result<Assembly, (DecodeFault, usize)>,
) -> bool {
    match r {
        Ok(p) => expected == Ok::<Assembly, (DecodeFault, usize)>(assembly_of(&p)),
        Err(e) => expected == Err::<Assembly, (DecodeFault, usize)>(e),
    }
}

/// What a source denotes, given its tokens and what the unit answered for
/// each: a program, or the first fault and the line of its statement.
pub fn decode_tokens(
    source: &str,
    tokens: &Vec<Token>,
    answers: &Vec<Option<u64>>,
    base: Program,
    globals: &Globals,
    catalog: &Catalog,
) -> (r: Result<Program, (DecodeFault, usize)>)
    requires
        crate::lexer::within(tokens@, source@.len()),
        answers@.len() == tokens@.len(),
        globals.wf(),
        base.instructions@.len() == 0,
        draft_ok(&base),
    ensures
        agrees(r, decoded(source@, tokens@, answers@, globals, catalog, draft_of(&base))),
        r matches Ok(p) ==> p.wf(),
{
    let src = crate::lexer::chars_of(source);
    let ctx = Context { src: &src, source, tokens, answers, globals, catalog };
    assemble(&ctx, base)
}

/// Whether `r` is what decoding a source gives, for some answers of the unit.
///
/// A string that does not end on its line is a fault of that line.
/// Otherwise the result is what the tokens denote, for what the unit
/// answered about the numbers that it was asked.
pub open spec fn decodes(
    source: Seq<char>,
    d: Draft,
    globals: &Globals,
    catalog: &Catalog,
    r: Result<Program, (DecodeFault, usize)>,
) -> bool {
    match crate::lexer::tokens_of(source) {
        Err(line) => r == Err::<Program, (DecodeFault, usize)>((DecodeFault::BadString, line)),
        Ok(tokens) => exists|answers: Seq<Option<u64>>|
            {
                &&& answers.len() == tokens.len()
                &&& unasked(source, tokens, answers)
                &&& agrees(r, #[trigger] decoded(source, tokens, answers, globals, catalog, d))
            },
    }
}

/// Decodes a source into a program that starts from `base`, which binds
/// the names of the links.
pub fn decode<U: FloatUnit>(
    source: &str,
    base: Program,
    globals: &Globals,
    catalog: &Catalog,
    unit: &U,
) -> (r: Result<Program, (DecodeFault, usize)>)
    requires
        globals.wf(),
        base.instructions@.len() == 0,
        draft_ok(&base),
    ensures
        r matches Ok(p) ==> p.wf(),
        decodes(source@, draft_of(&base), globals, catalog, r),
{
    let src = crate::lexer::chars_of(source);
    let tokens = match crate::lexer::lex(&src) {
        Err(line) => {
            return Err((DecodeFault::BadString, line));
        },
        Ok(tokens) => tokens,
    };
    let answers = consult(&src, source, &tokens, unit);
    let r = decode_tokens(source, &tokens, &answers, base, globals, catalog);
    assert(agrees(r, decoded(source@, tokens@, answers@, globals, catalog, draft_of(&base))));
    r
}

/// The draft that binds the name of each link to the building at its
/// offset from `position`, or to null where the offset leads off the grid.
pub open spec fn links_draft(position: Point2, links: Seq<ProcessorLink>) -> Draft {
    Draft {
        names: Seq::new(links.len(), |i: int| links[i].name@),
        vars: Seq::new(
            links.len(),
            |i: int|
                LVar::Constant(
                    match position.offset(links[i].x as i32, links[i].y as i32) {
                        Some(q) => LValue::Building(q),
                        None => LValue::Null,
                    },
                ),
        ),
        strings: Seq::empty(),
        slots: 0,
    }
}

/// The program without instructions that binds the names of the links.
pub fn linked(position: Point2, links: &Vec<ProcessorLink>) -> (p: Program)
    ensures
        p.instructions@.len() == 0,
        draft_ok(&p),
        draft_of(&p) == links_draft(position, links@),
{
    let mut p = Program {
        instructions: Vec::new(),
        strings: Vec::new(),
        variables: Vec::new(),
        slots: 0,
    };
    let n: usize = links.len();
    let mut i: usize = 0;
    while i < n
        invariant
            i <= n == links@.len(),
            p.instructions@.len() == 0,
            p.strings@.len() == 0,
            p.slots == 0,
            p.variables@.len() == i,
            forall|k: int|
                0 <= k < i ==> (#[trigger] p.variables@[k]).name@ == links@[k].name@
                    && p.variables@[k].var == LVar::Constant(
                    match position.offset(links@[k].x as i32, links@[k].y as i32) {
                        Some(q) => LValue::Building(q),
                        None => LValue::Null,
                    },
                ),
        decreases n - i,
    {
        let link = &links[i];
        let value = match position.offset(link.x as i32, link.y as i32) {
            Some(q) => LValue::Building(q),
            None => LValue::Null,
        };
        p.variables.push(Variable { name: link.name.clone(), var: LVar::Constant(value) });
        i = i + 1;
    }
    proof {
        assert(draft_of(&p).names =~= links_draft(position, links@).names);
        assert(draft_of(&p).vars =~= links_draft(position, links@).vars);
        assert(draft_of(&p).strings =~= links_draft(position, links@).strings);
    }
    p
}

} // verus!
