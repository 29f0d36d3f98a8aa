//! Words, strings and statement breaks.
//!
//! A source is cut into tokens by a machine that reads it character by
//! character. Blanks part words. A newline or a semicolon is a break. A
//! `#` starts a comment, which runs to the end of the line. A `"` starts a
//! string, which runs to the next `"` that no backslash precedes and
//! must end on its line.

use vstd::prelude::*;

verus! {

/// What a token is.
#[derive(Clone, Copy, Debug, PartialEq, Eq, Structural)]
pub enum TokenKind {
    /// A run of characters that are neither blank nor special.
    Word,
    /// What stands between the quotes of a string.
    Text,
    /// The end of a statement.
    Break,
}

/// A piece of the source: the characters from `start` up to `end`, and the
/// number of breaks before it.
#[derive(Clone, Copy, Debug, PartialEq, Eq, Structural)]
pub struct Token {
    pub kind: TokenKind,
    pub start: usize,
    pub end: usize,
    pub line: usize,
}

/// Where the machine is.
#[derive(Clone, Copy, Debug, PartialEq, Eq, Structural)]
pub enum Mode {
    /// Between tokens.
    Gap,
    /// In a word that started at the index.
    Word(usize),
    /// In a string whose text started at the index; after a backslash the
    /// flag is set.
    Text(usize, bool),
    /// In a comment.
    Comment,
    /// A string did not end on its line.
    Failed,
}

/// The machine after it has read some characters.
pub struct Lexed {
    pub mode: Mode,
    pub line: usize,
    pub tokens: Seq<Token>,
}

/// Whether a character parts words without ending a statement.
pub open spec fn is_blank(c: char) -> bool {
    c == ' ' || c == '\t' || c == '\r'
}

/// Whether a character ends a statement.
pub open spec fn is_break(c: char) -> bool {
    c == '\n' || c == ';'
}

/// The machine after it has read, between tokens, the character `c` at `i`.
pub open spec fn after_gap(s: Lexed, c: char, i: usize) -> Lexed {
    if is_blank(c) {
        Lexed { mode: Mode::Gap, ..s }
    } else if is_break(c) {
        Lexed {
            mode: Mode::Gap,
            line: (s.line + 1) as usize,
            tokens: s.tokens.push(
                Token { kind: TokenKind::Break, start: i, end: (i + 1) as usize, line: s.line },
            ),
        }
    } else if c == '#' {
        Lexed { mode: Mode::Comment, ..s }
    } else if c == '"' {
        Lexed { mode: Mode::Text((i + 1) as usize, false), ..s }
    } else {
        Lexed { mode: Mode::Word(i), ..s }
    }
}

/// The machine after it has read the character `c` at `i`.
pub open spec fn after(s: Lexed, c: char, i: usize) -> Lexed {
    match s.mode {
        Mode::Failed => s,
        Mode::Gap => after_gap(s, c, i),
        Mode::Comment => if c == '\n' {
            after_gap(s, c, i)
        } else {
            s
        },
        Mode::Word(start) => if is_blank(c) || is_break(c) || c == '#' || c == '"' {
            after_gap(
                Lexed {
                    tokens: s.tokens.push(
                        Token { kind: TokenKind::Word, start, end: i, line: s.line },
                    ),
                    ..s
                },
                c,
                i,
            )
        } else {
            s
        },
        Mode::Text(start, escaped) => if c == '\n' {
            Lexed { mode: Mode::Failed, ..s }
        } else if escaped {
            Lexed { mode: Mode::Text(start, false), ..s }
        } else if c == '\\' {
            Lexed { mode: Mode::Text(start, true), ..s }
        } else if c == '"' {
            Lexed {
                mode: Mode::Gap,
                tokens: s.tokens.push(Token { kind: TokenKind::Text, start, end: i, line: s.line }),
                ..s
            }
        } else {
            s
        },
    }
}

/// The machine after it has read the first `n` characters of `src`.
pub open spec fn reading(src: Seq<char>, n: nat) -> Lexed
    decreases n,
{
    if n == 0 {
        Lexed { mode: Mode::Gap, line: 0, tokens: Seq::empty() }
    } else {
        after(reading(src, (n - 1) as nat), src[n - 1], (n - 1) as usize)
    }
}

/// The tokens of a source, the last of them a break; or the line of a
/// string that does not end on its line.
pub open spec fn tokens_of(src: Seq<char>) -> Result<Seq<Token>, usize> {
    let s = reading(src, src.len());
    let n = src.len() as usize;
    match s.mode {
        Mode::Failed | Mode::Text(_, _) => Err(s.line),
        Mode::Word(start) => Ok(
            s.tokens.push(
                Token { kind: TokenKind::Word, start, end: n, line: s.line },
            ).push(Token { kind: TokenKind::Break, start: n, end: n, line: s.line }),
        ),
        _ => Ok(s.tokens.push(Token { kind: TokenKind::Break, start: n, end: n, line: s.line })),
    }
}

/// Every token lies within the first `len` characters.
pub open spec fn within(tokens: Seq<Token>, len: nat) -> bool {
    forall|i: int|
        0 <= i < tokens.len() ==> (#[trigger] tokens[i]).start <= tokens[i].end <= len
}

/// The state of the machine in executable form.
struct Reader {
    mode: Mode,
    line: usize,
    tokens: Vec<Token>,
}

impl Reader {
    spec fn model(&self) -> Lexed {
        Lexed { mode: self.mode, line: self.line, tokens: self.tokens@ }
    }

    /// The tokens so far lie before `i`, and so does the start of what is
    /// being read.
    spec fn inv(&self, i: nat) -> bool {
        &&& within(self.tokens@, i)
        &&& self.line <= i
        &&& match self.mode {
            Mode::Word(start) => start < i,
            Mode::Text(start, _) => start <= i,
            _ => true,
        }
    }

    fn gap(&mut self, c: char, i: usize)
        requires
            old(self).inv(i as nat),
            i < usize::MAX,
        ensures
            final(self).model() == after_gap(old(self).model(), c, i),
            final(self).inv((i + 1) as nat),
    {
        if c == ' ' || c == '\t' || c == '\r' {
            self.mode = Mode::Gap;
        } else if c == '\n' || c == ';' {
            self.tokens.push(
                Token { kind: TokenKind::Break, start: i, end: i + 1, line: self.line },
            );
            self.line = self.line + 1;
            self.mode = Mode::Gap;
        } else if c == '#' {
            self.mode = Mode::Comment;
        } else if c == '"' {
            self.mode = Mode::Text(i + 1, false);
        } else {
            self.mode = Mode::Word(i);
        }
    }

    fn read(&mut self, c: char, i: usize)
        requires
            old(self).inv(i as nat),
            i < usize::MAX,
        ensures
            final(self).model() == after(old(self).model(), c, i),
            final(self).inv((i + 1) as nat),
    {
        match self.mode {
            Mode::Failed => {},
            Mode::Gap => {
                self.gap(c, i);
            },
            Mode::Comment => {
                if c == '\n' {
                    self.gap(c, i);
                }
            },
            Mode::Word(start) => {
                if c == ' ' || c == '\t' || c == '\r' || c == '\n' || c == ';' || c == '#' || c
                    == '"' {
                    self.tokens.push(
                        Token { kind: TokenKind::Word, start, end: i, line: self.line },
                    );
                    self.gap(c, i);
                }
            },
            Mode::Text(start, escaped) => {
                if c == '\n' {
                    self.mode = Mode::Failed;
                } else if escaped {
                    self.mode = Mode::Text(start, false);
                } else if c == '\\' {
                    self.mode = Mode::Text(start, true);
                } else if c == '"' {
                    self.tokens.push(
                        Token { kind: TokenKind::Text, start, end: i, line: self.line },
                    );
                    self.mode = Mode::Gap;
                }
            },
        }
    }
}

/// Cuts a source into tokens.
pub fn lex(src: &Vec<char>) -> (r: Result<Vec<Token>, usize>)
    ensures
        match r {
            Ok(tokens) => tokens_of(src@) == Ok::<Seq<Token>, usize>(tokens@) && within(
                tokens@,
                src@.len(),
            ) && tokens@.len() > 0 && tokens@.last().kind == TokenKind::Break,
            Err(line) => tokens_of(src@) == Err::<Seq<Token>, usize>(line),
        },
{
    let n: usize = src.len();
    let mut reader = Reader { mode: Mode::Gap, line: 0, tokens: Vec::new() };
    let mut i: usize = 0;
    while i < n
        invariant
            i <= n == src@.len(),
            reader.model() == reading(src@, i as nat),
            reader.inv(i as nat),
        decreases n - i,
    {
        reader.read(src[i], i);
        i = i + 1;
    }
    match reader.mode {
        Mode::Failed => Err(reader.line),
        Mode::Text(_, _) => Err(reader.line),
        Mode::Word(start) => {
            reader.tokens.push(Token { kind: TokenKind::Word, start, end: n, line: reader.line });
            reader.tokens.push(
                Token { kind: TokenKind::Break, start: n, end: n, line: reader.line },
            );
            Ok(reader.tokens)
        },
        _ => {
            reader.tokens.push(
                Token { kind: TokenKind::Break, start: n, end: n, line: reader.line },
            );
            Ok(reader.tokens)
        },
    }
}

/// The characters of a string.
pub fn chars_of(s: &str) -> (v: Vec<char>)
    ensures
        v@ == s@,
{
    broadcast use vstd::string::axiom_spec_iter;

    let mut v: Vec<char> = Vec::new();
    for c in it: s.chars()
        invariant
            it.seq() == s@,
            v@ == s@.subrange(0, it.index() as int),
    {
        v.push(c);
        assert(v@ =~= s@.subrange(0, it.index() + 1));
    }
    assert(s@.subrange(0, s@.len() as int) =~= s@);
    v
}

} // verus!
