//! What reading source text produces, stated over the model of the parser's state.
use vstd::prelude::*;

use crate::command::Instr;
use crate::text::{digits_value, is_digit};

verus! {

/// The model of the parser's state: the text, the position reached in it, the instructions
/// so far, the variable names seen, and whether a separator is owed after a number.
pub struct PState {
    pub text: Seq<char>,
    pub pos: int,
    pub cmds: Seq<Instr>,
    pub known: Seq<char>,
    pub ws: bool,
}

/// What reading one item found.
#[derive(Debug, Clone, Copy, PartialEq, Eq, Structural)]
pub enum ReadResult {
    Read,
    NoMatch(char),
    Done,
}

/// The characters at which reading stops, left for an enclosing reader.
#[derive(Debug, Clone, Copy, PartialEq, Eq, Structural)]
pub enum Stops {
    Nothing,
    Closers,
    Brace,
}

/// The kinds of nested block.
#[derive(Debug, Clone, Copy, PartialEq, Eq, Structural)]
pub enum BlockKind {
    Implicit,
    Named,
    PreNamed,
}

pub open spec fn stops_at(e: Stops, c: char) -> bool {
    match e {
        Stops::Nothing => false,
        Stops::Closers => c == ')' || c == ']' || c == '}',
        Stops::Brace => c == '}',
    }
}

pub open spec fn stops_of(k: BlockKind) -> Stops {
    match k {
        BlockKind::Named => Stops::Brace,
        _ => Stops::Closers,
    }
}

/// The characters with the Unicode `White_Space` property.
pub open spec fn is_space(c: char) -> bool {
    ||| c == ' '
    ||| ('\t' <= c && c <= '\r')
    ||| c == '\u{85}'
    ||| c == '\u{a0}'
    ||| c == '\u{1680}'
    ||| ('\u{2000}' <= c && c <= '\u{200a}')
    ||| c == '\u{2028}'
    ||| c == '\u{2029}'
    ||| c == '\u{202f}'
    ||| c == '\u{205f}'
    ||| c == '\u{3000}'
}

pub open spec fn peek(st: PState) -> Option<char> {
    if 0 <= st.pos < st.text.len() {
        Some(st.text[st.pos])
    } else {
        None
    }
}

/// Moves past the next character, if there is one.
pub open spec fn advance(st: PState) -> PState {
    if 0 <= st.pos < st.text.len() {
        PState { pos: st.pos + 1, ..st }
    } else {
        st
    }
}

pub open spec fn emit(st: PState, c: Instr) -> PState {
    PState { cmds: st.cmds.push(c), ..st }
}

pub open spec fn learn(known: Seq<char>, c: char) -> Seq<char> {
    if known.contains(c) {
        known
    } else {
        known.push(c)
    }
}

/// The instruction that a single character stands for, when it stands for one alone.
pub open spec fn plain_command(c: char) -> Option<Instr> {
    if c == '[' || c == '(' {
        Some(Instr::StartBlock)
    } else if c == ']' || c == ')' {
        Some(Instr::CloseBlock)
    } else if c == '+' {
        Some(Instr::Add)
    } else if c == '*' {
        Some(Instr::Multiply)
    } else if c == 'R' {
        Some(Instr::ReadLine)
    } else if c == 'W' {
        Some(Instr::WriteLine)
    } else if c == 'w' {
        Some(Instr::Write)
    } else if c == '!' {
        Some(Instr::Execute)
    } else if c == 'S' {
        Some(Instr::Split)
    } else if c == 'I' {
        Some(Instr::ToInteger)
    } else if c == 'r' {
        Some(Instr::Range)
    } else if c == ':' {
        Some(Instr::Duplicate)
    } else if c == ';' {
        Some(Instr::DuplicateSecond)
    } else if c == '_' {
        Some(Instr::Drop)
    } else if c == 'x' {
        Some(Instr::Rotate(2))
    } else if c == 'X' {
        Some(Instr::Rotate(3))
    } else if c == 'p' {
        Some(Instr::PushSide)
    } else if c == 'P' {
        Some(Instr::PopSide)
    } else if c == '~' {
        Some(Instr::ConsumeSide)
    } else if c == 'J' {
        Some(Instr::Join)
    } else {
        None
    }
}

/// The combinator that a shorthand character stands for.
pub open spec fn combinator(c: char) -> Option<Instr> {
    if c == 'M' {
        Some(Instr::MapOver)
    } else if c == 'F' {
        Some(Instr::ForEach)
    } else if c == '#' {
        Some(Instr::Repeat)
    } else {
        None
    }
}

/// The end of the run of digits starting at `i`.
pub open spec fn digits_end(s: Seq<char>, i: int) -> int
    decreases s.len() - i,
{
    if i < 0 || i >= s.len() || !is_digit(s[i]) {
        i
    } else {
        digits_end(s, i + 1)
    }
}

/// A decimal literal's value, held at `i64::MAX` when it is larger.
pub open spec fn literal_value(digits: Seq<char>) -> i64 {
    let v = digits_value(digits);
    if v > i64::MAX {
        i64::MAX
    } else {
        v as i64
    }
}

/// A run of digits: one integer literal; a character after it is a separator.
pub open spec fn read_digit(st: PState) -> PState {
    let end = digits_end(st.text, st.pos);
    let v = literal_value(st.text.subrange(st.pos, end));
    PState { pos: end, ws: end < st.text.len(), ..emit(st, Instr::CreateInteger(v)) }
}

/// Scanning a quoted text from `i`, after its opening quote: a backslash takes the next
/// character as it is; the closing quote or the end of the text ends it.
pub open spec fn string_scan(s: Seq<char>, i: int, buf: Seq<char>) -> (int, Seq<char>)
    decreases s.len() - i,
{
    if i < 0 || i >= s.len() {
        (i, buf)
    } else if s[i] == '\\' {
        if i + 1 >= s.len() {
            (i + 1, buf)
        } else {
            string_scan(s, i + 2, buf.push(s[i + 1]))
        }
    } else if s[i] == '"' {
        (i + 1, buf)
    } else {
        string_scan(s, i + 1, buf.push(s[i]))
    }
}

pub open spec fn read_string(st: PState) -> PState {
    let (end, buf) = string_scan(st.text, st.pos, Seq::empty());
    PState { pos: end, ..emit(st, Instr::CreateString(buf)) }
}

/// A quoted character: the next character, whatever it is, as a one-character text.
pub open spec fn read_char(st: PState) -> PState {
    match peek(st) {
        Some(c) => advance(emit(st, Instr::CreateString(seq![c]))),
        None => st,
    }
}

pub open spec fn measure(st: PState) -> int {
    st.text.len() - st.pos
}

pub open spec fn in_range(st: PState) -> bool {
    0 <= st.pos <= st.text.len()
}

/// One item of source: whitespace, a literal, an instruction, or a block.
pub open spec fn read_one(st: PState, stops: Stops) -> (PState, ReadResult)
    decreases measure(st), 4nat,
{
    if !in_range(st) {
        (st, ReadResult::Done)
    } else {
        match peek(st) {
            None => (st, ReadResult::Done),
            Some(c) => if stops_at(stops, c) {
                (st, ReadResult::NoMatch(c))
            } else if is_space(c) {
                let st1 = advance(st);
                let st2 = if !st.ws {
                    emit(st1, Instr::CreateString(seq![c]))
                } else {
                    st1
                };
                (PState { ws: false, ..st2 }, ReadResult::Read)
            } else {
                let st0 = PState { ws: false, ..st };
                if c == '"' {
                    (read_string(advance(st0)), ReadResult::Read)
                } else if c == '\'' {
                    (read_char(advance(st0)), ReadResult::Read)
                } else if is_digit(c) {
                    (read_digit(st0), ReadResult::Read)
                } else {
                    let (st1, ok) = read_command(st0);
                    if ok {
                        (st1, ReadResult::Read)
                    } else if st1.pos != st0.pos || st1.text != st0.text {
                        (st1, ReadResult::NoMatch(c))
                    } else if c == '{' {
                        (read_block(st1, BlockKind::Named, ' ', 0).0, ReadResult::Read)
                    } else if c == '$' {
                        (st1, ReadResult::NoMatch(c))
                    } else if st1.known.contains(c) {
                        (advance(emit(st1, Instr::PopVariable(c, true))), ReadResult::Read)
                    } else {
                        let (st2, ok2) = read_pre_named(st1);
                        if ok2 {
                            (st2, ReadResult::Read)
                        } else {
                            (st2, ReadResult::NoMatch(c))
                        }
                    }
                }
            },
        }
    }
}

/// One instruction character, with what it owns: a quote's operand, a shorthand's block,
/// a variable's name; `false` when the character is none of these.
pub open spec fn read_command(st: PState) -> (PState, bool)
    decreases measure(st), 3nat,
{
    if !in_range(st) {
        (st, false)
    } else {
        match peek(st) {
            None => (st, false),
            Some(c) => if c == '`' {
                let st1 = advance(st);
                let (st2, ok) = read_command(st1);
                if ok && st2.cmds.len() > 0 {
                    let inner = st2.cmds.last();
                    (
                        PState {
                            cmds: st2.cmds.drop_last().push(Instr::CreateCommand(Box::new(inner))),
                            ..st2
                        },
                        true,
                    )
                } else {
                    (st2, true)
                }
            } else if combinator(c) is Some {
                let (st1, ok) = read_block(st, BlockKind::Implicit, ' ', 0);
                if ok {
                    (emit(st1, combinator(c)->Some_0), true)
                } else {
                    (st1, false)
                }
            } else if c == '>' || c == '<' {
                let st1 = advance(st);
                match peek(st1) {
                    None => (st1, false),
                    Some(v) => if c == '>' {
                        (
                            advance(
                                emit(
                                    PState { known: learn(st1.known, v), ..st1 },
                                    Instr::PushVariable(v),
                                ),
                            ),
                            true,
                        )
                    } else {
                        (advance(emit(st1, Instr::PopVariable(v, false))), true)
                    },
                }
            } else {
                match plain_command(c) {
                    None => (st, false),
                    Some(cmd) => {
                        let st1 = emit(advance(st), cmd);
                        if c == ')' {
                            (emit(st1, Instr::ExecuteScoped), true)
                        } else {
                            (st1, true)
                        }
                    },
                }
            }
        }
    }
}

/// A pre-named block: the next character names a block that runs before everything else;
/// where it stands, its value is read.
pub open spec fn read_pre_named(st: PState) -> (PState, bool)
    decreases measure(st), 3nat,
{
    if !in_range(st) {
        (st, false)
    } else {
        match peek(st) {
            None => (st, false),
            Some(name) => read_block(st, BlockKind::PreNamed, name, st.cmds.len() as int),
        }
    }
}

/// Opens a block of the given kind at the current character and reads it to its end.
/// An implicit block directly followed by a terminator is empty and emits nothing.
pub open spec fn read_block(st: PState, kind: BlockKind, name: char, at: int) -> (PState, bool)
    decreases measure(st), 2nat,
{
    if !in_range(st) || st.pos >= st.text.len() {
        (st, false)
    } else {
        let st1 = advance(st);
        let empty_implicit = kind == BlockKind::Implicit && match peek(st1) {
            Some(c) => c == '$' || c == ')' || c == ']' || c == '}',
            None => false,
        };
        if empty_implicit {
            if peek(st1) == Some('$') {
                (advance(st1), true)
            } else {
                (st1, true)
            }
        } else {
            let (st2, ok) = block_body(emit(st1, Instr::StartBlock), kind);
            if !ok {
                (st2, false)
            } else {
                let st3 = emit(st2, Instr::CloseBlock);
                match kind {
                    BlockKind::Implicit => (st3, true),
                    BlockKind::Named => match peek(st3) {
                        None => (st3, false),
                        Some(v) => (
                            advance(
                                emit(
                                    PState { known: learn(st3.known, v), ..st3 },
                                    Instr::PushVariable(v),
                                ),
                            ),
                            true,
                        ),
                    },
                    BlockKind::PreNamed => {
                        let st4 = emit(st3, Instr::PushVariable(name));
                        let k = if 0 <= at <= st4.cmds.len() {
                            at
                        } else {
                            st4.cmds.len() as int
                        };
                        let moved = st4.cmds.skip(k) + st4.cmds.take(k);
                        (
                            PState {
                                cmds: moved.push(Instr::PopVariable(name, true)),
                                known: learn(st4.known, name),
                                ..st4
                            },
                            true,
                        )
                    },
                }
            }
        }
    }
}

/// The items of a block up to its terminator: `$` (consumed) or a closing bracket (left,
/// but for a named or pre-named block's `}`, which is consumed).
pub open spec fn block_body(st: PState, kind: BlockKind) -> (PState, bool)
    decreases measure(st), 5nat,
{
    if !in_range(st) {
        (st, false)
    } else {
        let (st1, r) = read_one(st, stops_of(kind));
        match r {
            ReadResult::Read => if st1.text == st.text && st.pos < st1.pos <= st.text.len() {
                block_body(st1, kind)
            } else {
                (st1, true)
            },
            ReadResult::Done => (st1, true),
            ReadResult::NoMatch(c) => match kind {
                BlockKind::Implicit => if c == '$' {
                    (advance(st1), true)
                } else if c == ')' || c == ']' || c == '}' {
                    (st1, true)
                } else {
                    (st1, false)
                },
                BlockKind::Named => if c == '}' {
                    (advance(st1), true)
                } else {
                    (st1, false)
                },
                BlockKind::PreNamed => if c == '$' || c == '}' {
                    (advance(st1), true)
                } else if c == ')' || c == ']' {
                    (st1, true)
                } else {
                    (st1, false)
                },
            },
        }
    }
}

/// Why source text could not be read.
#[derive(Debug, Clone, Copy, PartialEq, Eq, Structural)]
pub enum ParseError {
    UnexpectedChar(char),
    UnexpectedEof,
}

/// Reading items until the text ends or an item cannot be read.
pub open spec fn parse_loop(st: PState) -> (PState, Result<(), ParseError>)
    decreases measure(st),
{
    if !in_range(st) {
        (st, Ok(()))
    } else {
        let (st1, r) = read_one(st, Stops::Nothing);
        match r {
            ReadResult::Read => if st1.text == st.text && st.pos < st1.pos <= st.text.len() {
                parse_loop(st1)
            } else {
                (st1, Ok(()))
            },
            ReadResult::Done => (st1, Ok(())),
            ReadResult::NoMatch(_) => (
                st1,
                Err(
                    match peek(st1) {
                        Some(c) => ParseError::UnexpectedChar(c),
                        None => ParseError::UnexpectedEof,
                    },
                ),
            ),
        }
    }
}

} // verus!
