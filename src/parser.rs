use vstd::prelude::*;

use crate::command::{CatCommand, Instr};
use crate::grammar::{advance, block_body, combinator, digits_end, emit, is_space, learn, literal_value, parse_loop, peek, plain_command, read_block, read_char, read_command, read_digit, read_one, read_pre_named, read_string, stops_at, string_scan, BlockKind, PState, ParseError, ReadResult, Stops};
use crate::text::{chars_of, digits_value, is_digit, string_of_chars};

verus! {

/// Reads source text into instructions.
#[derive(Debug)]
pub struct Parser {
    pub commands: Vec<CatCommand>,
    pub known_variables: Vec<char>,
    whitespace_needed: bool,
    text: Vec<char>,
    pos: usize,
}

pub open spec fn instrs_of(cs: Seq<CatCommand>) -> Seq<Instr> {
    Seq::new(cs.len(), |i: int| cs[i]@)
}

impl View for Parser {
    type V = PState;

    closed spec fn view(&self) -> PState {
        PState {
            text: self.text@,
            pos: self.pos as int,
            cmds: instrs_of(self.commands@),
            known: self.known_variables@,
            ws: self.whitespace_needed,
        }
    }
}

impl ParseError {
    /// A human-readable description.
    pub fn message(&self) -> (r: String)
        ensures
            r@ == match *self {
                ParseError::UnexpectedChar(c) => "Unexpected character: "@.push(c),
                ParseError::UnexpectedEof => "Unexpected EOF"@,
            },
    {
        let mut out = String::new();
        match self {
            ParseError::UnexpectedChar(c) => {
                crate::text::push_str(&mut out, "Unexpected character: ");
                crate::text::push_char(&mut out, *c);
            },
            ParseError::UnexpectedEof => crate::text::push_str(&mut out, "Unexpected EOF"),
        }
        out
    }
}

fn is_space_char(c: char) -> (r: bool)
    ensures
        r == is_space(c),
{
    c == ' ' || ('\t' <= c && c <= '\r') || c == '\u{85}' || c == '\u{a0}' || c == '\u{1680}'
        || ('\u{2000}' <= c && c <= '\u{200a}') || c == '\u{2028}' || c == '\u{2029}' || c
        == '\u{202f}' || c == '\u{205f}' || c == '\u{3000}'
}

fn plain_command_of(c: char) -> (r: Option<CatCommand>)
    ensures
        match r {
            Some(cmd) => plain_command(c) == Some(cmd@),
            None => plain_command(c) is None,
        },
{
    if c == '[' || c == '(' {
        Some(CatCommand::StartBlock)
    } else if c == ']' || c == ')' {
        Some(CatCommand::CloseBlock)
    } else if c == '+' {
        Some(CatCommand::Add)
    } else if c == '*' {
        Some(CatCommand::Multiply)
    } else if c == 'R' {
        Some(CatCommand::ReadLine)
    } else if c == 'W' {
        Some(CatCommand::WriteLine)
    } else if c == 'w' {
        Some(CatCommand::Write)
    } else if c == '!' {
        Some(CatCommand::Execute)
    } else if c == 'S' {
        Some(CatCommand::Split)
    } else if c == 'I' {
        Some(CatCommand::ToInteger)
    } else if c == 'r' {
        Some(CatCommand::Range)
    } else if c == ':' {
        Some(CatCommand::Duplicate)
    } else if c == ';' {
        Some(CatCommand::DuplicateSecond)
    } else if c == '_' {
        Some(CatCommand::Drop)
    } else if c == 'x' {
        Some(CatCommand::Rotate(2))
    } else if c == 'X' {
        Some(CatCommand::Rotate(3))
    } else if c == 'p' {
        Some(CatCommand::PushSide)
    } else if c == 'P' {
        Some(CatCommand::PopSide)
    } else if c == '~' {
        Some(CatCommand::ConsumeSide)
    } else if c == 'J' {
        Some(CatCommand::Join)
    } else {
        None
    }
}

fn combinator_of(c: char) -> (r: Option<CatCommand>)
    ensures
        match r {
            Some(cmd) => combinator(c) == Some(cmd@),
            None => combinator(c) is None,
        },
{
    if c == 'M' {
        Some(CatCommand::MapOver)
    } else if c == 'F' {
        Some(CatCommand::ForEach)
    } else if c == '#' {
        Some(CatCommand::Repeat)
    } else {
        None
    }
}

fn stops_at_exec(e: Stops, c: char) -> (r: bool)
    ensures
        r == stops_at(e, c),
{
    match e {
        Stops::Nothing => false,
        Stops::Closers => c == ')' || c == ']' || c == '}',
        Stops::Brace => c == '}',
    }
}

fn start_block() -> (r: CatCommand)
    ensures
        r@ == Instr::StartBlock,
{
    CatCommand::StartBlock
}

fn close_block() -> (r: CatCommand)
    ensures
        r@ == Instr::CloseBlock,
{
    CatCommand::CloseBlock
}

fn execute_scoped() -> (r: CatCommand)
    ensures
        r@ == Instr::ExecuteScoped,
{
    CatCommand::ExecuteScoped
}

fn push_variable(v: char) -> (r: CatCommand)
    ensures
        r@ == Instr::PushVariable(v),
{
    CatCommand::PushVariable(v)
}

fn pop_variable(v: char, keep: bool) -> (r: CatCommand)
    ensures
        r@ == Instr::PopVariable(v, keep),
{
    CatCommand::PopVariable(v, keep)
}

fn create_string(s: String) -> (r: CatCommand)
    ensures
        r@ == Instr::CreateString(s@),
{
    CatCommand::CreateString(s)
}

fn create_integer(i: i64) -> (r: CatCommand)
    ensures
        r@ == Instr::CreateInteger(i),
{
    CatCommand::CreateInteger(i)
}

fn quoted(c: CatCommand) -> (r: CatCommand)
    ensures
        r@ == Instr::CreateCommand(Box::new(c@)),
{
    CatCommand::CreateCommand(Box::new(c))
}

proof fn lemma_literal_step(p: Seq<char>, c: char)
    requires
        is_digit(c),
        digits_value(p) >= 0,
    ensures
        digits_value(p.push(c)) == digits_value(p) * 10 + (c as int - '0' as int),
        digits_value(p.push(c)) >= 0,
{
    assert(p.push(c).drop_last() =~= p);
}

impl Parser {
    /// The instructions read so far.
    pub fn commands(&self) -> (r: &Vec<CatCommand>)
        ensures
            instrs_of(r@) == self@.cmds,
    {
        &self.commands
    }

    /// The variable names seen so far, in the order first seen.
    pub fn known_variables(&self) -> (r: &Vec<char>)
        ensures
            r@ == self@.known,
    {
        &self.known_variables
    }

    /// A parser with no instructions and no known names.
    pub fn new() -> (r: Parser)
        ensures
            r@.cmds.len() == 0,
            r@.known.len() == 0,
            !r@.ws,
    {
        let r = Parser {
            commands: Vec::new(),
            known_variables: Vec::new(),
            whitespace_needed: false,
            text: Vec::new(),
            pos: 0,
        };
        assert(instrs_of(r.commands@) =~= Seq::<Instr>::empty());
        r
    }

    /// Reads `text`, appending its instructions; fails at the first character that no rule
    /// reads, or at an end of text in the middle of a construct.
    pub fn parse(&mut self, text: &str) -> (r: Result<(), ParseError>)
        ensures
            (final(self)@, r) == parse_loop(
                PState { text: text@, pos: 0, ..old(self)@ },
            ),
    {
        self.text = chars_of(text);
        self.pos = 0;
        let ghost s0 = self@;
        loop
            invariant
                self.text@ == text@,
                self.pos <= self.text@.len(),
                parse_loop(s0) == parse_loop(self@),
                s0 == (PState { text: text@, pos: 0, ..old(self)@ }),
            decreases self.text@.len() - self.pos,
        {
            let before = self.pos;
            let ghost st = self@;
            match self.read_one(Stops::Nothing) {
                ReadResult::Read => {
                    if !(before < self.pos && self.pos <= self.text.len()) {
                        return Ok(());
                    }
                },
                ReadResult::Done => return Ok(()),
                ReadResult::NoMatch(_) => {
                    return match self.peek() {
                        Some(c) => Err(ParseError::UnexpectedChar(c)),
                        None => Err(ParseError::UnexpectedEof),
                    };
                },
            }
        }
    }

    fn peek(&self) -> (r: Option<char>)
        ensures
            r == peek(self@),
    {
        if self.pos < self.text.len() {
            Some(self.text[self.pos])
        } else {
            None
        }
    }

    fn advance(&mut self)
        ensures
            final(self)@ == advance(old(self)@),
            final(self).text@ == old(self).text@,
    {
        if self.pos < self.text.len() {
            self.pos = self.pos + 1;
        }
    }

    fn emit(&mut self, c: CatCommand)
        ensures
            final(self)@ == emit(old(self)@, c@),
            final(self).text@ == old(self).text@,
            final(self).pos == old(self).pos,
    {
        let ghost before = self.commands@;
        self.commands.push(c);
        assert(instrs_of(self.commands@) =~= instrs_of(before).push(c@));
    }

    fn learn(&mut self, c: char)
        ensures
            final(self)@ == (PState { known: learn(old(self)@.known, c), ..old(self)@ }),
            final(self).text@ == old(self).text@,
            final(self).pos == old(self).pos,
    {
        let mut i: usize = 0;
        while i < self.known_variables.len()
            invariant
                i <= self.known_variables@.len(),
                forall|j: int| 0 <= j < i ==> self.known_variables@[j] != c,
            decreases self.known_variables.len() - i,
        {
            if self.known_variables[i] == c {
                assert(self.known_variables@.contains(c));
                return;
            }
            i = i + 1;
        }
        assert(!self.known_variables@.contains(c));
        self.known_variables.push(c);
    }

    fn knows(&self, c: char) -> (r: bool)
        ensures
            r == self@.known.contains(c),
    {
        let mut i: usize = 0;
        while i < self.known_variables.len()
            invariant
                i <= self.known_variables@.len(),
                forall|j: int| 0 <= j < i ==> self.known_variables@[j] != c,
            decreases self.known_variables.len() - i,
        {
            if self.known_variables[i] == c {
                assert(self.known_variables@[i as int] == c);
                return true;
            }
            i = i + 1;
        }
        false
    }

    fn read_digit(&mut self)
        requires
            old(self).pos <= old(self).text@.len(),
        ensures
            final(self)@ == read_digit(old(self)@),
            final(self).text@ == old(self).text@,
    {
        let start = self.pos;
        let mut i = start;
        let mut acc: i64 = 0;
        assert(self.text@.subrange(start as int, start as int) =~= Seq::<char>::empty());
        while i < self.text.len() && '0' <= self.text[i] && self.text[i] <= '9'
            invariant
                start <= i <= self.text@.len(),
                self.pos == start,
                digits_end(self.text@, start as int) == digits_end(self.text@, i as int),
                digits_value(self.text@.subrange(start as int, i as int)) >= 0,
                acc == literal_value(self.text@.subrange(start as int, i as int)),
            decreases self.text.len() - i,
        {
            let c = self.text[i];
            let d: i64 = (c as u32 - '0' as u32) as i64;
            let ghost p = self.text@.subrange(start as int, i as int);
            proof {
                assert(self.text@.subrange(start as int, i + 1) =~= p.push(c));
                lemma_literal_step(p, c);
            }
            if acc > (i64::MAX - d) / 10 {
                proof {
                    let v = digits_value(p);
                    if v <= i64::MAX {
                        assert(v * 10 + d > i64::MAX) by (nonlinear_arith)
                            requires
                                v == acc,
                                0 <= d <= 9,
                                acc > (i64::MAX - d) / 10,
                        ;
                    } else {
                        assert(v * 10 + d > i64::MAX) by (nonlinear_arith)
                            requires
                                v > i64::MAX,
                                0 <= d <= 9,
                        ;
                    }
                }
                acc = i64::MAX;
            } else {
                proof {
                    let v = digits_value(p);
                    assert(v <= i64::MAX);
                    assert(v == acc);
                    assert(acc * 10 + d <= i64::MAX) by (nonlinear_arith)
                        requires
                            0 <= acc <= (i64::MAX - d) / 10,
                            0 <= d <= 9,
                    ;
                }
                acc = acc * 10 + d;
            }
            i = i + 1;
        }
        let ws = i < self.text.len();
        self.emit(create_integer(acc));
        self.pos = i;
        self.whitespace_needed = ws;
    }

    fn read_string(&mut self)
        requires
            old(self).pos <= old(self).text@.len(),
        ensures
            final(self)@ == read_string(old(self)@),
            final(self).text@ == old(self).text@,
    {
        let ghost start = self.pos as int;
        let mut i = self.pos;
        let mut buffer: Vec<char> = Vec::new();
        while i < self.text.len()
            invariant_except_break
                string_scan(self.text@, start, Seq::empty()) == string_scan(
                    self.text@,
                    i as int,
                    buffer@,
                ),
            invariant
                i <= self.text@.len() + 1,
                self.pos as int == start,
            ensures
                string_scan(self.text@, start, Seq::empty()) == (i as int, buffer@),
            decreases self.text.len() - i,
        {
            let c = self.text[i];
            if c == '\\' {
                if i + 1 >= self.text.len() {
                    i = i + 1;
                    break;
                }
                buffer.push(self.text[i + 1]);
                i = i + 2;
            } else if c == '"' {
                i = i + 1;
                break;
            } else {
                buffer.push(c);
                i = i + 1;
            }
        }
        let n = buffer.len();
        let s = string_of_chars(&buffer, 0, n);
        assert(buffer@.subrange(0, n as int) =~= buffer@);
        self.emit(create_string(s));
        self.pos = i;
    }

    fn read_char(&mut self)
        ensures
            final(self)@ == read_char(old(self)@),
            final(self).text@ == old(self).text@,
    {
        match self.peek() {
            Some(c) => {
                let mut v: Vec<char> = Vec::new();
                v.push(c);
                let s = string_of_chars(&v, 0, 1);
                assert(v@.subrange(0, 1) =~= seq![c]);
                self.emit(create_string(s));
                self.advance();
            },
            None => {},
        }
    }

    fn read_one(&mut self, stops: Stops) -> (r: ReadResult)
        ensures
            (final(self)@, r) == read_one(old(self)@, stops),
            final(self).text@ == old(self).text@,
        decreases self.text@.len() - self.pos, 4nat,
    {
        if self.pos > self.text.len() {
            return ReadResult::Done;
        }
        let c = match self.peek() {
            Some(c) => c,
            None => return ReadResult::Done,
        };
        if stops_at_exec(stops, c) {
            return ReadResult::NoMatch(c);
        }
        if is_space_char(c) {
            let ws = self.whitespace_needed;
            self.advance();
            if !ws {
                let mut v: Vec<char> = Vec::new();
                v.push(c);
                let s = string_of_chars(&v, 0, 1);
                assert(v@.subrange(0, 1) =~= seq![c]);
                self.emit(create_string(s));
            }
            self.whitespace_needed = false;
            return ReadResult::Read;
        }
        self.whitespace_needed = false;
        if c == '"' {
            self.advance();
            self.read_string();
            ReadResult::Read
        } else if c == '\'' {
            self.advance();
            self.read_char();
            ReadResult::Read
        } else if '0' <= c && c <= '9' {
            self.read_digit();
            ReadResult::Read
        } else {
            let before = self.pos;
            if self.read_command() {
                return ReadResult::Read;
            }
            if self.pos != before {
                return ReadResult::NoMatch(c);
            }
            if c == '{' {
                let _ = self.read_block(BlockKind::Named, ' ', 0);
                ReadResult::Read
            } else if c == '$' {
                ReadResult::NoMatch(c)
            } else if self.knows(c) {
                self.emit(pop_variable(c, true));
                self.advance();
                ReadResult::Read
            } else {
                let ok = self.read_pre_named();
                if ok {
                    ReadResult::Read
                } else {
                    ReadResult::NoMatch(c)
                }
            }
        }
    }

    fn read_command(&mut self) -> (r: bool)
        ensures
            (final(self)@, r) == read_command(old(self)@),
            final(self).text@ == old(self).text@,
        decreases self.text@.len() - self.pos, 3nat,
    {
        if self.pos > self.text.len() {
            return false;
        }
        let c = match self.peek() {
            Some(c) => c,
            None => return false,
        };
        if c == '`' {
            self.advance();
            let ok = self.read_command();
            if ok && self.commands.len() > 0 {
                let ghost before = self.commands@;
                let inner = self.commands.pop().unwrap();
                let ghost iv = inner@;
                assert(instrs_of(before).last() == iv);
                self.commands.push(quoted(inner));
                assert(instrs_of(self.commands@) =~= instrs_of(before).drop_last().push(
                    Instr::CreateCommand(Box::new(iv)),
                ));
            }
            return true;
        }
        match combinator_of(c) {
            Some(cmd) => {
                let ok = self.read_block(BlockKind::Implicit, ' ', 0);
                if ok {
                    self.emit(cmd);
                    return true;
                }
                return false;
            },
            None => {},
        }
        if c == '>' || c == '<' {
            self.advance();
            let v = match self.peek() {
                Some(v) => v,
                None => return false,
            };
            if c == '>' {
                self.learn(v);
                self.emit(push_variable(v));
                self.advance();
            } else {
                self.emit(pop_variable(v, false));
                self.advance();
            }
            return true;
        }
        match plain_command_of(c) {
            None => false,
            Some(cmd) => {
                self.advance();
                self.emit(cmd);
                if c == ')' {
                    self.emit(execute_scoped());
                }
                true
            },
        }
    }

    fn read_pre_named(&mut self) -> (r: bool)
        ensures
            (final(self)@, r) == read_pre_named(old(self)@),
            final(self).text@ == old(self).text@,
        decreases self.text@.len() - self.pos, 3nat,
    {
        if self.pos > self.text.len() {
            return false;
        }
        match self.peek() {
            None => false,
            Some(name) => {
                let at = self.commands.len();
                self.read_block(BlockKind::PreNamed, name, at)
            },
        }
    }

    fn read_block(&mut self, kind: BlockKind, name: char, at: usize) -> (r: bool)
        ensures
            (final(self)@, r) == read_block(old(self)@, kind, name, at as int),
            final(self).text@ == old(self).text@,
        decreases self.text@.len() - self.pos, 2nat,
    {
        if self.pos >= self.text.len() {
            return false;
        }
        self.advance();
        if kind == BlockKind::Implicit {
            match self.peek() {
                Some(c) => {
                    if c == '$' {
                        self.advance();
                        return true;
                    }
                    if c == ')' || c == ']' || c == '}' {
                        return true;
                    }
                },
                None => {},
            }
        }
        self.emit(start_block());
        if !self.block_body(kind) {
            return false;
        }
        self.emit(close_block());
        match kind {
            BlockKind::Implicit => true,
            BlockKind::Named => {
                match self.peek() {
                    None => false,
                    Some(v) => {
                        self.learn(v);
                        self.emit(push_variable(v));
                        self.advance();
                        true
                    },
                }
            },
            BlockKind::PreNamed => {
                self.emit(push_variable(name));
                let k = if at <= self.commands.len() {
                    at
                } else {
                    self.commands.len()
                };
                let ghost all = self.commands@;
                let mut moved = self.commands.split_off(k);
                let mut front = Vec::new();
                std::mem::swap(&mut front, &mut self.commands);
                let ghost m0 = moved@;
                let ghost f0 = front@;
                moved.append(&mut front);
                self.commands = moved;
                proof {
                    assert(m0 == all.skip(k as int));
                    assert(f0 == all.take(k as int));
                    assert(instrs_of(self.commands@) =~= instrs_of(all).skip(k as int) + instrs_of(
                        all,
                    ).take(k as int));
                }
                self.emit(pop_variable(name, true));
                self.learn(name);
                true
            },
        }
    }

    fn block_body(&mut self, kind: BlockKind) -> (r: bool)
        ensures
            (final(self)@, r) == block_body(old(self)@, kind),
            final(self).text@ == old(self).text@,
        decreases self.text@.len() - self.pos, 5nat,
    {
        if self.pos > self.text.len() {
            return false;
        }
        let before = self.pos;
        let stops = match kind {
            BlockKind::Named => Stops::Brace,
            _ => Stops::Closers,
        };
        match self.read_one(stops) {
            ReadResult::Read => {
                if before < self.pos && self.pos <= self.text.len() {
                    self.block_body(kind)
                } else {
                    true
                }
            },
            ReadResult::Done => true,
            ReadResult::NoMatch(c) => match kind {
                BlockKind::Implicit => {
                    if c == '$' {
                        self.advance();
                        true
                    } else if c == ')' || c == ']' || c == '}' {
                        true
                    } else {
                        false
                    }
                },
                BlockKind::Named => {
                    if c == '}' {
                        self.advance();
                        true
                    } else {
                        false
                    }
                },
                BlockKind::PreNamed => {
                    if c == '$' || c == '}' {
                        self.advance();
                        true
                    } else if c == ')' || c == ']' {
                        true
                    } else {
                        false
                    }
                },
            },
        }
    }
}

} // verus!
