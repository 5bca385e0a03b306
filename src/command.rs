use vstd::prelude::*;

use crate::text::{debug_quote, push_str, quoted_text, text_of_i64, text_of_int, text_of_usize};

verus! {

/// One instruction of the language.
#[derive(Debug)]
pub enum CatCommand {
    StartBlock,
    CloseBlock,
    CreateInteger(i64),
    CreateString(String),
    CreateCommand(Box<CatCommand>),
    ReadLine,
    WriteLine,
    Write,
    Add,
    Multiply,
    Execute,
    ExecuteScoped,
    MapOver,
    ForEach,
    Repeat,
    Split,
    Join,
    ToInteger,
    Range,
    Duplicate,
    DuplicateSecond,
    Drop,
    Rotate(usize),
    PushSide,
    PopSide,
    ConsumeSide,
    PushVariable(char),
    PopVariable(char, bool),
}

/// The mathematical model of an instruction: text payloads are character sequences.
pub enum Instr {
    StartBlock,
    CloseBlock,
    CreateInteger(i64),
    CreateString(Seq<char>),
    CreateCommand(Box<Instr>),
    ReadLine,
    WriteLine,
    Write,
    Add,
    Multiply,
    Execute,
    ExecuteScoped,
    MapOver,
    ForEach,
    Repeat,
    Split,
    Join,
    ToInteger,
    Range,
    Duplicate,
    DuplicateSecond,
    Drop,
    Rotate(usize),
    PushSide,
    PopSide,
    ConsumeSide,
    PushVariable(char),
    PopVariable(char, bool),
}

pub open spec fn instr_of(c: &CatCommand) -> Instr
    decreases c,
{
    match c {
        CatCommand::StartBlock => Instr::StartBlock,
        CatCommand::CloseBlock => Instr::CloseBlock,
        CatCommand::CreateInteger(v) => Instr::CreateInteger(*v),
        CatCommand::CreateString(s) => Instr::CreateString(s@),
        CatCommand::CreateCommand(b) => Instr::CreateCommand(Box::new(instr_of(&**b))),
        CatCommand::ReadLine => Instr::ReadLine,
        CatCommand::WriteLine => Instr::WriteLine,
        CatCommand::Write => Instr::Write,
        CatCommand::Add => Instr::Add,
        CatCommand::Multiply => Instr::Multiply,
        CatCommand::Execute => Instr::Execute,
        CatCommand::ExecuteScoped => Instr::ExecuteScoped,
        CatCommand::MapOver => Instr::MapOver,
        CatCommand::ForEach => Instr::ForEach,
        CatCommand::Repeat => Instr::Repeat,
        CatCommand::Split => Instr::Split,
        CatCommand::Join => Instr::Join,
        CatCommand::ToInteger => Instr::ToInteger,
        CatCommand::Range => Instr::Range,
        CatCommand::Duplicate => Instr::Duplicate,
        CatCommand::DuplicateSecond => Instr::DuplicateSecond,
        CatCommand::Drop => Instr::Drop,
        CatCommand::Rotate(n) => Instr::Rotate(*n),
        CatCommand::PushSide => Instr::PushSide,
        CatCommand::PopSide => Instr::PopSide,
        CatCommand::ConsumeSide => Instr::ConsumeSide,
        CatCommand::PushVariable(v) => Instr::PushVariable(*v),
        CatCommand::PopVariable(v, keep) => Instr::PopVariable(*v, *keep),
    }
}

impl View for CatCommand {
    type V = Instr;

    open spec fn view(&self) -> Instr {
        instr_of(self)
    }
}

/// The name of an instruction without a payload.
pub open spec fn plain_name(i: Instr) -> Seq<char> {
    match i {
        Instr::StartBlock => "StartBlock"@,
        Instr::CloseBlock => "CloseBlock"@,
        Instr::ReadLine => "ReadLine"@,
        Instr::WriteLine => "WriteLine"@,
        Instr::Write => "Write"@,
        Instr::Add => "Add"@,
        Instr::Multiply => "Multiply"@,
        Instr::Execute => "Execute"@,
        Instr::ExecuteScoped => "ExecuteScoped"@,
        Instr::MapOver => "Map"@,
        Instr::ForEach => "ForEach"@,
        Instr::Repeat => "Repeat"@,
        Instr::Split => "Split"@,
        Instr::Join => "Join"@,
        Instr::ToInteger => "ToInteger"@,
        Instr::Range => "Range"@,
        Instr::Duplicate => "Duplicate"@,
        Instr::DuplicateSecond => "DuplicateSecond"@,
        Instr::Drop => "Drop"@,
        Instr::PushSide => "PushSide"@,
        Instr::PopSide => "PopSide"@,
        Instr::ConsumeSide => "ConsumeSide"@,
        _ => Seq::empty(),
    }
}

pub open spec fn bool_text(b: bool) -> Seq<char> {
    if b {
        "true"@
    } else {
        "false"@
    }
}

/// How an instruction is rendered: its name, with its payload in parentheses.
pub open spec fn instr_name(i: Instr) -> Seq<char>
    decreases i,
{
    match i {
        Instr::CreateInteger(v) => "CreateInteger("@ + text_of_int(v as int) + ")"@,
        Instr::CreateString(s) => "CreateString("@ + quoted_text(s) + ")"@,
        Instr::CreateCommand(b) => "CreateCommand("@ + instr_name(*b) + ")"@,
        Instr::Rotate(n) => "Rotate("@ + text_of_int(n as int) + ")"@,
        Instr::PushVariable(v) => "PushVariable('"@ + seq![v] + "')"@,
        Instr::PopVariable(v, keep) => "PopVariable('"@ + seq![v] + "', "@ + bool_text(keep)
            + ")"@,
        _ => plain_name(i),
    }
}

impl CatCommand {
    /// A copy of this instruction.
    pub fn duplicate(&self) -> (r: CatCommand)
        ensures
            r@ == self@,
        decreases self,
    {
        match self {
            CatCommand::StartBlock => CatCommand::StartBlock,
            CatCommand::CloseBlock => CatCommand::CloseBlock,
            CatCommand::CreateInteger(v) => CatCommand::CreateInteger(*v),
            CatCommand::CreateString(s) => CatCommand::CreateString(s.clone()),
            CatCommand::CreateCommand(b) => CatCommand::CreateCommand(Box::new(b.duplicate())),
            CatCommand::ReadLine => CatCommand::ReadLine,
            CatCommand::WriteLine => CatCommand::WriteLine,
            CatCommand::Write => CatCommand::Write,
            CatCommand::Add => CatCommand::Add,
            CatCommand::Multiply => CatCommand::Multiply,
            CatCommand::Execute => CatCommand::Execute,
            CatCommand::ExecuteScoped => CatCommand::ExecuteScoped,
            CatCommand::MapOver => CatCommand::MapOver,
            CatCommand::ForEach => CatCommand::ForEach,
            CatCommand::Repeat => CatCommand::Repeat,
            CatCommand::Split => CatCommand::Split,
            CatCommand::Join => CatCommand::Join,
            CatCommand::ToInteger => CatCommand::ToInteger,
            CatCommand::Range => CatCommand::Range,
            CatCommand::Duplicate => CatCommand::Duplicate,
            CatCommand::DuplicateSecond => CatCommand::DuplicateSecond,
            CatCommand::Drop => CatCommand::Drop,
            CatCommand::Rotate(n) => CatCommand::Rotate(*n),
            CatCommand::PushSide => CatCommand::PushSide,
            CatCommand::PopSide => CatCommand::PopSide,
            CatCommand::ConsumeSide => CatCommand::ConsumeSide,
            CatCommand::PushVariable(v) => CatCommand::PushVariable(*v),
            CatCommand::PopVariable(v, keep) => CatCommand::PopVariable(*v, *keep),
        }
    }

    /// The instruction's name as shown in listings and traces.
    pub fn name(&self) -> (r: String)
        ensures
            r@ == instr_name(self@),
        decreases self,
    {
        let mut out = String::new();
        match self {
            CatCommand::CreateInteger(v) => {
                push_str(&mut out, "CreateInteger(");
                let t = text_of_i64(*v);
                push_str(&mut out, t.as_str());
                push_str(&mut out, ")");
            },
            CatCommand::CreateString(s) => {
                push_str(&mut out, "CreateString(");
                let t = debug_quote(s);
                push_str(&mut out, t.as_str());
                push_str(&mut out, ")");
            },
            CatCommand::CreateCommand(b) => {
                push_str(&mut out, "CreateCommand(");
                let t = b.name();
                push_str(&mut out, t.as_str());
                push_str(&mut out, ")");
            },
            CatCommand::Rotate(n) => {
                push_str(&mut out, "Rotate(");
                let t = text_of_usize(*n);
                push_str(&mut out, t.as_str());
                push_str(&mut out, ")");
            },
            CatCommand::PushVariable(v) => {
                push_str(&mut out, "PushVariable('");
                crate::text::push_char(&mut out, *v);
                push_str(&mut out, "')");
            },
            CatCommand::PopVariable(v, keep) => {
                push_str(&mut out, "PopVariable('");
                crate::text::push_char(&mut out, *v);
                push_str(&mut out, "', ");
                if *keep {
                    push_str(&mut out, "true");
                } else {
                    push_str(&mut out, "false");
                }
                push_str(&mut out, ")");
            },
            CatCommand::StartBlock => push_str(&mut out, "StartBlock"),
            CatCommand::CloseBlock => push_str(&mut out, "CloseBlock"),
            CatCommand::ReadLine => push_str(&mut out, "ReadLine"),
            CatCommand::WriteLine => push_str(&mut out, "WriteLine"),
            CatCommand::Write => push_str(&mut out, "Write"),
            CatCommand::Add => push_str(&mut out, "Add"),
            CatCommand::Multiply => push_str(&mut out, "Multiply"),
            CatCommand::Execute => push_str(&mut out, "Execute"),
            CatCommand::ExecuteScoped => push_str(&mut out, "ExecuteScoped"),
            CatCommand::MapOver => push_str(&mut out, "Map"),
            CatCommand::ForEach => push_str(&mut out, "ForEach"),
            CatCommand::Repeat => push_str(&mut out, "Repeat"),
            CatCommand::Split => push_str(&mut out, "Split"),
            CatCommand::Join => push_str(&mut out, "Join"),
            CatCommand::ToInteger => push_str(&mut out, "ToInteger"),
            CatCommand::Range => push_str(&mut out, "Range"),
            CatCommand::Duplicate => push_str(&mut out, "Duplicate"),
            CatCommand::DuplicateSecond => push_str(&mut out, "DuplicateSecond"),
            CatCommand::Drop => push_str(&mut out, "Drop"),
            CatCommand::PushSide => push_str(&mut out, "PushSide"),
            CatCommand::PopSide => push_str(&mut out, "PopSide"),
            CatCommand::ConsumeSide => push_str(&mut out, "ConsumeSide"),
        }
        out
    }
}

} // verus!
