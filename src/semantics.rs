//! What running an instruction does, stated over the models of the engine's state.
use vstd::prelude::*;

use crate::command::Instr;
use crate::error::ExecError;
use crate::ops::{add_values, bcast, join_value, unary, BinOp, UnOp};
use crate::text::i64_of_text;
use crate::value::{display, Val};

verus! {

/// The model of one trace record.
pub struct Frame {
    pub before: Seq<Val>,
    pub after: Seq<Val>,
    pub reading: bool,
    pub command: Instr,
    pub inner: Seq<Frame>,
}

/// The model of the engine's state.
pub struct Machine {
    pub main: Seq<Val>,
    pub side: Seq<Val>,
    /// The block being captured, if any.
    pub block: Option<Seq<Val>>,
    pub depth: nat,
    /// One more than the stack position where the current capture starts.
    pub floor: nat,
    pub vars: Seq<(char, Val)>,
    pub input: Seq<Seq<char>>,
    pub input_pos: nat,
    pub output: Seq<Seq<char>>,
    pub frames: Seq<Frame>,
    pub trace: bool,
}

pub type Outcome = (Machine, Result<(), ExecError>);

/// The length of a stack value, zero for any other value.
pub open spec fn stack_len(v: Val) -> nat {
    match v {
        Val::Stack(vs) => vs.len(),
        _ => 0,
    }
}

pub open spec fn push_main(s: Machine, v: Val) -> Machine {
    Machine { main: s.main.push(v), ..s }
}

/// Popping the primary stack; popping below the capture floor lowers the floor.
pub open spec fn pop_main(s: Machine) -> (Machine, Option<Val>) {
    let n = s.main.len();
    let s1 = if n < s.floor {
        Machine { floor: n, ..s }
    } else {
        s
    };
    if n == 0 {
        (s1, None)
    } else {
        (Machine { main: s1.main.drop_last(), ..s1 }, Some(s.main.last()))
    }
}

/// The position of the first binding of `c` at or after `i`, or -1.
pub open spec fn var_index_from(vars: Seq<(char, Val)>, c: char, i: int) -> int
    decreases vars.len() - i,
{
    if i < 0 || i >= vars.len() {
        -1
    } else if vars[i].0 == c {
        i
    } else {
        var_index_from(vars, c, i + 1)
    }
}

pub open spec fn var_index(vars: Seq<(char, Val)>, c: char) -> int {
    var_index_from(vars, c, 0)
}

/// Binding `c` to `v`, replacing an earlier binding. Binding an instruction pops the top
/// value and binds it as it is (a captured block stays a block, to be run with `!`); reading
/// a name pushes a copy of its value and, unless the read keeps it, removes the binding.
pub open spec fn bind_var(vars: Seq<(char, Val)>, c: char, v: Val) -> Seq<(char, Val)> {
    let k = var_index(vars, c);
    if k >= 0 {
        vars.update(k, (c, v))
    } else {
        vars.push((c, v))
    }
}

pub open spec fn unbind_var(vars: Seq<(char, Val)>, c: char) -> Seq<(char, Val)> {
    let k = var_index(vars, c);
    if k >= 0 {
        vars.remove(k)
    } else {
        vars
    }
}

/// What map and for-each iterate over: a stack's elements, or a text's characters.
pub open spec fn source_elems(v: Val) -> Option<Seq<Val>> {
    match v {
        Val::Stack(vs) => Some(vs),
        Val::Text(t) => Some(Seq::new(t.len(), |i: int| Val::Text(seq![t[i]]))),
        _ => None,
    }
}

/// A one-element stack stands for its element.
pub open spec fn unwrap_single(v: Val) -> Val {
    match v {
        Val::Stack(vs) => if vs.len() == 1 {
            vs[0]
        } else {
            v
        },
        _ => v,
    }
}

/// Where the values to collect start, for a floor and a stack length.
pub open spec fn collect_start(floor: nat, len: nat) -> nat {
    if floor == 0 {
        0
    } else if floor - 1 > len {
        len
    } else {
        (floor - 1) as nat
    }
}

/// Gathering everything above the floor into one stack, and going back to the outer floor,
/// or to the floor reached if popping lowered it further.
pub open spec fn collect_end(s: Machine, outer_floor: nat) -> Machine {
    let k = collect_start(s.floor, s.main.len());
    Machine {
        main: s.main.take(k as int).push(Val::Stack(s.main.skip(k as int))),
        floor: if s.floor < outer_floor {
            s.floor
        } else {
            outer_floor
        },
        ..s
    }
}

/// Replacing the top of the primary stack with the result of an operation on it.
pub open spec fn update_top(s: Machine, r: Result<Val, ExecError>) -> Outcome {
    match r {
        Ok(v) => (Machine { main: s.main.update(s.main.len() - 1, v), ..s }, Ok(())),
        Err(e) => (s, Err(e)),
    }
}

/// Runs `func` once with a capture floor, after pushing `pre` if there is one, and gathers
/// what it leaves above the floor into one stack.
pub open spec fn scoped(s: Machine, pre: Option<Val>, func: Val, fuel: nat) -> Outcome
    decreases fuel, 0nat, stack_len(func) + 3,
{
    if s.main.len() >= usize::MAX {
        (s, Err(ExecError::Overflow))
    } else {
    let s1 = Machine { floor: s.main.len() + 1, ..s };
    let s2 = match pre {
        Some(e) => push_main(s1, e),
        None => s1,
    };
    let (s3, r) = run_value(s2, func, fuel);
    match r {
        Err(e) => (s3, Err(e)),
        Ok(_) => (collect_end(s3, s.floor), Ok(())),
    }
    }
}

/// Runs a quoted instruction, or each instruction of a block in order.
pub open spec fn run_value(s: Machine, v: Val, fuel: nat) -> Outcome
    decreases fuel, 0nat, stack_len(v) + 2,
{
    match v {
        Val::Command(c) => traced_step(s, c, fuel),
        Val::Stack(cs) => run_cmds(s, cs, fuel),
        _ => (s, Err(ExecError::NotExecutable)),
    }
}

pub open spec fn run_cmds(s: Machine, cs: Seq<Val>, fuel: nat) -> Outcome
    decreases fuel, 0nat, cs.len() + 1,
{
    if cs.len() == 0 {
        (s, Ok(()))
    } else {
        let (s1, r) = run_cmds(s, cs.drop_last(), fuel);
        match r {
            Err(e) => (s1, Err(e)),
            Ok(_) => match cs[cs.len() - 1] {
                Val::Command(c) => traced_step(s1, c, fuel),
                _ => (s1, Err(ExecError::NonCommandInBlock)),
            },
        }
    }
}

/// Map over `elems`: one scoped run of `func` per element; each gathered stack counts as its
/// element when it holds exactly one value.
pub open spec fn map_loop(s: Machine, func: Val, elems: Seq<Val>, fuel: nat) -> (
    Machine,
    Result<Seq<Val>, ExecError>,
)
    decreases fuel, 0nat, elems.len() + stack_len(func) + 4,
{
    if elems.len() == 0 {
        (s, Ok(Seq::empty()))
    } else {
        let (s1, r1) = map_loop(s, func, elems.drop_last(), fuel);
        match r1 {
            Err(e) => (s1, Err(e)),
            Ok(rs) => {
                let (s2, r2) = scoped(s1, Some(elems[elems.len() - 1]), func, fuel);
                match r2 {
                    Err(e) => (s2, Err(e)),
                    Ok(_) => {
                        let (s3, top) = pop_main(s2);
                        match top {
                            Some(x) => (s3, Ok(rs.push(unwrap_single(x)))),
                            None => (s3, Err(ExecError::EmptyStack)),
                        }
                    },
                }
            },
        }
    }
}

/// For-each over `elems`: push each element and run `func`, gathering nothing.
pub open spec fn foreach_loop(s: Machine, func: Val, elems: Seq<Val>, fuel: nat) -> Outcome
    decreases fuel, 0nat, elems.len() + stack_len(func) + 3,
{
    if elems.len() == 0 {
        (s, Ok(()))
    } else {
        let (s1, r1) = foreach_loop(s, func, elems.drop_last(), fuel);
        match r1 {
            Err(e) => (s1, Err(e)),
            Ok(_) => run_value(push_main(s1, elems[elems.len() - 1]), func, fuel),
        }
    }
}

/// Runs `func` `n` times.
pub open spec fn repeat_loop(s: Machine, func: Val, n: nat, fuel: nat) -> Outcome
    decreases fuel, 0nat, n + stack_len(func) + 3,
{
    if n == 0 {
        (s, Ok(()))
    } else {
        let (s1, r1) = repeat_loop(s, func, (n - 1) as nat, fuel);
        match r1 {
            Err(e) => (s1, Err(e)),
            Ok(_) => run_value(s1, func, fuel),
        }
    }
}

pub open spec fn count_of(n: i64) -> nat {
    if n > 0 {
        n as nat
    } else {
        0
    }
}

/// Repeat with one count: an integer, or a text that writes one.
pub open spec fn repeat_one(s: Machine, func: Val, count: Val, fuel: nat) -> Outcome
    decreases fuel, 1nat, 0nat,
{
    match count {
        Val::Int(n) => repeat_loop(s, func, count_of(n), fuel),
        Val::Text(t) => match i64_of_text(t) {
            Some(n) => repeat_loop(s, func, count_of(n), fuel),
            None => (s, Err(ExecError::CountNotNumber)),
        },
        _ => (s, Err(ExecError::CountNotInteger)),
    }
}

/// Repeat with a stack of counts: one round per count, in order.
pub open spec fn repeat_each(s: Machine, func: Val, counts: Seq<Val>, fuel: nat) -> Outcome
    decreases fuel, counts.len() + 2, 0nat,
{
    if counts.len() == 0 {
        (s, Ok(()))
    } else {
        let (s1, r1) = repeat_each(s, func, counts.drop_last(), fuel);
        match r1 {
            Err(e) => (s1, Err(e)),
            Ok(_) => repeat_one(s1, func, counts[counts.len() - 1], fuel),
        }
    }
}

/// One instruction, with a trace record when tracing is on.
pub open spec fn traced_step(s: Machine, c: Instr, fuel: nat) -> Outcome
    decreases fuel, 0nat, 1nat,
{
    if !s.trace {
        step(s, c, fuel)
    } else {
        let k = s.frames.len();
        let (s1, r) = step(s, c, fuel);
        match r {
            Err(e) => (s1, Err(e)),
            Ok(_) => {
                let k2 = if k <= s1.frames.len() {
                    k
                } else {
                    s1.frames.len()
                };
                let frame = Frame {
                    before: s.main,
                    after: s1.main,
                    reading: s.block is Some,
                    command: c,
                    inner: s1.frames.skip(k2 as int),
                };
                (Machine { frames: s1.frames.take(k2 as int).push(frame), ..s1 }, Ok(()))
            },
        }
    }
}

/// One instruction while a block is being captured.
pub open spec fn capture_step(s: Machine, bl: Seq<Val>, c: Instr) -> Outcome {
    match c {
        Instr::StartBlock => if s.depth + 1 <= u64::MAX {
            (
                Machine {
                    block: Some(bl.push(Val::Command(Instr::StartBlock))),
                    depth: s.depth + 1,
                    ..s
                },
                Ok(()),
            )
        } else {
            (s, Err(ExecError::Overflow))
        },
        Instr::CloseBlock => if s.depth <= 1 {
            (push_main(Machine { block: None, depth: 0, ..s }, Val::Stack(bl)), Ok(()))
        } else {
            (
                Machine {
                    block: Some(bl.push(Val::Command(Instr::CloseBlock))),
                    depth: (s.depth - 1) as nat,
                    ..s
                },
                Ok(()),
            )
        },
        _ => (Machine { block: Some(bl.push(Val::Command(c))), ..s }, Ok(())),
    }
}

/// Pops two operands, the top one on the right, and pushes the operation's result.
pub open spec fn binary_step(s: Machine, add: bool) -> Outcome {
    let (s1, r) = pop_main(s);
    match r {
        None => (s1, Err(ExecError::EmptyStack)),
        Some(rv) => {
            let (s2, l) = pop_main(s1);
            match l {
                None => (s2, Err(ExecError::EmptyStack)),
                Some(lv) => match (if add {
                    add_values(lv, rv)
                } else {
                    bcast(BinOp::Mul, lv, rv)
                }) {
                    Ok(v) => (push_main(s2, v), Ok(())),
                    Err(e) => (s2, Err(e)),
                },
            }
        },
    }
}

/// An operation on the top of the stack, in place; a failure leaves the top as it was.
pub open spec fn top_step(s: Machine, op: UnOp, sep: Seq<char>) -> Outcome {
    if s.main.len() == 0 {
        (s, Err(ExecError::EmptyStack))
    } else {
        update_top(s, unary(op, s.main.last(), sep))
    }
}

/// With a separator text on top, `Split` or `Join` applies to the value below it, which
/// takes the separator's place; a failure leaves the stack as it was, separator included.
pub open spec fn separator_step(s: Machine, split: bool) -> Outcome {
    let n = s.main.len();
    if n == 0 {
        (s, Err(ExecError::EmptyStack))
    } else {
        match s.main.last() {
            Val::Text(sep) => if n < 2 {
                (s, Err(ExecError::EmptyStack))
            } else {
                let target = s.main[n - 2];
                let r = if split {
                    unary(UnOp::Split, target, sep)
                } else {
                    join_value(target, sep)
                };
                match r {
                    Ok(_) => update_top(pop_main(s).0, r),
                    Err(e) => (s, Err(e)),
                }
            },
            _ => (
                s,
                Err(
                    if split {
                        ExecError::SplitNeedsText
                    } else {
                        ExecError::JoinNeedsText
                    },
                ),
            ),
        }
    }
}

/// The element `n - 1` places below the top comes to the top; the ones above it move down
/// by one.
pub open spec fn rotated(main: Seq<Val>, n: nat) -> Seq<Val> {
    let len = main.len();
    main.take(len - n) + main.subrange(len - n + 1, len as int) + seq![main[len - n]]
}

/// One instruction outside block capture, at nesting budget `fuel`: each combinator run
/// nests one level deeper, and running out of levels fails. Read-line takes the next line
/// fed to the machine, or an empty text when none is left; write instructions append to the
/// machine's output. Instructions that change the top in place leave it as it was when they
/// fail.
pub open spec fn step(s: Machine, c: Instr, fuel: nat) -> Outcome
    decreases fuel, 0nat, 0nat,
{
    match s.block {
        Some(bl) => capture_step(s, bl, c),
        None => match c {
            Instr::StartBlock => (Machine { block: Some(Seq::empty()), depth: 1, ..s }, Ok(())),
            Instr::CloseBlock => (s, Err(ExecError::ClosingOutsideBlock)),
            Instr::CreateInteger(i) => (push_main(s, Val::Int(i)), Ok(())),
            Instr::CreateString(t) => (push_main(s, Val::Text(t)), Ok(())),
            Instr::CreateCommand(b) => (push_main(s, Val::Command(*b)), Ok(())),
            Instr::ReadLine => if s.input_pos < s.input.len() {
                (
                    push_main(
                        Machine { input_pos: s.input_pos + 1, ..s },
                        Val::Text(s.input[s.input_pos as int]),
                    ),
                    Ok(()),
                )
            } else {
                (push_main(s, Val::Text(Seq::empty())), Ok(()))
            },
            Instr::WriteLine => {
                let (s1, r) = pop_main(s);
                match r {
                    None => (s1, Err(ExecError::EmptyStack)),
                    Some(v) => (
                        Machine { output: s1.output.push(display(v) + seq!['\n']), ..s1 },
                        Ok(()),
                    ),
                }
            },
            Instr::Write => {
                let (s1, r) = pop_main(s);
                match r {
                    None => (s1, Err(ExecError::EmptyStack)),
                    Some(v) => (Machine { output: s1.output.push(display(v)), ..s1 }, Ok(())),
                }
            },
            Instr::Add => binary_step(s, true),
            Instr::Multiply => binary_step(s, false),
            Instr::Execute => {
                let (s1, r) = pop_main(s);
                match r {
                    None => (s1, Err(ExecError::EmptyStack)),
                    Some(v) => if fuel == 0 {
                        (s1, Err(ExecError::NestingTooDeep))
                    } else {
                        run_value(s1, v, (fuel - 1) as nat)
                    },
                }
            },
            Instr::ExecuteScoped => {
                let (s1, r) = pop_main(s);
                match r {
                    None => (s1, Err(ExecError::EmptyStack)),
                    Some(v) => if fuel == 0 {
                        (s1, Err(ExecError::NestingTooDeep))
                    } else {
                        scoped(s1, None, v, (fuel - 1) as nat)
                    },
                }
            },
            Instr::MapOver => {
                let (s1, f) = pop_main(s);
                match f {
                    None => (s1, Err(ExecError::EmptyStack)),
                    Some(func) => {
                        let (s2, src) = pop_main(s1);
                        match src {
                            None => (s2, Err(ExecError::EmptyStack)),
                            Some(sv) => match source_elems(sv) {
                                None => (s2, Err(ExecError::NotCollection)),
                                Some(elems) => if fuel == 0 {
                                    (s2, Err(ExecError::NestingTooDeep))
                                } else {
                                    let (s3, r) = map_loop(s2, func, elems, (fuel - 1) as nat);
                                    match r {
                                        Ok(rs) => (push_main(s3, Val::Stack(rs)), Ok(())),
                                        Err(e) => (s3, Err(e)),
                                    }
                                },
                            },
                        }
                    },
                }
            },
            Instr::ForEach => {
                let (s1, f) = pop_main(s);
                match f {
                    None => (s1, Err(ExecError::EmptyStack)),
                    Some(func) => {
                        let (s2, src) = pop_main(s1);
                        match src {
                            None => (s2, Err(ExecError::EmptyStack)),
                            Some(sv) => match source_elems(sv) {
                                None => (s2, Err(ExecError::NotCollection)),
                                Some(elems) => if fuel == 0 {
                                    (s2, Err(ExecError::NestingTooDeep))
                                } else {
                                    foreach_loop(s2, func, elems, (fuel - 1) as nat)
                                },
                            },
                        }
                    },
                }
            },
            Instr::Repeat => {
                let (s1, f) = pop_main(s);
                match f {
                    None => (s1, Err(ExecError::EmptyStack)),
                    Some(func) => {
                        let (s2, cnt) = pop_main(s1);
                        match cnt {
                            None => (s2, Err(ExecError::EmptyStack)),
                            Some(cv) => if fuel == 0 {
                                (s2, Err(ExecError::NestingTooDeep))
                            } else {
                                match cv {
                                    Val::Stack(cs) => repeat_each(s2, func, cs, (fuel - 1) as nat),
                                    _ => repeat_one(s2, func, cv, (fuel - 1) as nat),
                                }
                            },
                        }
                    },
                }
            },
            Instr::Split => separator_step(s, true),
            Instr::Join => separator_step(s, false),
            Instr::ToInteger => top_step(s, UnOp::ToInteger, Seq::empty()),
            Instr::Range => top_step(s, UnOp::Range, Seq::empty()),
            Instr::Duplicate => if s.main.len() < 1 {
                (s, Err(ExecError::EmptyStack))
            } else {
                (push_main(s, s.main.last()), Ok(()))
            },
            Instr::DuplicateSecond => if s.main.len() < 2 {
                (s, Err(ExecError::EmptyStack))
            } else {
                let a = s.main[s.main.len() - 2];
                let b = s.main.last();
                (Machine { main: s.main.drop_last().push(a).push(b), ..s }, Ok(()))
            },
            Instr::Drop => {
                let (s1, r) = pop_main(s);
                match r {
                    None => (s1, Err(ExecError::EmptyStack)),
                    Some(_) => (s1, Ok(())),
                }
            },
            Instr::Rotate(n) => if n == 0 {
                (s, Ok(()))
            } else if s.main.len() < n {
                (s, Err(ExecError::EmptyStack))
            } else {
                (Machine { main: rotated(s.main, n as nat), ..s }, Ok(()))
            },
            Instr::PushSide => if s.main.len() == 0 {
                (s, Err(ExecError::EmptyStack))
            } else {
                (Machine { side: s.side.push(s.main.last()), ..s }, Ok(()))
            },
            Instr::PopSide => if s.side.len() == 0 {
                (s, Err(ExecError::EmptySideStack))
            } else {
                (
                    push_main(Machine { side: s.side.drop_last(), ..s }, s.side.last()),
                    Ok(()),
                )
            },
            Instr::ConsumeSide => (
                push_main(Machine { side: Seq::empty(), ..s }, Val::Stack(s.side)),
                Ok(()),
            ),
            Instr::PushVariable(name) => {
                let (s1, r) = pop_main(s);
                match r {
                    None => (s1, Err(ExecError::EmptyStack)),
                    Some(v) => (Machine { vars: bind_var(s1.vars, name, v), ..s1 }, Ok(())),
                }
            },
            Instr::PopVariable(name, keep) => {
                let k = var_index(s.vars, name);
                if k < 0 {
                    (s, Err(ExecError::UnboundVariable))
                } else {
                    let v = s.vars[k].1;
                    let s1 = if keep {
                        s
                    } else {
                        Machine { vars: unbind_var(s.vars, name), ..s }
                    };
                    (push_main(s1, v), Ok(()))
                }
            },
        },
    }
}

} // verus!
