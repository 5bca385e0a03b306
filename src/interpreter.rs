use vstd::pervasive::VecAdditionalExecFns;
use vstd::prelude::*;

use crate::command::{CatCommand, Instr};
use crate::error::ExecError;
use crate::ops::{add_exec, broadcast, join, map_unary, result_view, BinOp, UnOp};
use crate::semantics::{
    binary_step, capture_step, count_of, foreach_loop, map_loop, pop_main, push_main, repeat_each,
    repeat_loop, repeat_one, rotated, run_cmds, run_value, scoped, separator_step, source_elems,
    step, top_step, traced_step, unwrap_single, update_top, var_index, var_index_from, Frame,
    Machine,
};
use crate::text::{chars_of, parse_i64, push_char, string_of_chars, texts_view};
use crate::value::{vals_of, CatValue, Val};

verus! {

/// How deeply runs may nest: each execute, scoped execute, map, for-each or repeat that runs
/// a value goes one level deeper, and a run that would go deeper than this fails with
/// `NestingTooDeep`. This limit of the engine keeps nested runs within a thread's stack.
pub const MAX_NESTING: u64 = 128;

/// A trace record: the primary stack before and after one instruction, whether a block was
/// being captured when it began, the instruction, and the records of what it ran in turn.
#[derive(Debug)]
pub struct ExecFrame {
    pub stack_before: Vec<CatValue>,
    pub stack_after: Vec<CatValue>,
    pub reading: bool,
    pub command: CatCommand,
    pub inner_frames: Vec<ExecFrame>,
}

pub open spec fn empty_frame() -> Frame {
    Frame {
        before: Seq::empty(),
        after: Seq::empty(),
        reading: false,
        command: Instr::Add,
        inner: Seq::empty(),
    }
}

pub open spec fn frame_of(f: &ExecFrame) -> Frame
    decreases f,
{
    Frame {
        before: vals_of(f.stack_before@),
        after: vals_of(f.stack_after@),
        reading: f.reading,
        command: f.command@,
        inner: Seq::new(
            f.inner_frames@.len(),
            |i: int|
                if 0 <= i < f.inner_frames@.len() {
                    frame_of(&f.inner_frames@[i])
                } else {
                    empty_frame()
                },
        ),
    }
}

pub open spec fn frames_of(fs: Seq<ExecFrame>) -> Seq<Frame> {
    Seq::new(fs.len(), |i: int| frame_of(&fs[i]))
}

pub open spec fn vars_of(vs: Seq<(char, CatValue)>) -> Seq<(char, Val)> {
    Seq::new(vs.len(), |i: int| (vs[i].0, vs[i].1@))
}

/// The stack machine that runs instructions.
#[derive(Debug)]
pub struct Interpreter {
    pub exec_frames: Vec<ExecFrame>,
    pub main_stack: Vec<CatValue>,
    pub side_stack: Vec<CatValue>,
    /// Lines that read-line instructions take, from `input_pos` on.
    pub input: Vec<String>,
    pub input_pos: usize,
    /// Text that write instructions produced, in order.
    pub output: Vec<String>,
    block_stack: Option<Vec<CatValue>>,
    block_depth: u64,
    collect_frame_pos: usize,
    variables: Vec<(char, CatValue)>,
    trace: bool,
}

impl View for Interpreter {
    type V = Machine;

    closed spec fn view(&self) -> Machine {
        Machine {
            main: vals_of(self.main_stack@),
            side: vals_of(self.side_stack@),
            block: match self.block_stack {
                Some(b) => Some(vals_of(b@)),
                None => None,
            },
            depth: self.block_depth as nat,
            floor: self.collect_frame_pos as nat,
            vars: vars_of(self.variables@),
            input: texts_view(self.input@),
            input_pos: self.input_pos as nat,
            output: texts_view(self.output@),
            frames: frames_of(self.exec_frames@),
            trace: self.trace,
        }
    }
}

proof fn lemma_ok_unit(r: Result<(), ExecError>)
    requires
        r is Ok,
    ensures
        r == Ok::<(), ExecError>(()),
{
    let u: () = r->Ok_0;
    assert(u == ());
}

proof fn lemma_vals_push(v: Seq<CatValue>, x: CatValue)
    ensures
        vals_of(v.push(x)) == vals_of(v).push(x@),
{
    assert(vals_of(v.push(x)) =~= vals_of(v).push(x@));
}

proof fn lemma_vals_drop_last(v: Seq<CatValue>)
    requires
        v.len() > 0,
    ensures
        vals_of(v.drop_last()) == vals_of(v).drop_last(),
        vals_of(v).last() == v.last()@,
{
    assert(vals_of(v.drop_last()) =~= vals_of(v).drop_last());
}

proof fn lemma_run_cmds_err(s: Machine, cs: Seq<Val>, k: int, fuel: nat)
    requires
        0 <= k <= cs.len(),
        run_cmds(s, cs.take(k), fuel).1 is Err,
    ensures
        run_cmds(s, cs, fuel) == run_cmds(s, cs.take(k), fuel),
    decreases cs.len() - k,
{
    if k < cs.len() {
        assert(cs.take(k + 1).drop_last() =~= cs.take(k));
        lemma_run_cmds_err(s, cs, k + 1, fuel);
    } else {
        assert(cs.take(k) =~= cs);
    }
}

proof fn lemma_map_loop_err(s: Machine, func: Val, es: Seq<Val>, k: int, fuel: nat)
    requires
        0 <= k <= es.len(),
        map_loop(s, func, es.take(k), fuel).1 is Err,
    ensures
        map_loop(s, func, es, fuel) == map_loop(s, func, es.take(k), fuel),
    decreases es.len() - k,
{
    if k < es.len() {
        assert(es.take(k + 1).drop_last() =~= es.take(k));
        lemma_map_loop_err(s, func, es, k + 1, fuel);
    } else {
        assert(es.take(k) =~= es);
    }
}

proof fn lemma_foreach_loop_err(s: Machine, func: Val, es: Seq<Val>, k: int, fuel: nat)
    requires
        0 <= k <= es.len(),
        foreach_loop(s, func, es.take(k), fuel).1 is Err,
    ensures
        foreach_loop(s, func, es, fuel) == foreach_loop(s, func, es.take(k), fuel),
    decreases es.len() - k,
{
    if k < es.len() {
        assert(es.take(k + 1).drop_last() =~= es.take(k));
        lemma_foreach_loop_err(s, func, es, k + 1, fuel);
    } else {
        assert(es.take(k) =~= es);
    }
}

proof fn lemma_repeat_each_err(s: Machine, func: Val, cs: Seq<Val>, k: int, fuel: nat)
    requires
        0 <= k <= cs.len(),
        repeat_each(s, func, cs.take(k), fuel).1 is Err,
    ensures
        repeat_each(s, func, cs, fuel) == repeat_each(s, func, cs.take(k), fuel),
    decreases cs.len() - k,
{
    if k < cs.len() {
        assert(cs.take(k + 1).drop_last() =~= cs.take(k));
        lemma_repeat_each_err(s, func, cs, k + 1, fuel);
    } else {
        assert(cs.take(k) =~= cs);
    }
}

proof fn lemma_repeat_loop_err(s: Machine, func: Val, k: nat, n: nat, fuel: nat)
    requires
        k <= n,
        repeat_loop(s, func, k, fuel).1 is Err,
    ensures
        repeat_loop(s, func, n, fuel) == repeat_loop(s, func, k, fuel),
    decreases n - k,
{
    if k < n {
        lemma_repeat_loop_err(s, func, k + 1, n, fuel);
    }
}

/// Deep copies of the values.
pub(crate) fn copy_values(v: &Vec<CatValue>) -> (r: Vec<CatValue>)
    ensures
        vals_of(r@) == vals_of(v@),
{
    let mut r: Vec<CatValue> = Vec::new();
    let mut i: usize = 0;
    while i < v.len()
        invariant
            i <= v@.len(),
            vals_of(r@) == vals_of(v@.take(i as int)),
        decreases v.len() - i,
    {
        let x = v[i].duplicate();
        proof {
            lemma_vals_push(r@, x);
            assert(vals_of(v@.take(i + 1)) =~= vals_of(v@.take(i as int)).push(v@[i as int]@));
        }
        r.push(x);
        i = i + 1;
    }
    assert(v@.take(i as int) =~= v@);
    r
}

/// The elements that map and for-each visit, as `source_elems` states.
fn source_values(v: CatValue) -> (r: Option<Vec<CatValue>>)
    ensures
        match r {
            Some(es) => source_elems(v@) == Some(vals_of(es@)),
            None => source_elems(v@) is None,
        },
{
    match v {
        CatValue::VStack(vs) => {
            proof {
                assert(v@->Stack_0 =~= vals_of(vs@));
            }
            Some(vs)
        },
        CatValue::VString(t) => {
            let cs = chars_of(t.as_str());
            let mut out: Vec<CatValue> = Vec::new();
            let mut i: usize = 0;
            while i < cs.len()
                invariant
                    cs@ == t@,
                    i <= cs@.len(),
                    vals_of(out@) == Seq::new(i as nat, |j: int| Val::Text(seq![cs@[j]])),
                decreases cs.len() - i,
            {
                let piece = string_of_chars(&cs, i, i + 1);
                let x = CatValue::VString(piece);
                proof {
                    lemma_vals_push(out@, x);
                    assert(piece@ =~= seq![cs@[i as int]]);
                }
                out.push(x);
                i = i + 1;
                assert(vals_of(out@) =~= Seq::new(i as nat, |j: int| Val::Text(seq![cs@[j]])));
            }
            Some(out)
        },
        _ => None,
    }
}

/// A one-element stack gives its element; any other value stays as it is.
fn unwrap_single_value(v: CatValue) -> (r: CatValue)
    ensures
        r@ == unwrap_single(v@),
{
    match v {
        CatValue::VStack(mut vs) => {
            if vs.len() == 1 {
                let x = vs.pop().unwrap();
                x
            } else {
                CatValue::VStack(vs)
            }
        },
        other => other,
    }
}

impl Interpreter {
    /// The primary stack, bottom first.
    pub fn main_stack(&self) -> (r: &Vec<CatValue>)
        ensures
            vals_of(r@) == self@.main,
    {
        &self.main_stack
    }

    /// The side stack, bottom first.
    pub fn side_stack(&self) -> (r: &Vec<CatValue>)
        ensures
            vals_of(r@) == self@.side,
    {
        &self.side_stack
    }

    /// The trace records not yet taken, oldest first.
    pub fn exec_frames(&self) -> (r: &Vec<ExecFrame>)
        ensures
            frames_of(r@) == self@.frames,
    {
        &self.exec_frames
    }

    /// The text written and not yet taken, in order.
    pub fn output(&self) -> (r: &Vec<String>)
        ensures
            texts_view(r@) == self@.output,
    {
        &self.output
    }

    /// A machine with empty stacks, no bindings, no input, and tracing as given.
    pub fn new(trace: bool) -> (r: Interpreter)
        ensures
            r@.main.len() == 0,
            r@.side.len() == 0,
            r@.block is None,
            r@.depth == 0,
            r@.floor == 0,
            r@.vars.len() == 0,
            r@.input.len() == 0,
            r@.input_pos == 0,
            r@.output.len() == 0,
            r@.frames.len() == 0,
            r@.trace == trace,
    {
        Interpreter {
            main_stack: Vec::new(),
            side_stack: Vec::new(),
            input: Vec::new(),
            input_pos: 0,
            output: Vec::new(),
            block_stack: None,
            block_depth: 0,
            exec_frames: Vec::new(),
            collect_frame_pos: 0,
            variables: Vec::new(),
            trace: trace,
        }
    }

    /// Adds a line for read-line instructions to take.
    pub fn feed_line(&mut self, line: String)
        ensures
            final(self)@ == (Machine { input: old(self)@.input.push(line@), ..old(self)@ }),
    {
        let ghost before = self.input@;
        self.input.push(line);
        assert(texts_view(self.input@) =~= texts_view(before).push(line@));
    }

    /// Hands out the text written so far, and forgets it.
    pub fn take_output(&mut self) -> (r: Vec<String>)
        ensures
            texts_view(r@) == old(self)@.output,
            final(self)@ == (Machine { output: Seq::empty(), ..old(self)@ }),
    {
        let mut out: Vec<String> = Vec::new();
        std::mem::swap(&mut out, &mut self.output);
        assert(texts_view(self.output@) =~= Seq::<Seq<char>>::empty());
        out
    }

    /// Runs the instructions in order, stopping at the first failure.
    pub fn execute(&mut self, commands: &Vec<CatCommand>) -> (r: Result<(), ExecError>)
        ensures
            (final(self)@, r) == run_cmds(
                old(self)@,
                Seq::new(commands@.len(), |i: int| Val::Command(commands@[i]@)),
                MAX_NESTING as nat,
            ),
    {
        let ghost cs = Seq::new(commands@.len(), |i: int| Val::Command(commands@[i]@));
        let ghost s0 = self@;
        let mut i: usize = 0;
        assert(cs.take(0) =~= Seq::<Val>::empty());
        while i < commands.len()
            invariant
                cs == Seq::new(commands@.len(), |i: int| Val::Command(commands@[i]@)),
                s0 == old(self)@,
                i <= commands@.len(),
                (self@, Ok::<(), ExecError>(())) == run_cmds(s0, cs.take(i as int), MAX_NESTING as nat),
            decreases commands.len() - i,
        {
            proof {
                assert(cs.take(i + 1).drop_last() =~= cs.take(i as int));
                assert(cs.take(i + 1)[i as int] == Val::Command(commands@[i as int]@));
            }
            let rr = self.execute_single(&commands[i]);
            match rr {
                Ok(()) => {
                    proof {
                        lemma_ok_unit(rr);
                    }
                },
                Err(e) => {
                    proof {
                        lemma_run_cmds_err(s0, cs, i + 1, MAX_NESTING as nat);
                    }
                    return Err(e);
                },
            }
            i = i + 1;
        }
        assert(cs.take(i as int) =~= cs);
        Ok(())
    }

    /// Runs one instruction, recording a trace frame when tracing is on.
    pub fn execute_single(&mut self, command: &CatCommand) -> (r: Result<(), ExecError>)
        ensures
            (final(self)@, r) == traced_step(old(self)@, command@, MAX_NESTING as nat),
    {
        self.run_traced(command, MAX_NESTING)
    }

    /// Runs one instruction without recording it.
    pub fn execute_single_f(&mut self, command: &CatCommand) -> (r: Result<(), ExecError>)
        ensures
            (final(self)@, r) == step(old(self)@, command@, MAX_NESTING as nat),
    {
        self.dispatch(command, MAX_NESTING)
    }

    fn run_traced(&mut self, command: &CatCommand, fuel: u64) -> (r: Result<(), ExecError>)
        ensures
            (final(self)@, r) == traced_step(old(self)@, command@, fuel as nat),
        decreases fuel, 2nat,
    {
        if !self.trace {
            return self.dispatch(command, fuel);
        }
        let stack_before = copy_values(&self.main_stack);
        let frame_len = self.exec_frames.len();
        let reading = self.block_stack.is_some();
        let rr = self.dispatch(command, fuel);
        match rr {
            Ok(()) => {
                proof {
                    lemma_ok_unit(rr);
                }
            },
            Err(e) => return Err(e),
        }
        let len = self.exec_frames.len();
        let k = if frame_len <= len {
            frame_len
        } else {
            len
        };
        let ghost all = self.exec_frames@;
        let inner_frames = self.exec_frames.split_off(k);
        let frame = ExecFrame {
            stack_before: stack_before,
            stack_after: copy_values(&self.main_stack),
            reading: reading,
            command: command.duplicate(),
            inner_frames: inner_frames,
        };
        proof {
            assert(frame_of(&frame).inner =~= frames_of(all).skip(k as int));
            assert(frames_of(all.take(k as int)) =~= frames_of(all).take(k as int));
        }
        let ghost kept = self.exec_frames@;
        self.exec_frames.push(frame);
        proof {
            assert(frames_of(self.exec_frames@) =~= frames_of(kept).push(frame_of(&frame)));
        }
        Ok(())
    }

    /// Runs a quoted instruction, or the instructions of a block in order.
    fn execute_value(&mut self, value: &CatValue, fuel: u64) -> (r: Result<(), ExecError>)
        ensures
            (final(self)@, r) == run_value(old(self)@, value@, fuel as nat),
        decreases fuel, 3nat,
    {
        match value {
            CatValue::VStack(cmds) => {
                let ghost cs = value@->Stack_0;
                let ghost s0 = self@;
                let mut i: usize = 0;
                assert(cs.take(0) =~= Seq::<Val>::empty());
                while i < cmds.len()
                    invariant
                        *value == CatValue::VStack(*cmds),
                        cs == value@->Stack_0,
                        s0 == old(self)@,
                        i <= cmds@.len(),
                        (self@, Ok::<(), ExecError>(())) == run_cmds(s0, cs.take(i as int), fuel as nat),
                    decreases cmds.len() - i,
                {
                    proof {
                        assert(cs.take(i + 1).drop_last() =~= cs.take(i as int));
                        assert(cs.take(i + 1)[i as int] == cmds@[i as int]@);
                    }
                    let ghost mid = self@;
                    match &cmds[i] {
                        CatValue::VCommand(c) => {
                            proof {
                                let t = cs.take(i + 1);
                                assert(t.len() > 0);
                                assert(t[t.len() - 1] == Val::Command(c@));
                                assert(run_cmds(s0, t.drop_last(), fuel as nat) == (mid, Ok::<(), ExecError>(())));
                                assert(run_cmds(s0, t, fuel as nat) == traced_step(mid, c@, fuel as nat));
                            }
                            let rr = self.run_traced(c, fuel);
                            match rr {
                                Ok(()) => {
                                    proof {
                                        lemma_ok_unit(rr);
                                    }
                                },
                                Err(e) => {
                                    proof {
                                        assert(run_cmds(s0, cs.take(i + 1), fuel as nat) == (
                                            self@,
                                            Err::<(), ExecError>(e),
                                        ));
                                        lemma_run_cmds_err(s0, cs, i + 1, fuel as nat);
                                        assert(run_value(s0, value@, fuel as nat) == run_cmds(s0, cs, fuel as nat));
                                    }
                                    return Err(e);
                                },
                            }
                        },
                        _ => {
                            proof {
                                let t = cs.take(i + 1);
                                assert(!(t[t.len() - 1] is Command));
                                assert(run_cmds(s0, t.drop_last(), fuel as nat) == (mid, Ok::<(), ExecError>(())));
                                assert(run_cmds(s0, t, fuel as nat) == (mid, Err::<(), ExecError>(ExecError::NonCommandInBlock)));
                                lemma_run_cmds_err(s0, cs, i + 1, fuel as nat);
                                assert(run_value(s0, value@, fuel as nat) == run_cmds(s0, cs, fuel as nat));
                            }
                            return Err(ExecError::NonCommandInBlock);
                        },
                    }
                    i = i + 1;
                }
                assert(cs.take(i as int) =~= cs);
                Ok(())
            },
            CatValue::VCommand(c) => self.run_traced(c, fuel),
            _ => Err(ExecError::NotExecutable),
        }
    }

    /// Runs `func` with a capture floor, after pushing `pre` if given, and gathers what it
    /// leaves above the floor into one stack value.
    fn collect_frame(&mut self, pre: Option<CatValue>, func: &CatValue, fuel: u64) -> (r: Result<
        (),
        ExecError,
    >)
        ensures
            (final(self)@, r) == scoped(
                old(self)@,
                match pre {
                    Some(e) => Some(e@),
                    None => None,
                },
                func@,
                fuel as nat,
            ),
        decreases fuel, 4nat,
    {
        let orig_pos = self.collect_frame_pos;
        if self.main_stack.len() >= usize::MAX {
            return Err(ExecError::Overflow);
        }
        self.collect_frame_pos = self.main_stack.len() + 1;
        match pre {
            Some(e) => self.push(e),
            None => {},
        }
        let rr = self.execute_value(func, fuel);
        match rr {
            Ok(()) => {
                proof {
                    lemma_ok_unit(rr);
                }
            },
            Err(e) => return Err(e),
        }
        let len = self.main_stack.len();
        let start = if self.collect_frame_pos == 0 {
            0
        } else if self.collect_frame_pos - 1 > len {
            len
        } else {
            self.collect_frame_pos - 1
        };
        let ghost all = self.main_stack@;
        let result = self.main_stack.split_off(start);
        if orig_pos < self.collect_frame_pos {
            self.collect_frame_pos = orig_pos;
        }
        let collected = CatValue::VStack(result);
        proof {
            assert(vals_of(self.main_stack@) =~= vals_of(all).take(start as int));
            assert(collected@->Stack_0 =~= vals_of(all).skip(start as int));
        }
        self.push(collected);
        Ok(())
    }

    fn push(&mut self, val: CatValue)
        ensures
            final(self)@ == push_main(old(self)@, val@),
    {
        proof {
            lemma_vals_push(self.main_stack@, val);
        }
        self.main_stack.push(val);
    }

    /// Pops the primary stack; popping below the capture floor lowers the floor.
    pub fn pop(&mut self) -> (r: Option<CatValue>)
        ensures
            final(self)@ == pop_main(old(self)@).0,
            match r {
                Some(v) => pop_main(old(self)@).1 == Some(v@),
                None => pop_main(old(self)@).1 is None,
            },
    {
        if self.main_stack.len() < self.collect_frame_pos {
            self.collect_frame_pos = self.main_stack.len();
        }
        let ghost before = self.main_stack@;
        let r = self.main_stack.pop();
        proof {
            if before.len() > 0 {
                lemma_vals_drop_last(before);
            }
        }
        r
    }

    fn pop_res(&mut self) -> (r: Result<CatValue, ExecError>)
        ensures
            final(self)@ == pop_main(old(self)@).0,
            match r {
                Ok(v) => pop_main(old(self)@).1 == Some(v@),
                Err(e) => pop_main(old(self)@).1 is None && e == ExecError::EmptyStack,
            },
    {
        match self.pop() {
            Some(v) => Ok(v),
            None => Err(ExecError::EmptyStack),
        }
    }

    /// A copy of the value `n` places below the top.
    fn copy_nth(&self, n: usize) -> (r: Result<CatValue, ExecError>)
        ensures
            match r {
                Ok(v) => n < self@.main.len() && v@ == self@.main[self@.main.len() - 1 - n],
                Err(e) => n >= self@.main.len() && e == ExecError::EmptyStack,
            },
    {
        if self.main_stack.len() <= n {
            Err(ExecError::EmptyStack)
        } else {
            Ok(self.main_stack[self.main_stack.len() - n - 1].duplicate())
        }
    }

    /// Exchanges the values `n1` and `n2` places below the top.
    fn swap(&mut self, n1: usize, n2: usize) -> (r: Result<(), ExecError>)
        ensures
            match r {
                Ok(_) => {
                    let len = old(self)@.main.len();
                    &&& n1 < len && n2 < len
                    &&& final(self)@ == (Machine {
                        main: old(self)@.main.update(len - 1 - n1, old(self)@.main[len - 1 - n2]).update(
                            len - 1 - n2,
                            old(self)@.main[len - 1 - n1],
                        ),
                        ..old(self)@
                    })
                },
                Err(e) => {
                    &&& n1 >= old(self)@.main.len() || n2 >= old(self)@.main.len()
                    &&& final(self)@ == old(self)@
                    &&& e == ExecError::EmptyStack
                },
            },
    {
        let len = self.main_stack.len();
        if len <= n1 || len <= n2 {
            return Err(ExecError::EmptyStack);
        }
        let i = len - n1 - 1;
        let j = len - n2 - 1;
        let ghost m = self.main_stack@;
        if i == j {
            assert(vals_of(m).update(i as int, vals_of(m)[j as int]).update(j as int, vals_of(m)[i as int]) =~= vals_of(m));
            return Ok(());
        }
        let mut tmp = CatValue::VInteger(0);
        self.main_stack.set_and_swap(i, &mut tmp);
        assert(tmp == m[i as int]);
        self.main_stack.set_and_swap(j, &mut tmp);
        assert(tmp == m[j as int]);
        assert(self.main_stack@[j as int] == m[i as int]);
        self.main_stack.set_and_swap(i, &mut tmp);
        assert(self.main_stack@ =~= m.update(i as int, m[j as int]).update(j as int, m[i as int]));
        proof {
            assert(vals_of(self.main_stack@) =~= vals_of(m).update(i as int, vals_of(m)[j as int]).update(
                j as int,
                vals_of(m)[i as int],
            ));
        }
        Ok(())
    }

    /// Pops two operands and pushes their sum.
    fn run_add(&mut self) -> (r: Result<(), ExecError>)
        ensures
            (final(self)@, r) == binary_step(old(self)@, true),
    {
        self.run_binary(true)
    }

    fn run_binary(&mut self, is_add: bool) -> (r: Result<(), ExecError>)
        ensures
            (final(self)@, r) == binary_step(old(self)@, is_add),
    {
        let v1 = match self.pop_res() {
            Ok(v) => v,
            Err(e) => return Err(e),
        };
        let v2 = match self.pop_res() {
            Ok(v) => v,
            Err(e) => return Err(e),
        };
        let res = if is_add {
            add_exec(&v2, &v1)
        } else {
            broadcast(BinOp::Mul, &v2, &v1)
        };
        match res {
            Ok(v) => {
                self.push(v);
                Ok(())
            },
            Err(e) => Err(e),
        }
    }

    fn replace_top(&mut self, res: Result<CatValue, ExecError>) -> (r: Result<(), ExecError>)
        requires
            old(self)@.main.len() > 0,
        ensures
            (final(self)@, r) == update_top(old(self)@, result_view(res)),
    {
        match res {
            Ok(v) => {
                let ghost m = self.main_stack@;
                let last = self.main_stack.len() - 1;
                self.main_stack.set(last, v);
                proof {
                    assert(vals_of(self.main_stack@) =~= vals_of(m).update(last as int, v@));
                }
                Ok(())
            },
            Err(e) => Err(e),
        }
    }

    fn run_top(&mut self, op: UnOp, sep: &String) -> (r: Result<(), ExecError>)
        ensures
            (final(self)@, r) == top_step(old(self)@, op, sep@),
    {
        let len = self.main_stack.len();
        if len == 0 {
            return Err(ExecError::EmptyStack);
        }
        let res = map_unary(op, &self.main_stack[len - 1], sep);
        self.replace_top(res)
    }

    fn run_separator(&mut self, split: bool) -> (r: Result<(), ExecError>)
        ensures
            (final(self)@, r) == separator_step(old(self)@, split),
    {
        let len = self.main_stack.len();
        if len == 0 {
            return Err(ExecError::EmptyStack);
        }
        let res = match &self.main_stack[len - 1] {
            CatValue::VString(t) => {
                if len < 2 {
                    return Err(ExecError::EmptyStack);
                }
                if split {
                    map_unary(UnOp::Split, &self.main_stack[len - 2], t)
                } else {
                    join(&self.main_stack[len - 2], t)
                }
            },
            _ => {
                return Err(
                    if split {
                        ExecError::SplitNeedsText
                    } else {
                        ExecError::JoinNeedsText
                    },
                );
            },
        };
        match res {
            Ok(v) => {
                let _ = self.pop();
                self.replace_top(Ok(v))
            },
            Err(e) => Err(e),
        }
    }

    fn run_capture(&mut self, command: &CatCommand) -> (r: Result<(), ExecError>)
        requires
            old(self).block_stack is Some,
        ensures
            (final(self)@, r) == capture_step(
                old(self)@,
                old(self)@.block->Some_0,
                command@,
            ),
    {
        let mut taken: Option<Vec<CatValue>> = None;
        std::mem::swap(&mut taken, &mut self.block_stack);
        let mut bl = taken.unwrap();
        let ghost b0 = bl@;
        match command {
            CatCommand::StartBlock => {
                if self.block_depth < u64::MAX {
                    let x = CatValue::VCommand(CatCommand::StartBlock);
                    proof {
                        lemma_vals_push(bl@, x);
                    }
                    bl.push(x);
                    self.block_depth = self.block_depth + 1;
                    self.block_stack = Some(bl);
                    Ok(())
                } else {
                    self.block_stack = Some(bl);
                    Err(ExecError::Overflow)
                }
            },
            CatCommand::CloseBlock => {
                if self.block_depth <= 1 {
                    self.block_depth = 0;
                    let v = CatValue::VStack(bl);
                    assert(v@->Stack_0 =~= vals_of(b0));
                    self.push(v);
                    Ok(())
                } else {
                    let x = CatValue::VCommand(CatCommand::CloseBlock);
                    proof {
                        lemma_vals_push(bl@, x);
                    }
                    bl.push(x);
                    self.block_depth = self.block_depth - 1;
                    self.block_stack = Some(bl);
                    Ok(())
                }
            },
            _ => {
                let x = CatValue::VCommand(command.duplicate());
                proof {
                    lemma_vals_push(bl@, x);
                }
                bl.push(x);
                self.block_stack = Some(bl);
                Ok(())
            },
        }
    }

    fn find_variable(&self, name: char) -> (r: Option<usize>)
        ensures
            match r {
                Some(k) => var_index(self@.vars, name) == k && k < self.variables@.len(),
                None => var_index(self@.vars, name) == -1,
            },
    {
        let mut i: usize = 0;
        while i < self.variables.len()
            invariant
                i <= self.variables@.len(),
                var_index(self@.vars, name) == var_index_from(self@.vars, name, i as int),
            decreases self.variables.len() - i,
        {
            if self.variables[i].0 == name {
                return Some(i);
            }
            i = i + 1;
        }
        None
    }

    fn run_bind(&mut self, name: char) -> (r: Result<(), ExecError>)
        requires
            old(self).block_stack is None,
        ensures
            (final(self)@, r) == step(old(self)@, Instr::PushVariable(name), 0),
    {
        let v = match self.pop_res() {
            Ok(v) => v,
            Err(e) => return Err(e),
        };
        let ghost vars = self.variables@;
        let ghost vv = v@;
        match self.find_variable(name) {
            Some(k) => {
                self.variables.set(k, (name, v));
                assert(vars_of(self.variables@) =~= vars_of(vars).update(k as int, (name, vv)));
            },
            None => {
                self.variables.push((name, v));
                assert(vars_of(self.variables@) =~= vars_of(vars).push((name, vv)));
            },
        }
        Ok(())
    }

    fn run_read_variable(&mut self, name: char, keep: bool) -> (r: Result<(), ExecError>)
        requires
            old(self).block_stack is None,
        ensures
            (final(self)@, r) == step(old(self)@, Instr::PopVariable(name, keep), 0),
    {
        match self.find_variable(name) {
            None => Err(ExecError::UnboundVariable),
            Some(k) => {
                let v = self.variables[k].1.duplicate();
                if !keep {
                    let ghost vars = self.variables@;
                    let _ = self.variables.remove(k);
                    assert(vars_of(self.variables@) =~= vars_of(vars).remove(k as int));
                }
                self.push(v);
                Ok(())
            },
        }
    }

    fn run_repeat_one(&mut self, count: &CatValue, func: &CatValue, fuel: u64) -> (r: Result<
        (),
        ExecError,
    >)
        ensures
            (final(self)@, r) == repeat_one(old(self)@, func@, count@, fuel as nat),
        decreases fuel, 4nat,
    {
        let n: i64 = match count {
            CatValue::VInteger(n) => *n,
            CatValue::VString(t) => match parse_i64(t) {
                Some(n) => n,
                None => return Err(ExecError::CountNotNumber),
            },
            _ => return Err(ExecError::CountNotInteger),
        };
        let ghost s0 = self@;
        let mut j: i64 = 0;
        while j < n
            invariant
                0 <= j,
                j <= n || j == 0,
                s0 == old(self)@,
                repeat_one(s0, func@, count@, fuel as nat) == repeat_loop(
                    s0,
                    func@,
                    count_of(n),
                    fuel as nat,
                ),
                (self@, Ok::<(), ExecError>(())) == repeat_loop(s0, func@, j as nat, fuel as nat),
            decreases n - j,
        {
            let rr = self.execute_value(func, fuel);
            match rr {
                Ok(()) => {
                    proof {
                        lemma_ok_unit(rr);
                    }
                },
                Err(e) => {
                    proof {
                        assert(repeat_loop(s0, func@, (j + 1) as nat, fuel as nat) == (
                            self@,
                            Err::<(), ExecError>(e),
                        ));
                        lemma_repeat_loop_err(s0, func@, (j + 1) as nat, count_of(n), fuel as nat);
                    }
                    return Err(e);
                },
            }
            j = j + 1;
        }
        Ok(())
    }

    /// Map's loop: one scoped run of `func` per element, results in order.
    fn map_elements(&mut self, func: &CatValue, values: &Vec<CatValue>, fuel: u64) -> (r: Result<
        Vec<CatValue>,
        ExecError,
    >)
        ensures
            final(self)@ == map_loop(old(self)@, func@, vals_of(values@), fuel as nat).0,
            match r {
                Ok(rs) => map_loop(old(self)@, func@, vals_of(values@), fuel as nat).1 == Ok::<
                    Seq<Val>,
                    ExecError,
                >(vals_of(rs@)),
                Err(e) => map_loop(old(self)@, func@, vals_of(values@), fuel as nat).1 == Err::<
                    Seq<Val>,
                    ExecError,
                >(e),
            },
        decreases fuel, 6nat,
    {
        let ghost es = vals_of(values@);
        let ghost s0 = self@;
        let mut results: Vec<CatValue> = Vec::new();
        let mut i: usize = 0;
        assert(es.take(0) =~= Seq::<Val>::empty());
        assert(vals_of(results@) =~= Seq::<Val>::empty());
        while i < values.len()
            invariant
                es == vals_of(values@),
                s0 == old(self)@,
                i <= values@.len(),
                map_loop(s0, func@, es.take(i as int), fuel as nat) == (
                    self@,
                    Ok::<Seq<Val>, ExecError>(vals_of(results@)),
                ),
            decreases values.len() - i,
        {
            proof {
                assert(es.take(i + 1).drop_last() =~= es.take(i as int));
            }
            let val = values[i].duplicate();
            let rr = self.collect_frame(Some(val), func, fuel);
            match rr {
                Ok(()) => {},
                Err(e) => {
                    proof {
                        assert(map_loop(s0, func@, es.take(i + 1), fuel as nat) == (
                            self@,
                            Err::<Seq<Val>, ExecError>(e),
                        ));
                        lemma_map_loop_err(s0, func@, es, i + 1, fuel as nat);
                    }
                    return Err(e);
                },
            }
            let top = match self.pop() {
                Some(v) => v,
                None => {
                    proof {
                        assert(map_loop(s0, func@, es.take(i + 1), fuel as nat) == (
                            self@,
                            Err::<Seq<Val>, ExecError>(ExecError::EmptyStack),
                        ));
                        lemma_map_loop_err(s0, func@, es, i + 1, fuel as nat);
                    }
                    return Err(ExecError::EmptyStack);
                },
            };
            let item = unwrap_single_value(top);
            proof {
                lemma_vals_push(results@, item);
            }
            results.push(item);
            i = i + 1;
        }
        assert(es.take(i as int) =~= es);
        Ok(results)
    }

    fn run_map(&mut self, fuel: u64) -> (r: Result<(), ExecError>)
        requires
            old(self).block_stack is None,
        ensures
            (final(self)@, r) == step(old(self)@, Instr::MapOver, fuel as nat),
        decreases fuel, 0nat,
    {
        let func = match self.pop_res() {
            Ok(v) => v,
            Err(e) => return Err(e),
        };
        let src = match self.pop_res() {
            Ok(v) => v,
            Err(e) => return Err(e),
        };
        let values = match source_values(src) {
            Some(vs) => vs,
            None => return Err(ExecError::NotCollection),
        };
        if fuel == 0 {
            return Err(ExecError::NestingTooDeep);
        }
        match self.map_elements(&func, &values, fuel - 1) {
            Ok(results) => {
                let out = CatValue::VStack(results);
                assert(out@->Stack_0 =~= vals_of(results@));
                self.push(out);
                Ok(())
            },
            Err(e) => Err(e),
        }
    }

    /// For-each's loop: push each element and run `func`.
    fn foreach_elements(&mut self, func: &CatValue, values: &Vec<CatValue>, fuel: u64) -> (r:
        Result<(), ExecError>)
        ensures
            (final(self)@, r) == foreach_loop(old(self)@, func@, vals_of(values@), fuel as nat),
        decreases fuel, 5nat,
    {
        let ghost es = vals_of(values@);
        let ghost s0 = self@;
        let mut i: usize = 0;
        assert(es.take(0) =~= Seq::<Val>::empty());
        while i < values.len()
            invariant
                es == vals_of(values@),
                s0 == old(self)@,
                i <= values@.len(),
                foreach_loop(s0, func@, es.take(i as int), fuel as nat) == (
                    self@,
                    Ok::<(), ExecError>(()),
                ),
            decreases values.len() - i,
        {
            proof {
                assert(es.take(i + 1).drop_last() =~= es.take(i as int));
            }
            let val = values[i].duplicate();
            self.push(val);
            let rr = self.execute_value(func, fuel);
            match rr {
                Ok(()) => {
                    proof {
                        lemma_ok_unit(rr);
                    }
                },
                Err(e) => {
                    proof {
                        assert(foreach_loop(s0, func@, es.take(i + 1), fuel as nat) == (
                            self@,
                            Err::<(), ExecError>(e),
                        ));
                        lemma_foreach_loop_err(s0, func@, es, i + 1, fuel as nat);
                    }
                    return Err(e);
                },
            }
            i = i + 1;
        }
        assert(es.take(i as int) =~= es);
        Ok(())
    }

    fn run_foreach(&mut self, fuel: u64) -> (r: Result<(), ExecError>)
        requires
            old(self).block_stack is None,
        ensures
            (final(self)@, r) == step(old(self)@, Instr::ForEach, fuel as nat),
        decreases fuel, 0nat,
    {
        let func = match self.pop_res() {
            Ok(v) => v,
            Err(e) => return Err(e),
        };
        let src = match self.pop_res() {
            Ok(v) => v,
            Err(e) => return Err(e),
        };
        let values = match source_values(src) {
            Some(vs) => vs,
            None => return Err(ExecError::NotCollection),
        };
        if fuel == 0 {
            return Err(ExecError::NestingTooDeep);
        }
        self.foreach_elements(&func, &values, fuel - 1)
    }

    /// Repeat with a stack of counts: one round per count, in order.
    fn repeat_counts(&mut self, func: &CatValue, counts: &Vec<CatValue>, fuel: u64) -> (r: Result<
        (),
        ExecError,
    >)
        ensures
            (final(self)@, r) == repeat_each(old(self)@, func@, vals_of(counts@), fuel as nat),
        decreases fuel, 6nat,
    {
        let ghost cs = vals_of(counts@);
        let ghost s0 = self@;
        let mut i: usize = 0;
        assert(cs.take(0) =~= Seq::<Val>::empty());
        while i < counts.len()
            invariant
                cs == vals_of(counts@),
                s0 == old(self)@,
                i <= counts@.len(),
                repeat_each(s0, func@, cs.take(i as int), fuel as nat) == (
                    self@,
                    Ok::<(), ExecError>(()),
                ),
            decreases counts.len() - i,
        {
            proof {
                assert(cs.take(i + 1).drop_last() =~= cs.take(i as int));
            }
            let rr = self.run_repeat_one(&counts[i], func, fuel);
            match rr {
                Ok(()) => {
                    proof {
                        lemma_ok_unit(rr);
                    }
                },
                Err(e) => {
                    proof {
                        assert(repeat_each(s0, func@, cs.take(i + 1), fuel as nat) == (
                            self@,
                            Err::<(), ExecError>(e),
                        ));
                        lemma_repeat_each_err(s0, func@, cs, i + 1, fuel as nat);
                    }
                    return Err(e);
                },
            }
            i = i + 1;
        }
        assert(cs.take(i as int) =~= cs);
        Ok(())
    }

    fn run_repeat(&mut self, fuel: u64) -> (r: Result<(), ExecError>)
        requires
            old(self).block_stack is None,
        ensures
            (final(self)@, r) == step(old(self)@, Instr::Repeat, fuel as nat),
        decreases fuel, 0nat,
    {
        let func = match self.pop_res() {
            Ok(v) => v,
            Err(e) => return Err(e),
        };
        let count = match self.pop_res() {
            Ok(v) => v,
            Err(e) => return Err(e),
        };
        if fuel == 0 {
            return Err(ExecError::NestingTooDeep);
        }
        match &count {
            CatValue::VStack(counts) => {
                assert(count@->Stack_0 =~= vals_of(counts@));
                self.repeat_counts(&func, counts, fuel - 1)
            },
            _ => self.run_repeat_one(&count, &func, fuel - 1),
        }
    }

    /// Literals, block openings and closings, reading and writing.
    fn run_basic(&mut self, command: &CatCommand, fuel: u64) -> (r: Result<(), ExecError>)
        requires
            old(self).block_stack is None,
            command is StartBlock || command is CloseBlock || command is CreateString
                || command is CreateInteger || command is CreateCommand || command is ReadLine
                || command is WriteLine || command is Write,
        ensures
            (final(self)@, r) == step(old(self)@, command@, fuel as nat),
    {
        match command {
            CatCommand::StartBlock => {
                self.block_stack = Some(Vec::new());
                self.block_depth = 1;
                assert(vals_of(Seq::<CatValue>::empty()) =~= Seq::<Val>::empty());
                Ok(())
            },
            CatCommand::CloseBlock => Err(ExecError::ClosingOutsideBlock),
            CatCommand::CreateString(v) => {
                self.push(CatValue::VString(v.clone()));
                Ok(())
            },
            CatCommand::CreateInteger(v) => {
                self.push(CatValue::VInteger(*v));
                Ok(())
            },
            CatCommand::CreateCommand(v) => {
                self.push(CatValue::VCommand(v.duplicate()));
                Ok(())
            },
            CatCommand::ReadLine => {
                if self.input_pos < self.input.len() {
                    let line = self.input[self.input_pos].clone();
                    assert(texts_view(self.input@)[self.input_pos as int] == line@);
                    self.input_pos = self.input_pos + 1;
                    self.push(CatValue::VString(line));
                } else {
                    self.push(CatValue::VString(String::new()));
                }
                Ok(())
            },
            CatCommand::WriteLine | CatCommand::Write => {
                let v = match self.pop_res() {
                    Ok(v) => v,
                    Err(e) => return Err(e),
                };
                let mut t = v.stringify();
                let ghost shown = t@;
                if let CatCommand::WriteLine = command {
                    push_char(&mut t, '\n');
                    assert(t@ =~= shown + seq!['\n']);
                }
                let ghost before = self.output@;
                self.output.push(t);
                assert(texts_view(self.output@) =~= texts_view(before).push(t@));
                Ok(())
            },
            _ => Err(ExecError::EmptyStack),
        }
    }

    /// Stack shuffling and the side stack.
    fn run_shuffle(&mut self, command: &CatCommand, fuel: u64) -> (r: Result<(), ExecError>)
        requires
            old(self).block_stack is None,
            command is Duplicate || command is DuplicateSecond || command is Drop
                || command is Rotate || command is PushSide || command is PopSide
                || command is ConsumeSide,
        ensures
            (final(self)@, r) == step(old(self)@, command@, fuel as nat),
    {
        match command {
            CatCommand::Duplicate => {
                let item = match self.copy_nth(0) {
                    Ok(v) => v,
                    Err(e) => return Err(e),
                };
                self.push(item);
                Ok(())
            },
            CatCommand::DuplicateSecond => {
                let item = match self.copy_nth(1) {
                    Ok(v) => v,
                    Err(e) => return Err(e),
                };
                let ghost m = self@.main;
                self.push(item);
                let rr = self.swap(1, 0);
                match rr {
                    Ok(()) => {
                        proof {
                            lemma_ok_unit(rr);
                        }
                    },
                    Err(e) => return Err(e),
                }
                assert(self@.main =~= m.drop_last().push(m[m.len() - 2]).push(m.last()));
                Ok(())
            },
            CatCommand::Drop => {
                match self.pop_res() {
                    Ok(_) => Ok(()),
                    Err(e) => Err(e),
                }
            },
            CatCommand::Rotate(n) => {
                let n = *n;
                if n == 0 {
                    return Ok(());
                }
                let len = self.main_stack.len();
                if len < n {
                    return Err(ExecError::EmptyStack);
                }
                let ghost m = self.main_stack@;
                let item = self.main_stack.remove(len - n);
                self.main_stack.push(item);
                proof {
                    assert(vals_of(self.main_stack@) =~= rotated(vals_of(m), n as nat));
                }
                Ok(())
            },
            CatCommand::PushSide => {
                let item = match self.copy_nth(0) {
                    Ok(v) => v,
                    Err(e) => return Err(e),
                };
                proof {
                    lemma_vals_push(self.side_stack@, item);
                }
                self.side_stack.push(item);
                Ok(())
            },
            CatCommand::PopSide => {
                let ghost sd = self.side_stack@;
                let item = match self.side_stack.pop() {
                    Some(v) => v,
                    None => return Err(ExecError::EmptySideStack),
                };
                proof {
                    lemma_vals_drop_last(sd);
                }
                self.push(item);
                Ok(())
            },
            CatCommand::ConsumeSide => {
                let mut new_stack: Vec<CatValue> = Vec::new();
                std::mem::swap(&mut new_stack, &mut self.side_stack);
                let v = CatValue::VStack(new_stack);
                assert(vals_of(self.side_stack@) =~= Seq::<Val>::empty());
                assert(v@->Stack_0 =~= vals_of(new_stack@));
                self.push(v);
                Ok(())
            },
            _ => Err(ExecError::EmptyStack),
        }
    }

    /// One instruction at nesting budget `fuel`, as `step` states.
    #[verifier::rlimit(100)]
    fn dispatch(&mut self, command: &CatCommand, fuel: u64) -> (r: Result<(), ExecError>)
        ensures
            (final(self)@, r) == step(old(self)@, command@, fuel as nat),
        decreases fuel, 1nat,
    {
        if self.block_stack.is_some() {
            assert(self@.block is Some);
            assert(step(self@, command@, fuel as nat) == capture_step(
                self@,
                self@.block->Some_0,
                command@,
            ));
            return self.run_capture(command);
        }
        match command {
            CatCommand::Add => self.run_add(),
            CatCommand::Multiply => self.run_binary(false),
            CatCommand::Execute => {
                let val = match self.pop_res() {
                    Ok(v) => v,
                    Err(e) => return Err(e),
                };
                if fuel == 0 {
                    return Err(ExecError::NestingTooDeep);
                }
                self.execute_value(&val, fuel - 1)
            },
            CatCommand::ExecuteScoped => {
                let val = match self.pop_res() {
                    Ok(v) => v,
                    Err(e) => return Err(e),
                };
                if fuel == 0 {
                    return Err(ExecError::NestingTooDeep);
                }
                self.collect_frame(None, &val, fuel - 1)
            },
            CatCommand::MapOver => self.run_map(fuel),
            CatCommand::ForEach => self.run_foreach(fuel),
            CatCommand::Repeat => self.run_repeat(fuel),
            CatCommand::Split => self.run_separator(true),
            CatCommand::Join => self.run_separator(false),
            CatCommand::ToInteger => self.run_top(UnOp::ToInteger, &String::new()),
            CatCommand::Range => self.run_top(UnOp::Range, &String::new()),
            CatCommand::PushVariable(name) => self.run_bind(*name),
            CatCommand::PopVariable(name, keep) => self.run_read_variable(*name, *keep),
            CatCommand::StartBlock | CatCommand::CloseBlock | CatCommand::CreateString(_)
            | CatCommand::CreateInteger(_) | CatCommand::CreateCommand(_) | CatCommand::ReadLine
            | CatCommand::WriteLine | CatCommand::Write => self.run_basic(command, fuel),
            _ => self.run_shuffle(command, fuel),
        }
    }
}

} // verus!
