//! Rendering trace records as indented lines of text.
use vstd::prelude::*;

use crate::command::instr_name;
use crate::interpreter::{frame_of, ExecFrame};
use crate::semantics::Frame;
use crate::text::push_str;
use crate::value::{debug_display, CatValue, Val};

verus! {

/// `n` spaces.
pub open spec fn spaces(n: nat) -> Seq<char> {
    Seq::new(n, |i: int| ' ')
}

/// `s` padded with spaces to at least `width` characters.
pub open spec fn pad(s: Seq<char>, width: nat) -> Seq<char> {
    if s.len() >= width {
        s
    } else {
        s + spaces((width - s.len()) as nat)
    }
}

/// A long text shortened to `...` and its last 37 characters.
pub open spec fn clip(s: Seq<char>) -> Seq<char> {
    if s.len() > 37 {
        "..."@ + s.skip(s.len() - 37)
    } else {
        s
    }
}

pub open spec fn marker(reading: bool) -> Seq<char> {
    if reading {
        "(read)"@
    } else {
        "      "@
    }
}

/// The line that shows one record at nesting depth `depth`.
pub open spec fn frame_line(f: Frame, depth: nat) -> Seq<char> {
    ">  "@ + pad(spaces(2 * depth) + instr_name(f.command), 40) + " "@ + marker(f.reading)
        + " | Stack before: "@ + pad(clip(debug_display(Val::Stack(f.before))), 40)
        + " | Stack after: "@ + debug_display(Val::Stack(f.after))
}

/// The depth one level further in, held at the largest depth whose indentation fits in
/// memory.
pub open spec fn deeper(depth: nat) -> nat {
    if depth < usize::MAX / 2 {
        depth + 1
    } else {
        depth
    }
}

/// A record's line, then the lines of the records it holds, one level deeper.
pub open spec fn frame_lines(f: Frame, depth: nat) -> Seq<Seq<char>>
    decreases f, 1nat,
{
    seq![frame_line(f, depth)] + frames_lines(f.inner, deeper(depth))
}

pub open spec fn frames_lines(fs: Seq<Frame>, depth: nat) -> Seq<Seq<char>>
    decreases fs, 0nat,
{
    if fs.len() == 0 {
        Seq::empty()
    } else {
        frames_lines(fs.drop_last(), depth) + frame_lines(fs[fs.len() - 1], depth)
    }
}

fn push_spaces(out: &mut String, n: usize)
    ensures
        final(out)@ == old(out)@ + spaces(n as nat),
{
    let mut i: usize = 0;
    while i < n
        invariant
            i <= n,
            out@ == old(out)@ + spaces(i as nat),
        decreases n - i,
    {
        crate::text::push_char(out, ' ');
        i = i + 1;
        assert(out@ =~= old(out)@ + spaces(i as nat));
    }
}

fn char_count(s: &String) -> (r: usize)
    ensures
        r == s@.len(),
{
    s.as_str().unicode_len()
}

fn padded(s: String, width: usize) -> (r: String)
    ensures
        r@ == pad(s@, width as nat),
{
    let n = char_count(&s);
    let mut out = s;
    if n < width {
        push_spaces(&mut out, width - n);
    }
    out
}

fn clipped(s: String) -> (r: String)
    ensures
        r@ == clip(s@),
{
    let n = char_count(&s);
    if n > 37 {
        let cs = crate::text::chars_of(s.as_str());
        let tail = crate::text::string_of_chars(&cs, n - 37, n);
        let mut out = String::new();
        push_str(&mut out, "...");
        push_str(&mut out, tail.as_str());
        proof {
            reveal_strlit("...");
            assert(out@ =~= "..."@ + s@.skip(s@.len() - 37));
        }
        out
    } else {
        s
    }
}

fn stack_text(values: &Vec<CatValue>) -> (r: String)
    ensures
        r@ == debug_display(Val::Stack(crate::value::vals_of(values@))),
{
    let copy = crate::interpreter::copy_values(values);
    let v = CatValue::VStack(copy);
    assert(v@->Stack_0 =~= crate::value::vals_of(copy@));
    v.debug_stringify()
}

/// The line that shows `frame` at nesting depth `depth`.
pub fn render_frame_line(frame: &ExecFrame, depth: usize) -> (r: String)
    requires
        depth <= usize::MAX / 2,
    ensures
        r@ == frame_line(frame_of(frame), depth as nat),
{
    let mut head = String::new();
    push_spaces(&mut head, 2 * depth);
    let name = frame.command.name();
    push_str(&mut head, name.as_str());
    let head = padded(head, 40);
    let before = padded(clipped(stack_text(&frame.stack_before)), 40);
    let after = stack_text(&frame.stack_after);
    let mut out = String::new();
    push_str(&mut out, ">  ");
    push_str(&mut out, head.as_str());
    push_str(&mut out, " ");
    if frame.reading {
        push_str(&mut out, "(read)");
    } else {
        push_str(&mut out, "      ");
    }
    push_str(&mut out, " | Stack before: ");
    push_str(&mut out, before.as_str());
    push_str(&mut out, " | Stack after: ");
    push_str(&mut out, after.as_str());
    proof {
        reveal_strlit(">  ");
        assert(Seq::<char>::empty() + ">  "@ =~= ">  "@);
    }
    out
}

/// The lines that show `frame` and, indented one level further each time, the records it
/// holds, in order.
pub fn render_frame(frame: &ExecFrame, depth: usize) -> (r: Vec<String>)
    requires
        depth <= usize::MAX / 2,
    ensures
        crate::text::texts_view(r@) == frame_lines(frame_of(frame), depth as nat),
    decreases frame,
{
    let mut out: Vec<String> = Vec::new();
    out.push(render_frame_line(frame, depth));
    let mut i: usize = 0;
    let ghost fv = frame_of(frame);
    assert(crate::text::texts_view(out@) =~= seq![frame_line(fv, depth as nat)]);
    assert(fv.inner.take(0) =~= Seq::<Frame>::empty());
    while i < frame.inner_frames.len()
        invariant
            fv == frame_of(frame),
            i <= frame.inner_frames@.len(),
            depth <= usize::MAX / 2,
            crate::text::texts_view(out@) == seq![frame_line(fv, depth as nat)] + frames_lines(
                fv.inner.take(i as int),
                deeper(depth as nat),
            ),
        decreases frame.inner_frames.len() - i,
    {
        proof {
            assert(decreases_to!(*frame => frame.inner_frames));
            assert(decreases_to!(frame.inner_frames => frame.inner_frames@));
            assert(decreases_to!(frame.inner_frames@ => frame.inner_frames@[i as int]));
            assert(fv.inner[i as int] == frame_of(&frame.inner_frames@[i as int]));
            assert(fv.inner.take(i + 1).drop_last() =~= fv.inner.take(i as int));
        }
        let next = if depth < usize::MAX / 2 {
            depth + 1
        } else {
            depth
        };
        let lines = render_frame(&frame.inner_frames[i], next);
        let mut k: usize = 0;
        let ghost base = crate::text::texts_view(out@);
        while k < lines.len()
            invariant
                k <= lines@.len(),
                crate::text::texts_view(out@) == base + crate::text::texts_view(lines@).take(
                    k as int,
                ),
            decreases lines.len() - k,
        {
            let line = lines[k].clone();
            let ghost before = out@;
            out.push(line);
            assert(crate::text::texts_view(out@) =~= crate::text::texts_view(before).push(line@));
            assert(crate::text::texts_view(lines@)[k as int] == line@);
            assert(crate::text::texts_view(out@) =~= base + crate::text::texts_view(lines@).take(
                k + 1,
            ));
            k = k + 1;
        }
        assert(crate::text::texts_view(lines@).take(k as int) =~= crate::text::texts_view(
            lines@,
        ));
        i = i + 1;
    }
    assert(fv.inner.take(i as int) =~= fv.inner);
    out
}

} // verus!
