//! Properties that hold of the language as a whole, proved from the specifications.
use vstd::prelude::*;

use crate::command::Instr;
use crate::error::ExecError;
use crate::grammar::{advance, digits_end, is_space, literal_value, parse_loop, read_digit, read_one, read_string, string_scan, PState, ParseError, ReadResult, Stops};
use crate::ops::{add_values, bcast, bcast_left, BinOp};
use crate::semantics::{
    collect_end, collect_start, map_loop, pop_main, push_main, run_value, scoped, step,
    unwrap_single, Machine,
};
use crate::text::{
    all_digits, digit_char, digit_value, digits_value, escape_newlines, is_digit, quoted_text,
    text_of_int, text_of_nat,
};
use crate::value::Val;

verus! {

/// Adding two integers gives their sum in either order; adding an integer and a text joins
/// the integer's decimal text and the text, each on its own side.
pub proof fn law_addition(a: i64, b: i64, t: Seq<char>)
    requires
        i64::MIN <= a + b <= i64::MAX,
    ensures
        add_values(Val::Int(a), Val::Int(b)) == Ok::<Val, ExecError>(Val::Int((a + b) as i64)),
        add_values(Val::Int(a), Val::Int(b)) == add_values(Val::Int(b), Val::Int(a)),
        add_values(Val::Int(a), Val::Text(t)) == Ok::<Val, ExecError>(
            Val::Text(text_of_int(a as int) + t),
        ),
        add_values(Val::Text(t), Val::Int(a)) == Ok::<Val, ExecError>(
            Val::Text(t + text_of_int(a as int)),
        ),
{
}

/// Running `+` with two operands pushed on a machine that is not capturing a block
/// replaces them with their sum, for any operands whose sum is defined: with
/// `law_addition`, `a b +` leaves `a + b` and `a " " +` leaves `a`'s text followed by a space.
pub proof fn law_add_on_machine(s: Machine, l: Val, r: Val, fuel: nat)
    requires
        s.block is None,
        s.floor <= s.main.len() + 1,
        add_values(l, r) is Ok,
    ensures
        step(push_main(push_main(s, l), r), Instr::Add, fuel) == (
            push_main(s, add_values(l, r)->Ok_0),
            Ok::<(), ExecError>(()),
        ),
{
    let s2 = push_main(push_main(s, l), r);
    let (s3, x) = pop_main(s2);
    assert(s3.main =~= s.main.push(l));
    let (s4, y) = pop_main(s3);
    assert(s4.main =~= s.main);
    assert(s4 == s);
}

proof fn lemma_text_of_nat(n: nat)
    ensures
        text_of_nat(n).len() > 0,
        all_digits(text_of_nat(n)),
        digits_value(text_of_nat(n)) == n,
    decreases n,
{
    let s = text_of_nat(n);
    if n < 10 {
        assert(s == seq![digit_char(n as int)]);
        assert(s.drop_last() =~= Seq::<char>::empty());
        assert(digits_value(s.drop_last()) == 0);
        assert(s.last() == digit_char(n as int));
        assert(digit_value(digit_char(n as int)) == n);
        assert(digits_value(s) == digits_value(s.drop_last()) * 10 + digit_value(s.last()));
    } else {
        lemma_text_of_nat(n / 10);
        let p = text_of_nat(n / 10);
        let d = digit_char((n % 10) as int);
        assert(s == p + seq![d]);
        assert(s.drop_last() =~= p);
        assert(s.last() == d);
        assert(digit_value(d) == n % 10);
        assert(digits_value(s) == digits_value(s.drop_last()) * 10 + digit_value(s.last()));
        assert((n / 10) * 10 + n % 10 == n);
        assert forall|i: int| 0 <= i < s.len() implies is_digit(#[trigger] s[i]) by {
            if i < p.len() {
                assert(s[i] == p[i]);
            }
        }
    }
}

proof fn lemma_digits_end_all(s: Seq<char>, i: int)
    requires
        all_digits(s),
        0 <= i <= s.len(),
    ensures
        digits_end(s, i) == s.len(),
    decreases s.len() - i,
{
    if i < s.len() {
        lemma_digits_end_all(s, i + 1);
    }
}

/// The state in which reading a fresh program starts.
pub open spec fn fresh(text: Seq<char>) -> PState {
    PState { text: text, pos: 0, cmds: Seq::empty(), known: Seq::empty(), ws: false }
}

/// Reading the decimal text of a non-negative integer gives exactly one instruction, and
/// running it on a machine that is not capturing a block pushes that integer.
pub proof fn law_integer_round_trip(n: i64, m: Machine, fuel: nat)
    requires
        n >= 0,
        m.block is None,
    ensures
        parse_loop(fresh(text_of_int(n as int))).1 == Ok::<(), ParseError>(()),
        parse_loop(fresh(text_of_int(n as int))).0.cmds == seq![Instr::CreateInteger(n)],
        step(m, Instr::CreateInteger(n), fuel) == (
            push_main(m, Val::Int(n)),
            Ok::<(), ExecError>(()),
        ),
{
    let t = text_of_int(n as int);
    lemma_text_of_nat(n as nat);
    lemma_digits_end_all(t, 0);
    let st = fresh(t);
    let c = t[0];
    assert(is_digit(c));
    assert(!is_space(c));
    assert(t.subrange(0, t.len() as int) =~= t);
    assert(literal_value(t) == n);
    let st0 = PState { ws: false, ..st };
    assert(st0 == st);
    let st1 = read_digit(st0);
    assert(st1.cmds =~= seq![Instr::CreateInteger(n)]);
    assert(read_one(st, Stops::Nothing) == (st1, ReadResult::Read));
    assert(read_one(st1, Stops::Nothing) == (st1, ReadResult::Done));
    assert(parse_loop(st1) == (st1, Ok::<(), ParseError>(())));
}

/// Whether `t` holds none of the characters that a quoted text treats specially.
pub open spec fn plain_text(t: Seq<char>) -> bool {
    forall|i: int| 0 <= i < t.len() ==> #[trigger] t[i] != '"' && t[i] != '\\' && t[i] != '\n'
}

proof fn lemma_escape_plain(t: Seq<char>)
    requires
        plain_text(t),
    ensures
        escape_newlines(t) == t,
    decreases t.len(),
{
    if t.len() > 0 {
        assert(plain_text(t.drop_last()));
        lemma_escape_plain(t.drop_last());
        assert(t.last() == t[t.len() - 1]);
        assert(t.drop_last().push(t.last()) =~= t);
    }
}

proof fn lemma_scan_plain(s: Seq<char>, start: int, i: int, len: int)
    requires
        0 <= start <= i <= start + len,
        start + len < s.len(),
        s[start + len] == '"',
        forall|j: int| start <= j < start + len ==> #[trigger] s[j] != '"' && s[j] != '\\',
    ensures
        string_scan(s, i, s.subrange(start, i)) == (start + len + 1, s.subrange(start, start + len)),
    decreases start + len - i,
{
    if i < start + len {
        assert(s.subrange(start, i).push(s[i]) =~= s.subrange(start, i + 1));
        lemma_scan_plain(s, start, i + 1, len);
    }
}

/// Reading the quoted display of a text without quotes, backslashes or newlines gives
/// exactly one instruction, and running it on a machine that is not capturing a block
/// pushes that text.
pub proof fn law_text_round_trip(t: Seq<char>, m: Machine, fuel: nat)
    requires
        plain_text(t),
        m.block is None,
    ensures
        parse_loop(fresh(quoted_text(t))).1 == Ok::<(), ParseError>(()),
        parse_loop(fresh(quoted_text(t))).0.cmds == seq![Instr::CreateString(t)],
        step(m, Instr::CreateString(t), fuel) == (
            push_main(m, Val::Text(t)),
            Ok::<(), ExecError>(()),
        ),
{
    lemma_escape_plain(t);
    let q = quoted_text(t);
    assert(q =~= seq!['"'] + t + seq!['"']);
    let st = fresh(q);
    assert(q[0] == '"');
    assert(!is_space('"'));
    assert forall|j: int| 1 <= j < 1 + t.len() implies #[trigger] q[j] != '"' && q[j] != '\\' by {
        assert(q[j] == t[j - 1]);
    }
    assert(q[1 + t.len() as int] == '"');
    assert(q.subrange(1, 1) =~= Seq::<char>::empty());
    lemma_scan_plain(q, 1, 1, t.len() as int);
    assert(q.subrange(1, 1 + t.len() as int) =~= t);
    let st0 = PState { ws: false, ..st };
    assert(st0 == st);
    let st1 = read_string(advance(st0));
    assert(st1.pos == q.len());
    assert(st1.cmds =~= seq![Instr::CreateString(t)]);
    assert(read_one(st, Stops::Nothing) == (st1, ReadResult::Read));
    assert(read_one(st1, Stops::Nothing) == (st1, ReadResult::Done));
    assert(parse_loop(st1) == (st1, Ok::<(), ParseError>(())));
}

/// A text's literal: each quote and backslash gets a backslash before it.
pub open spec fn escape_quotes(t: Seq<char>) -> Seq<char>
    decreases t.len(),
{
    if t.len() == 0 {
        Seq::empty()
    } else {
        (if t[0] == '"' || t[0] == '\\' {
            seq!['\\', t[0]]
        } else {
            seq![t[0]]
        }) + escape_quotes(t.skip(1))
    }
}

/// The source text that writes `t` as a text literal.
pub open spec fn text_literal(t: Seq<char>) -> Seq<char> {
    seq!['"'] + escape_quotes(t) + seq!['"']
}

proof fn lemma_scan_escaped(s: Seq<char>, i: int, t: Seq<char>, buf: Seq<char>)
    requires
        0 <= i,
        i + escape_quotes(t).len() < s.len(),
        s.subrange(i, i + escape_quotes(t).len()) == escape_quotes(t),
        s[i + escape_quotes(t).len()] == '"',
    ensures
        string_scan(s, i, buf) == (i + escape_quotes(t).len() + 1, buf + t),
    decreases t.len(),
{
    let e = escape_quotes(t);
    if t.len() == 0 {
        assert(buf + t =~= buf);
    } else {
        let rest = t.skip(1);
        let er = escape_quotes(rest);
        let c = t[0];
        if c == '"' || c == '\\' {
            assert(e == seq!['\\', c] + er);
            assert(s[i] == e[0]);
            assert(s[i + 1] == e[1]);
            assert(s.subrange(i + 2, i + 2 + er.len()) =~= er) by {
                assert forall|j: int| 0 <= j < er.len() implies s.subrange(i + 2, i + 2 + er.len())[j]
                    == er[j] by {
                    assert(s[i + 2 + j] == s.subrange(i, i + e.len())[2 + j]);
                }
            }
            lemma_scan_escaped(s, i + 2, rest, buf.push(c));
            assert(buf.push(c) + rest =~= buf + t);
        } else {
            assert(e == seq![c] + er);
            assert(s[i] == e[0]);
            assert(s.subrange(i + 1, i + 1 + er.len()) =~= er) by {
                assert forall|j: int| 0 <= j < er.len() implies s.subrange(i + 1, i + 1 + er.len())[j]
                    == er[j] by {
                    assert(s[i + 1 + j] == s.subrange(i, i + e.len())[1 + j]);
                }
            }
            lemma_scan_escaped(s, i + 1, rest, buf.push(c));
            assert(buf.push(c) + rest =~= buf + t);
        }
    }
}

/// Reading the literal of any text gives exactly one instruction, and running it on a
/// machine that is not capturing a block pushes that text.
pub proof fn law_text_literal_round_trip(t: Seq<char>, m: Machine, fuel: nat)
    requires
        m.block is None,
    ensures
        parse_loop(fresh(text_literal(t))).1 == Ok::<(), ParseError>(()),
        parse_loop(fresh(text_literal(t))).0.cmds == seq![Instr::CreateString(t)],
        step(m, Instr::CreateString(t), fuel) == (
            push_main(m, Val::Text(t)),
            Ok::<(), ExecError>(()),
        ),
{
    let e = escape_quotes(t);
    let q = text_literal(t);
    let st = fresh(q);
    assert(q[0] == '"');
    assert(!is_space('"'));
    assert(q.subrange(1, 1 + e.len() as int) =~= e);
    assert(q[1 + e.len() as int] == '"');
    lemma_scan_escaped(q, 1, t, Seq::empty());
    assert(Seq::<char>::empty() + t =~= t);
    let st0 = PState { ws: false, ..st };
    assert(st0 == st);
    let st1 = read_string(advance(st0));
    assert(st1.pos == q.len());
    assert(st1.cmds =~= seq![Instr::CreateString(t)]);
    assert(read_one(st, Stops::Nothing) == (st1, ReadResult::Read));
    assert(read_one(st1, Stops::Nothing) == (st1, ReadResult::Done));
    assert(parse_loop(st1) == (st1, Ok::<(), ParseError>(())));
}

proof fn lemma_bcast_left(op: BinOp, vs: Seq<Val>, s: Val, rs: Seq<Val>)
    ensures
        bcast_left(op, vs, s) == Ok::<Seq<Val>, ExecError>(rs) <==> (rs.len() == vs.len() && forall|
            i: int,
        |
            0 <= i < vs.len() ==> bcast(op, vs[i], s) == Ok::<Val, ExecError>(#[trigger] rs[i])),
    decreases vs.len(),
{
    if vs.len() == 0 {
        if rs.len() == 0 {
            assert(rs =~= Seq::<Val>::empty());
        }
        return;
    }
    let last = vs[vs.len() - 1];
    let prefix = bcast_left(op, vs.drop_last(), s);
    if bcast_left(op, vs, s) == Ok::<Seq<Val>, ExecError>(rs) {
        assert(prefix is Ok);
        let xs = prefix->Ok_0;
        assert(bcast(op, last, s) is Ok);
        assert(rs == xs.push(bcast(op, last, s)->Ok_0));
        lemma_bcast_left(op, vs.drop_last(), s, xs);
        assert forall|i: int| 0 <= i < vs.len() implies bcast(op, vs[i], s) == Ok::<
            Val,
            ExecError,
        >(#[trigger] rs[i]) by {
            if i < vs.len() - 1 {
                assert(vs.drop_last()[i] == vs[i]);
                assert(xs[i] == rs[i]);
            }
        }
    }
    if rs.len() == vs.len() && forall|i: int|
        0 <= i < vs.len() ==> bcast(op, vs[i], s) == Ok::<Val, ExecError>(#[trigger] rs[i]) {
        let xs = rs.drop_last();
        assert forall|i: int| 0 <= i < vs.drop_last().len() implies bcast(
            op,
            vs.drop_last()[i],
            s,
        ) == Ok::<Val, ExecError>(#[trigger] xs[i]) by {
            assert(vs.drop_last()[i] == vs[i]);
            assert(xs[i] == rs[i]);
        }
        lemma_bcast_left(op, vs.drop_last(), s, xs);
        assert(xs.push(rs[rs.len() - 1]) =~= rs);
    }
}

/// A binary operator with a stack on the left and a scalar on the right gives the stack of
/// the operator applied to each element and the scalar, in order; it fails if and only if
/// one of those fails.
pub proof fn law_broadcast(op: BinOp, vs: Seq<Val>, s: Val, rs: Seq<Val>)
    requires
        !(s is Stack),
    ensures
        bcast(op, Val::Stack(vs), s) == Ok::<Val, ExecError>(Val::Stack(rs)) <==> (rs.len()
            == vs.len() && forall|i: int|
            0 <= i < vs.len() ==> bcast(op, vs[i], s) == Ok::<Val, ExecError>(#[trigger] rs[i])),
        op == BinOp::Add ==> add_values(Val::Stack(vs), s) == bcast(op, Val::Stack(vs), s),
{
    lemma_bcast_left(op, vs, s, rs);
}

/// A scoped run that succeeds goes back to the outer floor, or to the lower floor its pops
/// reached, and leaves below the floor it ended with what was there, topped by one stack of
/// everything above that floor.
pub proof fn law_scoped_collects(s: Machine, pre: Option<Val>, func: Val, fuel: nat)
    requires
        scoped(s, pre, func, fuel).1 is Ok,
    ensures
        ({
            let s1 = Machine { floor: s.main.len() + 1, ..s };
            let s2 = match pre {
                Some(e) => push_main(s1, e),
                None => s1,
            };
            let mid = run_value(s2, func, fuel).0;
            let k = collect_start(mid.floor, mid.main.len());
            let out = scoped(s, pre, func, fuel).0;
            &&& out.floor == (if mid.floor < s.floor {
                mid.floor
            } else {
                s.floor
            })
            &&& out.main.len() == k + 1
            &&& out.main.take(k as int) == mid.main.take(k as int)
            &&& out.main[k as int] == Val::Stack(mid.main.skip(k as int))
        }),
{
    let s1 = Machine { floor: s.main.len() + 1, ..s };
    let s2 = match pre {
        Some(e) => push_main(s1, e),
        None => s1,
    };
    let mid = run_value(s2, func, fuel).0;
    let k = collect_start(mid.floor, mid.main.len());
    let out = collect_end(mid, s.floor);
    assert(out.main.take(k as int) =~= mid.main.take(k as int));
}

/// Closing a block when none is open fails and changes nothing; closing a nested block
/// while capturing keeps capturing one level up; closing the outermost one pushes the
/// captured instructions as one stack.
pub proof fn law_block_close(s: Machine, fuel: nat)
    ensures
        s.block is None ==> step(s, Instr::CloseBlock, fuel) == (
            s,
            Err::<(), ExecError>(ExecError::ClosingOutsideBlock),
        ),
        s.block is Some && s.depth >= 2 ==> step(s, Instr::CloseBlock, fuel) == (
            Machine {
                block: Some(s.block->Some_0.push(Val::Command(Instr::CloseBlock))),
                depth: (s.depth - 1) as nat,
                ..s
            },
            Ok::<(), ExecError>(()),
        ),
        s.block is Some && s.depth <= 1 ==> step(s, Instr::CloseBlock, fuel) == (
            push_main(Machine { block: None, depth: 0, ..s }, Val::Stack(s.block->Some_0)),
            Ok::<(), ExecError>(()),
        ),
{
}

/// Opening a block while capturing one nests one level deeper and records the opening.
pub proof fn law_block_open(s: Machine, fuel: nat)
    requires
        s.block is Some,
        s.depth + 1 <= u64::MAX,
    ensures
        step(s, Instr::StartBlock, fuel) == (
            Machine {
                block: Some(s.block->Some_0.push(Val::Command(Instr::StartBlock))),
                depth: s.depth + 1,
                ..s
            },
            Ok::<(), ExecError>(()),
        ),
{
}

/// A map that succeeds gives exactly one result per element; a one-element gathered stack
/// counts as its element.
pub proof fn law_map_one_result_each(s: Machine, func: Val, es: Seq<Val>, fuel: nat, x: Val)
    ensures
        map_loop(s, func, es, fuel).1 is Ok ==> map_loop(s, func, es, fuel).1->Ok_0.len()
            == es.len(),
        unwrap_single(Val::Stack(seq![x])) == x,
    decreases es.len(),
{
    if es.len() > 0 {
        law_map_one_result_each(s, func, es.drop_last(), fuel, x);
    }
}

} // verus!
