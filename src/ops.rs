use vstd::prelude::*;

use crate::error::ExecError;
use crate::text::{i64_of_text, join_texts, joined, parse_i64, push_str, split_string, split_text, text_of_i64, text_of_int, texts_view};
use crate::value::{display, display_all, vals_of, CatValue, Val};

verus! {

/// The binary operators that broadcast over stacks.
#[derive(Debug, Clone, Copy, PartialEq, Eq, Structural)]
pub enum BinOp {
    Add,
    Mul,
}

/// The unary operators that broadcast over stacks.
#[derive(Debug, Clone, Copy, PartialEq, Eq, Structural)]
pub enum UnOp {
    ToInteger,
    Range,
    Split,
}

pub open spec fn result_view(r: Result<CatValue, ExecError>) -> Result<Val, ExecError> {
    match r {
        Ok(v) => Ok(v@),
        Err(e) => Err(e),
    }
}

/// A binary operator on two values neither of which is a stack.
pub open spec fn apply_scalar(op: BinOp, l: Val, r: Val) -> Result<Val, ExecError> {
    match op {
        BinOp::Add => match (l, r) {
            (Val::Int(a), Val::Int(b)) => if i64::MIN <= a + b <= i64::MAX {
                Ok(Val::Int((a + b) as i64))
            } else {
                Err(ExecError::Overflow)
            },
            (Val::Int(a), Val::Text(t)) => Ok(Val::Text(text_of_int(a as int) + t)),
            (Val::Text(t), Val::Int(b)) => Ok(Val::Text(t + text_of_int(b as int))),
            (Val::Text(t), Val::Text(u)) => Ok(Val::Text(t + u)),
            _ => Err(ExecError::CannotAdd),
        },
        BinOp::Mul => match (l, r) {
            (Val::Int(a), Val::Int(b)) => if i64::MIN <= a * b <= i64::MAX {
                Ok(Val::Int((a * b) as i64))
            } else {
                Err(ExecError::Overflow)
            },
            _ => Err(ExecError::NotMultiplicative),
        },
    }
}

/// A binary operator lifted over stacks: a stack on the right is mapped first, then one on
/// the left, at every depth; the first failure in element order is the result.
pub open spec fn bcast(op: BinOp, l: Val, r: Val) -> Result<Val, ExecError>
    decreases r, l,
{
    match r {
        Val::Stack(rs) => match bcast_right(op, l, rs) {
            Ok(xs) => Ok(Val::Stack(xs)),
            Err(e) => Err(e),
        },
        _ => match l {
            Val::Stack(ls) => match bcast_left(op, ls, r) {
                Ok(xs) => Ok(Val::Stack(xs)),
                Err(e) => Err(e),
            },
            _ => apply_scalar(op, l, r),
        },
    }
}

pub open spec fn bcast_right(op: BinOp, l: Val, rs: Seq<Val>) -> Result<Seq<Val>, ExecError>
    decreases rs, l,
{
    if rs.len() == 0 {
        Ok(Seq::empty())
    } else {
        match bcast_right(op, l, rs.drop_last()) {
            Ok(xs) => match bcast(op, l, rs[rs.len() - 1]) {
                Ok(x) => Ok(xs.push(x)),
                Err(e) => Err(e),
            },
            Err(e) => Err(e),
        }
    }
}

pub open spec fn bcast_left(op: BinOp, ls: Seq<Val>, r: Val) -> Result<Seq<Val>, ExecError>
    decreases r, ls,
{
    if ls.len() == 0 {
        Ok(Seq::empty())
    } else {
        match bcast_left(op, ls.drop_last(), r) {
            Ok(xs) => match bcast(op, ls[ls.len() - 1], r) {
                Ok(x) => Ok(xs.push(x)),
                Err(e) => Err(e),
            },
            Err(e) => Err(e),
        }
    }
}

/// Addition: two stacks concatenate, the left one first; otherwise it broadcasts.
pub open spec fn add_values(l: Val, r: Val) -> Result<Val, ExecError> {
    match (l, r) {
        (Val::Stack(ls), Val::Stack(rs)) => Ok(Val::Stack(ls + rs)),
        _ => bcast(BinOp::Add, l, r),
    }
}

/// The pieces of a split, as texts.
pub open spec fn text_pieces(t: Seq<char>, sep: Seq<char>) -> Seq<Val> {
    let ps = split_text(t, sep);
    Seq::new(ps.len(), |i: int| Val::Text(ps[i]))
}

/// The integers `1..=n`.
pub open spec fn range_values(n: int) -> Seq<Val> {
    Seq::new(if n > 0 { n as nat } else { 0 }, |i: int| Val::Int((i + 1) as i64))
}

/// A unary operator on a value that is not a stack.
pub open spec fn apply_unary(op: UnOp, v: Val, sep: Seq<char>) -> Result<Val, ExecError> {
    match op {
        UnOp::ToInteger => match v {
            Val::Int(i) => Ok(Val::Int(i)),
            Val::Text(t) => match i64_of_text(t) {
                Some(i) => Ok(Val::Int(i)),
                None => Err(ExecError::TextNotInteger),
            },
            _ => Err(ExecError::CannotConvert),
        },
        UnOp::Range => match v {
            Val::Int(n) => Ok(Val::Stack(range_values(n as int))),
            _ => Err(ExecError::RangeNeedsInteger),
        },
        UnOp::Split => match v {
            Val::Text(t) => Ok(Val::Stack(text_pieces(t, sep))),
            _ => Err(ExecError::SplitNeedsText),
        },
    }
}

/// A unary operator lifted over stacks at every depth.
pub open spec fn unary(op: UnOp, v: Val, sep: Seq<char>) -> Result<Val, ExecError>
    decreases v,
{
    match v {
        Val::Stack(vs) => match unary_all(op, vs, sep) {
            Ok(xs) => Ok(Val::Stack(xs)),
            Err(e) => Err(e),
        },
        _ => apply_unary(op, v, sep),
    }
}

pub open spec fn unary_all(op: UnOp, vs: Seq<Val>, sep: Seq<char>) -> Result<Seq<Val>, ExecError>
    decreases vs,
{
    if vs.len() == 0 {
        Ok(Seq::empty())
    } else {
        match unary_all(op, vs.drop_last(), sep) {
            Ok(xs) => match unary(op, vs[vs.len() - 1], sep) {
                Ok(x) => Ok(xs.push(x)),
                Err(e) => Err(e),
            },
            Err(e) => Err(e),
        }
    }
}

/// Joining a stack: the display of its elements with `sep` between them.
pub open spec fn join_value(v: Val, sep: Seq<char>) -> Result<Val, ExecError> {
    match v {
        Val::Stack(vs) => Ok(Val::Text(joined(display_all(vs), sep))),
        _ => Err(ExecError::JoinNeedsStack),
    }
}

proof fn lemma_bcast_right_err(op: BinOp, l: Val, rs: Seq<Val>, k: int, e: ExecError)
    requires
        0 <= k <= rs.len(),
        bcast_right(op, l, rs.take(k)) == Err::<Seq<Val>, ExecError>(e),
    ensures
        bcast_right(op, l, rs) == Err::<Seq<Val>, ExecError>(e),
    decreases rs.len() - k,
{
    if k < rs.len() {
        assert(rs.take(k + 1).drop_last() =~= rs.take(k));
        lemma_bcast_right_err(op, l, rs, k + 1, e);
    } else {
        assert(rs.take(k) =~= rs);
    }
}

proof fn lemma_bcast_left_err(op: BinOp, ls: Seq<Val>, r: Val, k: int, e: ExecError)
    requires
        0 <= k <= ls.len(),
        bcast_left(op, ls.take(k), r) == Err::<Seq<Val>, ExecError>(e),
    ensures
        bcast_left(op, ls, r) == Err::<Seq<Val>, ExecError>(e),
    decreases ls.len() - k,
{
    if k < ls.len() {
        assert(ls.take(k + 1).drop_last() =~= ls.take(k));
        lemma_bcast_left_err(op, ls, r, k + 1, e);
    } else {
        assert(ls.take(k) =~= ls);
    }
}

proof fn lemma_unary_all_err(op: UnOp, vs: Seq<Val>, sep: Seq<char>, k: int, e: ExecError)
    requires
        0 <= k <= vs.len(),
        unary_all(op, vs.take(k), sep) == Err::<Seq<Val>, ExecError>(e),
    ensures
        unary_all(op, vs, sep) == Err::<Seq<Val>, ExecError>(e),
    decreases vs.len() - k,
{
    if k < vs.len() {
        assert(vs.take(k + 1).drop_last() =~= vs.take(k));
        lemma_unary_all_err(op, vs, sep, k + 1, e);
    } else {
        assert(vs.take(k) =~= vs);
    }
}

fn apply_scalar_exec(op: BinOp, l: &CatValue, r: &CatValue) -> (res: Result<CatValue, ExecError>)
    requires
        !(l is VStack),
        !(r is VStack),
    ensures
        result_view(res) == apply_scalar(op, l@, r@),
{
    match op {
        BinOp::Add => match (l, r) {
            (CatValue::VInteger(a), CatValue::VInteger(b)) => match a.checked_add(*b) {
                Some(s) => Ok(CatValue::VInteger(s)),
                None => Err(ExecError::Overflow),
            },
            (CatValue::VInteger(a), CatValue::VString(t)) => {
                let mut out = text_of_i64(*a);
                push_str(&mut out, t.as_str());
                Ok(CatValue::VString(out))
            },
            (CatValue::VString(t), CatValue::VInteger(b)) => {
                let mut out = t.clone();
                let bt = text_of_i64(*b);
                push_str(&mut out, bt.as_str());
                Ok(CatValue::VString(out))
            },
            (CatValue::VString(t), CatValue::VString(u)) => {
                let mut out = t.clone();
                push_str(&mut out, u.as_str());
                Ok(CatValue::VString(out))
            },
            _ => Err(ExecError::CannotAdd),
        },
        BinOp::Mul => match (l, r) {
            (CatValue::VInteger(a), CatValue::VInteger(b)) => match a.checked_mul(*b) {
                Some(p) => Ok(CatValue::VInteger(p)),
                None => Err(ExecError::Overflow),
            },
            _ => Err(ExecError::NotMultiplicative),
        },
    }
}

/// A binary operator lifted over stacks, as `bcast` states.
pub fn broadcast(op: BinOp, l: &CatValue, r: &CatValue) -> (res: Result<CatValue, ExecError>)
    ensures
        result_view(res) == bcast(op, l@, r@),
    decreases r, l,
{
    match r {
        CatValue::VStack(rs) => {
            let ghost ms = r@->Stack_0;
            let mut out: Vec<CatValue> = Vec::new();
            let mut i: usize = 0;
            assert(ms.take(0) =~= Seq::<Val>::empty());
            assert(vals_of(out@) =~= Seq::<Val>::empty());
            while i < rs.len()
                invariant
                    *r == CatValue::VStack(*rs),
                    ms == r@->Stack_0,
                    i <= rs@.len(),
                    bcast_right(op, l@, ms.take(i as int)) == Ok::<Seq<Val>, ExecError>(
                        vals_of(out@),
                    ),
                decreases rs.len() - i,
            {
                proof {
                    assert(decreases_to!(*r => r->VStack_0));
                    assert(decreases_to!(*rs => rs@));
                    assert(decreases_to!(rs@ => rs@[i as int]));
                    assert(ms.take(i + 1).drop_last() =~= ms.take(i as int));
                    assert(ms[i as int] == rs@[i as int]@);
                }
                match broadcast(op, l, &rs[i]) {
                    Ok(x) => {
                        let ghost before = out@;
                        out.push(x);
                        assert(vals_of(out@) =~= vals_of(before).push(x@));
                    },
                    Err(e) => {
                        proof {
                            lemma_bcast_right_err(op, l@, ms, i + 1, e);
                        }
                        return Err(e);
                    },
                }
                i = i + 1;
            }
            proof {
                assert(ms.take(i as int) =~= ms);
            }
            let res = CatValue::VStack(out);
            assert(res@->Stack_0 =~= vals_of(out@));
            Ok(res)
        },
        _ => match l {
            CatValue::VStack(ls) => {
                let ghost ms = l@->Stack_0;
                let mut out: Vec<CatValue> = Vec::new();
                let mut i: usize = 0;
                assert(ms.take(0) =~= Seq::<Val>::empty());
                assert(vals_of(out@) =~= Seq::<Val>::empty());
                while i < ls.len()
                    invariant
                        *l == CatValue::VStack(*ls),
                        !(r is VStack),
                        ms == l@->Stack_0,
                        i <= ls@.len(),
                        bcast_left(op, ms.take(i as int), r@) == Ok::<Seq<Val>, ExecError>(
                            vals_of(out@),
                        ),
                    decreases ls.len() - i,
                {
                    proof {
                        assert(decreases_to!(*l => l->VStack_0));
                        assert(decreases_to!(*ls => ls@));
                        assert(decreases_to!(ls@ => ls@[i as int]));
                        assert(ms.take(i + 1).drop_last() =~= ms.take(i as int));
                        assert(ms[i as int] == ls@[i as int]@);
                    }
                    match broadcast(op, &ls[i], r) {
                        Ok(x) => {
                            let ghost before = out@;
                            out.push(x);
                            assert(vals_of(out@) =~= vals_of(before).push(x@));
                        },
                        Err(e) => {
                            proof {
                                lemma_bcast_left_err(op, ms, r@, i + 1, e);
                            }
                            return Err(e);
                        },
                    }
                    i = i + 1;
                }
                proof {
                    assert(ms.take(i as int) =~= ms);
                }
                let res = CatValue::VStack(out);
                assert(res@->Stack_0 =~= vals_of(out@));
                Ok(res)
            },
            _ => apply_scalar_exec(op, l, r),
        },
    }
}

/// Addition of two values, as `add_values` states.
pub fn add_exec(l: &CatValue, r: &CatValue) -> (res: Result<CatValue, ExecError>)
    ensures
        result_view(res) == add_values(l@, r@),
{
    match (l, r) {
        (CatValue::VStack(ls), CatValue::VStack(rs)) => {
            let a = l.duplicate();
            let b = r.duplicate();
            match (a, b) {
                (CatValue::VStack(mut xs), CatValue::VStack(mut ys)) => {
                    let ghost lx = xs@;
                    let ghost ly = ys@;
                    xs.append(&mut ys);
                    let res = CatValue::VStack(xs);
                    proof {
                        assert(xs@ == lx + ly);
                        assert(res@->Stack_0 =~= l@->Stack_0 + r@->Stack_0);
                    }
                    Ok(res)
                },
                _ => Err(ExecError::CannotAdd),
            }
        },
        _ => broadcast(BinOp::Add, l, r),
    }
}

fn apply_unary_exec(op: UnOp, v: &CatValue, sep: &String) -> (res: Result<CatValue, ExecError>)
    requires
        !(v is VStack),
    ensures
        result_view(res) == apply_unary(op, v@, sep@),
{
    match op {
        UnOp::ToInteger => match v {
            CatValue::VInteger(i) => Ok(CatValue::VInteger(*i)),
            CatValue::VString(t) => match parse_i64(t) {
                Some(i) => Ok(CatValue::VInteger(i)),
                None => Err(ExecError::TextNotInteger),
            },
            _ => Err(ExecError::CannotConvert),
        },
        UnOp::Range => match v {
            CatValue::VInteger(n) => {
                let mut out: Vec<CatValue> = Vec::new();
                let mut i: i64 = 0;
                assert(vals_of(out@) =~= range_values(0));
                while i < *n
                    invariant
                        0 <= i,
                        i <= *n || i == 0,
                        vals_of(out@) == range_values(i as int),
                    decreases *n - i,
                {
                    let ghost before = out@;
                    i = i + 1;
                    out.push(CatValue::VInteger(i));
                    assert(vals_of(out@) =~= vals_of(before).push(Val::Int(i)));
                    assert(vals_of(out@) =~= range_values(i as int));
                }
                let res = CatValue::VStack(out);
                assert(res@->Stack_0 =~= range_values(*n as int));
                Ok(res)
            },
            _ => Err(ExecError::RangeNeedsInteger),
        },
        UnOp::Split => match v {
            CatValue::VString(t) => {
                let pieces = split_string(t, sep);
                let mut out: Vec<CatValue> = Vec::new();
                let mut i: usize = 0;
                assert(vals_of(out@) =~= text_pieces(t@, sep@).take(0));
                while i < pieces.len()
                    invariant
                        texts_view(pieces@) == split_text(t@, sep@),
                        i <= pieces@.len(),
                        vals_of(out@) == text_pieces(t@, sep@).take(i as int),
                    decreases pieces.len() - i,
                {
                    let ghost before = out@;
                    let piece = pieces[i].clone();
                    out.push(CatValue::VString(piece));
                    proof {
                        assert(texts_view(pieces@)[i as int] == pieces@[i as int]@);
                        assert(vals_of(out@) =~= vals_of(before).push(Val::Text(piece@)));
                    }
                    i = i + 1;
                    assert(vals_of(out@) =~= text_pieces(t@, sep@).take(i as int));
                }
                let res = CatValue::VStack(out);
                assert(text_pieces(t@, sep@).take(i as int) =~= text_pieces(t@, sep@));
                assert(res@->Stack_0 =~= text_pieces(t@, sep@));
                Ok(res)
            },
            _ => Err(ExecError::SplitNeedsText),
        },
    }
}

/// A unary operator lifted over stacks, as `unary` states.
pub fn map_unary(op: UnOp, v: &CatValue, sep: &String) -> (res: Result<CatValue, ExecError>)
    ensures
        result_view(res) == unary(op, v@, sep@),
    decreases v,
{
    match v {
        CatValue::VStack(vs) => {
            let ghost ms = v@->Stack_0;
            let mut out: Vec<CatValue> = Vec::new();
            let mut i: usize = 0;
            assert(ms.take(0) =~= Seq::<Val>::empty());
            assert(vals_of(out@) =~= Seq::<Val>::empty());
            while i < vs.len()
                invariant
                    *v == CatValue::VStack(*vs),
                    ms == v@->Stack_0,
                    i <= vs@.len(),
                    unary_all(op, ms.take(i as int), sep@) == Ok::<Seq<Val>, ExecError>(
                        vals_of(out@),
                    ),
                decreases vs.len() - i,
            {
                proof {
                    assert(decreases_to!(*v => v->VStack_0));
                    assert(decreases_to!(*vs => vs@));
                    assert(decreases_to!(vs@ => vs@[i as int]));
                    assert(ms.take(i + 1).drop_last() =~= ms.take(i as int));
                    assert(ms[i as int] == vs@[i as int]@);
                }
                match map_unary(op, &vs[i], sep) {
                    Ok(x) => {
                        let ghost before = out@;
                        out.push(x);
                        assert(vals_of(out@) =~= vals_of(before).push(x@));
                    },
                    Err(e) => {
                        proof {
                            lemma_unary_all_err(op, ms, sep@, i + 1, e);
                        }
                        return Err(e);
                    },
                }
                i = i + 1;
            }
            proof {
                assert(ms.take(i as int) =~= ms);
            }
            let res = CatValue::VStack(out);
            assert(res@->Stack_0 =~= vals_of(out@));
            Ok(res)
        },
        _ => apply_unary_exec(op, v, sep),
    }
}

/// Joins the elements of a stack, as `join_value` states.
pub fn join(v: &CatValue, sep: &String) -> (res: Result<CatValue, ExecError>)
    ensures
        result_view(res) == join_value(v@, sep@),
{
    match v {
        CatValue::VStack(vs) => {
            let ghost ms = v@->Stack_0;
            let mut parts: Vec<String> = Vec::new();
            let mut i: usize = 0;
            while i < vs.len()
                invariant
                    *v == CatValue::VStack(*vs),
                    ms == v@->Stack_0,
                    i <= vs@.len(),
                    texts_view(parts@) == display_all(ms.take(i as int)),
                decreases vs.len() - i,
            {
                let t = vs[i].stringify();
                let ghost before = texts_view(parts@);
                parts.push(t);
                proof {
                    assert(ms[i as int] == vs@[i as int]@);
                    assert(ms.take(i + 1).drop_last() =~= ms.take(i as int));
                    assert(texts_view(parts@) =~= before.push(t@));
                }
                i = i + 1;
            }
            proof {
                assert(ms.take(i as int) =~= ms);
            }
            let s = join_texts(&parts, sep.as_str());
            Ok(CatValue::VString(s))
        },
        _ => Err(ExecError::JoinNeedsStack),
    }
}

} // verus!
