use vstd::prelude::*;

use crate::command::{instr_name, CatCommand, Instr};
use crate::text::{
    debug_quote, join_texts, joined, push_str, quoted_text, text_of_i64, text_of_int, texts_view,
};

verus! {

/// A value on a stack: an integer, a text, a nested stack, or a quoted instruction.
#[derive(Debug)]
pub enum CatValue {
    VInteger(i64),
    VString(String),
    VStack(Vec<CatValue>),
    VCommand(CatCommand),
}

/// The mathematical model of a value.
pub enum Val {
    Int(i64),
    Text(Seq<char>),
    Stack(Seq<Val>),
    Command(Instr),
}

pub open spec fn val_of(v: &CatValue) -> Val
    decreases v,
{
    match v {
        CatValue::VInteger(i) => Val::Int(*i),
        CatValue::VString(s) => Val::Text(s@),
        CatValue::VStack(vs) => Val::Stack(
            Seq::new(vs@.len(), |i: int| if 0 <= i < vs@.len() { val_of(&vs@[i]) } else { Val::Int(0) }),
        ),
        CatValue::VCommand(c) => Val::Command(c@),
    }
}

impl View for CatValue {
    type V = Val;

    open spec fn view(&self) -> Val {
        val_of(self)
    }
}

/// The models of a sequence of values.
pub open spec fn vals_of(vs: Seq<CatValue>) -> Seq<Val> {
    Seq::new(vs.len(), |i: int| vs[i]@)
}

/// How a value is shown: integers in decimal, texts raw, stacks as the bracketed,
/// space-separated display of their elements, instructions by name.
pub open spec fn display(v: Val) -> Seq<char>
    decreases v,
{
    match v {
        Val::Int(i) => text_of_int(i as int),
        Val::Text(s) => s,
        Val::Stack(vs) => "["@ + joined(display_all(vs), " "@) + "]"@,
        Val::Command(c) => instr_name(c),
    }
}

/// The display of each value.
pub open spec fn display_all(vs: Seq<Val>) -> Seq<Seq<char>>
    decreases vs,
{
    if vs.len() == 0 {
        Seq::empty()
    } else {
        display_all(vs.drop_last()).push(display(vs[vs.len() - 1]))
    }
}

/// As `display`, but texts are quoted with newlines escaped, at every depth.
pub open spec fn debug_display(v: Val) -> Seq<char>
    decreases v,
{
    match v {
        Val::Int(i) => text_of_int(i as int),
        Val::Text(s) => quoted_text(s),
        Val::Stack(vs) => "["@ + joined(debug_display_all(vs), " "@) + "]"@,
        Val::Command(c) => instr_name(c),
    }
}

/// The debug display of each value.
pub open spec fn debug_display_all(vs: Seq<Val>) -> Seq<Seq<char>>
    decreases vs,
{
    if vs.len() == 0 {
        Seq::empty()
    } else {
        debug_display_all(vs.drop_last()).push(debug_display(vs[vs.len() - 1]))
    }
}

/// Whether `out` is what `func` may give for each of `ins`, in order, all successfully.
pub open spec fn all_mapped<E, F: Fn(CatValue) -> Result<CatValue, E>>(
    func: F,
    ins: Seq<CatValue>,
    outs: Seq<CatValue>,
) -> bool {
    &&& outs.len() == ins.len()
    &&& forall|i: int| 0 <= i < ins.len() ==> func.ensures((ins[i],), Ok::<CatValue, E>(outs[i]))
}

/// Whether `func` may succeed on each of the first `k` of `ins`, and fail with `e` on the next.
pub open spec fn first_failure<E, F: Fn(CatValue) -> Result<CatValue, E>>(
    func: F,
    ins: Seq<CatValue>,
    k: int,
    e: E,
) -> bool {
    &&& 0 <= k < ins.len()
    &&& exists|outs: Seq<CatValue>| #[trigger] all_mapped(func, ins.take(k), outs)
    &&& func.ensures((ins[k],), Err::<CatValue, E>(e))
}

pub open spec fn all_mapped_ref<E, F: Fn(&CatValue) -> Result<CatValue, E>>(
    func: F,
    ins: Seq<CatValue>,
    outs: Seq<CatValue>,
) -> bool {
    &&& outs.len() == ins.len()
    &&& forall|i: int| 0 <= i < ins.len() ==> func.ensures((&ins[i],), Ok::<CatValue, E>(outs[i]))
}

pub open spec fn first_failure_ref<E, F: Fn(&CatValue) -> Result<CatValue, E>>(
    func: F,
    ins: Seq<CatValue>,
    k: int,
    e: E,
) -> bool {
    &&& 0 <= k < ins.len()
    &&& exists|outs: Seq<CatValue>| #[trigger] all_mapped_ref(func, ins.take(k), outs)
    &&& func.ensures((&ins[k],), Err::<CatValue, E>(e))
}

pub open spec fn first_failure_do<E, F: Fn(&CatValue) -> Result<(), E>>(
    func: F,
    ins: Seq<CatValue>,
    k: int,
    e: E,
) -> bool {
    &&& 0 <= k < ins.len()
    &&& forall|i: int| 0 <= i < k ==> func.ensures((&ins[i],), Ok::<(), E>(()))
    &&& func.ensures((&ins[k],), Err::<(), E>(e))
}

impl CatValue {
    /// A deep copy of this value.
    pub fn duplicate(&self) -> (r: CatValue)
        ensures
            r@ == self@,
        decreases self,
    {
        match self {
            CatValue::VInteger(i) => CatValue::VInteger(*i),
            CatValue::VString(s) => CatValue::VString(s.clone()),
            CatValue::VCommand(c) => CatValue::VCommand(c.duplicate()),
            CatValue::VStack(vs) => {
                let mut out: Vec<CatValue> = Vec::new();
                let mut i: usize = 0;
                while i < vs.len()
                    invariant
                        *self == CatValue::VStack(*vs),
                        i <= vs@.len(),
                        out@.len() == i,
                        forall|j: int| 0 <= j < i ==> (#[trigger] out@[j])@ == vs@[j]@,
                    decreases vs.len() - i,
                {
                    proof {
                        assert(decreases_to!(*self => self->VStack_0));
                        assert(decreases_to!(*vs => vs@));
                        assert(decreases_to!(vs@ => vs@[i as int]));
                        assert(decreases_to!(*self => vs@[i as int]));
                    }
                    let c = vs[i].duplicate();
                    out.push(c);
                    i = i + 1;
                }
                let r = CatValue::VStack(out);
                assert(r@ == self@) by {
                    assert(val_of(&r)->Stack_0 =~= val_of(self)->Stack_0);
                }
                r
            },
        }
    }

    /// The value as shown to a user.
    pub fn stringify(&self) -> (r: String)
        ensures
            r@ == display(self@),
        decreases self,
    {
        match self {
            CatValue::VInteger(v) => text_of_i64(*v),
            CatValue::VString(v) => v.clone(),
            CatValue::VStack(vs) => {
                let mut parts: Vec<String> = Vec::new();
                let mut i: usize = 0;
                while i < vs.len()
                    invariant
                        *self == CatValue::VStack(*vs),
                        i <= vs@.len(),
                        parts@.len() == i,
                        texts_view(parts@) == display_all(self@->Stack_0.take(i as int)),
                    decreases vs.len() - i,
                {
                    proof {
                        assert(decreases_to!(*self => self->VStack_0));
                        assert(decreases_to!(*vs => vs@));
                        assert(decreases_to!(vs@ => vs@[i as int]));
                        assert(decreases_to!(*self => vs@[i as int]));
                    }
                    let t = vs[i].stringify();
                    let ghost before = texts_view(parts@);
                    parts.push(t);
                    proof {
                        let ms = self@->Stack_0;
                        assert(ms[i as int] == vs@[i as int]@);
                        assert(ms.take(i + 1).drop_last() =~= ms.take(i as int));
                        assert(texts_view(parts@) =~= before.push(t@));
                    }
                    i = i + 1;
                }
                let joined_parts = join_texts(&parts, " ");
                let mut out = String::new();
                push_str(&mut out, "[");
                push_str(&mut out, joined_parts.as_str());
                push_str(&mut out, "]");
                proof {
                    assert(self@->Stack_0.take(i as int) =~= self@->Stack_0);
                    reveal_strlit("[");
                    assert(Seq::<char>::empty() + "["@ =~= "["@);
                    assert(out@ == display(self@));
                }
                out
            },
            CatValue::VCommand(c) => c.name(),
        }
    }

    /// The value as shown in traces: texts quoted, newlines escaped.
    pub fn debug_stringify(&self) -> (r: String)
        ensures
            r@ == debug_display(self@),
        decreases self,
    {
        match self {
            CatValue::VInteger(v) => text_of_i64(*v),
            CatValue::VString(v) => debug_quote(v),
            CatValue::VStack(vs) => {
                let mut parts: Vec<String> = Vec::new();
                let mut i: usize = 0;
                while i < vs.len()
                    invariant
                        *self == CatValue::VStack(*vs),
                        i <= vs@.len(),
                        parts@.len() == i,
                        texts_view(parts@) == debug_display_all(self@->Stack_0.take(i as int)),
                    decreases vs.len() - i,
                {
                    proof {
                        assert(decreases_to!(*self => self->VStack_0));
                        assert(decreases_to!(*vs => vs@));
                        assert(decreases_to!(vs@ => vs@[i as int]));
                        assert(decreases_to!(*self => vs@[i as int]));
                    }
                    let t = vs[i].debug_stringify();
                    let ghost before = texts_view(parts@);
                    parts.push(t);
                    proof {
                        let ms = self@->Stack_0;
                        assert(ms[i as int] == vs@[i as int]@);
                        assert(ms.take(i + 1).drop_last() =~= ms.take(i as int));
                        assert(texts_view(parts@) =~= before.push(t@));
                    }
                    i = i + 1;
                }
                let joined_parts = join_texts(&parts, " ");
                let mut out = String::new();
                push_str(&mut out, "[");
                push_str(&mut out, joined_parts.as_str());
                push_str(&mut out, "]");
                proof {
                    assert(self@->Stack_0.take(i as int) =~= self@->Stack_0);
                    reveal_strlit("[");
                    assert(Seq::<char>::empty() + "["@ =~= "["@);
                    assert(out@ == debug_display(self@));
                }
                out
            },
            CatValue::VCommand(c) => c.name(),
        }
    }

    /// Applies `func` to each element of a stack, collecting the results into a stack and
    /// stopping at the first failure; any other value is handed to `func` whole.
    pub fn auto_map<E>(self, func: impl Fn(CatValue) -> Result<CatValue, E>) -> (r: Result<
        CatValue,
        E,
    >)
        requires
            forall|x: CatValue| func.requires((x,)),
        ensures
            self is VStack ==> match r {
                Ok(v) => v is VStack && all_mapped(func, self->VStack_0@, v->VStack_0@),
                Err(e) => exists|k: int| first_failure(func, self->VStack_0@, k, e),
            },
            !(self is VStack) ==> func.ensures((self,), r),
    {
        match self {
            CatValue::VStack(vec) => {
                let ghost ins = vec@;
                let mut rest = vec;
                let mut rev: Vec<CatValue> = Vec::new();
                while rest.len() > 0
                    invariant
                        self is VStack && self->VStack_0@ == ins,
                        rest@.len() + rev@.len() == ins.len(),
                        rest@ == ins.take(rest@.len() as int),
                        forall|j: int|
                            0 <= j < rev@.len() ==> #[trigger] rev@[j] == ins[ins.len() - 1 - j],
                    decreases rest.len(),
                {
                    let ghost before = rest@;
                    let x = rest.pop().unwrap();
                    rev.push(x);
                    proof {
                        assert(rest@ =~= ins.take(rest@.len() as int));
                    }
                }
                let mut out: Vec<CatValue> = Vec::new();
                while rev.len() > 0
                    invariant
                        self is VStack && self->VStack_0@ == ins,
                        out@.len() + rev@.len() == ins.len(),
                        forall|j: int|
                            0 <= j < rev@.len() ==> #[trigger] rev@[j] == ins[ins.len() - 1 - j],
                        all_mapped(func, ins.take(out@.len() as int), out@),
                        forall|x: CatValue| func.requires((x,)),
                    decreases rev.len(),
                {
                    let ghost k = out@.len() as int;
                    let x = rev.pop().unwrap();
                    assert(ins[k] == x);
                    match func(x) {
                        Ok(y) => {
                            out.push(y);
                            proof {
                                assert(ins.take(k + 1).drop_last() =~= ins.take(k));
                                assert forall|i: int| 0 <= i < k + 1 implies func.ensures(
                                    (ins.take(k + 1)[i],),
                                    Ok::<CatValue, E>(out@[i]),
                                ) by {
                                    if i < k {
                                        assert(ins.take(k + 1)[i] == ins.take(k)[i]);
                                    }
                                }
                            }
                        },
                        Err(e) => {
                            proof {
                                assert(all_mapped(func, ins.take(k), out@));
                                assert(func.ensures((ins[k],), Err::<CatValue, E>(e)));
                                assert(0 <= k < ins.len());
                                assert(first_failure(func, ins, k, e));
                            }
                            return Err(e);
                        },
                    }
                }
                proof {
                    assert(ins.take(ins.len() as int) =~= ins);
                }
                Ok(CatValue::VStack(out))
            },
            x => func(x),
        }
    }

    /// As `auto_map`, on a borrowed value.
    pub fn auto_map_ref<E>(&self, func: impl Fn(&CatValue) -> Result<CatValue, E>) -> (r: Result<
        CatValue,
        E,
    >)
        requires
            forall|x: &CatValue| func.requires((x,)),
        ensures
            self is VStack ==> match r {
                Ok(v) => v is VStack && all_mapped_ref(func, self->VStack_0@, v->VStack_0@),
                Err(e) => exists|k: int| first_failure_ref(func, self->VStack_0@, k, e),
            },
            !(self is VStack) ==> func.ensures((self,), r),
    {
        match self {
            CatValue::VStack(vec) => {
                let ghost ins = vec@;
                let mut out: Vec<CatValue> = Vec::new();
                let mut i: usize = 0;
                while i < vec.len()
                    invariant
                        self is VStack && self->VStack_0@ == ins,
                        ins == vec@,
                        i <= ins.len(),
                        out@.len() == i,
                        forall|j: int|
                            0 <= j < i ==> func.ensures((&ins[j],), Ok::<CatValue, E>(out@[j])),
                        forall|x: &CatValue| func.requires((x,)),
                    decreases vec.len() - i,
                {
                    match func(&vec[i]) {
                        Ok(y) => {
                            out.push(y);
                        },
                        Err(e) => {
                            proof {
                                assert(all_mapped_ref(func, ins.take(i as int), out@));
                                assert(first_failure_ref(func, ins, i as int, e));
                            }
                            return Err(e);
                        },
                    }
                    i = i + 1;
                }
                Ok(CatValue::VStack(out))
            },
            x => func(x),
        }
    }

    /// Calls `func` on each element of a stack, stopping at the first failure; any other
    /// value is handed to `func` whole.
    pub fn auto_do<E>(&self, func: impl Fn(&CatValue) -> Result<(), E>) -> (r: Result<(), E>)
        requires
            forall|x: &CatValue| func.requires((x,)),
        ensures
            self is VStack ==> match r {
                Ok(_) => forall|j: int|
                    0 <= j < self->VStack_0@.len() ==> func.ensures(
                        (&self->VStack_0@[j],),
                        Ok::<(), E>(()),
                    ),
                Err(e) => exists|k: int| first_failure_do(func, self->VStack_0@, k, e),
            },
            !(self is VStack) ==> func.ensures((self,), r),
    {
        match self {
            CatValue::VStack(vec) => {
                let ghost ins = vec@;
                let mut i: usize = 0;
                while i < vec.len()
                    invariant
                        self is VStack && self->VStack_0@ == ins,
                        ins == vec@,
                        i <= ins.len(),
                        forall|j: int| 0 <= j < i ==> func.ensures((&ins[j],), Ok::<(), E>(())),
                        forall|x: &CatValue| func.requires((x,)),
                    decreases vec.len() - i,
                {
                    match func(&vec[i]) {
                        Ok(u) => {},
                        Err(e) => {
                            proof {
                                assert(first_failure_do(func, ins, i as int, e));
                            }
                            return Err(e);
                        },
                    }
                    i = i + 1;
                }
                Ok(())
            },
            x => func(x),
        }
    }
}

} // verus!
