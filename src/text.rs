use vstd::prelude::*;
use vstd::string::*;

use itertools::Itertools;

verus! {

/// The decimal digit character for `d < 10`.
pub open spec fn digit_char(d: int) -> char {
    (('0' as int) + d) as char
}

/// Decimal text of a natural number, without leading zeros.
pub open spec fn text_of_nat(n: nat) -> Seq<char>
    decreases n,
{
    if n < 10 {
        seq![digit_char(n as int)]
    } else {
        text_of_nat(n / 10) + seq![digit_char((n % 10) as int)]
    }
}

/// Decimal text of an integer, with a leading `-` when negative.
pub open spec fn text_of_int(i: int) -> Seq<char> {
    if i < 0 {
        seq!['-'] + text_of_nat((-i) as nat)
    } else {
        text_of_nat(i as nat)
    }
}

/// Text with each newline written as the two characters `\` and `n`.
pub open spec fn escape_newlines(s: Seq<char>) -> Seq<char>
    decreases s.len(),
{
    if s.len() == 0 {
        Seq::empty()
    } else {
        escape_newlines(s.drop_last()) + if s.last() == '\n' {
            seq!['\\', 'n']
        } else {
            seq![s.last()]
        }
    }
}

/// Text between double quotes, newlines escaped.
pub open spec fn quoted_text(s: Seq<char>) -> Seq<char> {
    seq!['"'] + escape_newlines(s) + seq!['"']
}

/// The parts one after another, with `sep` between each two of them.
pub open spec fn joined(parts: Seq<Seq<char>>, sep: Seq<char>) -> Seq<char>
    decreases parts.len(),
{
    if parts.len() == 0 {
        Seq::empty()
    } else if parts.len() == 1 {
        parts[0]
    } else {
        joined(parts.drop_last(), sep) + sep + parts.last()
    }
}

pub open spec fn is_digit(c: char) -> bool {
    '0' <= c && c <= '9'
}

pub open spec fn digit_value(c: char) -> int {
    (c as int) - ('0' as int)
}

pub open spec fn all_digits(s: Seq<char>) -> bool {
    forall|i: int| 0 <= i < s.len() ==> is_digit(#[trigger] s[i])
}

/// The number that a run of decimal digits writes.
pub open spec fn digits_value(s: Seq<char>) -> int
    decreases s.len(),
{
    if s.len() == 0 {
        0
    } else {
        digits_value(s.drop_last()) * 10 + digit_value(s.last())
    }
}

/// The integer written by `s`: an optional `+` or `-`, then one or more decimal digits.
pub open spec fn integer_of_text(s: Seq<char>) -> Option<int> {
    if s.len() > 0 && (s[0] == '+' || s[0] == '-') {
        let body = s.skip(1);
        if body.len() > 0 && all_digits(body) {
            if s[0] == '-' {
                Some(-digits_value(body))
            } else {
                Some(digits_value(body))
            }
        } else {
            None
        }
    } else if s.len() > 0 && all_digits(s) {
        Some(digits_value(s))
    } else {
        None
    }
}

/// The `i64` that `s` writes, if it writes an integer in range.
pub open spec fn i64_of_text(s: Seq<char>) -> Option<i64> {
    match integer_of_text(s) {
        Some(v) => if i64::MIN <= v <= i64::MAX {
            Some(v as i64)
        } else {
            None
        },
        None => None,
    }
}

/// Whether `sep` occurs in `s` at position `i`.
pub open spec fn occurs_at(s: Seq<char>, sep: Seq<char>, i: int) -> bool {
    0 <= i && i + sep.len() <= s.len() && s.subrange(i, i + sep.len()) == sep
}

/// Splitting `s` from `start`, the leftmost occurrence of `sep` at or after `i` ending the
/// current piece.
pub open spec fn split_scan(s: Seq<char>, sep: Seq<char>, start: int, i: int) -> Seq<Seq<char>>
    recommends
        sep.len() > 0,
        0 <= start <= i,
    decreases s.len() - i,
{
    if sep.len() == 0 || i + sep.len() > s.len() {
        seq![s.subrange(start, s.len() as int)]
    } else if occurs_at(s, sep, i) {
        seq![s.subrange(start, i)] + split_scan(s, sep, i + sep.len(), i + sep.len())
    } else {
        split_scan(s, sep, start, i + 1)
    }
}

/// The pieces of `s` between occurrences of `sep`, scanned from the left; an empty
/// separator cuts before and after every character.
pub open spec fn split_text(s: Seq<char>, sep: Seq<char>) -> Seq<Seq<char>> {
    if sep.len() == 0 {
        seq![Seq::empty()] + Seq::new(s.len(), |i: int| seq![s[i]]) + seq![Seq::empty()]
    } else {
        split_scan(s, sep, 0, 0)
    }
}

pub open spec fn texts_view(v: Seq<String>) -> Seq<Seq<char>> {
    v.map_values(|s: String| s@)
}

/// Relies on `String::push`: the character is appended.
#[verifier::external_body]
pub fn push_char(s: &mut String, c: char)
    ensures
        final(s)@ == old(s)@.push(c),
{
    s.push(c);
}

pub fn push_str(s: &mut String, t: &str)
    ensures
        final(s)@ == old(s)@ + t@,
{
    s.append(t);
}

/// Relies on `Itertools::join`: the parts in order, `sep` between each two.
#[verifier::external_body]
pub fn join_texts(parts: &Vec<String>, sep: &str) -> (r: String)
    ensures
        r@ == joined(texts_view(parts@), sep@),
{
    parts.iter().join(sep)
}

/// The characters of `s`.
pub fn chars_of(s: &str) -> (r: Vec<char>)
    ensures
        r@ == s@,
{
    let n = s.unicode_len();
    let mut r: Vec<char> = Vec::new();
    let mut i: usize = 0;
    while i < n
        invariant
            n == s@.len(),
            i <= n,
            r@ == s@.take(i as int),
        decreases n - i,
    {
        r.push(s.get_char(i));
        i = i + 1;
        assert(r@ =~= s@.take(i as int));
    }
    assert(r@ =~= s@);
    r
}

/// A string holding the characters `v[from..to]`.
pub fn string_of_chars(v: &Vec<char>, from: usize, to: usize) -> (r: String)
    requires
        from <= to <= v@.len(),
    ensures
        r@ == v@.subrange(from as int, to as int),
{
    let mut r = String::new();
    let mut i = from;
    while i < to
        invariant
            from <= i <= to <= v@.len(),
            r@ == v@.subrange(from as int, i as int),
        decreases to - i,
    {
        push_char(&mut r, v[i]);
        i = i + 1;
        assert(r@ =~= v@.subrange(from as int, i as int));
    }
    r
}

fn digit_to_char(d: u64) -> (c: char)
    requires
        d < 10,
    ensures
        c == digit_char(d as int),
{
    match d {
        0 => '0',
        1 => '1',
        2 => '2',
        3 => '3',
        4 => '4',
        5 => '5',
        6 => '6',
        7 => '7',
        8 => '8',
        _ => '9',
    }
}

/// Appends the decimal text of `n`.
pub fn push_nat_text(out: &mut String, n: u64)
    ensures
        final(out)@ == old(out)@ + text_of_nat(n as nat),
    decreases n,
{
    if n >= 10 {
        push_nat_text(out, n / 10);
    }
    let c = digit_to_char(n % 10);
    push_char(out, c);
    proof {
        if n >= 10 {
            assert(old(out)@ + text_of_nat((n / 10) as nat) + seq![c] =~= old(out)@ + text_of_nat(
                n as nat,
            ));
        } else {
            assert(old(out)@ + seq![c] =~= old(out)@ + text_of_nat(n as nat));
        }
    }
}

/// Decimal text of a signed integer.
pub fn text_of_i64(v: i64) -> (r: String)
    ensures
        r@ == text_of_int(v as int),
{
    let mut out = String::new();
    if v < 0 {
        push_char(&mut out, '-');
        let mag: u64 = ((-(v + 1)) as u64) + 1;
        push_nat_text(&mut out, mag);
        assert(out@ =~= text_of_int(v as int));
    } else {
        push_nat_text(&mut out, v as u64);
        assert(out@ =~= text_of_int(v as int));
    }
    out
}

/// Decimal text of an index.
pub fn text_of_usize(v: usize) -> (r: String)
    ensures
        r@ == text_of_int(v as int),
{
    let mut out = String::new();
    push_nat_text(&mut out, v as u64);
    assert(out@ =~= text_of_int(v as int));
    out
}

/// The text between double quotes, each newline written as `\n`.
pub fn debug_quote(s: &String) -> (r: String)
    ensures
        r@ == quoted_text(s@),
{
    let cs = chars_of(s.as_str());
    let mut out = String::new();
    push_char(&mut out, '"');
    let mut i: usize = 0;
    while i < cs.len()
        invariant
            cs@ == s@,
            i <= cs@.len(),
            out@ == seq!['"'] + escape_newlines(cs@.take(i as int)),
        decreases cs.len() - i,
    {
        let c = cs[i];
        if c == '\n' {
            push_char(&mut out, '\\');
            push_char(&mut out, 'n');
        } else {
            push_char(&mut out, c);
        }
        proof {
            assert(cs@.take(i + 1).drop_last() =~= cs@.take(i as int));
        }
        i = i + 1;
        assert(out@ =~= seq!['"'] + escape_newlines(cs@.take(i as int)));
    }
    push_char(&mut out, '"');
    assert(cs@.take(cs@.len() as int) =~= cs@);
    assert(out@ =~= quoted_text(s@));
    out
}

proof fn lemma_digits_value_nonneg(s: Seq<char>)
    requires
        all_digits(s),
    ensures
        digits_value(s) >= 0,
    decreases s.len(),
{
    if s.len() > 0 {
        assert(all_digits(s.drop_last()));
        lemma_digits_value_nonneg(s.drop_last());
        assert(is_digit(s[s.len() - 1]));
    }
}

proof fn lemma_digits_value_grows(s: Seq<char>)
    requires
        all_digits(s),
        s.len() > 0,
    ensures
        digits_value(s) >= digits_value(s.drop_last()),
{
    assert(all_digits(s.drop_last()));
    lemma_digits_value_nonneg(s.drop_last());
    assert(is_digit(s[s.len() - 1]));
}

proof fn lemma_integer_of_text_body(s: Seq<char>, start: int)
    requires
        start < s.len(),
        start == (if s[0] == '+' || s[0] == '-' {
            1int
        } else {
            0int
        }),
    ensures
        integer_of_text(s) == (if all_digits(s.skip(start)) {
            Some(
                if s[0] == '-' {
                    -digits_value(s.skip(start))
                } else {
                    digits_value(s.skip(start))
                },
            )
        } else {
            None::<int>
        }),
{
    if start == 0 {
        assert(s.skip(0) =~= s);
    }
}

/// Reads the integer that `s` writes in decimal: `None` when it writes none or one out of
/// the `i64` range.
pub fn parse_i64(s: &String) -> (r: Option<i64>)
    ensures
        r == i64_of_text(s@),
{
    let cs = chars_of(s.as_str());
    let n = cs.len();
    if n == 0 {
        return None;
    }
    let negative = cs[0] == '-';
    let start: usize = if cs[0] == '-' || cs[0] == '+' {
        1
    } else {
        0
    };
    if start == n {
        return None;
    }
    let ghost body = cs@.skip(start as int);
    proof {
        lemma_integer_of_text_body(s@, start as int);
    }
    // The magnitude is accumulated as a negative number so that `i64::MIN` fits.
    let mut acc: i64 = 0;
    let mut i: usize = start;
    while i < n
        invariant
            cs@ == s@,
            n == cs@.len(),
            start <= i <= n,
            body == cs@.skip(start as int),
            start < n,
            negative == (s@[0] == '-'),
            start == (if s@[0] == '+' || s@[0] == '-' {
                1int
            } else {
                0int
            }),
            integer_of_text(s@) == (if all_digits(body) {
                Some(
                    if s@[0] == '-' {
                        -digits_value(body)
                    } else {
                        digits_value(body)
                    },
                )
            } else {
                None::<int>
            }),
            all_digits(body.take(i - start)),
            acc == -digits_value(body.take(i - start)),
        decreases n - i,
    {
        let c = cs[i];
        if !('0' <= c && c <= '9') {
            proof {
                assert(body[i - start] == c);
                assert(!all_digits(body));
                assert(integer_of_text(s@) is None);
                assert(i64_of_text(s@) is None);
            }
            return None;
        }
        let d: i64 = (c as u32 - '0' as u32) as i64;
        let ghost prefix = body.take(i - start + 1);
        proof {
            assert(prefix.drop_last() =~= body.take(i - start));
            assert(prefix.last() == c);
            assert(all_digits(prefix));
            assert(digits_value(prefix) == digits_value(body.take(i - start)) * 10 + d);
        }
        let m = acc.checked_mul(10);
        let next = match m {
            Some(m) => m.checked_sub(d),
            None => None,
        };
        match next {
            Some(v) => {
                acc = v;
            },
            None => {
                proof {
                    let pv = digits_value(body.take(i - start));
                    assert(pv >= 0) by {
                        lemma_digits_value_nonneg(body.take(i - start));
                    }
                    assert(digits_value(prefix) > i64::MAX + 1) by (nonlinear_arith)
                        requires
                            digits_value(prefix) == pv * 10 + d,
                            0 <= d <= 9,
                            pv >= 0,
                            (-pv) * 10 < i64::MIN || (-pv) * 10 - d < i64::MIN,
                    ;
                    lemma_grows_to_end(body, (i - start + 1) as int);
                }
                return None;
            },
        }
        i = i + 1;
    }
    proof {
        assert(body.take(n - start) =~= body);
    }
    if negative {
        Some(acc)
    } else {
        if acc == i64::MIN {
            None
        } else {
            Some(-acc)
        }
    }
}

proof fn lemma_grows_to_end(body: Seq<char>, k: int)
    requires
        0 < k <= body.len(),
    ensures
        all_digits(body) ==> digits_value(body) >= digits_value(body.take(k)),
    decreases body.len() - k,
{
    if k < body.len() && all_digits(body) {
        lemma_grows_to_end(body, k + 1);
        let p = body.take(k + 1);
        assert(p.drop_last() =~= body.take(k));
        assert forall|j: int| 0 <= j < p.len() implies is_digit(#[trigger] p[j]) by {
            assert(p[j] == body[j]);
        }
        lemma_digits_value_grows(p);
    } else if k == body.len() {
        assert(body.take(k) =~= body);
    }
}

/// Splits `s` at each occurrence of `sep`, scanning from the left.
pub fn split_string(s: &String, sep: &String) -> (r: Vec<String>)
    ensures
        texts_view(r@) == split_text(s@, sep@),
{
    let cs = chars_of(s.as_str());
    let ps = chars_of(sep.as_str());
    let n = cs.len();
    let m = ps.len();
    let mut parts: Vec<String> = Vec::new();
    if m == 0 {
        parts.push(String::new());
        let mut i: usize = 0;
        while i < n
            invariant
                cs@ == s@,
                n == cs@.len(),
                i <= n,
                texts_view(parts@) == seq![Seq::<char>::empty()] + Seq::new(
                    i as nat,
                    |j: int| seq![cs@[j]],
                ),
            decreases n - i,
        {
            let piece = string_of_chars(&cs, i, i + 1);
            assert(piece@ =~= seq![cs@[i as int]]);
            let ghost before = texts_view(parts@);
            parts.push(piece);
            assert(texts_view(parts@) =~= before.push(seq![cs@[i as int]]));
            i = i + 1;
            assert(texts_view(parts@) =~= seq![Seq::<char>::empty()] + Seq::new(
                i as nat,
                |j: int| seq![cs@[j]],
            ));
        }
        parts.push(String::new());
        assert(texts_view(parts@) =~= split_text(s@, sep@));
        return parts;
    }
    let mut start: usize = 0;
    let mut i: usize = 0;
    while m <= n && i <= n - m
        invariant
            cs@ == s@,
            ps@ == sep@,
            n == cs@.len(),
            m == ps@.len(),
            m > 0,
            start <= i,
            i <= n,
            texts_view(parts@) + split_scan(cs@, ps@, start as int, i as int) == split_scan(
                cs@,
                ps@,
                0,
                0,
            ),
        decreases n - i,
    {
        let mut j: usize = 0;
        while j < m
            invariant
                i + m <= n,
                n == cs@.len(),
                m == ps@.len(),
                j <= m,
                forall|k: int| 0 <= k < j ==> cs@[i + k] == ps@[k],
            ensures
                j <= m,
                forall|k: int| 0 <= k < j ==> cs@[i + k] == ps@[k],
                j < m ==> cs@[i + j] != ps@[j as int],
            decreases m - j,
        {
            if cs[i + j] != ps[j] {
                break;
            }
            j = j + 1;
        }
        if j == m {
            proof {
                assert(cs@.subrange(i as int, i + m) =~= ps@);
            }
            let piece = string_of_chars(&cs, start, i);
            let ghost before = texts_view(parts@);
            parts.push(piece);
            proof {
                assert(texts_view(parts@) =~= before.push(cs@.subrange(start as int, i as int)));
                assert(seq![cs@.subrange(start as int, i as int)] + split_scan(
                    cs@,
                    ps@,
                    i + m,
                    i + m,
                ) == split_scan(cs@, ps@, start as int, i as int));
                assert(texts_view(parts@) + split_scan(cs@, ps@, i + m, i + m) =~= before
                    + split_scan(cs@, ps@, start as int, i as int));
            }
            i = i + m;
            start = i;
        } else {
            proof {
                assert(cs@[i + j] != ps@[j as int]);
                assert(cs@.subrange(i as int, i + m)[j as int] != ps@[j as int]);
                assert(!occurs_at(cs@, ps@, i as int));
            }
            i = i + 1;
        }
    }
    let piece = string_of_chars(&cs, start, n);
    let ghost before = texts_view(parts@);
    parts.push(piece);
    proof {
        assert(texts_view(parts@) =~= before.push(cs@.subrange(start as int, n as int)));
        assert(texts_view(parts@) =~= before + split_scan(cs@, ps@, start as int, i as int));
    }
    parts
}

} // verus!
