//! Parsing of numbers from text: command counts, and the syntax of the
//! verifier scores that `f32::from_str` accepts.

use vstd::prelude::*;

verus! {

/// Whether `c` is an ASCII decimal digit.
pub open spec fn is_digit(c: char) -> bool {
    '0' <= c && c <= '9'
}

/// Whether every character of `s` is an ASCII decimal digit.
pub open spec fn all_digits(s: Seq<char>) -> bool {
    forall|i: int| 0 <= i < s.len() ==> is_digit(#[trigger] s[i])
}

/// The value of the digit `c`.
pub open spec fn digit_value(c: char) -> nat {
    ((c as u32) - ('0' as u32)) as nat
}

/// The value of the decimal numeral `s` (most significant digit first).
pub open spec fn decimal(s: Seq<char>) -> nat
    decreases s.len(),
{
    if s.len() == 0 {
        0
    } else {
        decimal(s.drop_last()) * 10 + digit_value(s.last())
    }
}

/// What `u32::from_str` gives for `s`: an optional `+`, then at least one
/// digit, with a value that fits in a `u32`.
pub open spec fn u32_text(s: Seq<char>) -> Option<u32> {
    let d = if s.len() > 0 && s[0] == '+' {
        s.drop_first()
    } else {
        s
    };
    if d.len() > 0 && all_digits(d) && decimal(d) <= u32::MAX {
        Some(decimal(d) as u32)
    } else {
        None
    }
}

/// Index of the first `.` in `s`, or `s.len()` when there is none.
pub open spec fn first_dot(s: Seq<char>) -> nat
    decreases s.len(),
{
    if s.len() == 0 {
        0
    } else if s[0] == '.' {
        0
    } else {
        1 + first_dot(s.drop_first())
    }
}

/// Whether `c` is the lower-case letter `w` written in either case.
pub open spec fn letter_ci(c: char, w: char) -> bool {
    c == w || ('A' <= c && c <= 'Z' && c as u32 + 32 == w as u32)
}

/// Whether `s` spells the lower-case word `w`, each letter in either case.
pub open spec fn word_ci(s: Seq<char>, w: Seq<char>) -> bool {
    s.len() == w.len() && forall|i: int| 0 <= i < s.len() ==> letter_ci(#[trigger] s[i], w[i])
}

/// Whether `t` is the exponent written after an `e`: an optional sign,
/// then at least one digit.
pub open spec fn exponent_syntax(t: Seq<char>) -> bool {
    let d = if t.len() > 0 && (t[0] == '-' || t[0] == '+') {
        t.drop_first()
    } else {
        t
    };
    d.len() > 0 && all_digits(d)
}

/// Whether `body` is an unsigned decimal number: digits, optionally a `.`
/// and more digits, at least one digit in all, then optionally an exponent
/// (`e` or `E` and the exponent).
pub open spec fn number_syntax(body: Seq<char>) -> bool {
    let q = first_exp(body);
    let mant = body.take(q as int);
    let p = first_dot(mant);
    let int_part = mant.take(p as int);
    let frac = if p < mant.len() {
        mant.skip((p + 1) as int)
    } else {
        seq![]
    };
    &&& all_digits(int_part)
    &&& all_digits(frac)
    &&& int_part.len() + frac.len() >= 1
    &&& (q < body.len() ==> exponent_syntax(body.skip((q + 1) as int)))
}

/// Whether `f32::from_str` reads `s`: an optional sign, then `inf`,
/// `infinity` or `nan` in any case, or a decimal number. Every such text
/// has a value (one too large for an `f32` reads as an infinity).
pub open spec fn f32_text(s: Seq<char>) -> bool {
    let body = if s.len() > 0 && (s[0] == '-' || s[0] == '+') {
        s.drop_first()
    } else {
        s
    };
    word_ci(body, "inf"@) || word_ci(body, "infinity"@) || word_ci(body, "nan"@) || number_syntax(
        body,
    )
}

/// Index of the first `e` or `E` in `s`, or `s.len()` when there is none.
pub open spec fn first_exp(s: Seq<char>) -> nat
    decreases s.len(),
{
    if s.len() == 0 {
        0
    } else if s[0] == 'e' || s[0] == 'E' {
        0
    } else {
        1 + first_exp(s.drop_first())
    }
}

proof fn lemma_decimal_push(s: Seq<char>, c: char)
    ensures
        decimal(s.push(c)) == decimal(s) * 10 + digit_value(c),
{
    assert(s.push(c).drop_last() =~= s);
}

/// Reads the digits `s[from..to]` as a decimal numeral no larger than
/// `limit`; `None` when one of them is not a digit or the value is larger.
pub fn digits_value(s: &str, from: usize, to: usize, limit: u64) -> (r: Option<u64>)
    requires
        from <= to <= s@.len(),
        limit < 0x1000_0000_0000_0000,
    ensures
        match r {
            Some(v) => all_digits(s@.subrange(from as int, to as int)) && v == decimal(
                s@.subrange(from as int, to as int),
            ) && v <= limit,
            None => !(all_digits(s@.subrange(from as int, to as int)) && decimal(
                s@.subrange(from as int, to as int),
            ) <= limit),
        },
{
    let ghost whole = s@.subrange(from as int, to as int);
    let mut acc: u64 = 0;
    let mut i: usize = from;
    let mut too_big = false;
    proof {
        assert(whole.take(0) =~= Seq::<char>::empty());
    }
    while i < to
        invariant
            from <= i <= to <= s@.len(),
            limit < 0x1000_0000_0000_0000,
            whole == s@.subrange(from as int, to as int),
            all_digits(whole.take(i - from)),
            !too_big ==> acc == decimal(whole.take(i - from)) && acc <= limit,
            too_big ==> decimal(whole.take(i - from)) > limit,
        decreases to - i,
    {
        let c = s.get_char(i);
        proof {
            assert(whole[i - from] == c);
            assert(whole.take(i - from + 1) =~= whole.take(i - from).push(c));
        }
        if !('0' <= c && c <= '9') {
            proof {
                assert(!is_digit(whole[i - from]));
            }
            return None;
        }
        let d = (c as u32 - '0' as u32) as u64;
        proof {
            lemma_decimal_push(whole.take(i - from), c);
        }
        if !too_big {
            if d > limit || acc > (limit - d) / 10 {
                too_big = true;
                assert(acc * 10 + d > limit) by (nonlinear_arith)
                    requires
                        d > limit || acc > (limit - d) / 10,
                        d <= limit ==> (limit - d) / 10 * 10 <= limit - d,
                ;
            } else {
                assert(acc * 10 + d <= limit) by (nonlinear_arith)
                    requires
                        acc <= (limit - d) / 10,
                        d <= limit,
                ;
                acc = acc * 10 + d;
            }
        } else {
            proof {
                assert(decimal(whole.take(i - from)) * 10 + d >= decimal(whole.take(i - from)))
                    by (nonlinear_arith);
            }
        }
        i = i + 1;
    }
    proof {
        assert(whole.take(to - from) =~= whole);
    }
    if too_big {
        None
    } else {
        Some(acc)
    }
}

proof fn lemma_first_dot_at(b: Seq<char>, k: int)
    requires
        0 <= k <= b.len(),
        forall|i: int| 0 <= i < k ==> #[trigger] b[i] != '.',
        k == b.len() || b[k] == '.',
    ensures
        first_dot(b) == k,
    decreases k,
{
    if k > 0 {
        let t = b.drop_first();
        assert forall|i: int| 0 <= i < k - 1 implies #[trigger] t[i] != '.' by {
            assert(t[i] == b[i + 1]);
        }
        assert(k - 1 == t.len() || t[k - 1] == b[k]);
        lemma_first_dot_at(t, k - 1);
    }
}

/// Whether every character of `s[from..to]` is a digit.
pub fn digits_between(s: &str, from: usize, to: usize) -> (r: bool)
    requires
        from <= to <= s@.len(),
    ensures
        r == all_digits(s@.subrange(from as int, to as int)),
{
    let ghost whole = s@.subrange(from as int, to as int);
    let mut i = from;
    while i < to
        invariant
            from <= i <= to <= s@.len(),
            whole == s@.subrange(from as int, to as int),
            forall|j: int| 0 <= j < i - from ==> is_digit(#[trigger] whole[j]),
        decreases to - i,
    {
        let c = s.get_char(i);
        assert(whole[i - from] == c);
        if !('0' <= c && c <= '9') {
            return false;
        }
        i = i + 1;
    }
    true
}

/// Parses `s` as `u32::from_str` does.
pub fn parse_u32(s: &str) -> (r: Option<u32>)
    ensures
        r == u32_text(s@),
{
    let n = s.unicode_len();
    let start: usize = if n > 0 && s.get_char(0) == '+' {
        1
    } else {
        0
    };
    proof {
        if start == 1 {
            assert(s@.subrange(1, n as int) =~= s@.drop_first());
        } else {
            assert(s@.subrange(0, n as int) =~= s@);
        }
    }
    if start == n {
        return None;
    }
    match digits_value(s, start, n, 0xffff_ffff) {
        Some(v) => Some(v as u32),
        None => None,
    }
}

proof fn lemma_first_exp_at(b: Seq<char>, k: int)
    requires
        0 <= k <= b.len(),
        forall|i: int| 0 <= i < k ==> #[trigger] b[i] != 'e' && b[i] != 'E',
        k == b.len() || b[k] == 'e' || b[k] == 'E',
    ensures
        first_exp(b) == k,
    decreases k,
{
    if k > 0 {
        let t = b.drop_first();
        assert forall|i: int| 0 <= i < k - 1 implies #[trigger] t[i] != 'e' && t[i] != 'E' by {
            assert(t[i] == b[i + 1]);
            assert(b[i + 1] != 'e' && b[i + 1] != 'E');
        }
        assert(b[0] != 'e' && b[0] != 'E');
        assert(k - 1 == t.len() || t[k - 1] == b[k]);
        lemma_first_exp_at(t, k - 1);
    }
}

/// Whether `s[from..]` spells the lower-case word `w`, each letter in
/// either case.
fn word_ci_at(s: &str, from: usize, w: &str) -> (r: bool)
    requires
        from <= s@.len(),
    ensures
        r == word_ci(s@.subrange(from as int, s@.len() as int), w@),
{
    let ghost t = s@.subrange(from as int, s@.len() as int);
    let n = s.unicode_len();
    let m = w.unicode_len();
    if n - from != m {
        return false;
    }
    let mut i: usize = 0;
    while i < m
        invariant
            i <= m,
            m == w@.len(),
            n == s@.len(),
            n - from == m,
            t == s@.subrange(from as int, s@.len() as int),
            forall|j: int| 0 <= j < i ==> letter_ci(#[trigger] t[j], w@[j]),
        decreases m - i,
    {
        let c = s.get_char(from + i);
        let d = w.get_char(i);
        assert(t[i as int] == c);
        if !(c == d || ('A' <= c && c <= 'Z' && (c as u32) + 32 == (d as u32))) {
            return false;
        }
        i = i + 1;
    }
    true
}

/// Whether `s[from..to]` is an exponent, as `exponent_syntax` describes.
fn exponent_ok(s: &str, from: usize, to: usize) -> (r: bool)
    requires
        from <= to <= s@.len(),
    ensures
        r == exponent_syntax(s@.subrange(from as int, to as int)),
{
    let ghost t = s@.subrange(from as int, to as int);
    let signed = from < to && (s.get_char(from) == '-' || s.get_char(from) == '+');
    let dstart = if signed {
        from + 1
    } else {
        from
    };
    proof {
        if from < to {
            assert(t[0] == s@[from as int]);
        }
        if signed {
            assert(t.drop_first() =~= s@.subrange(dstart as int, to as int));
        } else {
            assert(t =~= s@.subrange(dstart as int, to as int));
        }
    }
    dstart < to && digits_between(s, dstart, to)
}

/// Whether `s[start..]` is a number, as `number_syntax` describes.
fn number_ok(s: &str, start: usize) -> (r: bool)
    requires
        start <= s@.len(),
    ensures
        r == number_syntax(s@.subrange(start as int, s@.len() as int)),
{
    let n = s.unicode_len();
    let ghost body = s@.subrange(start as int, n as int);
    let mut q = start;
    while q < n && s.get_char(q) != 'e' && s.get_char(q) != 'E'
        invariant
            start <= q <= n,
            n == s@.len(),
            body == s@.subrange(start as int, n as int),
            forall|i: int| 0 <= i < q - start ==> #[trigger] body[i] != 'e' && body[i] != 'E',
        decreases n - q,
    {
        assert(body[q - start] == s@[q as int]);
        q = q + 1;
    }
    proof {
        assert(q - start == body.len() || body[q - start] == s@[q as int]);
        lemma_first_exp_at(body, q - start);
    }
    let ghost mant = body.take(q - start);
    proof {
        assert(mant =~= s@.subrange(start as int, q as int));
    }
    let mut p = start;
    while p < q && s.get_char(p) != '.'
        invariant
            start <= p <= q <= n,
            n == s@.len(),
            mant == s@.subrange(start as int, q as int),
            forall|i: int| 0 <= i < p - start ==> #[trigger] mant[i] != '.',
        decreases q - p,
    {
        assert(mant[p - start] == s@[p as int]);
        p = p + 1;
    }
    proof {
        assert(p - start == mant.len() || mant[p - start] == s@[p as int]);
        lemma_first_dot_at(mant, p - start);
        assert(mant.take(p - start) =~= s@.subrange(start as int, p as int));
    }
    let frac_from = if p < q {
        p + 1
    } else {
        q
    };
    proof {
        if p < q {
            assert(mant.skip(p - start + 1) =~= s@.subrange(frac_from as int, q as int));
        } else {
            assert(Seq::<char>::empty() =~= s@.subrange(frac_from as int, q as int));
        }
        if q < n {
            assert(body.skip(q - start + 1) =~= s@.subrange(q + 1, n as int));
        }
    }
    let digits_ok = digits_between(s, start, p) && digits_between(s, frac_from, q) && (p - start)
        + (q - frac_from) >= 1;
    let exp_ok = if q < n {
        exponent_ok(s, q + 1, n)
    } else {
        true
    };
    digits_ok && exp_ok
}

/// Whether `f32::from_str` reads `s`, as `f32_text` describes.
pub fn is_f32_text(s: &str) -> (r: bool)
    ensures
        r == f32_text(s@),
{
    let n = s.unicode_len();
    let start: usize = if n > 0 && (s.get_char(0) == '-' || s.get_char(0) == '+') {
        1
    } else {
        0
    };
    proof {
        if start == 1 {
            assert(s@.subrange(1, n as int) =~= s@.drop_first());
        } else {
            assert(s@.subrange(0, n as int) =~= s@);
        }
    }
    word_ci_at(s, start, "inf") || word_ci_at(s, start, "infinity") || word_ci_at(s, start, "nan")
        || number_ok(s, start)
}

} // verus!
