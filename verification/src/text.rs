//! Character-level text handling: whitespace, trimming, word splitting,
//! joining and affix tests, all counted in Unicode scalar values.

use vstd::prelude::*;

verus! {

/// Unicode `White_Space`, the set that `char::is_whitespace` tests.
pub open spec fn is_ws(c: char) -> bool {
    ||| c == ' '
    ||| ('\u{9}' <= c && c <= '\u{d}')
    ||| c == '\u{85}'
    ||| c == '\u{a0}'
    ||| c == '\u{1680}'
    ||| ('\u{2000}' <= c && c <= '\u{200a}')
    ||| c == '\u{2028}'
    ||| c == '\u{2029}'
    ||| c == '\u{202f}'
    ||| c == '\u{205f}'
    ||| c == '\u{3000}'
}

/// Whether `c` is Unicode white space.
pub fn is_whitespace(c: char) -> (r: bool)
    ensures
        r == is_ws(c),
{
    c == ' ' || ('\u{9}' <= c && c <= '\u{d}') || c == '\u{85}' || c == '\u{a0}' || c
        == '\u{1680}' || ('\u{2000}' <= c && c <= '\u{200a}') || c == '\u{2028}' || c
        == '\u{2029}' || c == '\u{202f}' || c == '\u{205f}' || c == '\u{3000}'
}

/// `s` without its leading white space.
pub open spec fn trim_start(s: Seq<char>) -> Seq<char>
    decreases s.len(),
{
    if s.len() > 0 && is_ws(s[0]) {
        trim_start(s.drop_first())
    } else {
        s
    }
}

/// `s` without its trailing white space.
pub open spec fn trim_end(s: Seq<char>) -> Seq<char>
    decreases s.len(),
{
    if s.len() > 0 && is_ws(s.last()) {
        trim_end(s.drop_last())
    } else {
        s
    }
}

/// `s` without leading and trailing white space.
pub open spec fn trim_spec(s: Seq<char>) -> Seq<char> {
    trim_end(trim_start(s))
}

proof fn lemma_trim_start_at(s: Seq<char>, k: int)
    requires
        0 <= k <= s.len(),
        forall|i: int| 0 <= i < k ==> is_ws(#[trigger] s[i]),
        k == s.len() || !is_ws(s[k]),
    ensures
        trim_start(s) == s.skip(k),
    decreases k,
{
    if k == 0 {
        assert(s.skip(0) =~= s);
    } else {
        let t = s.drop_first();
        assert forall|i: int| 0 <= i < k - 1 implies is_ws(#[trigger] t[i]) by {
            assert(t[i] == s[i + 1]);
        }
        assert(k - 1 == t.len() || t[k - 1] == s[k]);
        lemma_trim_start_at(t, k - 1);
        assert(t.skip(k - 1) =~= s.skip(k));
    }
}

proof fn lemma_trim_end_at(s: Seq<char>, k: int)
    requires
        0 <= k <= s.len(),
        forall|i: int| k <= i < s.len() ==> is_ws(#[trigger] s[i]),
        k == 0 || !is_ws(s[k - 1]),
    ensures
        trim_end(s) == s.take(k),
    decreases s.len() - k,
{
    if k == s.len() {
        assert(s.take(k) =~= s);
    } else {
        let t = s.drop_last();
        assert(is_ws(s[s.len() - 1]));
        assert forall|i: int| k <= i < t.len() implies is_ws(#[trigger] t[i]) by {
            assert(t[i] == s[i]);
        }
        assert(k == 0 || t[k - 1] == s[k - 1]);
        lemma_trim_end_at(t, k);
        assert(t.take(k) =~= s.take(k));
    }
}

/// Returns `s` without leading and trailing white space.
pub fn trim(s: &str) -> (r: String)
    ensures
        r@ == trim_spec(s@),
{
    let len = s.unicode_len();
    let mut lo: usize = 0;
    while lo < len && is_whitespace(s.get_char(lo))
        invariant
            len == s@.len(),
            lo <= len,
            forall|i: int| 0 <= i < lo ==> is_ws(#[trigger] s@[i]),
        decreases len - lo,
    {
        lo = lo + 1;
    }
    proof {
        lemma_trim_start_at(s@, lo as int);
    }
    let mut hi: usize = len;
    while hi > lo && is_whitespace(s.get_char(hi - 1))
        invariant
            len == s@.len(),
            lo <= hi <= len,
            forall|i: int| hi <= i < len ==> is_ws(#[trigger] s@[i]),
        decreases hi - lo,
    {
        hi = hi - 1;
    }
    proof {
        let t = s@.skip(lo as int);
        let k = hi - lo;
        assert forall|i: int| k <= i < t.len() implies is_ws(#[trigger] t[i]) by {
            assert(t[i] == s@[i + lo]);
        }
        assert(k == 0 || t[k - 1] == s@[hi - 1]);
        lemma_trim_end_at(t, k as int);
        assert(t.take(k as int) =~= s@.subrange(lo as int, hi as int));
    }
    String::from_str(s.substring_char(lo, hi))
}

/// The views of a sequence of strings.
pub open spec fn views(v: Seq<String>) -> Seq<Seq<char>> {
    v.map_values(|x: String| x@)
}

/// The words of `s`, where `cur` is the part of a word already read.
pub open spec fn split_ws(s: Seq<char>, cur: Seq<char>) -> Seq<Seq<char>>
    decreases s.len(),
{
    if s.len() == 0 {
        if cur.len() > 0 {
            seq![cur]
        } else {
            seq![]
        }
    } else if is_ws(s[0]) {
        (if cur.len() > 0 {
            seq![cur]
        } else {
            seq![]
        }) + split_ws(s.drop_first(), seq![])
    } else {
        split_ws(s.drop_first(), cur.push(s[0]))
    }
}

/// The maximal runs of non-white-space characters of `s`, in order.
pub open spec fn words(s: Seq<char>) -> Seq<Seq<char>> {
    split_ws(s, seq![])
}

/// Splits `s` into its words, as `str::split_whitespace` does.
pub fn split_whitespace(s: &str) -> (r: Vec<String>)
    ensures
        views(r@) == words(s@),
{
    let len = s.unicode_len();
    let mut out: Vec<String> = Vec::new();
    let mut start: usize = 0;
    let mut i: usize = 0;
    proof {
        assert(s@.skip(0) =~= s@);
        assert(s@.subrange(0, 0) =~= Seq::<char>::empty());
        assert(views(out@) =~= Seq::<Seq<char>>::empty());
    }
    while i < len
        invariant
            len == s@.len(),
            start <= i <= len,
            views(out@) + split_ws(s@.skip(i as int), s@.subrange(start as int, i as int))
                == words(s@),
        decreases len - i,
    {
        let c = s.get_char(i);
        let ghost rest = s@.skip(i as int);
        let ghost cur = s@.subrange(start as int, i as int);
        proof {
            assert(rest[0] == c);
            assert(rest.drop_first() =~= s@.skip(i + 1));
        }
        if is_whitespace(c) {
            if start < i {
                let w = String::from_str(s.substring_char(start, i));
                let ghost before = views(out@);
                out.push(w);
                proof {
                    assert(views(out@) =~= before.push(cur));
                    assert(before + (seq![cur] + split_ws(rest.drop_first(), seq![])) =~=
                        views(out@) + split_ws(rest.drop_first(), seq![]));
                }
            } else {
                proof {
                    assert(cur =~= Seq::<char>::empty());
                    assert(Seq::<Seq<char>>::empty() + split_ws(rest.drop_first(), seq![])
                        =~= split_ws(rest.drop_first(), seq![]));
                }
            }
            i = i + 1;
            start = i;
            proof {
                assert(s@.subrange(start as int, i as int) =~= Seq::<char>::empty());
            }
        } else {
            i = i + 1;
            proof {
                assert(cur.push(c) =~= s@.subrange(start as int, i as int));
            }
        }
    }
    proof {
        assert(s@.skip(i as int) =~= Seq::<char>::empty());
    }
    if start < i {
        let ghost before = views(out@);
        let ghost cur = s@.subrange(start as int, i as int);
        let w = String::from_str(s.substring_char(start, i));
        out.push(w);
        proof {
            assert(views(out@) =~= before.push(cur));
            assert(before + seq![cur] =~= views(out@));
        }
    } else {
        proof {
            assert(views(out@) + Seq::<Seq<char>>::empty() =~= views(out@));
        }
    }
    out
}

/// The words of `ws` joined by single spaces.
pub open spec fn join_spaced(ws: Seq<Seq<char>>) -> Seq<char>
    decreases ws.len(),
{
    if ws.len() == 0 {
        seq![]
    } else if ws.len() == 1 {
        ws[0]
    } else {
        join_spaced(ws.drop_last()) + seq![' '] + ws.last()
    }
}

/// Joins `ws[from..]` with single spaces, as `join(" ")` does.
pub fn join_from(ws: &Vec<String>, from: usize) -> (r: String)
    requires
        from <= ws.len(),
    ensures
        r@ == join_spaced(views(ws@).skip(from as int)),
{
    let mut out = String::new();
    let mut i: usize = from;
    proof {
        assert(views(ws@).skip(from as int).take(0) =~= Seq::<Seq<char>>::empty());
    }
    while i < ws.len()
        invariant
            from <= i <= ws.len(),
            out@ == join_spaced(views(ws@).skip(from as int).take(i - from)),
        decreases ws.len() - i,
    {
        let ghost all = views(ws@).skip(from as int);
        let ghost next = all.take(i - from + 1);
        proof {
            assert(next.drop_last() =~= all.take(i - from));
            assert(next.last() == ws@[i as int]@);
        }
        if i > from {
            out.append(" ");
            proof {
                assert(" "@ =~= seq![' ']) by {
                    reveal_strlit(" ");
                }
            }
        } else {
            proof {
                assert(all.take(0) =~= Seq::<Seq<char>>::empty());
            }
        }
        out.append(ws[i].as_str());
        i = i + 1;
    }
    proof {
        assert(views(ws@).skip(from as int).take(ws.len() - from) =~= views(ws@).skip(
            from as int,
        ));
    }
    out
}

/// Whether `s` begins with `p`.
pub open spec fn starts_with(s: Seq<char>, p: Seq<char>) -> bool {
    p.len() <= s.len() && s.take(p.len() as int) == p
}

/// Whether `s` ends with `p`.
pub open spec fn ends_with(s: Seq<char>, p: Seq<char>) -> bool {
    p.len() <= s.len() && s.skip(s.len() - p.len()) == p
}

/// Whether `s` begins with `p`.
pub fn has_prefix(s: &str, p: &str) -> (r: bool)
    ensures
        r == starts_with(s@, p@),
{
    let n = s.unicode_len();
    let m = p.unicode_len();
    if m > n {
        return false;
    }
    let mut i: usize = 0;
    while i < m
        invariant
            n == s@.len(),
            m == p@.len(),
            m <= n,
            i <= m,
            forall|j: int| 0 <= j < i ==> s@[j] == p@[j],
        decreases m - i,
    {
        if s.get_char(i) != p.get_char(i) {
            proof {
                assert(s@.take(m as int)[i as int] != p@[i as int]);
            }
            return false;
        }
        i = i + 1;
    }
    proof {
        assert(s@.take(m as int) =~= p@);
    }
    true
}

/// Whether `s` ends with `p`.
pub fn has_suffix(s: &str, p: &str) -> (r: bool)
    ensures
        r == ends_with(s@, p@),
{
    let n = s.unicode_len();
    let m = p.unicode_len();
    if m > n {
        return false;
    }
    let off = n - m;
    let mut i: usize = 0;
    while i < m
        invariant
            n == s@.len(),
            m == p@.len(),
            off == n - m,
            i <= m,
            forall|j: int| 0 <= j < i ==> s@[off + j] == p@[j],
        decreases m - i,
    {
        if s.get_char(off + i) != p.get_char(i) {
            proof {
                assert(s@.skip(off as int)[i as int] != p@[i as int]);
            }
            return false;
        }
        i = i + 1;
    }
    proof {
        assert(s@.skip(off as int) =~= p@);
    }
    true
}

proof fn lemma_trim_start_edge(s: Seq<char>)
    ensures
        trim_start(s).len() > 0 ==> !is_ws(trim_start(s)[0]),
    decreases s.len(),
{
    if s.len() > 0 && is_ws(s[0]) {
        lemma_trim_start_edge(s.drop_first());
    }
}

proof fn lemma_trim_end_edge(s: Seq<char>)
    ensures
        trim_end(s).len() <= s.len(),
        trim_end(s) == s.take(trim_end(s).len() as int),
        trim_end(s).len() > 0 ==> !is_ws(trim_end(s).last()),
    decreases s.len(),
{
    if s.len() > 0 && is_ws(s.last()) {
        let t = s.drop_last();
        lemma_trim_end_edge(t);
        assert(t.take(trim_end(t).len() as int) =~= s.take(trim_end(t).len() as int));
    } else {
        assert(s.take(s.len() as int) =~= s);
    }
}

/// A trimmed text has no white space at either end: trimming it again
/// changes nothing.
pub proof fn lemma_trim_idempotent(s: Seq<char>)
    ensures
        trim_spec(trim_spec(s)) == trim_spec(s),
        trim_spec(s).len() > 0 ==> !is_ws(trim_spec(s)[0]) && !is_ws(trim_spec(s).last()),
{
    let u = trim_start(s);
    let t = trim_end(u);
    lemma_trim_start_edge(s);
    lemma_trim_end_edge(u);
    if t.len() > 0 {
        assert(t[0] == u[0]);
        assert(trim_start(t) == t);
        assert(trim_end(t) == t);
    } else {
        assert(trim_start(t) == t);
        assert(trim_end(t) == t);
    }
}

/// A text that neither begins nor ends with white space is its own trim.
pub proof fn lemma_trim_unchanged(s: Seq<char>)
    requires
        s.len() > 0 ==> !is_ws(s[0]) && !is_ws(s.last()),
    ensures
        trim_spec(s) == s,
{
    assert(trim_start(s) == s);
    assert(trim_end(s) == s);
}

/// Whether `w` holds no white space.
pub open spec fn no_ws(w: Seq<char>) -> bool {
    forall|j: int| 0 <= j < w.len() ==> !is_ws(#[trigger] w[j])
}

/// Whether every word of `ws` is non-empty and holds no white space, as the
/// words of a text are.
pub open spec fn plain_words(ws: Seq<Seq<char>>) -> bool {
    forall|i: int| 0 <= i < ws.len() ==> (#[trigger] ws[i]).len() > 0 && no_ws(ws[i])
}

proof fn lemma_split_plain(s: Seq<char>, cur: Seq<char>)
    requires
        no_ws(cur),
    ensures
        plain_words(split_ws(s, cur)),
    decreases s.len(),
{
    if s.len() == 0 {
    } else if is_ws(s[0]) {
        lemma_split_plain(s.drop_first(), seq![]);
        let head: Seq<Seq<char>> = if cur.len() > 0 {
            seq![cur]
        } else {
            seq![]
        };
        let tail = split_ws(s.drop_first(), seq![]);
        assert forall|i: int| 0 <= i < (head + tail).len() implies (#[trigger] (head + tail)[i]).len()
            > 0 && no_ws((head + tail)[i]) by {
            if i < head.len() {
                assert((head + tail)[i] == cur);
            } else {
                assert((head + tail)[i] == tail[i - head.len()]);
            }
        }
    } else {
        let c2 = cur.push(s[0]);
        assert forall|j: int| 0 <= j < c2.len() implies !is_ws(#[trigger] c2[j]) by {
            if j < cur.len() {
                assert(c2[j] == cur[j]);
            }
        }
        lemma_split_plain(s.drop_first(), c2);
    }
}

/// Every word of a text is non-empty and holds no white space.
pub proof fn lemma_words_plain(s: Seq<char>)
    ensures
        plain_words(words(s)),
{
    lemma_split_plain(s, seq![]);
}

proof fn lemma_split_word(w: Seq<char>, rest: Seq<char>, cur: Seq<char>)
    requires
        no_ws(w),
    ensures
        split_ws(w + rest, cur) == split_ws(rest, cur + w),
    decreases w.len(),
{
    if w.len() == 0 {
        assert(w + rest =~= rest);
        assert(cur + w =~= cur);
    } else {
        let t = w.drop_first();
        assert((w + rest)[0] == w[0]);
        assert((w + rest).drop_first() =~= t + rest);
        assert forall|j: int| 0 <= j < t.len() implies !is_ws(#[trigger] t[j]) by {
            assert(t[j] == w[j + 1]);
        }
        lemma_split_word(t, rest, cur.push(w[0]));
        assert(cur.push(w[0]) + t =~= cur + w);
    }
}

proof fn lemma_join_front(ws: Seq<Seq<char>>)
    requires
        ws.len() >= 2,
    ensures
        join_spaced(ws) == ws[0] + seq![' '] + join_spaced(ws.drop_first()),
    decreases ws.len(),
{
    if ws.len() == 2 {
        assert(ws.drop_last() =~= seq![ws[0]]);
        assert(ws.drop_first() =~= seq![ws[1]]);
        assert(join_spaced(ws.drop_last()) == ws[0]);
        assert(join_spaced(ws.drop_first()) == ws[1]);
        assert(join_spaced(ws) == join_spaced(ws.drop_last()) + seq![' '] + ws.last());
    } else {
        lemma_join_front(ws.drop_last());
        assert(ws.drop_last().drop_first() =~= ws.drop_first().drop_last());
        assert(ws.drop_first().last() == ws.last());
        assert(ws.drop_last()[0] == ws[0]);
        assert(join_spaced(ws) == join_spaced(ws.drop_last()) + seq![' '] + ws.last());
        assert(join_spaced(ws.drop_first()) == join_spaced(ws.drop_first().drop_last()) + seq![' ']
            + ws.drop_first().last());
        assert(ws[0] + seq![' '] + join_spaced(ws.drop_first().drop_last()) + seq![' '] + ws.last()
            =~= ws[0] + seq![' '] + (join_spaced(ws.drop_first().drop_last()) + seq![' '] + ws.last()));
    }
}

/// Words joined by single spaces split back into the same words.
pub proof fn lemma_words_of_join(ws: Seq<Seq<char>>)
    requires
        plain_words(ws),
    ensures
        words(join_spaced(ws)) == ws,
    decreases ws.len(),
{
    if ws.len() == 0 {
        assert(words(join_spaced(ws)) =~= ws);
    } else if ws.len() == 1 {
        assert(ws[0].len() > 0 && no_ws(ws[0]));
        lemma_split_word(ws[0], seq![], seq![]);
        assert(ws[0] + Seq::<char>::empty() =~= ws[0]);
        assert(Seq::<char>::empty() + ws[0] =~= ws[0]);
        assert(words(join_spaced(ws)) =~= ws);
    } else {
        let rest = ws.drop_first();
        assert forall|i: int| 0 <= i < rest.len() implies (#[trigger] rest[i]).len() > 0 && no_ws(
            rest[i],
        ) by {
            assert(rest[i] == ws[i + 1]);
        }
        lemma_words_of_join(rest);
        lemma_join_front(ws);
        assert(ws[0].len() > 0 && no_ws(ws[0]));
        let tail = seq![' '] + join_spaced(rest);
        assert(ws[0] + seq![' '] + join_spaced(rest) =~= ws[0] + tail);
        lemma_split_word(ws[0], tail, seq![]);
        assert(Seq::<char>::empty() + ws[0] =~= ws[0]);
        assert(tail[0] == ' ');
        assert(tail.drop_first() =~= join_spaced(rest));
        assert(split_ws(tail, ws[0]) == seq![ws[0]] + split_ws(join_spaced(rest), seq![]));
        assert(seq![ws[0]] + rest =~= ws);
    }
}

} // verus!

