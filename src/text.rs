//! Character-level helpers: conversion between strings and character
//! vectors, Unicode whitespace, trimming and line splitting.

use vstd::prelude::*;

verus! {

/// Relies on `String::push`: the character is appended at the end.
#[verifier::external_body]
pub(crate) fn push_char(s: &mut String, c: char)
    ensures
        final(s)@ == old(s)@.push(c),
{
    s.push(c);
}

/// The characters of `s`, in order.
pub fn chars_of(s: &str) -> (r: Vec<char>)
    ensures
        r@ == s@,
{
    let mut v: Vec<char> = Vec::new();
    for c in it: s.chars()
        invariant
            it.seq() == s@,
            v@ == it.seq().take(it.index() as int),
    {
        v.push(c);
    }
    v
}

/// A string holding exactly the characters `v[from..to]`.
pub fn string_of(v: &Vec<char>, from: usize, to: usize) -> (r: String)
    requires
        from <= to <= v@.len(),
    ensures
        r@ == v@.subrange(from as int, to as int),
{
    let mut s = String::new();
    let mut i: usize = from;
    while i < to
        invariant
            from <= i <= to <= v@.len(),
            s@ == v@.subrange(from as int, i as int),
        decreases to - i,
    {
        push_char(&mut s, v[i]);
        assert(s@ =~= v@.subrange(from as int, i + 1));
        i = i + 1;
    }
    s
}

/// Unicode `White_Space`, as `char::is_whitespace` documents it.
pub open spec fn is_ws(c: char) -> bool {
    let u = c as u32;
    (9 <= u <= 13) || u == 32 || u == 0x85 || u == 0xA0 || u == 0x1680 || (0x2000 <= u
        <= 0x200A) || u == 0x2028 || u == 0x2029 || u == 0x202F || u == 0x205F || u == 0x3000
}

pub fn is_whitespace(c: char) -> (r: bool)
    ensures
        r == is_ws(c),
{
    let u = c as u32;
    (9 <= u && u <= 13) || u == 32 || u == 0x85 || u == 0xA0 || u == 0x1680 || (0x2000 <= u
        && u <= 0x200A) || u == 0x2028 || u == 0x2029 || u == 0x202F || u == 0x205F || u
        == 0x3000
}

/// Number of whitespace characters at the front of `s`.
pub open spec fn lead_ws(s: Seq<char>) -> nat
    decreases s.len(),
{
    if s.len() == 0 {
        0
    } else if is_ws(s[0]) {
        1 + lead_ws(s.drop_first())
    } else {
        0
    }
}

/// Number of whitespace characters at the back of `s`.
pub open spec fn trail_ws(s: Seq<char>) -> nat
    decreases s.len(),
{
    if s.len() == 0 {
        0
    } else if is_ws(s.last()) {
        1 + trail_ws(s.drop_last())
    } else {
        0
    }
}

/// `s` without leading and trailing whitespace (`str::trim`).
pub open spec fn trim(s: Seq<char>) -> Seq<char> {
    let rest = s.subrange(lead_ws(s) as int, s.len() as int);
    rest.subrange(0, rest.len() - trail_ws(rest))
}

proof fn lemma_lead_ws(s: Seq<char>, k: int)
    requires
        0 <= k <= s.len(),
        forall|j: int| 0 <= j < k ==> is_ws(s[j]),
        k == s.len() || !is_ws(s[k]),
    ensures
        lead_ws(s) == k,
    decreases k,
{
    if k > 0 {
        lemma_lead_ws(s.drop_first(), k - 1);
    }
}

proof fn lemma_trail_ws(s: Seq<char>, k: int)
    requires
        0 <= k <= s.len(),
        forall|j: int| s.len() - k <= j < s.len() ==> is_ws(s[j]),
        k == s.len() || !is_ws(s[s.len() - k - 1]),
    ensures
        trail_ws(s) == k,
    decreases k,
{
    if k > 0 {
        lemma_trail_ws(s.drop_last(), k - 1);
    }
}

/// Bounds `(a, b)` such that `s[a..b]` is `trim(s)`.
pub fn trim_bounds(s: &Vec<char>, from: usize, to: usize) -> (r: (usize, usize))
    requires
        from <= to <= s@.len(),
    ensures
        from <= r.0 <= r.1 <= to,
        s@.subrange(r.0 as int, r.1 as int) == trim(s@.subrange(from as int, to as int)),
{
    let ghost t = s@.subrange(from as int, to as int);
    let mut a: usize = from;
    while a < to && is_whitespace(s[a])
        invariant
            from <= a <= to <= s@.len(),
            forall|j: int| from <= j < a ==> is_ws(s@[j]),
        decreases to - a,
    {
        a = a + 1;
    }
    proof {
        lemma_lead_ws(t, a - from);
    }
    let ghost rest = t.subrange(a - from, t.len() as int);
    let mut b: usize = to;
    while b > a && is_whitespace(s[b - 1])
        invariant
            from <= a <= b <= to <= s@.len(),
            forall|j: int| b <= j < to ==> is_ws(s@[j]),
        decreases b - a,
    {
        b = b - 1;
    }
    proof {
        assert(rest =~= s@.subrange(a as int, to as int));
        lemma_trail_ws(rest, to - b);
        assert(s@.subrange(a as int, b as int) =~= rest.subrange(0, rest.len() - (to - b)));
    }
    (a, b)
}

/// `l` without one trailing carriage return.
pub open spec fn strip_cr(l: Seq<char>) -> Seq<char> {
    if l.len() > 0 && l.last() == '\r' {
        l.drop_last()
    } else {
        l
    }
}

/// Index of the first line feed in `s`, or its length where there is none.
pub open spec fn first_nl(s: Seq<char>) -> nat
    decreases s.len(),
{
    if s.len() == 0 {
        0
    } else if s[0] == '\n' {
        0
    } else {
        1 + first_nl(s.drop_first())
    }
}

/// The lines of `s` as `str::lines` yields them: split at each line feed,
/// a carriage return before a line feed dropped, and no empty line after a
/// final line feed.
pub open spec fn lines_of(s: Seq<char>) -> Seq<Seq<char>>
    decreases s.len(),
{
    if s.len() == 0 {
        seq![]
    } else {
        let k = first_nl(s);
        if k >= s.len() {
            seq![s]
        } else {
            seq![strip_cr(s.subrange(0, k as int))] + lines_of(s.subrange((k + 1) as int, s.len() as int))
        }
    }
}

proof fn lemma_first_nl(s: Seq<char>, k: int)
    requires
        0 <= k <= s.len(),
        forall|j: int| 0 <= j < k ==> s[j] != '\n',
        k == s.len() || s[k] == '\n',
    ensures
        first_nl(s) == k,
    decreases k,
{
    if k > 0 {
        lemma_first_nl(s.drop_first(), k - 1);
    }
}

/// `l` holds no line feed.
pub open spec fn no_newline(l: Seq<char>) -> bool {
    forall|j: int| 0 <= j < l.len() ==> l[j] != '\n'
}

/// The texts in `s` of the spans `(start, end)` of `v`.
pub open spec fn spans_view(v: Seq<(usize, usize)>, s: Seq<char>) -> Seq<Seq<char>> {
    v.map_values(|p: (usize, usize)| s.subrange(p.0 as int, p.1 as int))
}

/// Splits `s` into lines; each line is returned as a span of `s`.
pub fn line_spans(s: &Vec<char>) -> (r: Vec<(usize, usize)>)
    ensures
        forall|i: int| 0 <= i < r@.len() ==> #[trigger] r@[i].0 <= r@[i].1 <= s@.len(),
        forall|i: int| 0 <= i < r@.len() ==> no_newline(#[trigger] spans_view(r@, s@)[i]),
        r@.len() <= s@.len(),
        spans_view(r@, s@) == lines_of(s@),
{
    let n = s.len();
    let mut out: Vec<(usize, usize)> = Vec::new();
    let mut start: usize = 0;
    let mut i: usize = 0;
    proof {
        assert(s@.subrange(0, n as int) =~= s@);
        assert(spans_view(out@, s@) =~= Seq::<Seq<char>>::empty());
        assert(lines_of(s@) =~= spans_view(out@, s@) + lines_of(s@));
    }
    while i < n
        invariant
            n == s@.len(),
            start <= i <= n,
            forall|j: int| start <= j < i ==> s@[j] != '\n',
            forall|j: int| 0 <= j < out@.len() ==> #[trigger] out@[j].0 <= out@[j].1 <= n,
            forall|j: int|
                0 <= j < out@.len() ==> no_newline(#[trigger] spans_view(out@, s@)[j]),
            out@.len() <= start,
            lines_of(s@) == spans_view(out@, s@) + lines_of(s@.subrange(start as int, n as int)),
        decreases n - i,
    {
        if s[i] == '\n' {
            let ghost rest = s@.subrange(start as int, n as int);
            proof {
                lemma_first_nl(rest, i - start);
                assert(rest.subrange(0, i - start) =~= s@.subrange(start as int, i as int));
                assert(rest.subrange(i - start + 1, rest.len() as int) =~= s@.subrange(
                    i + 1,
                    n as int,
                ));
            }
            let end = if i > start && s[i - 1] == '\r' {
                i - 1
            } else {
                i
            };
            proof {
                let l = s@.subrange(start as int, i as int);
                if i > start && s@[i - 1] == '\r' {
                    assert(strip_cr(l) =~= s@.subrange(start as int, end as int));
                } else {
                    assert(strip_cr(l) =~= s@.subrange(start as int, end as int));
                }
            }
            let ghost old_out = out@;
            out.push((start, end));
            proof {
                assert(spans_view(out@, s@) =~= spans_view(old_out, s@) + seq![
                    s@.subrange(start as int, end as int),
                ]);
                assert(no_newline(s@.subrange(start as int, end as int)));
                assert forall|j: int| 0 <= j < out@.len() implies no_newline(
                    #[trigger] spans_view(out@, s@)[j],
                ) by {
                    if j < old_out.len() {
                        assert(spans_view(out@, s@)[j] == spans_view(old_out, s@)[j]);
                    }
                }
            }
            start = i + 1;
        }
        i = i + 1;
    }
    let ghost rest = s@.subrange(start as int, n as int);
    if start < n {
        proof {
            lemma_first_nl(rest, rest.len() as int);
        }
        let ghost old_out = out@;
        out.push((start, n));
        proof {
            assert(spans_view(out@, s@) =~= spans_view(old_out, s@) + seq![rest]);
            assert(no_newline(rest));
            assert forall|j: int| 0 <= j < out@.len() implies no_newline(
                #[trigger] spans_view(out@, s@)[j],
            ) by {
                if j < old_out.len() {
                    assert(spans_view(out@, s@)[j] == spans_view(old_out, s@)[j]);
                }
            }
        }
    } else {
        assert(spans_view(out@, s@) + lines_of(rest) =~= spans_view(out@, s@));
    }
    out
}

/// Number of line feeds in `s`.
pub open spec fn nl_count(s: Seq<char>) -> nat
    decreases s.len(),
{
    if s.len() == 0 {
        0
    } else {
        nl_count(s.drop_last()) + if s.last() == '\n' {
            1nat
        } else {
            0nat
        }
    }
}

pub proof fn lemma_nl_count_add(a: Seq<char>, b: Seq<char>)
    ensures
        nl_count(a + b) == nl_count(a) + nl_count(b),
    decreases b.len(),
{
    if b.len() > 0 {
        lemma_nl_count_add(a, b.drop_last());
        assert((a + b).drop_last() =~= a + b.drop_last());
    } else {
        assert(a + b =~= a);
    }
}

pub proof fn lemma_nl_count_none(s: Seq<char>)
    requires
        no_newline(s),
    ensures
        nl_count(s) == 0,
    decreases s.len(),
{
    if s.len() > 0 {
        lemma_nl_count_none(s.drop_last());
    }
}

proof fn lemma_first_nl_facts(s: Seq<char>)
    ensures
        first_nl(s) <= s.len(),
        first_nl(s) < s.len() ==> s[first_nl(s) as int] == '\n',
        no_newline(s.subrange(0, first_nl(s) as int)),
    decreases s.len(),
{
    if s.len() > 0 && s[0] != '\n' {
        lemma_first_nl_facts(s.drop_first());
        let k = first_nl(s) as int;
        assert forall|j: int| 0 <= j < k implies s.subrange(0, k)[j] != '\n' by {
            if j > 0 {
                assert(s.subrange(0, k)[j] == s.drop_first().subrange(0, k - 1)[j - 1]);
            }
        }
    }
}

/// `s` has at most one more line than it has line feeds.
pub proof fn lemma_lines_bound(s: Seq<char>)
    ensures
        lines_of(s).len() <= nl_count(s) + 1,
    decreases s.len(),
{
    if s.len() > 0 {
        lemma_first_nl_facts(s);
        let k = first_nl(s) as int;
        if k < s.len() {
            let rest = s.subrange(k + 1, s.len() as int);
            lemma_lines_bound(rest);
            assert(s =~= s.subrange(0, k) + seq!['\n'] + rest);
            lemma_nl_count_add(s.subrange(0, k) + seq!['\n'], rest);
            lemma_nl_count_add(s.subrange(0, k), seq!['\n']);
            assert(seq!['\n'].drop_last() =~= Seq::<char>::empty());
        }
    }
}

/// `s` has no more lines than characters: a caller that knows the length
/// of a text bounds its line count with this.
pub proof fn lemma_lines_len(s: Seq<char>)
    ensures
        lines_of(s).len() <= s.len(),
    decreases s.len(),
{
    if s.len() > 0 {
        lemma_first_nl_facts(s);
        let k = first_nl(s) as int;
        if k < s.len() {
            lemma_lines_len(s.subrange(k + 1, s.len() as int));
        }
    }
}

/// Lines joined with a line feed between each two.
pub open spec fn join_lines(ls: Seq<Seq<char>>) -> Seq<char>
    decreases ls.len(),
{
    if ls.len() == 0 {
        seq![]
    } else if ls.len() == 1 {
        ls[0]
    } else {
        join_lines(ls.drop_last()) + seq!['\n'] + ls.last()
    }
}

/// Joining lines without line feeds of their own gives one line feed fewer
/// than lines.
pub proof fn lemma_join_nl_count(ls: Seq<Seq<char>>)
    requires
        ls.len() > 0,
        forall|i: int| 0 <= i < ls.len() ==> no_newline(#[trigger] ls[i]),
    ensures
        nl_count(join_lines(ls)) == ls.len() - 1,
    decreases ls.len(),
{
    if ls.len() == 1 {
        lemma_nl_count_none(ls[0]);
    } else {
        let init = ls.drop_last();
        assert forall|i: int| 0 <= i < init.len() implies no_newline(#[trigger] init[i]) by {
            assert(init[i] == ls[i]);
        }
        lemma_join_nl_count(init);
        lemma_nl_count_none(ls.last());
        lemma_nl_count_add(join_lines(init) + seq!['\n'], ls.last());
        lemma_nl_count_add(join_lines(init), seq!['\n']);
        assert(seq!['\n'].drop_last() =~= Seq::<char>::empty());
        assert(nl_count(Seq::<char>::empty()) == 0);
        assert(nl_count(seq!['\n']) == 1);
    }
}

/// The characters `v[from..to]`.
pub fn slice_of(v: &Vec<char>, from: usize, to: usize) -> (r: Vec<char>)
    requires
        from <= to <= v@.len(),
    ensures
        r@ == v@.subrange(from as int, to as int),
{
    let mut r: Vec<char> = Vec::new();
    let mut i: usize = from;
    while i < to
        invariant
            from <= i <= to <= v@.len(),
            r@ == v@.subrange(from as int, i as int),
        decreases to - i,
    {
        r.push(v[i]);
        assert(r@ =~= v@.subrange(from as int, i + 1));
        i = i + 1;
    }
    r
}

} // verus!
