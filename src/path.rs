//! Splitting paths and patterns into their slash-separated segments.

use vstd::prelude::*;

verus! {

/// The separator between segments.
pub open spec fn is_slash(c: char) -> bool {
    c == '/'
}

/// `s` without its leading slashes.
pub open spec fn trim_start(s: Seq<char>) -> Seq<char>
    decreases s.len(),
{
    if s.len() > 0 && is_slash(s[0]) {
        trim_start(s.drop_first())
    } else {
        s
    }
}

/// `s` without its trailing slashes.
pub open spec fn trim_end(s: Seq<char>) -> Seq<char>
    decreases s.len(),
{
    if s.len() > 0 && is_slash(s.last()) {
        trim_end(s.drop_last())
    } else {
        s
    }
}

/// The pieces of `s` between slashes, read left to right; an empty string is
/// one empty piece, and two adjacent slashes enclose an empty piece.
pub open spec fn split_slashes(s: Seq<char>) -> Seq<Seq<char>>
    decreases s.len(),
{
    if s.len() == 0 {
        seq![Seq::<char>::empty()]
    } else {
        let prev = split_slashes(s.drop_last());
        if is_slash(s.last()) {
            prev.push(Seq::<char>::empty())
        } else {
            prev.update(prev.len() - 1, prev.last().push(s.last()))
        }
    }
}

/// The segments of a path or a pattern: leading and trailing slashes are
/// ignored, the rest is split at every slash.
pub open spec fn segments(s: Seq<char>) -> Seq<Seq<char>> {
    split_slashes(trim_end(trim_start(s)))
}

/// The pieces of `s` that a list of spans (start, end) picks out.
pub open spec fn pieces(s: Seq<char>, spans: Seq<(usize, usize)>) -> Seq<Seq<char>> {
    Seq::new(spans.len(), |k: int| s.subrange(spans[k].0 as int, spans[k].1 as int))
}

/// Each span lies within `s` and starts no later than it ends.
pub open spec fn spans_within(s: Seq<char>, spans: Seq<(usize, usize)>) -> bool {
    forall|k: int| 0 <= k < spans.len() ==> #[trigger] spans[k].0 <= spans[k].1 <= s.len()
}

/// The characters of `s`, one by one.
pub fn chars_of(s: &str) -> (r: Vec<char>)
    ensures
        r@ == s@,
{
    let n = s.unicode_len();
    let mut r: Vec<char> = Vec::new();
    let mut i: usize = 0;
    while i < n
        invariant
            n == s@.len(),
            i <= n,
            r@ == s@.subrange(0, i as int),
        decreases n - i,
    {
        r.push(s.get_char(i));
        i = i + 1;
    }
    assert(r@ =~= s@);
    r
}

/// The spans of the segments of `s`, as indices into `s`.
pub fn segment_spans(s: &Vec<char>) -> (r: Vec<(usize, usize)>)
    ensures
        spans_within(s@, r@),
        pieces(s@, r@) == segments(s@),
{
    let n = s.len();
    let mut lo: usize = 0;
    assert(s@.subrange(0, n as int) =~= s@);
    while lo < n && s[lo] == '/'
        invariant
            n == s@.len(),
            lo <= n,
            trim_start(s@) == trim_start(s@.subrange(lo as int, n as int)),
        decreases n - lo,
    {
        assert(s@.subrange(lo as int, n as int).drop_first() =~= s@.subrange(lo + 1, n as int));
        lo = lo + 1;
    }
    assert(trim_start(s@) == s@.subrange(lo as int, n as int));
    let mut hi: usize = n;
    while hi > lo && s[hi - 1] == '/'
        invariant
            n == s@.len(),
            lo <= hi <= n,
            trim_end(trim_start(s@)) == trim_end(s@.subrange(lo as int, hi as int)),
        decreases hi - lo,
    {
        assert(s@.subrange(lo as int, hi as int).drop_last() =~= s@.subrange(lo as int, hi - 1));
        hi = hi - 1;
    }
    let ghost t = s@.subrange(lo as int, hi as int);
    assert(trim_end(trim_start(s@)) == t);
    let mut done: Vec<(usize, usize)> = Vec::new();
    let mut start: usize = lo;
    let mut i: usize = lo;
    assert(s@.subrange(lo as int, lo as int) =~= Seq::<char>::empty());
    assert(pieces(s@, done@).push(s@.subrange(start as int, i as int)) =~= seq![
        Seq::<char>::empty(),
    ]);
    while i < hi
        invariant
            n == s@.len(),
            lo <= start <= i <= hi <= n,
            t == s@.subrange(lo as int, hi as int),
            spans_within(s@, done@),
            split_slashes(s@.subrange(lo as int, i as int)) == pieces(s@, done@).push(
                s@.subrange(start as int, i as int),
            ),
        decreases hi - i,
    {
        let ghost before = s@.subrange(lo as int, i as int);
        let ghost prev = split_slashes(before);
        assert(s@.subrange(lo as int, i + 1).drop_last() =~= before);
        assert(s@.subrange(lo as int, i + 1).last() == s@[i as int]);
        if s[i] == '/' {
            done.push((start, i));
            start = i + 1;
            assert(s@.subrange(start as int, start as int) =~= Seq::<char>::empty());
            assert(pieces(s@, done@).push(s@.subrange(start as int, i + 1)) =~= prev.push(
                Seq::<char>::empty(),
            ));
        } else {
            assert(s@.subrange(start as int, i + 1) =~= s@.subrange(start as int, i as int).push(
                s@[i as int],
            ));
            assert(pieces(s@, done@).push(s@.subrange(start as int, i + 1)) =~= prev.update(
                prev.len() - 1,
                prev.last().push(s@[i as int]),
            ));
        }
        i = i + 1;
    }
    assert(s@.subrange(lo as int, i as int) == t);
    done.push((start, hi));
    assert(pieces(s@, done@) =~= split_slashes(t));
    done
}

/// Whether the pieces `a[a0..a1]` and `b[b0..b1]` hold the same characters.
pub fn same_chars(a: &Vec<char>, a0: usize, a1: usize, b: &Vec<char>, b0: usize, b1: usize) -> (r:
    bool)
    requires
        a0 <= a1 <= a@.len(),
        b0 <= b1 <= b@.len(),
    ensures
        r == (a@.subrange(a0 as int, a1 as int) == b@.subrange(b0 as int, b1 as int)),
{
    if a1 - a0 != b1 - b0 {
        assert(a@.subrange(a0 as int, a1 as int).len() != b@.subrange(b0 as int, b1 as int).len());
        return false;
    }
    let len = a1 - a0;
    let mut k: usize = 0;
    assert(a@.subrange(a0 as int, a0 as int) =~= b@.subrange(b0 as int, b0 as int));
    while k < len
        invariant
            len == a1 - a0 == b1 - b0,
            a0 <= a1 <= a@.len(),
            b0 <= b1 <= b@.len(),
            k <= len,
            a@.subrange(a0 as int, a0 + k) == b@.subrange(b0 as int, b0 + k),
        decreases len - k,
    {
        if a[a0 + k] != b[b0 + k] {
            assert(a@.subrange(a0 as int, a1 as int)[k as int] != b@.subrange(
                b0 as int,
                b1 as int,
            )[k as int]);
            return false;
        }
        assert(a@.subrange(a0 as int, a0 + k + 1) =~= a@.subrange(a0 as int, a0 + k).push(
            a@[a0 + k],
        ));
        assert(b@.subrange(b0 as int, b0 + k + 1) =~= b@.subrange(b0 as int, b0 + k).push(
            b@[b0 + k],
        ));
        k = k + 1;
    }
    true
}

} // verus!
