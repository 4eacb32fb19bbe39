//! Placeholder types and the values that a path segment decodes to.

use vstd::prelude::*;

verus! {

/// How the text that a placeholder captures is decoded.
#[derive(Clone, Copy, Debug, PartialEq, Eq, Structural)]
pub enum ParamType {
    /// Any text, taken as it is.
    String,
    /// A non-negative integer that fits in 64 bits.
    U64,
}

/// A decoded placeholder value.
#[derive(Clone, Debug, PartialEq, Eq)]
pub enum ParamValue {
    /// The segment's text.
    Text(String),
    /// The segment's number.
    U64(u64),
}

pub open spec fn is_digit(c: char) -> bool {
    '0' <= c && c <= '9'
}

pub open spec fn digit_value(c: char) -> nat {
    (c as int - '0' as int) as nat
}

/// Every character of `s` is a decimal digit.
pub open spec fn all_digits(s: Seq<char>) -> bool {
    forall|i: int| 0 <= i < s.len() ==> is_digit(#[trigger] s[i])
}

/// The number that a string of decimal digits spells, most significant first.
pub open spec fn decimal_value(s: Seq<char>) -> nat
    decreases s.len(),
{
    if s.len() == 0 {
        0
    } else {
        decimal_value(s.drop_last()) * 10 + digit_value(s.last())
    }
}

/// The digits of a number's text: what follows an optional leading `+`.
pub open spec fn unsigned_digits(s: Seq<char>) -> Seq<char> {
    if s.len() > 0 && s[0] == '+' {
        s.drop_first()
    } else {
        s
    }
}

/// The `u64` that `s` reads as: an optional `+`, then at least one decimal
/// digit, and a value in range.
pub open spec fn u64_of(s: Seq<char>) -> Option<u64> {
    let d = unsigned_digits(s);
    if d.len() > 0 && all_digits(d) && decimal_value(d) <= u64::MAX {
        Some(decimal_value(d) as u64)
    } else {
        None
    }
}

/// Whether a segment's text decodes as the type `ty`.
pub open spec fn decodes_as(ty: ParamType, seg: Seq<char>) -> bool {
    match ty {
        ParamType::String => true,
        ParamType::U64 => u64_of(seg) is Some,
    }
}

/// Whether `v` is what the segment `seg` decodes to as the type `ty`.
pub open spec fn is_decoded(v: ParamValue, ty: ParamType, seg: Seq<char>) -> bool {
    match v {
        ParamValue::Text(s) => ty == ParamType::String && s@ == seg,
        ParamValue::U64(n) => ty == ParamType::U64 && u64_of(seg) == Some(n),
    }
}

proof fn lemma_prefix_value_bounded(d: Seq<char>, k: int)
    requires
        0 <= k <= d.len(),
        all_digits(d),
    ensures
        decimal_value(d.subrange(0, k)) <= decimal_value(d),
    decreases d.len() - k,
{
    if k < d.len() {
        lemma_prefix_value_bounded(d, k + 1);
        let p = d.subrange(0, k + 1);
        assert(p.drop_last() =~= d.subrange(0, k));
    } else {
        assert(d.subrange(0, k) =~= d);
    }
}

/// The `u64` that the piece `s[a..b]` reads as, if any.
pub fn parse_u64(s: &Vec<char>, a: usize, b: usize) -> (r: Option<u64>)
    requires
        a <= b <= s@.len(),
    ensures
        r == u64_of(s@.subrange(a as int, b as int)),
{
    let ghost seg = s@.subrange(a as int, b as int);
    let mut i: usize = a;
    if i < b && s[i] == '+' {
        i = i + 1;
    }
    let ghost d = unsigned_digits(seg);
    assert(d =~= s@.subrange(i as int, b as int));
    if i == b {
        return None;
    }
    let start = i;
    let mut v: u64 = 0;
    assert(s@.subrange(start as int, start as int) =~= Seq::<char>::empty());
    while i < b
        invariant
            a <= start <= i <= b <= s@.len(),
            d == s@.subrange(start as int, b as int),
            d == unsigned_digits(s@.subrange(a as int, b as int)),
            all_digits(s@.subrange(start as int, i as int)),
            v as nat == decimal_value(s@.subrange(start as int, i as int)),
        decreases b - i,
    {
        let c = s[i];
        let ghost next = s@.subrange(start as int, i + 1);
        assert(next.drop_last() =~= s@.subrange(start as int, i as int));
        assert(d[i - start] == c);
        if !('0' <= c && c <= '9') {
            assert(!is_digit(d[i - start]));
            return None;
        }
        let digit = (c as u32 - '0' as u32) as u64;
        assert(digit as nat == digit_value(c));
        assert(all_digits(next));
        match v.checked_mul(10) {
            Some(t) => match t.checked_add(digit) {
                Some(w) => {
                    v = w;
                },
                None => {
                    proof {
                        assert(decimal_value(next) == t + digit);
                        assert(next =~= d.subrange(0, i + 1 - start));
                        if all_digits(d) {
                            lemma_prefix_value_bounded(d, i + 1 - start);
                        }
                    }
                    return None;
                },
            },
            None => {
                proof {
                    assert(next =~= d.subrange(0, i + 1 - start));
                    if all_digits(d) {
                        lemma_prefix_value_bounded(d, i + 1 - start);
                    }
                }
                return None;
            },
        }
        i = i + 1;
    }
    Some(v)
}

} // verus!
