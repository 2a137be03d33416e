//! Decimal port numbers.

use crate::text::chars_of;
use vstd::prelude::*;

verus! {

/// Whether `c` is one of the decimal digits `0` to `9`.
pub open spec fn is_digit(c: char) -> bool {
    0x30 <= c as u32 <= 0x39
}

/// The number that a decimal digit stands for.
pub open spec fn digit_value(c: char) -> nat {
    if is_digit(c) {
        (c as u32 - 0x30) as nat
    } else {
        0
    }
}

/// The number that a run of decimal digits stands for, most significant
/// digit first.
pub open spec fn decimal_value(s: Seq<char>) -> nat
    decreases s.len(),
{
    if s.len() == 0 {
        0
    } else {
        10 * decimal_value(s.drop_last()) + digit_value(s.last())
    }
}

/// Whether every character of `s` is a decimal digit.
pub open spec fn all_digits(s: Seq<char>) -> bool {
    forall|i: int| 0 <= i < s.len() ==> is_digit(#[trigger] s[i])
}

/// `s` without one leading plus sign, if it has one.
pub open spec fn without_plus_sign(s: Seq<char>) -> Seq<char> {
    if s.len() > 0 && s[0] == '+' {
        s.drop_first()
    } else {
        s
    }
}

/// The port that `s` denotes: an optional plus sign followed by one or more
/// decimal digits whose value fits in 32 bits. Anything else denotes no port.
pub open spec fn parse_port(s: Seq<char>) -> Option<u32> {
    let d = without_plus_sign(s);
    if d.len() > 0 && all_digits(d) && decimal_value(d) <= u32::MAX {
        Some(decimal_value(d) as u32)
    } else {
        None
    }
}

/// A prefix of a digit run never stands for a larger number than the run.
pub proof fn lemma_decimal_value_prefix(s: Seq<char>, k: int)
    requires
        0 <= k <= s.len(),
    ensures
        decimal_value(s.take(k)) <= decimal_value(s),
    decreases s.len(),
{
    if k == s.len() {
        assert(s.take(k) =~= s);
    } else {
        let t = s.drop_last();
        lemma_decimal_value_prefix(t, k);
        assert(t.take(k) =~= s.take(k));
    }
}

/// A text that holds anything but decimal digits, a leading plus sign
/// aside, denotes no port; neither does a text without digits.
pub proof fn law_port_is_digits_only(s: Seq<char>)
    ensures
        parse_port(s) is Some ==> without_plus_sign(s).len() > 0 && all_digits(
            without_plus_sign(s),
        ),
        parse_port(s) is Some ==> parse_port(s)->Some_0 == decimal_value(without_plus_sign(s)),
        s.len() == 0 ==> parse_port(s) is None,
        forall|i: int| 1 <= i < s.len() && !is_digit(s[i]) ==> parse_port(s) is None,
        s.len() > 0 && !is_digit(s[0]) && s[0] != '+' ==> parse_port(s) is None,
{
    let d = without_plus_sign(s);
    assert forall|i: int| 1 <= i < s.len() && !is_digit(s[i]) implies parse_port(s) is None by {
        if s[0] == '+' {
            assert(d[i - 1] == s[i]);
        } else {
            assert(d[i] == s[i]);
        }
    }
    if s.len() > 0 && !is_digit(s[0]) && s[0] != '+' {
        assert(d[0] == s[0]);
    }
}

/// Reads a port number from `s`.
pub fn port_from_text(s: &str) -> (r: Option<u32>)
    ensures
        r == parse_port(s@),
{
    let cs = chars_of(s);
    let n: usize = cs.len();
    let start: usize = if n > 0 && cs[0] == '+' {
        1
    } else {
        0
    };
    let ghost d = without_plus_sign(s@);
    proof {
        assert(d =~= cs@.skip(start as int));
    }
    if start == n {
        return None;
    }
    let mut acc: u64 = 0;
    let mut i: usize = start;
    while i < n
        invariant
            n == cs.len(),
            start <= i <= n,
            d == cs@.skip(start as int),
            d == without_plus_sign(s@),
            all_digits(d.take(i - start)),
            acc == decimal_value(d.take(i - start)),
            acc <= u32::MAX,
        decreases n - i,
    {
        let u: u32 = cs[i] as u32;
        let ghost next = d.take(i - start + 1);
        proof {
            assert(next.drop_last() =~= d.take(i - start));
            assert(next.last() == cs@[i as int]);
            lemma_decimal_value_prefix(d, i - start + 1);
        }
        if u < 0x30 || u > 0x39 {
            proof {
                assert(!is_digit(d[i - start]));
            }
            return None;
        }
        acc = acc * 10 + (u - 0x30) as u64;
        if acc > 0xFFFF_FFFF {
            return None;
        }
        proof {
            assert forall|j: int| 0 <= j < next.len() implies is_digit(#[trigger] next[j]) by {
                if j < next.len() - 1 {
                    assert(next[j] == d.take(i - start)[j]);
                }
            }
        }
        i = i + 1;
    }
    proof {
        assert(d.take(n - start) =~= d);
    }
    Some(acc as u32)
}

} // verus!
