//! Numbered version names: "v1", "v2", ... "v10".

use vstd::prelude::*;
use crate::text::{is_digit, chars_of};

verus! {

/// The value of one decimal digit character.
pub open spec fn digit_value(c: char) -> nat {
    ((c as u32) - ('0' as u32)) as nat
}

/// The value of a run of decimal digits, most significant first.
pub open spec fn digits_value(s: Seq<char>) -> nat
    decreases s.len(),
{
    if s.len() == 0 {
        0
    } else {
        digits_value(s.drop_last()) * 10 + digit_value(s.last())
    }
}

/// Whether every character of `s` is a decimal digit.
pub open spec fn all_digits(s: Seq<char>) -> bool {
    forall|k: int| 0 <= k < s.len() ==> is_digit(#[trigger] s[k])
}

/// The number of a version name of the form `v` followed by one or more
/// decimal digits, when that number fits in 64 bits; `None` for any other
/// name.
pub open spec fn version_index(name: Seq<char>) -> Option<u64> {
    let digits = name.skip(1);
    if name.len() >= 2 && name[0] == 'v' && all_digits(digits) && digits_value(digits)
        <= u64::MAX {
        Some(digits_value(digits) as u64)
    } else {
        None
    }
}

/// A longer run of digits is worth at least as much as any of its prefixes.
proof fn lemma_digits_value_prefix(s: Seq<char>, i: int)
    requires
        0 <= i <= s.len(),
    ensures
        digits_value(s.take(i)) <= digits_value(s),
    decreases s.len() - i,
{
    if i < s.len() {
        lemma_digits_value_prefix(s, i + 1);
        assert(s.take(i + 1).drop_last() =~= s.take(i));
        let p = digits_value(s.take(i));
        assert(p <= p * 10 + digit_value(s[i])) by (nonlinear_arith);
    } else {
        assert(s.take(i) =~= s);
    }
}

/// The number of a version name "v<digits>", or `None` when the name has
/// another form or its number does not fit in 64 bits.
pub fn parse_version_index(name: &str) -> (r: Option<u64>)
    ensures
        r == version_index(name@),
{
    let chars = chars_of(name);
    let n = chars.len();
    if n < 2 || chars[0] != 'v' {
        return None;
    }
    let ghost digits = name@.skip(1);
    let mut value: u64 = 0;
    let mut i: usize = 1;
    assert(digits.take(0) =~= Seq::<char>::empty());
    while i < n
        invariant
            1 <= i <= n,
            n == chars@.len(),
            chars@ == name@,
            digits == name@.skip(1),
            digits.len() == n - 1,
            all_digits(digits.take(i - 1)),
            value == digits_value(digits.take(i - 1)),
        decreases n - i,
    {
        let c = chars[i];
        if c < '0' || c > '9' {
            assert(!is_digit(digits[i - 1]));
            return None;
        }
        let d: u64 = ((c as u32) - 48u32) as u64;
        assert(digits.take(i as int).drop_last() =~= digits.take(i - 1));
        assert(digits.take(i as int).last() == c);
        let grown = value.checked_mul(10);
        match grown {
            Some(g) => {
                match g.checked_add(d) {
                    Some(v) => {
                        value = v;
                    },
                    None => {
                        proof {
                            if all_digits(digits) {
                                lemma_digits_value_prefix(digits, i as int);
                            }
                        }
                        return None;
                    },
                }
            },
            None => {
                proof {
                    if all_digits(digits) {
                        lemma_digits_value_prefix(digits, i as int);
                        let p = digits_value(digits.take(i - 1));
                        assert(p * 10 <= p * 10 + digit_value(c)) by (nonlinear_arith);
                    }
                }
                return None;
            },
        }
        i = i + 1;
    }
    assert(digits.take(n - 1) =~= digits);
    Some(value)
}

} // verus!
