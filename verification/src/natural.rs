//! Natural, case-insensitive ordering of names ("clip 2" before "clip 10").

use vstd::prelude::*;
use std::cmp::Ordering;
use crate::text::{chars_of, lower_chars, is_digit, lower_seq};
use crate::natural_spec::{
    lex_sign, zeros_prefix, significant, number_sign, token_sign, natural_from, natural_sign,
    natural_from_at, token_end, token_end_at, skip_at, char_at, int_sign, run_end,
    lemma_run_end_bounds, lemma_token_end_bounds,
};

verus! {

/// The sign that an `Ordering` stands for.
pub open spec fn ordering_sign(o: Ordering) -> int {
    match o {
        Ordering::Less => -1,
        Ordering::Equal => 0,
        Ordering::Greater => 1,
    }
}

/// The `Ordering` for a sign.
pub(crate) fn ordering_from_sign(s: i8) -> (r: Ordering)
    requires
        -1 <= s <= 1,
    ensures
        ordering_sign(r) == s,
{
    if s < 0 {
        Ordering::Less
    } else if s > 0 {
        Ordering::Greater
    } else {
        Ordering::Equal
    }
}

/// Code-point lexicographic comparison, as a sign.
pub(crate) fn lex_sign_exec(a: &Vec<char>, b: &Vec<char>) -> (r: i8)
    ensures
        r == lex_sign(a@, b@),
{
    let mut i: usize = 0;
    assert(skip_at(a@, 0) =~= a@);
    assert(skip_at(b@, 0) =~= b@);
    while i < a.len() && i < b.len()
        invariant
            i <= a.len(),
            i <= b.len(),
            lex_sign(a@, b@) == lex_sign(skip_at(a@, i), skip_at(b@, i)),
        decreases a.len() - i,
    {
        if a[i] < b[i] {
            return -1;
        }
        if a[i] > b[i] {
            return 1;
        }
        assert(skip_at(a@, i).drop_first() =~= skip_at(a@, (i + 1) as usize));
        assert(skip_at(b@, i).drop_first() =~= skip_at(b@, (i + 1) as usize));
        i = i + 1;
    }
    if i < a.len() {
        1
    } else if i < b.len() {
        -1
    } else {
        0
    }
}

/// The digits of a run without its leading zeros ("0" when nothing is left).
fn significant_digits(t: &Vec<char>) -> (r: Vec<char>)
    ensures
        r@ == significant(t@),
{
    let mut k: usize = 0;
    assert(t@.skip(0) =~= t@);
    while k < t.len() && t[k] == '0'
        invariant
            k <= t.len(),
            zeros_prefix(t@) == k + zeros_prefix(t@.skip(k as int)),
        decreases t.len() - k,
    {
        assert(t@.skip(k as int).drop_first() =~= t@.skip(k + 1));
        k = k + 1;
    }
    assert(zeros_prefix(t@) == k);
    let n = t.len();
    if k == n {
        let mut r: Vec<char> = Vec::new();
        r.push('0');
        assert(t@.skip(k as int).len() == 0);
        r
    } else {
        let mut r: Vec<char> = Vec::new();
        let mut i = k;
        while i < n
            invariant
                k <= i <= n,
                n == t.len(),
                r@ == t@.subrange(k as int, i as int),
            decreases n - i,
        {
            r.push(t[i]);
            i = i + 1;
        }
        assert(t@.subrange(k as int, n as int) =~= t@.skip(k as int));
        r
    }
}

/// Numeric comparison of two digit runs, as a sign.
fn number_sign_exec(a: &Vec<char>, b: &Vec<char>) -> (r: i8)
    ensures
        r == number_sign(a@, b@),
{
    let x = significant_digits(a);
    let y = significant_digits(b);
    if x.len() < y.len() {
        -1
    } else if x.len() > y.len() {
        1
    } else {
        lex_sign_exec(&x, &y)
    }
}

/// Numeric comparison of two digit runs ("007" equals "7", "9" before "10").
fn natural_number_cmp(a: &Vec<char>, b: &Vec<char>) -> (r: Ordering)
    ensures
        ordering_sign(r) == number_sign(a@, b@),
{
    let s = number_sign_exec(a, b);
    proof {
        lemma_sign_range_number(a@, b@);
    }
    ordering_from_sign(s)
}

pub(crate) proof fn lemma_lex_sign_range(a: Seq<char>, b: Seq<char>)
    ensures
        -1 <= lex_sign(a, b) <= 1,
    decreases a.len(),
{
    if a.len() > 0 && b.len() > 0 {
        lemma_lex_sign_range(a.drop_first(), b.drop_first());
    }
}

proof fn lemma_sign_range_number(a: Seq<char>, b: Seq<char>)
    ensures
        -1 <= number_sign(a, b) <= 1,
{
    lemma_lex_sign_range(significant(a), significant(b));
}

/// The maximal digit or non-digit run starting at `start`: whether it is a
/// digit run, its characters, and the index just past it.
fn natural_token(chars: &Vec<char>, start: usize) -> (r: (bool, Vec<char>, usize))
    requires
        start < chars.len(),
    ensures
        r.0 == is_digit(chars@[start as int]),
        r.2 == token_end(chars@, start as int),
        r.1@ == chars@.subrange(start as int, r.2 as int),
        start < r.2 <= chars.len(),
{
    let c = chars[start];
    let is_digits = '0' <= c && c <= '9';
    let mut end = start + 1;
    proof {
        lemma_token_end_bounds(chars@, start as int);
    }
    while end < chars.len() && (('0' <= chars[end] && chars[end] <= '9') == is_digits)
        invariant
            start < end <= chars.len(),
            is_digits == is_digit(chars@[start as int]),
            run_end(chars@, end as int, is_digits) == token_end(chars@, start as int),
        decreases chars.len() - end,
    {
        end = end + 1;
    }
    let token = crate::text::slice_chars(chars, start, end);
    (is_digits, token, end)
}

/// Natural, ASCII-case-insensitive comparison of two names: digit runs
/// compare by numeric value, other runs by case-folded characters, and names
/// that agree on all paired runs are ordered by length.
pub fn natural_case_insensitive_cmp(a: &str, b: &str) -> (r: Ordering)
    ensures
        ordering_sign(r) == natural_sign(a@, b@),
{
    let a_chars = chars_of(a);
    let b_chars = chars_of(b);
    let mut a_index: usize = 0;
    let mut b_index: usize = 0;
    while a_index < a_chars.len() && b_index < b_chars.len()
        invariant
            a_index <= a_chars.len(),
            b_index <= b_chars.len(),
            a_chars@ == a@,
            b_chars@ == b@,
            natural_sign(a@, b@) == natural_from_at(a@, b@, a_index, b_index),
        decreases a_chars.len() - a_index,
    {
        let (a_digits, a_token, next_a) = natural_token(&a_chars, a_index);
        let (b_digits, b_token, next_b) = natural_token(&b_chars, b_index);
        let ordering = if a_digits && b_digits {
            natural_number_cmp(&a_token, &b_token)
        } else {
            let a_lower = lower_chars(&a_token);
            let b_lower = lower_chars(&b_token);
            let s = lex_sign_exec(&a_lower, &b_lower);
            proof {
                lemma_lex_sign_range(a_lower@, b_lower@);
            }
            ordering_from_sign(s)
        };
        match ordering {
            Ordering::Equal => {},
            _ => {
                return ordering;
            },
        }
        a_index = next_a;
        b_index = next_b;
    }
    if a_chars.len() < b_chars.len() {
        Ordering::Less
    } else if a_chars.len() > b_chars.len() {
        Ordering::Greater
    } else {
        Ordering::Equal
    }
}

} // verus!
