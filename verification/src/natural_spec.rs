//! The mathematical meaning of the natural (human) name order: names are
//! split into maximal runs of digits and of non-digits, runs are compared
//! pairwise (digit runs by numeric value, other runs by ASCII-case-folded
//! code points), and names that agree on every paired run are ordered by
//! their character count.

use vstd::prelude::*;
use crate::text::{is_digit, lower_seq, lower_char};

verus! {

/// Sign of an integer: -1, 0 or 1.
pub open spec fn int_sign(x: int) -> int {
    if x < 0 {
        -1
    } else if x > 0 {
        1
    } else {
        0
    }
}

/// The end of the run that starts at or continues from `i` and whose
/// characters are digits exactly when `d` holds.
pub open spec fn run_end(s: Seq<char>, i: int, d: bool) -> int
    decreases s.len() - i,
{
    if 0 <= i < s.len() && is_digit(s[i]) == d {
        run_end(s, i + 1, d)
    } else {
        i
    }
}

/// The end (exclusive) of the maximal digit or non-digit run starting at `start`.
pub open spec fn token_end(s: Seq<char>, start: int) -> int {
    run_end(s, start + 1, is_digit(s[start]))
}

/// Code-point lexicographic comparison, as a sign.
pub open spec fn lex_sign(a: Seq<char>, b: Seq<char>) -> int
    decreases a.len(),
{
    if a.len() == 0 {
        if b.len() == 0 {
            0
        } else {
            -1
        }
    } else if b.len() == 0 {
        1
    } else if a[0] < b[0] {
        -1
    } else if a[0] > b[0] {
        1
    } else {
        lex_sign(a.drop_first(), b.drop_first())
    }
}

/// Number of leading '0' characters.
pub open spec fn zeros_prefix(t: Seq<char>) -> nat
    decreases t.len(),
{
    if t.len() > 0 && t[0] == '0' {
        1 + zeros_prefix(t.drop_first())
    } else {
        0
    }
}

/// A digit run without its leading zeros ("0" when nothing is left).
pub open spec fn significant(t: Seq<char>) -> Seq<char> {
    let r = t.skip(zeros_prefix(t) as int);
    if r.len() == 0 {
        seq!['0']
    } else {
        r
    }
}

/// Numeric comparison of two digit runs, as a sign.
pub open spec fn number_sign(a: Seq<char>, b: Seq<char>) -> int {
    let x = significant(a);
    let y = significant(b);
    if x.len() < y.len() {
        -1
    } else if x.len() > y.len() {
        1
    } else {
        lex_sign(x, y)
    }
}

/// Comparison of two paired runs, as a sign.
pub open spec fn token_sign(a: Seq<char>, b: Seq<char>, both_digits: bool) -> int {
    if both_digits {
        number_sign(a, b)
    } else {
        lex_sign(lower_seq(a), lower_seq(b))
    }
}

/// Natural comparison of `a[i..]` and `b[j..]` where `i` and `j` start paired runs.
pub open spec fn natural_from(a: Seq<char>, b: Seq<char>, i: int, j: int) -> int
    decreases a.len() - i,
{
    if 0 <= i < a.len() && 0 <= j < b.len() {
        let ei = token_end(a, i);
        let ej = token_end(b, j);
        let o = token_sign(
            a.subrange(i, ei),
            b.subrange(j, ej),
            is_digit(a[i]) && is_digit(b[j]),
        );
        if o != 0 {
            o
        } else if i < ei {
            proof {
                lemma_token_end_bounds(a, i);
            }
            natural_from(a, b, ei, ej)
        } else {
            0
        }
    } else {
        int_sign(a.len() - b.len())
    }
}

/// Natural, ASCII-case-insensitive comparison of two names, as a sign.
pub open spec fn natural_sign(a: Seq<char>, b: Seq<char>) -> int {
    natural_from(a, b, 0, 0)
}

/// `s[i]` for a machine index.
pub open spec fn char_at(s: Seq<char>, i: usize) -> char {
    s[i as int]
}

/// `natural_from` at machine indices.
pub open spec fn natural_from_at(a: Seq<char>, b: Seq<char>, i: usize, j: usize) -> int {
    natural_from(a, b, i as int, j as int)
}

/// `token_end` at a machine index.
pub open spec fn token_end_at(s: Seq<char>, start: usize) -> int {
    token_end(s, start as int)
}

/// The suffix `s[i..]` for a machine index.
pub open spec fn skip_at(s: Seq<char>, i: usize) -> Seq<char> {
    s.skip(i as int)
}

pub proof fn lemma_run_end_bounds(s: Seq<char>, i: int, d: bool)
    requires
        0 <= i <= s.len(),
    ensures
        i <= run_end(s, i, d) <= s.len(),
        forall|k: int| i <= k < run_end(s, i, d) ==> is_digit(#[trigger] s[k]) == d,
        run_end(s, i, d) < s.len() ==> is_digit(s[run_end(s, i, d)]) != d,
    decreases s.len() - i,
{
    if i < s.len() && is_digit(s[i]) == d {
        lemma_run_end_bounds(s, i + 1, d);
    }
}

pub proof fn lemma_token_end_bounds(s: Seq<char>, start: int)
    requires
        0 <= start < s.len(),
    ensures
        start < token_end(s, start) <= s.len(),
{
    lemma_run_end_bounds(s, start + 1, is_digit(s[start]));
}

pub proof fn lemma_lex_sign_antisymmetric(a: Seq<char>, b: Seq<char>)
    ensures
        lex_sign(a, b) == -lex_sign(b, a),
    decreases a.len(),
{
    if a.len() > 0 && b.len() > 0 && a[0] == b[0] {
        lemma_lex_sign_antisymmetric(a.drop_first(), b.drop_first());
    }
}

proof fn lemma_lex_sign_reflexive(a: Seq<char>)
    ensures
        lex_sign(a, a) == 0,
    decreases a.len(),
{
    if a.len() > 0 {
        lemma_lex_sign_reflexive(a.drop_first());
    }
}

/// Equal code points imply equal characters.
proof fn lemma_lex_sign_zero_equal(a: Seq<char>, b: Seq<char>)
    requires
        lex_sign(a, b) == 0,
    ensures
        a == b,
    decreases a.len(),
{
    if a.len() > 0 && b.len() > 0 {
        lemma_lex_sign_zero_equal(a.drop_first(), b.drop_first());
        assert(a =~= seq![a[0]] + a.drop_first());
        assert(b =~= seq![b[0]] + b.drop_first());
    } else {
        assert(a =~= b);
    }
}

proof fn lemma_number_sign_antisymmetric(a: Seq<char>, b: Seq<char>)
    ensures
        number_sign(a, b) == -number_sign(b, a),
{
    lemma_lex_sign_antisymmetric(significant(a), significant(b));
}

proof fn lemma_token_sign_antisymmetric(a: Seq<char>, b: Seq<char>, d: bool)
    ensures
        token_sign(a, b, d) == -token_sign(b, a, d),
{
    lemma_number_sign_antisymmetric(a, b);
    lemma_lex_sign_antisymmetric(lower_seq(a), lower_seq(b));
}

proof fn lemma_natural_from_antisymmetric(a: Seq<char>, b: Seq<char>, i: int, j: int)
    ensures
        natural_from(a, b, i, j) == -natural_from(b, a, j, i),
    decreases a.len() - i,
{
    if 0 <= i < a.len() && 0 <= j < b.len() {
        let ei = token_end(a, i);
        let ej = token_end(b, j);
        lemma_token_end_bounds(a, i);
        lemma_token_end_bounds(b, j);
        lemma_token_sign_antisymmetric(
            a.subrange(i, ei),
            b.subrange(j, ej),
            is_digit(a[i]) && is_digit(b[j]),
        );
        lemma_natural_from_antisymmetric(a, b, ei, ej);
    }
}

proof fn lemma_natural_from_reflexive(a: Seq<char>, i: int)
    ensures
        natural_from(a, a, i, i) == 0,
    decreases a.len() - i,
{
    if 0 <= i < a.len() {
        let ei = token_end(a, i);
        lemma_token_end_bounds(a, i);
        let t = a.subrange(i, ei);
        lemma_lex_sign_reflexive(significant(t));
        lemma_lex_sign_reflexive(lower_seq(t));
        lemma_natural_from_reflexive(a, ei);
    }
}

/// Every name is in the same place as itself: comparing a name with itself
/// gives `Equal`.
pub proof fn law_natural_order_reflexive(a: Seq<char>)
    ensures
        natural_sign(a, a) == 0,
{
    lemma_natural_from_reflexive(a, 0);
}

/// Swapping the two names reverses the natural order.
pub proof fn law_natural_order_antisymmetric(a: Seq<char>, b: Seq<char>)
    ensures
        natural_sign(a, b) == -natural_sign(b, a),
{
    lemma_natural_from_antisymmetric(a, b, 0, 0);
}

proof fn lemma_lower_char_digit(c: char)
    ensures
        is_digit(lower_char(c)) == is_digit(c),
        lower_char(lower_char(c)) == lower_char(c),
{
}

proof fn lemma_run_end_lower(s: Seq<char>, i: int, d: bool)
    ensures
        run_end(lower_seq(s), i, d) == run_end(s, i, d),
    decreases s.len() - i,
{
    if 0 <= i < s.len() {
        lemma_lower_char_digit(s[i]);
        lemma_run_end_lower(s, i + 1, d);
    }
}

proof fn lemma_lower_digits_unchanged(t: Seq<char>)
    requires
        forall|k: int| 0 <= k < t.len() ==> is_digit(#[trigger] t[k]),
    ensures
        lower_seq(t) == t,
{
    assert(lower_seq(t) =~= t);
}

proof fn lemma_lower_idempotent(t: Seq<char>)
    ensures
        lower_seq(lower_seq(t)) == lower_seq(t),
{
    assert forall|k: int| 0 <= k < t.len() implies lower_seq(lower_seq(t))[k] == lower_seq(t)[k] by {
        lemma_lower_char_digit(t[k]);
    }
    assert(lower_seq(lower_seq(t)) =~= lower_seq(t));
}

proof fn lemma_natural_from_lower(a: Seq<char>, b: Seq<char>, i: int, j: int)
    ensures
        natural_from(lower_seq(a), lower_seq(b), i, j) == natural_from(a, b, i, j),
    decreases a.len() - i,
{
    let la = lower_seq(a);
    let lb = lower_seq(b);
    if 0 <= i < a.len() && 0 <= j < b.len() {
        let ei = token_end(a, i);
        let ej = token_end(b, j);
        lemma_token_end_bounds(a, i);
        lemma_token_end_bounds(b, j);
        lemma_lower_char_digit(a[i]);
        lemma_lower_char_digit(b[j]);
        lemma_run_end_lower(a, i + 1, is_digit(a[i]));
        lemma_run_end_lower(b, j + 1, is_digit(b[j]));
        assert(token_end(la, i) == ei);
        assert(token_end(lb, j) == ej);
        let ta = a.subrange(i, ei);
        let tb = b.subrange(j, ej);
        assert(la.subrange(i, ei) =~= lower_seq(ta));
        assert(lb.subrange(j, ej) =~= lower_seq(tb));
        lemma_lower_idempotent(ta);
        lemma_lower_idempotent(tb);
        if is_digit(a[i]) && is_digit(b[j]) {
            lemma_run_end_bounds(a, i + 1, is_digit(a[i]));
            lemma_run_end_bounds(b, j + 1, is_digit(b[j]));
            assert forall|k: int| 0 <= k < ta.len() implies is_digit(#[trigger] ta[k]) by {
                if k > 0 {
                    assert(ta[k] == a[i + k]);
                }
            }
            assert forall|k: int| 0 <= k < tb.len() implies is_digit(#[trigger] tb[k]) by {
                if k > 0 {
                    assert(tb[k] == b[j + k]);
                }
            }
            lemma_lower_digits_unchanged(ta);
            lemma_lower_digits_unchanged(tb);
        }
        lemma_natural_from_lower(a, b, ei, ej);
    }
}

/// The natural order ignores ASCII letter case: folding both names to lower
/// case does not change how they compare.
pub proof fn law_natural_order_case_insensitive(a: Seq<char>, b: Seq<char>)
    ensures
        natural_sign(lower_seq(a), lower_seq(b)) == natural_sign(a, b),
{
    lemma_natural_from_lower(a, b, 0, 0);
}

/// Ten to the power `n`.
pub open spec fn pow10(n: nat) -> int
    decreases n,
{
    if n == 0 {
        1
    } else {
        10 * pow10((n - 1) as nat)
    }
}

/// Whether every character of `t` is a decimal digit.
pub open spec fn all_digits(t: Seq<char>) -> bool {
    forall|k: int| 0 <= k < t.len() ==> is_digit(#[trigger] t[k])
}

/// The number a run of decimal digits spells.
pub open spec fn digits_value(t: Seq<char>) -> int
    decreases t.len(),
{
    if t.len() == 0 {
        0
    } else {
        (t[0] as int - '0' as int) * pow10((t.len() - 1) as nat) + digits_value(t.drop_first())
    }
}

proof fn lemma_pow10_monotone(a: nat, b: nat)
    requires
        a <= b,
    ensures
        1 <= pow10(a) <= pow10(b),
    decreases b,
{
    if b > a {
        lemma_pow10_monotone(a, (b - 1) as nat);
    } else if a > 0 {
        lemma_pow10_monotone((a - 1) as nat, (a - 1) as nat);
    }
}

/// A run of `n` digits spells a number below ten to the `n`, and at least
/// ten to the `n - 1` when it does not start with zero.
proof fn lemma_digits_value_bounds(t: Seq<char>)
    requires
        all_digits(t),
    ensures
        0 <= digits_value(t) < pow10(t.len()),
        t.len() > 0 && t[0] != '0' ==> pow10((t.len() - 1) as nat) <= digits_value(t),
    decreases t.len(),
{
    if t.len() > 0 {
        let rest = t.drop_first();
        assert(all_digits(rest)) by {
            assert forall|k: int| 0 <= k < rest.len() implies is_digit(#[trigger] rest[k]) by {
                assert(rest[k] == t[k + 1]);
            }
        }
        lemma_digits_value_bounds(rest);
        let p = pow10((t.len() - 1) as nat);
        lemma_pow10_monotone((t.len() - 1) as nat, (t.len() - 1) as nat);
        assert(is_digit(t[0]));
        let d = t[0] as int - '0' as int;
        assert(0 <= d <= 9);
        assert(pow10(t.len()) == 10 * p);
        assert(0 <= d * p <= 9 * p) by (nonlinear_arith)
            requires
                0 <= d <= 9,
                p >= 1,
        ;
        if t[0] != '0' {
            assert(d >= 1);
            assert(d * p >= p) by (nonlinear_arith)
                requires
                    d >= 1,
                    p >= 1,
            ;
        }
    }
}

/// For digit runs of one length, code-point order is numeric order.
proof fn lemma_lex_sign_digits(x: Seq<char>, y: Seq<char>)
    requires
        all_digits(x),
        all_digits(y),
        x.len() == y.len(),
    ensures
        lex_sign(x, y) == int_sign(digits_value(x) - digits_value(y)),
    decreases x.len(),
{
    if x.len() > 0 {
        let xr = x.drop_first();
        let yr = y.drop_first();
        assert(all_digits(xr)) by {
            assert forall|k: int| 0 <= k < xr.len() implies is_digit(#[trigger] xr[k]) by {
                assert(xr[k] == x[k + 1]);
            }
        }
        assert(all_digits(yr)) by {
            assert forall|k: int| 0 <= k < yr.len() implies is_digit(#[trigger] yr[k]) by {
                assert(yr[k] == y[k + 1]);
            }
        }
        lemma_digits_value_bounds(xr);
        lemma_digits_value_bounds(yr);
        let p = pow10((x.len() - 1) as nat);
        assert(xr.len() == x.len() - 1);
        let dx = x[0] as int - '0' as int;
        let dy = y[0] as int - '0' as int;
        let vx = digits_value(xr);
        let vy = digits_value(yr);
        assert(digits_value(x) == dx * p + vx);
        assert(digits_value(y) == dy * p + vy);
        if x[0] < y[0] {
            assert(dx + 1 <= dy);
            assert(dx * p + vx < dy * p + vy) by (nonlinear_arith)
                requires
                    dx + 1 <= dy,
                    0 <= vx < p,
                    0 <= vy,
            ;
        } else if x[0] > y[0] {
            assert(dy + 1 <= dx);
            assert(dy * p + vy < dx * p + vx) by (nonlinear_arith)
                requires
                    dy + 1 <= dx,
                    0 <= vy < p,
                    0 <= vx,
            ;
        } else {
            lemma_lex_sign_digits(xr, yr);
        }
    }
}

/// A digit run that does not start with zero is its own significant part.
proof fn lemma_significant_plain(t: Seq<char>)
    requires
        t.len() > 0,
        t[0] != '0',
    ensures
        significant(t) == t,
{
    assert(zeros_prefix(t) == 0);
    assert(t.skip(0) =~= t);
}

/// Digit runs without leading zeros compare by the numbers they spell.
proof fn lemma_number_sign_value(x: Seq<char>, y: Seq<char>)
    requires
        all_digits(x),
        all_digits(y),
        x.len() > 0,
        y.len() > 0,
        x[0] != '0',
        y[0] != '0',
    ensures
        number_sign(x, y) == int_sign(digits_value(x) - digits_value(y)),
{
    lemma_significant_plain(x);
    lemma_significant_plain(y);
    lemma_digits_value_bounds(x);
    lemma_digits_value_bounds(y);
    if x.len() < y.len() {
        lemma_pow10_monotone(x.len(), (y.len() - 1) as nat);
    } else if x.len() > y.len() {
        lemma_pow10_monotone(y.len(), (x.len() - 1) as nat);
    } else {
        lemma_lex_sign_digits(x, y);
    }
}

/// A run of digits that goes to the end of the name ends there.
proof fn lemma_run_end_digits_to_end(s: Seq<char>, i: int)
    requires
        0 <= i <= s.len(),
        forall|k: int| i <= k < s.len() ==> is_digit(#[trigger] s[k]),
    ensures
        run_end(s, i, true) == s.len(),
    decreases s.len() - i,
{
    if i < s.len() {
        lemma_run_end_digits_to_end(s, i + 1);
    }
}

/// A run of non-digits ends where the digits start.
proof fn lemma_run_end_letters(s: Seq<char>, i: int, n: int)
    requires
        0 <= i <= n < s.len(),
        forall|k: int| i <= k < n ==> !is_digit(#[trigger] s[k]),
        is_digit(s[n]),
    ensures
        run_end(s, i, false) == n,
    decreases n - i,
{
    if i < n {
        lemma_run_end_letters(s, i + 1, n);
    }
}

/// `natural_from` where both names continue with one run of digits to the end.
proof fn lemma_natural_from_digit_tails(a: Seq<char>, b: Seq<char>, i: int, x: Seq<char>, y: Seq<char>)
    requires
        0 <= i,
        a.len() == i + x.len(),
        b.len() == i + y.len(),
        a.subrange(i, a.len() as int) == x,
        b.subrange(i, b.len() as int) == y,
        all_digits(x),
        all_digits(y),
        x.len() > 0,
        y.len() > 0,
        x[0] != '0',
        y[0] != '0',
    ensures
        natural_from(a, b, i, i) == int_sign(digits_value(x) - digits_value(y)),
{
    assert(a[i] == x[0]);
    assert(b[i] == y[0]);
    assert forall|k: int| i + 1 <= k < a.len() implies is_digit(#[trigger] a[k]) by {
        assert(a[k] == x[k - i]);
    }
    assert forall|k: int| i + 1 <= k < b.len() implies is_digit(#[trigger] b[k]) by {
        assert(b[k] == y[k - i]);
    }
    lemma_run_end_digits_to_end(a, i + 1);
    lemma_run_end_digits_to_end(b, i + 1);
    assert(token_end(a, i) == a.len());
    assert(token_end(b, i) == b.len());
    lemma_number_sign_value(x, y);
    lemma_digits_value_bounds(x);
    lemma_digits_value_bounds(y);
    lemma_significant_plain(x);
    lemma_significant_plain(y);
    assert(a.subrange(i, token_end(a, i)) == x);
    assert(b.subrange(i, token_end(b, i)) == y);
    assert(is_digit(a[i]) && is_digit(b[i]));
    assert(token_sign(x, y, true) == number_sign(x, y));
    assert(natural_from(a, b, a.len() as int, b.len() as int) == int_sign(a.len() - b.len()));
    if number_sign(x, y) == 0 {
        assert(x.len() == y.len());
    }
}

/// Numbers in names compare by value: two names that share a prefix without
/// digits and continue with numbers (written without leading zeros) are in
/// the order of those numbers, so "clip 3" comes before "clip 5" and
/// "clip 9" before "clip 10".
pub proof fn law_numbers_in_names_compare_by_value(p: Seq<char>, x: Seq<char>, y: Seq<char>)
    requires
        forall|k: int| 0 <= k < p.len() ==> !is_digit(#[trigger] p[k]),
        all_digits(x),
        all_digits(y),
        x.len() > 0,
        y.len() > 0,
        x[0] != '0',
        y[0] != '0',
    ensures
        natural_sign(p + x, p + y) == int_sign(digits_value(x) - digits_value(y)),
{
    let a = p + x;
    let b = p + y;
    assert(a.subrange(p.len() as int, a.len() as int) =~= x);
    assert(b.subrange(p.len() as int, b.len() as int) =~= y);
    if p.len() == 0 {
        lemma_natural_from_digit_tails(a, b, 0, x, y);
    } else {
        assert forall|k: int| 1 <= k < p.len() implies !is_digit(#[trigger] a[k]) by {
            assert(a[k] == p[k]);
        }
        assert forall|k: int| 1 <= k < p.len() implies !is_digit(#[trigger] b[k]) by {
            assert(b[k] == p[k]);
        }
        assert(a[p.len() as int] == x[0]);
        assert(b[p.len() as int] == y[0]);
        lemma_run_end_letters(a, 1, p.len() as int);
        lemma_run_end_letters(b, 1, p.len() as int);
        assert(a[0] == p[0] && b[0] == p[0]);
        assert(token_end(a, 0) == p.len());
        assert(token_end(b, 0) == p.len());
        assert(a.subrange(0, p.len() as int) =~= p);
        assert(b.subrange(0, p.len() as int) =~= p);
        lemma_lex_sign_reflexive(lower_seq(p));
        lemma_natural_from_digit_tails(a, b, p.len() as int, x, y);
    }
}

} // verus!
