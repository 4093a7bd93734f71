//! Counting facts used to bound the searches for a free name.

use vstd::prelude::*;
use vstd::set_lib::{set_int_range, lemma_int_range, lemma_map_size, lemma_len_subset};
use crate::text::{decimal, digit_char};

verus! {

/// If `f` is injective on `[lo, hi)` and maps that range into the elements of
/// `s`, the range is no longer than `s`.
pub proof fn lemma_injective_range_bound<B>(lo: int, hi: int, f: spec_fn(int) -> B, s: Seq<B>)
    requires
        lo <= hi,
        forall|i: int, j: int| #![trigger f(i), f(j)] lo <= i < hi && lo <= j < hi && f(i) == f(j) ==> i == j,
        forall|j: int| lo <= j < hi ==> s.contains(#[trigger] f(j)),
    ensures
        hi - lo <= s.len(),
{
    lemma_int_range(lo, hi);
    let x = set_int_range(lo, hi);
    let y = x.map(f);
    assert(vstd::relations::injective_on(f, x));
    lemma_map_size(x, y, f);
    let t = s.to_set();
    s.lemma_cardinality_of_set();
    assert(y.subset_of(t)) by {
        assert forall|b: B| y.contains(b) implies t.contains(b) by {
            let i = choose|i: int| x.contains(i) && f(i) == b;
            assert(s.contains(f(i)));
        }
    }
    lemma_len_subset(y, t);
}

pub proof fn lemma_decimal_len(n: nat)
    ensures
        decimal(n).len() >= 1,
        n >= 10 ==> decimal(n).len() >= 2,
    decreases n,
{
    if n >= 10 {
        lemma_decimal_len(n / 10);
    }
}

/// Different numbers have different decimal representations.
pub proof fn lemma_decimal_injective(n: nat, m: nat)
    requires
        decimal(n) == decimal(m),
    ensures
        n == m,
    decreases n,
{
    lemma_decimal_len(n);
    lemma_decimal_len(m);
    if n < 10 && m < 10 {
        assert(decimal(n)[0] == digit_char(n));
        assert(decimal(m)[0] == digit_char(m));
        assert((digit_char(n) as u32) == 48 + n);
        assert((digit_char(m) as u32) == 48 + m);
    } else if n >= 10 && m >= 10 {
        let dn = decimal(n);
        let dm = decimal(m);
        assert(dn.last() == digit_char(n % 10));
        assert(dm.last() == digit_char(m % 10));
        assert((digit_char(n % 10) as u32) == 48 + n % 10);
        assert((digit_char(m % 10) as u32) == 48 + m % 10);
        assert(dn.drop_last() =~= decimal(n / 10));
        assert(dm.drop_last() =~= decimal(m / 10));
        lemma_decimal_injective(n / 10, m / 10);
    }
}

} // verus!
