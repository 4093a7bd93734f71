//! Stable insertion order: the arrangement that a stable sort produces,
//! given which elements must come after which.

use vstd::prelude::*;
use vstd::multiset::Multiset;

verus! {

/// `sorted` with `x` inserted after the last element that need not come
/// after it (`after(a, b)`: `a` must come after `b`).
pub open spec fn insert_by<T>(sorted: Seq<T>, x: T, after: spec_fn(T, T) -> bool) -> Seq<T>
    decreases sorted.len(),
{
    if sorted.len() == 0 || !after(sorted.last(), x) {
        sorted.push(x)
    } else {
        insert_by(sorted.drop_last(), x, after).push(sorted.last())
    }
}

/// The stable arrangement of `s`: each element in turn is inserted into the
/// arrangement of those before it.
pub open spec fn sort_by<T>(s: Seq<T>, after: spec_fn(T, T) -> bool) -> Seq<T>
    decreases s.len(),
{
    if s.len() == 0 {
        s
    } else {
        insert_by(sort_by(s.drop_last(), after), s.last(), after)
    }
}

/// Whether no element of `s` must come after its successor.
pub open spec fn ordered_by<T>(s: Seq<T>, after: spec_fn(T, T) -> bool) -> bool {
    forall|k: int| 0 <= k < s.len() - 1 ==> !after(#[trigger] s[k], s[k + 1])
}

/// Whether `after` never holds both ways.
pub open spec fn asymmetric<T>(after: spec_fn(T, T) -> bool) -> bool {
    forall|a: T, b: T| #[trigger] after(a, b) ==> !after(b, a)
}

/// Inserting where a scan from the end stops is what `insert_by` does.
pub proof fn lemma_insert_by_at<T>(s: Seq<T>, x: T, after: spec_fn(T, T) -> bool, j: int)
    requires
        0 <= j <= s.len(),
        forall|k: int| j <= k < s.len() ==> after(#[trigger] s[k], x),
        j == 0 || !after(s[j - 1], x),
    ensures
        insert_by(s, x, after) == s.insert(j, x),
    decreases s.len(),
{
    if s.len() == j {
        assert(s.insert(j, x) =~= s.push(x));
    } else {
        lemma_insert_by_at(s.drop_last(), x, after, j);
        assert(s.drop_last().insert(j, x).push(s.last()) =~= s.insert(j, x));
    }
}

proof fn lemma_push_multiset<T>(s: Seq<T>, x: T)
    ensures
        s.push(x).to_multiset() == s.to_multiset().insert(x),
{
    broadcast use vstd::seq_lib::group_seq_properties;
    assert(s.push(x).drop_last() =~= s);
}

/// Inserting keeps the elements and adds `x` once.
pub proof fn lemma_insert_by_multiset<T>(s: Seq<T>, x: T, after: spec_fn(T, T) -> bool)
    ensures
        insert_by(s, x, after).to_multiset() == s.to_multiset().insert(x),
        insert_by(s, x, after).len() == s.len() + 1,
    decreases s.len(),
{
    if s.len() == 0 || !after(s.last(), x) {
        lemma_push_multiset(s, x);
    } else {
        let t = s.drop_last();
        lemma_insert_by_multiset(t, x, after);
        lemma_push_multiset(insert_by(t, x, after), s.last());
        lemma_push_multiset(t, s.last());
        assert(t.push(s.last()) =~= s);
        assert(t.to_multiset().insert(x).insert(s.last()) =~= t.to_multiset().insert(
            s.last(),
        ).insert(x));
    }
}

/// Inserting into an ordered arrangement keeps it ordered.
pub proof fn lemma_insert_by_ordered<T>(s: Seq<T>, x: T, after: spec_fn(T, T) -> bool)
    requires
        ordered_by(s, after),
        asymmetric(after),
    ensures
        ordered_by(insert_by(s, x, after), after),
    decreases s.len(),
{
    if s.len() == 0 || !after(s.last(), x) {
        let w = s.push(x);
        assert forall|k: int| 0 <= k < w.len() - 1 implies !after(#[trigger] w[k], w[k + 1]) by {
            if k < s.len() - 1 {
                assert(w[k] == s[k] && w[k + 1] == s[k + 1]);
            }
        }
    } else {
        let t = s.drop_last();
        assert(ordered_by(t, after)) by {
            assert forall|k: int| 0 <= k < t.len() - 1 implies !after(#[trigger] t[k], t[k + 1]) by {
                assert(s[k] == t[k] && s[k + 1] == t[k + 1]);
            }
        }
        lemma_insert_by_ordered(t, x, after);
        let u = insert_by(t, x, after);
        lemma_insert_by_multiset(t, x, after);
        assert(!after(x, s.last()));
        if t.len() > 0 && after(t.last(), x) {
            assert(u.last() == t.last());
            assert(s[s.len() - 2] == t.last());
        } else {
            assert(u.last() == x);
        }
        let w = u.push(s.last());
        assert forall|k: int| 0 <= k < w.len() - 1 implies !after(#[trigger] w[k], w[k + 1]) by {
            if k < u.len() - 1 {
                assert(w[k] == u[k] && w[k + 1] == u[k + 1]);
            } else {
                assert(w[k] == u.last() && w[k + 1] == s.last());
            }
        }
    }
}

/// The stable arrangement holds the same elements, each as often.
pub proof fn lemma_sort_by_multiset<T>(s: Seq<T>, after: spec_fn(T, T) -> bool)
    ensures
        sort_by(s, after).to_multiset() == s.to_multiset(),
        sort_by(s, after).len() == s.len(),
    decreases s.len(),
{
    if s.len() > 0 {
        lemma_sort_by_multiset(s.drop_last(), after);
        lemma_insert_by_multiset(sort_by(s.drop_last(), after), s.last(), after);
        lemma_push_multiset(s.drop_last(), s.last());
        assert(s.drop_last().push(s.last()) =~= s);
    }
}

/// With an asymmetric `after`, the stable arrangement is ordered.
pub proof fn lemma_sort_by_ordered<T>(s: Seq<T>, after: spec_fn(T, T) -> bool)
    requires
        asymmetric(after),
    ensures
        ordered_by(sort_by(s, after), after),
    decreases s.len(),
{
    if s.len() > 0 {
        lemma_sort_by_ordered(s.drop_last(), after);
        lemma_insert_by_ordered(sort_by(s.drop_last(), after), s.last(), after);
    }
}

/// One step of building the stable arrangement of a prefix.
pub proof fn lemma_sort_by_step<T>(s: Seq<T>, i: int, after: spec_fn(T, T) -> bool)
    requires
        0 <= i < s.len(),
    ensures
        sort_by(s.take(i + 1), after) == insert_by(sort_by(s.take(i), after), s[i], after),
{
    assert(s.take(i + 1).drop_last() =~= s.take(i));
}

} // verus!
