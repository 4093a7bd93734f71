//! Identifier lists: removing repeats and finding the first repeat.

use vstd::prelude::*;

verus! {

/// `s` without repeats, each identifier kept where it first occurs.
pub open spec fn dedup(s: Seq<u128>) -> Seq<u128>
    decreases s.len(),
{
    if s.len() == 0 {
        seq![]
    } else {
        let d = dedup(s.drop_last());
        if d.contains(s.last()) {
            d
        } else {
            d.push(s.last())
        }
    }
}

/// No identifier occurs twice in `s`.
pub open spec fn all_distinct(s: Seq<u128>) -> bool {
    forall|i: int, j: int| 0 <= i < j < s.len() ==> s[i] != s[j]
}

/// The identifiers of `ids` without repeats, in order of first occurrence.
pub fn unique_uuid_list(ids: &[u128]) -> (r: Vec<u128>)
    ensures
        r@ == dedup(ids@),
{
    let mut unique: Vec<u128> = Vec::new();
    let n = ids.len();
    for i in 0..n
        invariant
            n == ids@.len(),
            unique@ == dedup(ids@.take(i as int)),
    {
        let id = ids[i];
        let mut seen = false;
        let mut k: usize = 0;
        while k < unique.len()
            invariant
                k <= unique.len(),
                seen == (exists|m: int| 0 <= m < k && unique@[m] == id),
            decreases unique.len() - k,
        {
            if unique[k] == id {
                seen = true;
            }
            k = k + 1;
        }
        assert(ids@.take(i + 1).drop_last() =~= ids@.take(i as int));
        assert(ids@.take(i + 1).last() == id);
        if !seen {
            unique.push(id);
        }
    }
    assert(ids@.take(n as int) =~= ids@);
    unique
}

/// The index of the first identifier of `s` that repeats an earlier one.
pub open spec fn first_repeat_at(s: Seq<u128>, k: int) -> bool {
    0 <= k < s.len() && s.take(k).contains(s[k]) && all_distinct(s.take(k))
}

/// The first identifier of `s` that occurs a second time, in order of its
/// second occurrence.
pub open spec fn first_repeat(s: Seq<u128>) -> Option<u128> {
    if exists|k: int| first_repeat_at(s, k) {
        Some(s[choose|k: int| first_repeat_at(s, k)])
    } else {
        None
    }
}

proof fn lemma_first_repeat_unique(s: Seq<u128>, k1: int, k2: int)
    requires
        first_repeat_at(s, k1),
        first_repeat_at(s, k2),
    ensures
        k1 == k2,
{
    if k1 < k2 {
        let m = choose|m: int| 0 <= m < k1 && s.take(k1)[m] == s[k1];
        assert(s.take(k2)[m] == s.take(k2)[k1]);
    } else if k2 < k1 {
        let m = choose|m: int| 0 <= m < k2 && s.take(k2)[m] == s[k2];
        assert(s.take(k1)[m] == s.take(k1)[k2]);
    }
}

/// When no identifier repeats, all are distinct.
pub proof fn lemma_first_repeat_none(s: Seq<u128>)
    requires
        first_repeat(s) is None,
    ensures
        all_distinct(s),
    decreases s.len(),
{
    if s.len() > 0 {
        let p = s.drop_last();
        if exists|k: int| first_repeat_at(p, k) {
            let k = choose|k: int| first_repeat_at(p, k);
            assert(p.take(k) =~= s.take(k));
            assert(first_repeat_at(s, k));
        }
        lemma_first_repeat_none(p);
        if s.take(s.len() - 1).contains(s.last()) {
            assert(s.take(s.len() - 1) =~= p);
            assert(first_repeat_at(s, s.len() - 1));
        }
        assert forall|i: int, j: int| 0 <= i < j < s.len() implies s[i] != s[j] by {
            if j < s.len() - 1 {
                assert(p[i] == s[i] && p[j] == s[j]);
            } else if s[i] == s[j] {
                assert(s.take(s.len() - 1)[i] == s[i]);
            }
        }
    }
}

/// The first identifier that occurs a second time, in order of its second
/// occurrence; `None` exactly when all are distinct.
pub fn first_duplicate_uuid(ids: &[u128]) -> (r: Option<u128>)
    ensures
        r == first_repeat(ids@),
        r is None <==> all_distinct(ids@),
{
    let mut seen: Vec<u128> = Vec::new();
    let n = ids.len();
    for i in 0..n
        invariant
            n == ids@.len(),
            seen@ == ids@.take(i as int),
            all_distinct(seen@),
    {
        let id = ids[i];
        let mut k: usize = 0;
        while k < seen.len()
            invariant
                k <= seen.len(),
                i < n,
                n == ids@.len(),
                id == ids@[i as int],
                seen@ == ids@.take(i as int),
                all_distinct(seen@),
                forall|m: int| 0 <= m < k ==> seen@[m] != id,
            decreases seen.len() - k,
        {
            if seen[k] == id {
                assert(ids@.take(i as int)[k as int] == id);
                assert(ids@.take(i as int).contains(ids@[i as int]));
                assert(first_repeat_at(ids@, i as int));
                proof {
                    let c = choose|c: int| first_repeat_at(ids@, c);
                    lemma_first_repeat_unique(ids@, c, i as int);
                }
                return Some(id);
            }
            k = k + 1;
        }
        seen.push(id);
        assert(seen@ =~= ids@.take(i + 1));
    }
    assert(ids@.take(n as int) =~= ids@);
    proof {
        if exists|k: int| first_repeat_at(ids@, k) {
            let k = choose|k: int| first_repeat_at(ids@, k);
            let m = choose|m: int| 0 <= m < k && ids@.take(k)[m] == ids@[k];
            assert(ids@[m] == ids@[k]);
        }
    }
    None
}

proof fn lemma_dedup_contains(s: Seq<u128>, x: u128)
    ensures
        dedup(s).contains(x) <==> s.contains(x),
    decreases s.len(),
{
    if s.len() > 0 {
        lemma_dedup_contains(s.drop_last(), x);
        let d = dedup(s.drop_last());
        if s.drop_last().contains(x) {
            let i = choose|i: int| 0 <= i < s.drop_last().len() && s.drop_last()[i] == x;
            assert(s[i] == x);
        }
        if s.contains(x) && x != s.last() {
            let i = choose|i: int| 0 <= i < s.len() && s[i] == x;
            assert(s.drop_last()[i] == x);
        }
        if !d.contains(s.last()) {
            if d.push(s.last()).contains(x) {
                let i = choose|i: int| 0 <= i < d.push(s.last()).len() && d.push(s.last())[i] == x;
                if i < d.len() {
                    assert(d[i] == x);
                }
            }
            if d.contains(x) {
                let i = choose|i: int| 0 <= i < d.len() && d[i] == x;
                assert(d.push(s.last())[i] == x);
            }
            assert(d.push(s.last())[d.len() as int] == s.last());
        } else {
            if x == s.last() {
                assert(s[s.len() - 1] == x);
            }
        }
    }
}

proof fn lemma_dedup_distinct(s: Seq<u128>)
    ensures
        all_distinct(dedup(s)),
    decreases s.len(),
{
    if s.len() > 0 {
        lemma_dedup_distinct(s.drop_last());
    }
}

proof fn lemma_dedup_of_distinct(s: Seq<u128>)
    requires
        all_distinct(s),
    ensures
        dedup(s) == s,
    decreases s.len(),
{
    if s.len() > 0 {
        assert(all_distinct(s.drop_last()));
        lemma_dedup_of_distinct(s.drop_last());
        lemma_dedup_contains(s.drop_last(), s.last());
        if s.drop_last().contains(s.last()) {
            let i = choose|i: int| 0 <= i < s.drop_last().len() && s.drop_last()[i] == s.last();
            assert(s[i] == s[s.len() - 1]);
        }
        assert(s.drop_last().push(s.last()) =~= s);
    }
}

/// Removing repeats keeps every identifier and nothing else, leaves no
/// repeat behind, and changes nothing the second time.
pub proof fn law_dedup(s: Seq<u128>)
    ensures
        forall|x: u128| dedup(s).contains(x) <==> s.contains(x),
        all_distinct(dedup(s)),
        dedup(dedup(s)) == dedup(s),
{
    assert forall|x: u128| dedup(s).contains(x) <==> s.contains(x) by {
        lemma_dedup_contains(s, x);
    }
    lemma_dedup_distinct(s);
    lemma_dedup_of_distinct(dedup(s));
}

/// Which providers a project may use.
#[derive(Clone, Debug)]
pub enum ProjectProviderScope {
    All,
    Selected { provider_ids: Vec<u128> },
}

/// A provider scope with repeated provider identifiers removed.
pub fn normalize_project_provider_scope(scope: ProjectProviderScope) -> (r: ProjectProviderScope)
    ensures
        match scope {
            ProjectProviderScope::All => r is All,
            ProjectProviderScope::Selected { provider_ids } => match r {
                ProjectProviderScope::Selected { provider_ids: deduped } => deduped@ == dedup(
                    provider_ids@,
                ),
                _ => false,
            },
        },
{
    match scope {
        ProjectProviderScope::All => ProjectProviderScope::All,
        ProjectProviderScope::Selected { provider_ids } => {
            let deduped = unique_uuid_list(provider_ids.as_slice());
            ProjectProviderScope::Selected { provider_ids: deduped }
        },
    }
}

} // verus!
