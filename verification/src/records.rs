//! The newest-first order of an asset's generated versions, and the version
//! the asset lab opens on.

use vstd::prelude::*;
use std::cmp::Ordering;
use crate::lab_model::{GenerationRecord, GenerativeConfig, InputValue, record_view};
use crate::natural::{natural_case_insensitive_cmp, ordering_sign};
use crate::natural_spec::{natural_sign, int_sign, law_natural_order_antisymmetric};
use crate::version::{parse_version_index, version_index};
use crate::lab::{has_version, version_position};
use crate::sorting::{sort_by, asymmetric, lemma_sort_by_multiset, lemma_sort_by_ordered, lemma_insert_by_at, lemma_sort_by_step};

verus! {

/// A generation record as values.
pub type RecordView = (Seq<char>, i64, u128, Seq<(String, InputValue)>, Option<u128>);

/// How record `a` stands to record `b` in the newest-first order, as a sign
/// (-1: `a` comes first). Two numbered versions ("v<n>") compare by
/// descending number, any other pair by descending natural order of the
/// names; ties go to the more recent creation time.
pub open spec fn record_order(a: RecordView, b: RecordView) -> int {
    let by_name = match (version_index(a.0), version_index(b.0)) {
        (Some(x), Some(y)) => int_sign(y - x),
        _ => natural_sign(b.0, a.0),
    };
    if by_name != 0 {
        by_name
    } else {
        int_sign(b.1 - a.1)
    }
}

/// Whether record `a` must come after record `b` in the newest-first order.
pub open spec fn comes_after(a: RecordView, b: RecordView) -> bool {
    record_order(a, b) > 0
}

/// The stable newest-first arrangement of `s`.
pub open spec fn newest_first(s: Seq<RecordView>) -> Seq<RecordView> {
    sort_by(s, |a: RecordView, b: RecordView| comes_after(a, b))
}

/// The records of a configuration as values.
pub open spec fn record_views(versions: Seq<GenerationRecord>) -> Seq<RecordView> {
    versions.map_values(|r: GenerationRecord| record_view(r))
}

/// Whether `s` is in newest-first order: no record comes after its successor.
pub open spec fn in_newest_first_order(s: Seq<RecordView>) -> bool {
    forall|k: int| 0 <= k < s.len() - 1 ==> record_order(#[trigger] s[k], s[k + 1]) <= 0
}

/// Swapping the two records reverses their order.
proof fn lemma_record_order_antisymmetric(a: RecordView, b: RecordView)
    ensures
        record_order(a, b) == -record_order(b, a),
{
    law_natural_order_antisymmetric(a.0, b.0);
}

/// The newest-first arrangement of a configuration's versions holds exactly
/// its records, each as often as the configuration does, and no record in
/// it comes after the one that follows it.
pub proof fn law_sorted_records_are_an_ordered_permutation(s: Seq<RecordView>)
    ensures
        newest_first(s).to_multiset() == s.to_multiset(),
        newest_first(s).len() == s.len(),
        in_newest_first_order(newest_first(s)),
{
    let after = |a: RecordView, b: RecordView| comes_after(a, b);
    assert(asymmetric(after)) by {
        assert forall|a: RecordView, b: RecordView| #[trigger] after(a, b) implies !after(b, a) by {
            lemma_record_order_antisymmetric(a, b);
        }
    }
    lemma_sort_by_multiset(s, after);
    lemma_sort_by_ordered(s, after);
    let r = newest_first(s);
    assert forall|k: int| 0 <= k < r.len() - 1 implies record_order(#[trigger] r[k], r[k + 1]) <= 0 by {
        assert(!after(r[k], r[k + 1]));
    }
}

/// How record `a` stands to record `b` in the newest-first order.
fn record_order_exec(a: &GenerationRecord, b: &GenerationRecord) -> (r: i8)
    ensures
        r == record_order(record_view(*a), record_view(*b)),
{
    let ia = parse_version_index(a.version.as_str());
    let ib = parse_version_index(b.version.as_str());
    let by_name: i8 = match (ia, ib) {
        (Some(x), Some(y)) => {
            if y < x {
                -1
            } else if y > x {
                1
            } else {
                0
            }
        },
        _ => {
            let o = natural_case_insensitive_cmp(b.version.as_str(), a.version.as_str());
            match o {
                Ordering::Less => -1,
                Ordering::Equal => 0,
                Ordering::Greater => 1,
            }
        },
    };
    if by_name != 0 {
        by_name
    } else if b.timestamp_ms < a.timestamp_ms {
        -1
    } else if b.timestamp_ms > a.timestamp_ms {
        1
    } else {
        0
    }
}

/// The configuration's versions, newest first: numbered versions by
/// descending number, other names by descending natural order, ties by
/// descending creation time; records that still tie keep their order.
pub fn sorted_generation_records(config: &GenerativeConfig) -> (r: Vec<GenerationRecord>)
    ensures
        record_views(r@) == newest_first(record_views(config.versions@)),
{
    let versions = &config.versions;
    let ghost input = record_views(versions@);
    let mut out: Vec<GenerationRecord> = Vec::new();
    let n = versions.len();
    for i in 0..n
        invariant
            n == versions@.len(),
            input == record_views(versions@),
            record_views(out@) == newest_first(input.take(i as int)),
    {
        let x = versions[i].duplicate();
        let ghost before = record_views(out@);
        let mut j: usize = out.len();
        while j > 0 && record_order_exec(&out[j - 1], &x) > 0
            invariant
                j <= out@.len(),
                before == record_views(out@),
                forall|k: int| j <= k < out@.len() ==> record_order(
                    #[trigger] before[k],
                    record_view(x),
                ) > 0,
            decreases j,
        {
            j = j - 1;
        }
        proof {
            lemma_insert_by_at(before, record_view(x), |a: RecordView, b: RecordView| comes_after(a, b), j as int);
            lemma_sort_by_step(input, i as int, |a: RecordView, b: RecordView| comes_after(a, b));
        }
        out.insert(j, x);
        assert(record_views(out@) =~= before.insert(j as int, record_view(x)));
    }
    assert(input.take(n as int) =~= input);
    out
}

/// The version the asset lab opens on: the active version when the
/// configuration has a record of it, else the first of the newest-first
/// arrangement, else none.
pub fn preferred_asset_lab_version(config: &GenerativeConfig) -> (r: Option<String>)
    ensures
        match config.active_version {
            Some(a) if has_version(*config, a@) => r.is_some() && r.unwrap()@ == a@,
            _ => if config.versions@.len() == 0 {
                r.is_none()
            } else {
                r.is_some() && r.unwrap()@ == newest_first(record_views(config.versions@))[0].0
            },
        },
{
    if let Some(active) = config.active_version.as_ref() {
        if let Some(i) = version_position(&config.versions, active.as_str()) {
            assert(crate::lab_model::version_names(config.versions@)[i as int] == active@);
            let chosen = active.clone();
            assert(chosen@ == active@);
            return Some(chosen);
        }
    }
    let sorted = sorted_generation_records(config);
    proof {
        law_sorted_records_are_an_ordered_permutation(record_views(config.versions@));
    }
    if sorted.len() == 0 {
        None
    } else {
        assert(record_views(sorted@)[0] == record_view(sorted@[0]));
        Some(sorted[0].version.clone())
    }
}

} // verus!
