//! Deleting a generated version from a generative configuration: its
//! record, every binding that refers to it, and the node outputs that name
//! it go; an active deleted version gives way to the preferred one.

use vstd::prelude::*;
use crate::lab_model::{AssetLabNode, GenerationRecord, GenerativeConfig, InputValue, version_names, duplicate_bindings};
use crate::lab::{references_version, input_references_generation_version, has_version, version_position, bindings_reference};
use crate::records::{preferred_asset_lab_version, newest_first, record_views};

verus! {

/// The bindings that do not refer to version `version` of asset `asset_id`.
pub open spec fn bindings_without(
    b: Seq<(String, InputValue)>,
    asset_id: u128,
    version: Seq<char>,
) -> Seq<(String, InputValue)>
    decreases b.len(),
{
    if b.len() == 0 {
        b
    } else {
        let rest = bindings_without(b.drop_last(), asset_id, version);
        if references_version(b.last().1, asset_id, version) {
            rest
        } else {
            rest.push(b.last())
        }
    }
}

/// The records of versions other than `version`.
pub open spec fn records_without(versions: Seq<GenerationRecord>, version: Seq<char>) -> Seq<
    GenerationRecord,
>
    decreases versions.len(),
{
    if versions.len() == 0 {
        versions
    } else {
        let rest = records_without(versions.drop_last(), version);
        if versions.last().version@ == version {
            rest
        } else {
            rest.push(versions.last())
        }
    }
}

/// The first record of `version`.
pub open spec fn first_record_named(versions: Seq<GenerationRecord>, version: Seq<char>) -> Option<
    GenerationRecord,
>
    decreases versions.len(),
{
    if versions.len() == 0 {
        None
    } else if versions[0].version@ == version {
        Some(versions[0])
    } else {
        first_record_named(versions.drop_first(), version)
    }
}

/// Node `n` after deleting the version: no output of that version, and no
/// binding to it.
pub open spec fn node_cleared(o: AssetLabNode, n: AssetLabNode, asset_id: u128, version: Seq<char>) -> bool {
    &&& n.id == o.id
    &&& n.parent_node_id == o.parent_node_id
    &&& n.provider_id == o.provider_id
    &&& n.inputs@ == bindings_without(o.inputs@, asset_id, version)
    &&& n.output_version == match o.output_version {
        Some(v) => if v@ == version {
            None
        } else {
            o.output_version
        },
        None => None,
    }
}

/// The configuration after deleting version `version` of asset `asset_id`.
pub open spec fn version_deleted(old: GenerativeConfig, new: GenerativeConfig, asset_id: u128, version: Seq<
    char,
>) -> bool {
    let kept = records_without(old.versions@, version);
    let filtered = bindings_without(old.inputs@, asset_id, version);
    &&& new.versions@ == kept
    &&& new.reference_slots@ == bindings_without(old.reference_slots@, asset_id, version)
    &&& new.lab_graph.selected_node_id == old.lab_graph.selected_node_id
    &&& new.lab_graph.nodes@.len() == old.lab_graph.nodes@.len()
    &&& forall|k: int|
        0 <= k < old.lab_graph.nodes@.len() ==> node_cleared(
            #[trigger] old.lab_graph.nodes@[k],
            new.lab_graph.nodes@[k],
            asset_id,
            version,
        )
    &&& if old.active_version matches Some(a) && a@ == version {
        if kept.len() == 0 {
            &&& new.active_version is None
            &&& new.provider_id == old.provider_id
            &&& new.inputs@ == filtered
        } else {
            let top = newest_first(record_views(kept))[0].0;
            &&& new.active_version matches Some(x) && x@ == top
            &&& match first_record_named(kept, top) {
                Some(rec) => new.provider_id == Some(rec.provider_id) && new.inputs@
                    == rec.inputs_snapshot@,
                None => new.provider_id == old.provider_id && new.inputs@ == filtered,
            }
        }
    } else {
        &&& new.active_version == old.active_version
        &&& new.provider_id == old.provider_id
        &&& new.inputs@ == filtered
    }
}

/// The bindings that do not refer to the version, in order.
fn drop_references(b: &mut Vec<(String, InputValue)>, asset_id: u128, version: &str)
    ensures
        final(b)@ == bindings_without(old(b)@, asset_id, version@),
{
    let mut rest: Vec<(String, InputValue)> = Vec::new();
    std::mem::swap(&mut rest, b);
    let ghost orig = rest@;
    let n = rest.len();
    let mut k: usize = 0;
    while rest.len() > 0
        invariant
            k + rest@.len() == n,
            n == orig.len(),
            rest@ == orig.skip(k as int),
            b@ == bindings_without(orig.take(k as int), asset_id, version@),
        decreases rest.len(),
    {
        let entry = rest.remove(0);
        proof {
            assert(orig.take(k + 1).drop_last() =~= orig.take(k as int));
            assert(orig.take(k + 1).last() == orig[k as int]);
            assert(orig.skip(k + 1) =~= orig.skip(k as int).drop_first());
        }
        if !input_references_generation_version(&entry.1, asset_id, version) {
            b.push(entry);
        }
        k = k + 1;
    }
    assert(orig.take(n as int) =~= orig);
}

proof fn lemma_records_without_named(versions: Seq<GenerationRecord>, version: Seq<char>)
    ensures
        !version_names(records_without(versions, version)).contains(version),
        records_without(versions, version).len() <= versions.len(),
        forall|i: int|
            0 <= i < records_without(versions, version).len() ==> versions.contains(
                #[trigger] records_without(versions, version)[i],
            ),
    decreases versions.len(),
{
    if versions.len() > 0 {
        let init = versions.drop_last();
        lemma_records_without_named(init, version);
        let r = records_without(versions, version);
        let ri = records_without(init, version);
        assert forall|i: int| 0 <= i < r.len() implies versions.contains(#[trigger] r[i]) by {
            if i < ri.len() {
                assert(init.contains(ri[i]));
                let j = choose|j: int| 0 <= j < init.len() && init[j] == ri[i];
                assert(versions[j] == init[j]);
            } else {
                assert(versions[versions.len() - 1] == r[i]);
            }
        }
        if version_names(r).contains(version) {
            let j = choose|j: int| 0 <= j < version_names(r).len() && version_names(r)[j] == version;
            if j < ri.len() {
                assert(version_names(ri)[j] == version);
            }
        }
    }
}

proof fn lemma_bindings_without_clean(b: Seq<(String, InputValue)>, asset_id: u128, version: Seq<char>)
    ensures
        !bindings_reference(bindings_without(b, asset_id, version), asset_id, version),
    decreases b.len(),
{
    if b.len() > 0 {
        lemma_bindings_without_clean(b.drop_last(), asset_id, version);
        let r = bindings_without(b, asset_id, version);
        let ri = bindings_without(b.drop_last(), asset_id, version);
        if bindings_reference(r, asset_id, version) {
            let i = choose|i: int| 0 <= i < r.len() && references_version(#[trigger] r[i].1, asset_id, version);
            if i < ri.len() {
                assert(ri[i] == r[i]);
            }
        }
    }
}

/// The first record of `version`, found by position.
proof fn lemma_first_record_named_at(versions: Seq<GenerationRecord>, version: Seq<char>, i: int)
    requires
        0 <= i < versions.len(),
        versions[i].version@ == version,
        forall|j: int| 0 <= j < i ==> versions[j].version@ != version,
    ensures
        first_record_named(versions, version) == Some(versions[i]),
    decreases i,
{
    if i > 0 {
        lemma_first_record_named_at(versions.drop_first(), version, i - 1);
    }
}

/// Deletes version `version` of generative asset `asset_id` from its
/// configuration: the records of that version, every input, reference slot
/// and lab step binding that refers to it, and the lab step outputs that
/// name it are removed; when it was the active version, the preferred
/// remaining version becomes active and lends its provider and inputs. An
/// error, with nothing changed, when the configuration has no such version.
pub fn delete_generative_version(config: &mut GenerativeConfig, asset_id: u128, version: &str) -> (r:
    Result<(), String>)
    ensures
        r is Ok <==> has_version(*old(config), version@),
        r is Ok ==> version_deleted(*old(config), *final(config), asset_id, version@),
        r is Err ==> *final(config) == *old(config) && r->Err_0@ == "Version "@ + version@
            + " was not found."@,
{
    match version_position(&config.versions, version) {
        None => {
            let message = String::from_str("Version ").concat(version).concat(" was not found.");
            return Err(message);
        },
        Some(i) => {
            assert(version_names(config.versions@)[i as int] == version@);
        },
    }
    let ghost before = *config;
    let mut old_versions: Vec<GenerationRecord> = Vec::new();
    std::mem::swap(&mut old_versions, &mut config.versions);
    let ghost orig = old_versions@;
    let n = old_versions.len();
    let mut k: usize = 0;
    while old_versions.len() > 0
        invariant
            k + old_versions@.len() == n,
            n == orig.len(),
            old_versions@ == orig.skip(k as int),
            config.versions@ == records_without(orig.take(k as int), version@),
            config.inputs == before.inputs,
            config.reference_slots == before.reference_slots,
            config.lab_graph == before.lab_graph,
            config.active_version == before.active_version,
            config.provider_id == before.provider_id,
        decreases old_versions.len(),
    {
        let record = old_versions.remove(0);
        proof {
            assert(orig.take(k + 1).drop_last() =~= orig.take(k as int));
            assert(orig.take(k + 1).last() == orig[k as int]);
            assert(orig.skip(k + 1) =~= orig.skip(k as int).drop_first());
        }
        let target = String::from_str(version);
        if record.version != target {
            config.versions.push(record);
        }
        k = k + 1;
    }
    assert(orig.take(n as int) =~= orig);
    drop_references(&mut config.inputs, asset_id, version);
    drop_references(&mut config.reference_slots, asset_id, version);
    let mut old_nodes: Vec<AssetLabNode> = Vec::new();
    std::mem::swap(&mut old_nodes, &mut config.lab_graph.nodes);
    let ghost orig_nodes = old_nodes@;
    let m = old_nodes.len();
    let mut t: usize = 0;
    while old_nodes.len() > 0
        invariant
            t + old_nodes@.len() == m,
            m == orig_nodes.len(),
            old_nodes@ == orig_nodes.skip(t as int),
            orig_nodes == before.lab_graph.nodes@,
            orig == before.versions@,
            config.versions@ == records_without(orig, version@),
            config.inputs@ == bindings_without(before.inputs@, asset_id, version@),
            config.reference_slots@ == bindings_without(before.reference_slots@, asset_id, version@),
            config.active_version == before.active_version,
            config.provider_id == before.provider_id,
            config.lab_graph.selected_node_id == before.lab_graph.selected_node_id,
            config.lab_graph.nodes@.len() == t,
            forall|j: int|
                0 <= j < t ==> node_cleared(
                    #[trigger] orig_nodes[j],
                    config.lab_graph.nodes@[j],
                    asset_id,
                    version@,
                ),
        decreases old_nodes.len(),
    {
        let mut node = old_nodes.remove(0);
        proof {
            assert(orig_nodes.skip(t + 1) =~= orig_nodes.skip(t as int).drop_first());
        }
        let target = String::from_str(version);
        let clear = match &node.output_version {
            Some(v) => *v == target,
            None => false,
        };
        if clear {
            node.output_version = None;
        }
        drop_references(&mut node.inputs, asset_id, version);
        config.lab_graph.nodes.push(node);
        t = t + 1;
    }
    let ghost filtered = config.inputs@;
    let deleted_active = match &config.active_version {
        Some(a) => {
            let target = String::from_str(version);
            *a == target
        },
        None => false,
    };
    if deleted_active {
        proof {
            lemma_records_without_named(orig, version@);
            assert(!has_version(*config, version@));
        }
        let preferred = preferred_asset_lab_version(config);
        match &preferred {
            Some(active) => {
                match version_position(&config.versions, active.as_str()) {
                    Some(i) => {
                        proof {
                            lemma_first_record_named_at(config.versions@, active@, i as int);
                        }
                        config.provider_id = Some(config.versions[i].provider_id);
                        config.inputs = duplicate_bindings(&config.versions[i].inputs_snapshot);
                    },
                    None => {
                        proof {
                            if first_record_named(config.versions@, active@) is Some {
                                lemma_first_named_listed(config.versions@, active@);
                            }
                        }
                    },
                }
            },
            None => {},
        }
        config.active_version = preferred;
    }
    Ok(())
}

/// A record found by name is listed under that name.
proof fn lemma_first_named_listed(versions: Seq<GenerationRecord>, version: Seq<char>)
    requires
        first_record_named(versions, version) is Some,
    ensures
        version_names(versions).contains(version),
    decreases versions.len(),
{
    if versions[0].version@ == version {
        assert(version_names(versions)[0] == version);
    } else {
        lemma_first_named_listed(versions.drop_first(), version);
        let j = choose|j: int|
            0 <= j < version_names(versions.drop_first()).len() && version_names(versions.drop_first())[j]
                == version;
        assert(version_names(versions)[j + 1] == version);
    }
}

/// After a version is deleted, no record carries its name, no reference slot
/// or lab step binding refers to it, no lab step names it as its output, it
/// is not the active version, and, unless it was the active version (whose
/// replacement brings its own recorded inputs), no input refers to it.
pub proof fn law_deleted_version_leaves_no_trace(
    old: GenerativeConfig,
    new: GenerativeConfig,
    asset_id: u128,
    version: Seq<char>,
)
    requires
        version_deleted(old, new, asset_id, version),
    ensures
        !version_names(new.versions@).contains(version),
        !bindings_reference(new.reference_slots@, asset_id, version),
        forall|n: int|
            0 <= n < new.lab_graph.nodes@.len() ==> !bindings_reference(
                #[trigger] new.lab_graph.nodes@[n].inputs@,
                asset_id,
                version,
            ),
        forall|n: int|
            0 <= n < new.lab_graph.nodes@.len() ==> !(#[trigger] new.lab_graph.nodes@[n].output_version
                matches Some(v) && v@ == version),
        !(new.active_version matches Some(x) && x@ == version),
        !(old.active_version matches Some(a) && a@ == version) ==> !bindings_reference(
            new.inputs@,
            asset_id,
            version,
        ),
{
    lemma_records_without_named(old.versions@, version);
    lemma_bindings_without_clean(old.inputs@, asset_id, version);
    lemma_bindings_without_clean(old.reference_slots@, asset_id, version);
    assert forall|n: int| 0 <= n < new.lab_graph.nodes@.len() implies !bindings_reference(
        #[trigger] new.lab_graph.nodes@[n].inputs@,
        asset_id,
        version,
    ) by {
        assert(node_cleared(old.lab_graph.nodes@[n], new.lab_graph.nodes@[n], asset_id, version));
        lemma_bindings_without_clean(old.lab_graph.nodes@[n].inputs@, asset_id, version);
    }
    assert forall|n: int| 0 <= n < new.lab_graph.nodes@.len() implies !(
    #[trigger] new.lab_graph.nodes@[n].output_version matches Some(v) && v@ == version) by {
        assert(node_cleared(old.lab_graph.nodes@[n], new.lab_graph.nodes@[n], asset_id, version));
    }
    let kept = records_without(old.versions@, version);
    if old.active_version matches Some(a) && a@ == version {
        if kept.len() > 0 {
            crate::records::law_sorted_records_are_an_ordered_permutation(record_views(kept));
            let s = newest_first(record_views(kept));
            broadcast use vstd::seq_lib::group_to_multiset_ensures;
            assert(s.contains(s[0]));
            assert(s.to_multiset().count(s[0]) > 0);
            assert(record_views(kept).to_multiset().count(s[0]) > 0);
            assert(record_views(kept).contains(s[0]));
            let j = choose|j: int| 0 <= j < record_views(kept).len() && record_views(kept)[j] == s[0];
            assert(version_names(kept)[j] == s[0].0);
        }
    }
}

} // verus!
