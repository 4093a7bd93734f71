//! Keeping the asset lab graph in step with the recorded versions: every
//! version gets a lab step, imported steps are chained in creation order,
//! and the selected step follows the selected version.

use vstd::prelude::*;
use crate::lab_model::{
    AssetLabNode, GenerationRecord, GenerativeConfig, InputValue, SourceFrameReference,
    duplicate_bindings,
};
use crate::lineage::contains_id;
use crate::uuid_text::random_id;
use crate::lab::version_position;
use crate::lab_model::version_names;
use crate::sorting::{sort_by, lemma_insert_by_at, lemma_sort_by_step};

verus! {

/// A binding value as plain values: a tag, the asset, the text (JSON or
/// version), the source clip, the pin flag and the frame choice.
pub open spec fn value_view(v: InputValue) -> (int, u128, Seq<char>, Option<u128>, bool, Option<
    SourceFrameReference,
>) {
    match v {
        InputValue::Literal { json } => (0, 0, json@, None, false, None),
        InputValue::AssetRef { asset_id, source_clip_id, pinned, frame_reference } => (
            1,
            asset_id,
            Seq::empty(),
            source_clip_id,
            pinned,
            frame_reference,
        ),
        InputValue::GenerationRef { asset_id, version, frame_reference } => (
            2,
            asset_id,
            version@,
            None,
            false,
            frame_reference,
        ),
    }
}

/// A binding as plain values.
pub open spec fn binding_view(b: (String, InputValue)) -> (Seq<char>, (int, u128, Seq<char>, Option<
    u128,
>, bool, Option<SourceFrameReference>)) {
    (b.0@, value_view(b.1))
}

/// Whether `s` holds a binding equal to `b`.
pub open spec fn holds_binding(s: Seq<(String, InputValue)>, b: (String, InputValue)) -> bool {
    exists|j: int| 0 <= j < s.len() && binding_view(#[trigger] s[j]) == binding_view(b)
}

/// Whether two binding lists are equal as maps: as many bindings, each of
/// one found in the other.
pub open spec fn same_bindings(a: Seq<(String, InputValue)>, b: Seq<(String, InputValue)>) -> bool {
    &&& a.len() == b.len()
    &&& forall|i: int| 0 <= i < a.len() ==> holds_binding(b, #[trigger] a[i])
    &&& forall|j: int| 0 <= j < b.len() ==> holds_binding(a, #[trigger] b[j])
}

/// A lab node as plain values.
pub type NodeView = (u128, Option<u128>, Option<u128>, Seq<(String, InputValue)>, Option<Seq<char>>);

/// A lab node as plain values: identifier, parent, provider, bindings,
/// output version.
pub open spec fn node_view(n: AssetLabNode) -> NodeView {
    (
        n.id,
        n.parent_node_id,
        n.provider_id,
        n.inputs@,
        match n.output_version {
            Some(v) => Some(v@),
            None => None,
        },
    )
}

/// An optional text as plain values.
pub open spec fn text_view(t: Option<&str>) -> Option<Seq<char>> {
    match t {
        Some(v) => Some(v@),
        None => None,
    }
}

/// The nodes as plain values.
pub open spec fn node_views(nodes: Seq<AssetLabNode>) -> Seq<NodeView> {
    nodes.map_values(|n: AssetLabNode| node_view(n))
}

/// The node paired with `version` in a list of (version, node) pairs: the
/// last pair of that version.
pub open spec fn pair_lookup(m: Seq<(Seq<char>, u128)>, version: Seq<char>) -> Option<u128>
    decreases m.len(),
{
    if m.len() == 0 {
        None
    } else if m.last().0 == version {
        Some(m.last().1)
    } else {
        pair_lookup(m.drop_last(), version)
    }
}

/// The (output version, node) pairs of the nodes that have an output, in
/// node order.
pub open spec fn output_pairs(nodes: Seq<AssetLabNode>) -> Seq<(Seq<char>, u128)>
    decreases nodes.len(),
{
    if nodes.len() == 0 {
        Seq::empty()
    } else {
        let rest = output_pairs(nodes.drop_last());
        match nodes.last().output_version {
            Some(v) => rest.push((v@, nodes.last().id)),
            None => rest,
        }
    }
}

/// Whether the first node with identifier `id` is at position `k`.
pub open spec fn first_with_id(vs: Seq<NodeView>, id: u128, k: int) -> bool {
    0 <= k < vs.len() && vs[k].0 == id && forall|j: int| 0 <= j < k ==> vs[j].0 != id
}

/// The walk's state: the nodes, the lab step of each record, the node
/// identifiers known, the (version, node) pairs, the step of the previous
/// version, whether anything changed, and how many fresh identifiers were
/// used.
pub type SyncState = (Seq<NodeView>, Seq<Option<u128>>, Seq<u128>, Seq<(Seq<char>, u128)>, Option<
    u128,
>, bool, nat);

/// One version of the walk, in creation order. A record whose step exists
/// keeps it (an imported root step with the same output and bindings is
/// chained under the previous version's step); else a step that already
/// outputs the version is credited with it; else a new step (with the next
/// fresh identifier, the record's provider and bindings, under the previous
/// version's step) is made for it.
pub open spec fn sync_step(st: SyncState, rec: GenerationRecord, idx: int, fresh: Seq<u128>) -> SyncState {
    let (nodes, labs, known, pairs, prev, changed, used) = st;
    let v = rec.version@;
    if labs[idx] is Some && known.contains(labs[idx].unwrap()) {
        let nid = labs[idx].unwrap();
        let pairs2 = if pair_lookup(pairs, v) is None {
            pairs.push((v, nid))
        } else {
            pairs
        };
        let (nodes2, changed2) = match prev {
            Some(parent) => if exists|k: int| first_with_id(nodes, nid, k) {
                let k = choose|k: int| first_with_id(nodes, nid, k);
                let n = nodes[k];
                if n.1 is None && n.4 == Some(v) && same_bindings(n.3, rec.inputs_snapshot@) {
                    (nodes.update(k, (n.0, Some(parent), n.2, n.3, n.4)), true)
                } else {
                    (nodes, changed)
                }
            } else {
                (nodes, changed)
            },
            None => (nodes, changed),
        };
        (nodes2, labs, known, pairs2, Some(nid), changed2, used)
    } else {
        match pair_lookup(pairs, v) {
            Some(nid) => (nodes, labs.update(idx, Some(nid)), known, pairs, Some(nid), true, used),
            None => {
                let id = fresh[used as int];
                (
                    nodes.push((id, prev, Some(rec.provider_id), rec.inputs_snapshot@, Some(v))),
                    labs.update(idx, Some(id)),
                    known.push(id),
                    pairs.push((v, id)),
                    Some(id),
                    true,
                    used + 1,
                )
            },
        }
    }
}

/// The walk over the first `k` versions of `order`.
pub open spec fn sync_fold(
    init: SyncState,
    records: Seq<GenerationRecord>,
    order: Seq<usize>,
    k: int,
    fresh: Seq<u128>,
) -> SyncState
    decreases k,
{
    if k <= 0 {
        init
    } else {
        let i = order[k - 1] as int;
        sync_step(sync_fold(init, records, order, k - 1, fresh), records[i], i, fresh)
    }
}

/// The positions of the records in creation order (stable for equal times).
pub open spec fn creation_order(records: Seq<GenerationRecord>) -> Seq<usize> {
    sort_by(
        Seq::new(records.len(), |i: int| i as usize),
        |a: usize, b: usize| records[a as int].timestamp_ms > records[b as int].timestamp_ms,
    )
}

/// The state the walk starts from.
pub open spec fn sync_start(config: GenerativeConfig) -> SyncState {
    (
        node_views(config.lab_graph.nodes@),
        config.versions@.map_values(|r: GenerationRecord| r.lab_node_id),
        config.lab_graph.nodes@.map_values(|n: AssetLabNode| n.id),
        output_pairs(config.lab_graph.nodes@),
        None,
        false,
        0,
    )
}

/// The state after the walk over all versions.
pub open spec fn sync_walk(config: GenerativeConfig, fresh: Seq<u128>) -> SyncState {
    let order = creation_order(config.versions@);
    sync_fold(sync_start(config), config.versions@, order, order.len() as int, fresh)
}

/// The lab step of the first record of `version`, given each record's step.
pub open spec fn selected_step(records: Seq<GenerationRecord>, labs: Seq<Option<u128>>, version: Seq<
    char,
>) -> Option<u128> {
    if exists|j: int| 0 <= j < records.len() && records[j].version@ == version {
        let j = choose|j: int|
            0 <= j < records.len() && records[j].version@ == version && forall|i: int|
                0 <= i < j ==> records[i].version@ != version;
        labs[j]
    } else {
        None
    }
}

/// The selection after the walk, and whether it changed anything: a
/// selection of an unknown step is dropped; the step of the selected version
/// is selected; without one, the first step is selected when nothing is.
pub open spec fn sync_selection(
    old_selected: Option<u128>,
    st: SyncState,
    records: Seq<GenerationRecord>,
    selected_version: Option<Seq<char>>,
) -> (Option<u128>, bool) {
    let (nodes, labs, known, pairs, prev, changed, used) = st;
    let (sel1, ch1) = if old_selected matches Some(s) && !known.contains(s) {
        (None, true)
    } else {
        (old_selected, changed)
    };
    let step = match selected_version {
        Some(v) => selected_step(records, labs, v),
        None => None,
    };
    match step {
        Some(nid) => if sel1 != Some(nid) {
            (Some(nid), true)
        } else {
            (sel1, ch1)
        },
        None => if sel1 is None {
            let first = if nodes.len() > 0 {
                Some(nodes[0].0)
            } else {
                None
            };
            (first, ch1 || first is Some)
        } else {
            (sel1, ch1)
        },
    }
}

/// The configuration after the walk, given the fresh identifiers used for
/// new steps, and the reported change flag.
pub open spec fn synced(
    old: GenerativeConfig,
    new: GenerativeConfig,
    selected_version: Option<Seq<char>>,
    fresh: Seq<u128>,
    changed: bool,
) -> bool {
    let st = sync_walk(old, fresh);
    let (sel, ch) = sync_selection(old.lab_graph.selected_node_id, st, old.versions@, selected_version);
    &&& node_views(new.lab_graph.nodes@) == st.0
    &&& new.versions@.len() == old.versions@.len()
    &&& forall|i: int|
        0 <= i < old.versions@.len() ==> #[trigger] new.versions@[i] == GenerationRecord {
            lab_node_id: st.1[i],
            ..old.versions@[i]
        }
    &&& new.lab_graph.selected_node_id == sel
    &&& changed == ch
    &&& new.provider_id == old.provider_id
    &&& new.active_version == old.active_version
    &&& new.inputs == old.inputs
    &&& new.reference_slots == old.reference_slots
}

/// Whether two binding values are equal.
fn value_equal(a: &InputValue, b: &InputValue) -> (r: bool)
    ensures
        r == (value_view(*a) == value_view(*b)),
{
    match (a, b) {
        (InputValue::Literal { json: x }, InputValue::Literal { json: y }) => *x == *y,
        (
            InputValue::AssetRef {
                asset_id: a1,
                source_clip_id: c1,
                pinned: p1,
                frame_reference: f1,
            },
            InputValue::AssetRef { asset_id: a2, source_clip_id: c2, pinned: p2, frame_reference: f2 },
        ) => *a1 == *a2 && *c1 == *c2 && *p1 == *p2 && *f1 == *f2,
        (
            InputValue::GenerationRef { asset_id: a1, version: v1, frame_reference: f1 },
            InputValue::GenerationRef { asset_id: a2, version: v2, frame_reference: f2 },
        ) => *a1 == *a2 && *v1 == *v2 && *f1 == *f2,
        _ => false,
    }
}

/// Whether `s` holds a binding equal to `b`.
fn holds_binding_exec(s: &Vec<(String, InputValue)>, b: &(String, InputValue)) -> (r: bool)
    ensures
        r == holds_binding(s@, *b),
{
    let mut j: usize = 0;
    while j < s.len()
        invariant
            j <= s.len(),
            forall|i: int| 0 <= i < j ==> binding_view(#[trigger] s@[i]) != binding_view(*b),
        decreases s.len() - j,
    {
        if s[j].0 == b.0 && value_equal(&s[j].1, &b.1) {
            assert(binding_view(s@[j as int]) == binding_view(*b));
            return true;
        }
        j = j + 1;
    }
    false
}

/// Whether two binding lists are equal as maps.
fn same_bindings_exec(a: &Vec<(String, InputValue)>, b: &Vec<(String, InputValue)>) -> (r: bool)
    ensures
        r == same_bindings(a@, b@),
{
    if a.len() != b.len() {
        return false;
    }
    let mut i: usize = 0;
    while i < a.len()
        invariant
            i <= a.len(),
            forall|k: int| 0 <= k < i ==> holds_binding(b@, #[trigger] a@[k]),
        decreases a.len() - i,
    {
        if !holds_binding_exec(b, &a[i]) {
            return false;
        }
        i = i + 1;
    }
    let mut j: usize = 0;
    while j < b.len()
        invariant
            j <= b.len(),
            forall|k: int| 0 <= k < a.len() ==> holds_binding(b@, #[trigger] a@[k]),
            forall|k: int| 0 <= k < j ==> holds_binding(a@, #[trigger] b@[k]),
        decreases b.len() - j,
    {
        if !holds_binding_exec(a, &b[j]) {
            return false;
        }
        j = j + 1;
    }
    true
}

/// The node paired with `version`: the last pair of that version.
fn lookup_pair(m: &Vec<(String, u128)>, version: &String) -> (r: Option<u128>)
    ensures
        r == pair_lookup(m@.map_values(|e: (String, u128)| (e.0@, e.1)), version@),
{
    let ghost view = m@.map_values(|e: (String, u128)| (e.0@, e.1));
    let mut i: usize = m.len();
    assert(view.take(i as int) =~= view);
    while i > 0
        invariant
            i <= m@.len(),
            view == m@.map_values(|e: (String, u128)| (e.0@, e.1)),
            pair_lookup(view, version@) == pair_lookup(view.take(i as int), version@),
        decreases i,
    {
        assert(view.take(i as int).drop_last() =~= view.take(i - 1));
        if m[i - 1].0 == *version {
            return Some(m[i - 1].1);
        }
        i = i - 1;
    }
    None
}

/// The position of the first node with identifier `id`.
fn first_position(nodes: &Vec<AssetLabNode>, id: u128) -> (r: Option<usize>)
    ensures
        match r {
            Some(k) => first_with_id(node_views(nodes@), id, k as int),
            None => !exists|k: int| first_with_id(node_views(nodes@), id, k),
        },
{
    let ghost vs = node_views(nodes@);
    let mut i: usize = 0;
    while i < nodes.len()
        invariant
            i <= nodes.len(),
            vs == node_views(nodes@),
            forall|j: int| 0 <= j < i ==> vs[j].0 != id,
        decreases nodes.len() - i,
    {
        if nodes[i].id == id {
            return Some(i);
        }
        i = i + 1;
    }
    None
}

/// The positions of the records in creation order.
fn creation_order_exec(records: &Vec<GenerationRecord>) -> (r: Vec<usize>)
    ensures
        r@ == creation_order(records@),
        forall|k: int| 0 <= k < r@.len() ==> #[trigger] r@[k] < records@.len(),
{
    let n = records.len();
    let ghost s = Seq::new(n as nat, |i: int| i as usize);
    let ghost after = |a: usize, b: usize| records@[a as int].timestamp_ms > records@[b as int].timestamp_ms;
    let mut out: Vec<usize> = Vec::new();
    assert(s.take(0) =~= Seq::<usize>::empty());
    for i in 0..n
        invariant
            n == records@.len(),
            s == Seq::new(n as nat, |i: int| i as usize),
            after == (|a: usize, b: usize| records@[a as int].timestamp_ms > records@[b as int].timestamp_ms),
            out@ == sort_by(s.take(i as int), after),
            forall|k: int| 0 <= k < out@.len() ==> #[trigger] out@[k] < n,
    {
        let ghost before = out@;
        let mut j: usize = out.len();
        while j > 0
            invariant
                j <= out@.len(),
                before == out@,
                i < n == records@.len(),
                forall|k: int| 0 <= k < out@.len() ==> #[trigger] out@[k] < n,
                after == (|a: usize, b: usize| records@[a as int].timestamp_ms > records@[b as int].timestamp_ms),
                forall|k: int| j <= k < out@.len() ==> after(#[trigger] before[k], i),
            ensures
                j <= out@.len(),
                j == 0 || !after(before[j - 1], i),
                forall|k: int| j <= k < out@.len() ==> after(#[trigger] before[k], i),
            decreases j,
        {
            if records[out[j - 1]].timestamp_ms > records[i].timestamp_ms {
                j = j - 1;
            } else {
                break;
            }
        }
        proof {
            assert(s[i as int] == i);
            lemma_insert_by_at(before, i, after, j as int);
            lemma_sort_by_step(s, i as int, after);
        }
        out.insert(j, i);
    }
    assert(s.take(n as int) =~= s);
    out
}

/// Links the versions of a configuration to its lab graph, using `fresh`
/// (in order) as the identifiers of the steps it creates, and reports
/// whether anything changed. Versions are visited in creation order: a
/// record whose step exists keeps it, and an imported root step with the
/// record's output and bindings is chained under the previous version's
/// step; a record without one is credited to a step that already outputs its
/// version, or else gets a new step under the previous version's step. A
/// selected step that does not exist is unselected; the step of the selected
/// version, if any, is selected; otherwise the first step is selected when
/// none is.
pub fn link_versions_to_lab_graph(
    config: &mut GenerativeConfig,
    selected_version: Option<&str>,
    fresh: &Vec<u128>,
) -> (changed: bool)
    requires
        fresh@.len() >= old(config).versions@.len(),
    ensures
        synced(*old(config), *final(config), text_view(selected_version), fresh@, changed),
        forall|i: int|
            0 <= i < final(config).versions@.len() ==> (#[trigger] final(config).versions@[i]).lab_node_id
                is Some && exists|k: int|
                0 <= k < final(config).lab_graph.nodes@.len() && final(config).lab_graph.nodes@[k].id
                    == final(config).versions@[i].lab_node_id.unwrap(),
        final(config).lab_graph.nodes@.len() >= old(config).lab_graph.nodes@.len(),
        forall|k: int|
            0 <= k < old(config).lab_graph.nodes@.len() ==> (#[trigger] final(config).lab_graph.nodes@[k]).id
                == old(config).lab_graph.nodes@[k].id,
        final(config).lab_graph.nodes@.len() > 0 ==> final(config).lab_graph.selected_node_id is Some,
        final(config).lab_graph.selected_node_id matches Some(id) ==> exists|k: int|
            0 <= k < final(config).lab_graph.nodes@.len() && final(config).lab_graph.nodes@[k].id == id,
{
    let ghost before = *config;
    let order = creation_order_exec(&config.versions);
    let mut nodes: Vec<AssetLabNode> = Vec::new();
    std::mem::swap(&mut nodes, &mut config.lab_graph.nodes);
    let mut records: Vec<GenerationRecord> = Vec::new();
    std::mem::swap(&mut records, &mut config.versions);
    let mut known: Vec<u128> = Vec::new();
    let mut pairs: Vec<(String, u128)> = Vec::new();
    let nn = nodes.len();
    for i in 0..nn
        invariant
            nn == nodes@.len(),
            nodes@ == before.lab_graph.nodes@,
            known@ == nodes@.take(i as int).map_values(|n: AssetLabNode| n.id),
            pairs@.map_values(|e: (String, u128)| (e.0@, e.1)) == output_pairs(nodes@.take(i as int)),
    {
        let ghost pv = pairs@.map_values(|e: (String, u128)| (e.0@, e.1));
        proof {
            assert(nodes@.take(i + 1).drop_last() =~= nodes@.take(i as int));
            assert(nodes@.take(i + 1).last() == nodes@[i as int]);
        }
        known.push(nodes[i].id);
        match &nodes[i].output_version {
            Some(v) => {
                pairs.push((v.clone(), nodes[i].id));
                assert(pairs@.map_values(|e: (String, u128)| (e.0@, e.1)) =~= pv.push((v@, nodes@[i as int].id)));
            },
            None => {},
        }
        assert(known@ =~= nodes@.take(i + 1).map_values(|n: AssetLabNode| n.id));
    }
    assert(nodes@.take(nn as int) =~= nodes@);
    let ghost init = sync_start(before);
    let ghost labs0 = before.versions@.map_values(|r: GenerationRecord| r.lab_node_id);
    let mut prev: Option<u128> = None;
    let mut changed = false;
    let mut used: usize = 0;
    let n = order.len();
    proof {
        crate::sorting::lemma_sort_by_multiset(
            Seq::new(before.versions@.len(), |i: int| i as usize),
            |a: usize, b: usize| before.versions@[a as int].timestamp_ms > before.versions@[b as int].timestamp_ms,
        );
    }
    for p in 0..n
        invariant
            n == order@.len(),
            order@ == creation_order(before.versions@),
            n == before.versions@.len(),
            forall|k: int| 0 <= k < order@.len() ==> #[trigger] order@[k] < before.versions@.len(),
            fresh@.len() >= before.versions@.len(),
            used <= p,
            records@.len() == before.versions@.len(),
            init == sync_start(before),
            ({
                let st = sync_fold(init, before.versions@, order@, p as int, fresh@);
                &&& node_views(nodes@) == st.0
                &&& forall|i: int| 0 <= i < records@.len() ==> #[trigger] records@[i] == GenerationRecord {
                    lab_node_id: st.1[i],
                    ..before.versions@[i]
                }
                &&& st.1.len() == records@.len()
                &&& known@ == st.2
                &&& pairs@.map_values(|e: (String, u128)| (e.0@, e.1)) == st.3
                &&& prev == st.4
                &&& changed == st.5
                &&& used == st.6
            }),
    {
        let idx = order[p];
        let ghost st = sync_fold(init, before.versions@, order@, p as int, fresh@);
        let ghost rec = before.versions@[idx as int];
        let ghost nv = node_views(nodes@);
        let ghost pv = pairs@.map_values(|e: (String, u128)| (e.0@, e.1));
        assert(records@[idx as int] == GenerationRecord { lab_node_id: st.1[idx as int], ..rec });
        let lab = records[idx].lab_node_id;
        let valid = match lab {
            Some(nid) => contains_id(&known, nid),
            None => false,
        };
        let version = records[idx].version.clone();
        if valid {
            let nid = lab.unwrap();
            if lookup_pair(&pairs, &version).is_none() {
                pairs.push((version.clone(), nid));
                assert(pairs@.map_values(|e: (String, u128)| (e.0@, e.1)) =~= pv.push((rec.version@, nid)));
            }
            match prev {
                Some(parent) => {
                    match first_position(&nodes, nid) {
                        Some(k) => {
                            let ghost nk = nv[k as int];
                            let same_output = match &nodes[k].output_version {
                                Some(o) => *o == version,
                                None => false,
                            };
                            let imported_root = nodes[k].parent_node_id.is_none() && same_output
                                && same_bindings_exec(&nodes[k].inputs, &records[idx].inputs_snapshot);
                            proof {
                                assert(nk == node_view(nodes@[k as int]));
                                let c = choose|c: int| first_with_id(nv, nid, c);
                                assert(c == k);
                            }
                            if imported_root {
                                let mut node = nodes.remove(k);
                                node.parent_node_id = Some(parent);
                                nodes.insert(k, node);
                                assert(node_views(nodes@) =~= nv.update(
                                    k as int,
                                    (nk.0, Some(parent), nk.2, nk.3, nk.4),
                                ));
                                changed = true;
                            }
                        },
                        None => {},
                    }
                },
                None => {},
            }
            prev = Some(nid);
        } else {
            match lookup_pair(&pairs, &version) {
                Some(nid) => {
                    let mut record = records.remove(idx);
                    record.lab_node_id = Some(nid);
                    records.insert(idx, record);
                    prev = Some(nid);
                    changed = true;
                },
                None => {
                    assert(used < fresh@.len());
                    let id = fresh[used];
                    let node = AssetLabNode {
                        id,
                        parent_node_id: prev,
                        provider_id: Some(records[idx].provider_id),
                        inputs: duplicate_bindings(&records[idx].inputs_snapshot),
                        output_version: Some(version.clone()),
                    };
                    nodes.push(node);
                    assert(node_views(nodes@) =~= nv.push(
                        (id, prev, Some(rec.provider_id), rec.inputs_snapshot@, Some(rec.version@)),
                    ));
                    let mut record = records.remove(idx);
                    record.lab_node_id = Some(id);
                    records.insert(idx, record);
                    known.push(id);
                    pairs.push((version, id));
                    assert(pairs@.map_values(|e: (String, u128)| (e.0@, e.1)) =~= pv.push((rec.version@, id)));
                    prev = Some(id);
                    changed = true;
                    used = used + 1;
                },
            }
        }
    }
    let ghost st = sync_walk(before, fresh@);
    config.versions = records;
    config.lab_graph.nodes = nodes;
    let selected = config.lab_graph.selected_node_id;
    match selected {
        Some(s) => {
            if !contains_id(&known, s) {
                config.lab_graph.selected_node_id = None;
                changed = true;
            }
        },
        None => {},
    }
    let step: Option<u128> = match selected_version {
        Some(v) => match version_position(&config.versions, v) {
            Some(j) => {
                proof {
                    assert(config.versions@[j as int].version == before.versions@[j as int].version);
                    assert forall|i: int| 0 <= i < j implies before.versions@[i].version@ != v@ by {
                        assert(config.versions@[i].version == before.versions@[i].version);
                    }
                    let c = choose|c: int|
                        0 <= c < before.versions@.len() && before.versions@[c].version@ == v@
                            && forall|i: int| 0 <= i < c ==> before.versions@[i].version@ != v@;
                    assert(c == j);
                }
                config.versions[j].lab_node_id
            },
            None => {
                proof {
                    assert forall|i: int| 0 <= i < before.versions@.len() implies before.versions@[i].version@ != v@ by {
                        assert(config.versions@[i].version == before.versions@[i].version);
                        assert(version_names(config.versions@)[i] == config.versions@[i].version@);
                    }
                }
                None
            },
        },
        None => None,
    };
    match step {
        Some(nid) => {
            if config.lab_graph.selected_node_id != Some(nid) {
                config.lab_graph.selected_node_id = Some(nid);
                changed = true;
            }
        },
        None => {
            if config.lab_graph.selected_node_id.is_none() {
                let first = if config.lab_graph.nodes.len() > 0 {
                    Some(config.lab_graph.nodes[0].id)
                } else {
                    None
                };
                config.lab_graph.selected_node_id = first;
                changed = changed || first.is_some();
            }
        },
    }
    proof {
        assert(synced(before, *config, text_view(selected_version), fresh@, changed));
        law_linked_versions_have_steps(before, *config, text_view(selected_version), fresh@, changed);
        law_linking_keeps_steps_and_selects_one(before, *config, text_view(selected_version), fresh@, changed);
    }
    changed
}

/// Links the versions of a configuration to its lab graph, giving each new
/// step a random identifier, and reports whether anything changed.
pub fn ensure_asset_lab_graph_for_versions(
    config: &mut GenerativeConfig,
    selected_version: Option<&str>,
) -> (changed: bool)
    ensures
        exists|fresh: Seq<u128>|
            fresh.len() == old(config).versions@.len() && #[trigger] synced(
                *old(config),
                *final(config),
                text_view(selected_version),
                fresh,
                changed,
            ),
        forall|i: int|
            0 <= i < final(config).versions@.len() ==> (#[trigger] final(config).versions@[i]).lab_node_id
                is Some && exists|k: int|
                0 <= k < final(config).lab_graph.nodes@.len() && final(config).lab_graph.nodes@[k].id
                    == final(config).versions@[i].lab_node_id.unwrap(),
        final(config).lab_graph.nodes@.len() >= old(config).lab_graph.nodes@.len(),
        forall|k: int|
            0 <= k < old(config).lab_graph.nodes@.len() ==> (#[trigger] final(config).lab_graph.nodes@[k]).id
                == old(config).lab_graph.nodes@[k].id,
        final(config).lab_graph.nodes@.len() > 0 ==> final(config).lab_graph.selected_node_id is Some,
        final(config).lab_graph.selected_node_id matches Some(id) ==> exists|k: int|
            0 <= k < final(config).lab_graph.nodes@.len() && final(config).lab_graph.nodes@[k].id == id,
{
    let mut fresh: Vec<u128> = Vec::new();
    let n = config.versions.len();
    for i in 0..n
        invariant
            fresh@.len() == i,
    {
        fresh.push(random_id());
    }
    link_versions_to_lab_graph(config, selected_version, &fresh)
}

/// Whether the walk's bookkeeping is sound: every known identifier is a
/// node's, every pair names a known node, and every version visited so far
/// has a known step.
pub open spec fn walk_sound(st: SyncState, n: int, order: Seq<usize>, p: int) -> bool {
    &&& forall|x: u128| #[trigger] st.2.contains(x) ==> exists|k: int| 0 <= k < st.0.len() && st.0[k].0 == x
    &&& forall|j: int| 0 <= j < st.3.len() ==> st.2.contains((#[trigger] st.3[j]).1)
    &&& st.1.len() == n
    &&& forall|q: int|
        0 <= q < p ==> (#[trigger] st.1[order[q] as int]) is Some && st.2.contains(
            st.1[order[q] as int].unwrap(),
        )
}

proof fn lemma_pair_lookup_listed(m: Seq<(Seq<char>, u128)>, v: Seq<char>)
    requires
        pair_lookup(m, v) is Some,
    ensures
        exists|j: int| 0 <= j < m.len() && m[j].1 == pair_lookup(m, v).unwrap(),
    decreases m.len(),
{
    if m.last().0 == v {
        assert(m[m.len() - 1].1 == pair_lookup(m, v).unwrap());
    } else {
        lemma_pair_lookup_listed(m.drop_last(), v);
        let j = choose|j: int| 0 <= j < m.drop_last().len() && m.drop_last()[j].1 == pair_lookup(m, v).unwrap();
        assert(m[j] == m.drop_last()[j]);
    }
}

proof fn lemma_output_pairs_are_nodes(nodes: Seq<AssetLabNode>)
    ensures
        forall|j: int|
            0 <= j < output_pairs(nodes).len() ==> nodes.map_values(|n: AssetLabNode| n.id).contains(
                (#[trigger] output_pairs(nodes)[j]).1,
            ),
    decreases nodes.len(),
{
    if nodes.len() > 0 {
        let init = nodes.drop_last();
        lemma_output_pairs_are_nodes(init);
        let ids = nodes.map_values(|n: AssetLabNode| n.id);
        let init_ids = init.map_values(|n: AssetLabNode| n.id);
        assert forall|j: int| 0 <= j < output_pairs(nodes).len() implies ids.contains(
            (#[trigger] output_pairs(nodes)[j]).1,
        ) by {
            if j < output_pairs(init).len() {
                assert(output_pairs(nodes)[j] == output_pairs(init)[j]);
                let k = choose|k: int| 0 <= k < init_ids.len() && init_ids[k] == output_pairs(init)[j].1;
                assert(ids[k] == init_ids[k]);
            } else {
                assert(ids[nodes.len() - 1] == output_pairs(nodes)[j].1);
            }
        }
    }
}

proof fn lemma_walk_sound(
    init: SyncState,
    records: Seq<GenerationRecord>,
    order: Seq<usize>,
    p: int,
    fresh: Seq<u128>,
)
    requires
        0 <= p <= order.len(),
        forall|q: int| 0 <= q < order.len() ==> #[trigger] order[q] < records.len(),
        init.6 == 0,
        fresh.len() >= order.len(),
        walk_sound(init, records.len() as int, order, 0),
    ensures
        walk_sound(sync_fold(init, records, order, p, fresh), records.len() as int, order, p),
        sync_fold(init, records, order, p, fresh).6 <= p,
    decreases p,
{
    if p > 0 {
        lemma_walk_sound(init, records, order, p - 1, fresh);
        let st = sync_fold(init, records, order, p - 1, fresh);
        let idx = order[p - 1] as int;
        let rec = records[idx];
        let nx = sync_step(st, rec, idx, fresh);
        let (nodes, labs, known, pairs, prev, changed, used) = st;
        let v = rec.version@;
        if labs[idx] is Some && known.contains(labs[idx].unwrap()) {
            let nid = labs[idx].unwrap();
            assert forall|x: u128| #[trigger] nx.2.contains(x) implies exists|k: int|
                0 <= k < nx.0.len() && nx.0[k].0 == x by {
                let k = choose|k: int| 0 <= k < nodes.len() && nodes[k].0 == x;
                assert(nx.0[k].0 == x);
            }
            assert forall|j: int| 0 <= j < nx.3.len() implies nx.2.contains((#[trigger] nx.3[j]).1) by {
                if j < pairs.len() {
                    assert(nx.3[j] == pairs[j]);
                }
            }
            assert(nx.1 == labs && nx.2 == known);
            assert forall|q: int| 0 <= q < p implies (#[trigger] nx.1[order[q] as int]) is Some
                && nx.2.contains(nx.1[order[q] as int].unwrap()) by {
                if q < p - 1 {
                    assert(labs[order[q] as int] is Some);
                }
            }
            assert(walk_sound(nx, records.len() as int, order, p));
        } else {
            match pair_lookup(pairs, v) {
                Some(nid) => {
                    lemma_pair_lookup_listed(pairs, v);
                    let j = choose|j: int| 0 <= j < pairs.len() && pairs[j].1 == nid;
                    assert(known.contains(pairs[j].1));
                    assert(nx.0 == nodes && nx.2 == known && nx.3 == pairs);
                    assert(nx.1 == labs.update(idx, Some(nid)));
                    assert forall|q: int| 0 <= q < p implies (#[trigger] nx.1[order[q] as int]) is Some
                        && nx.2.contains(nx.1[order[q] as int].unwrap()) by {
                        if order[q] as int != idx {
                            assert(nx.1[order[q] as int] == labs[order[q] as int]);
                        }
                    }
                    assert(walk_sound(nx, records.len() as int, order, p));
                },
                None => {
                    let id = fresh[used as int];
                    assert(nx.2 == known.push(id));
                    assert forall|x: u128| #[trigger] nx.2.contains(x) implies exists|k: int|
                        0 <= k < nx.0.len() && nx.0[k].0 == x by {
                        if x == id {
                            assert(nx.0[nodes.len() as int].0 == id);
                        } else {
                            let t = choose|t: int| 0 <= t < nx.2.len() && nx.2[t] == x;
                            assert(known[t] == x);
                            assert(known.contains(x));
                            let k = choose|k: int| 0 <= k < nodes.len() && nodes[k].0 == x;
                            assert(nx.0[k].0 == x);
                        }
                    }
                    assert forall|j: int| 0 <= j < nx.3.len() implies nx.2.contains((#[trigger] nx.3[j]).1) by {
                        if j < pairs.len() {
                            assert(nx.3[j] == pairs[j]);
                            assert(known.contains(pairs[j].1));
                            let t = choose|t: int| 0 <= t < known.len() && known[t] == pairs[j].1;
                            assert(nx.2[t] == pairs[j].1);
                        } else {
                            assert(nx.2[known.len() as int] == id);
                        }
                    }
                    assert forall|q: int| 0 <= q < p implies (#[trigger] nx.1[order[q] as int]) is Some
                        && nx.2.contains(nx.1[order[q] as int].unwrap()) by {
                        if order[q] as int != idx {
                            assert(nx.1[order[q] as int] == labs[order[q] as int]);
                            let t = choose|t: int| 0 <= t < known.len() && known[t] == labs[order[q] as int].unwrap();
                            assert(nx.2[t] == known[t]);
                        } else {
                            assert(nx.2[known.len() as int] == id);
                        }
                    }
                    assert(walk_sound(nx, records.len() as int, order, p));
                },
            }
        }
    }
}

proof fn lemma_creation_order_is_permutation(records: Seq<GenerationRecord>)
    ensures
        creation_order(records).to_multiset() == Seq::new(records.len(), |i: int| i as usize).to_multiset(),
        creation_order(records).len() == records.len(),
{
    crate::sorting::lemma_sort_by_multiset(
        Seq::new(records.len(), |i: int| i as usize),
        |a: usize, b: usize| records[a as int].timestamp_ms > records[b as int].timestamp_ms,
    );
}

/// After the versions are linked to the lab graph, every version is
/// credited to a step of the graph.
pub proof fn law_linked_versions_have_steps(
    old: GenerativeConfig,
    new: GenerativeConfig,
    selected_version: Option<Seq<char>>,
    fresh: Seq<u128>,
    changed: bool,
)
    requires
        synced(old, new, selected_version, fresh, changed),
        fresh.len() >= old.versions@.len(),
        old.versions@.len() <= usize::MAX,
    ensures
        forall|i: int|
            0 <= i < new.versions@.len() ==> (#[trigger] new.versions@[i]).lab_node_id is Some && exists|k: int|
                0 <= k < new.lab_graph.nodes@.len() && new.lab_graph.nodes@[k].id
                    == new.versions@[i].lab_node_id.unwrap(),
{
    let n = old.versions@.len();
    let s = Seq::new(n, |i: int| i as usize);
    let order = creation_order(old.versions@);
    lemma_creation_order_is_permutation(old.versions@);
    broadcast use vstd::seq_lib::group_to_multiset_ensures;
    assert forall|q: int| 0 <= q < order.len() implies #[trigger] order[q] < n by {
        assert(order.contains(order[q]));
        assert(order.to_multiset().count(order[q]) > 0);
        assert(s.to_multiset().count(order[q]) > 0);
        assert(s.contains(order[q]));
        let t = choose|t: int| 0 <= t < s.len() && s[t] == order[q];
    }
    let init = sync_start(old);
    let ids = old.lab_graph.nodes@.map_values(|x: AssetLabNode| x.id);
    lemma_output_pairs_are_nodes(old.lab_graph.nodes@);
    assert forall|x: u128| #[trigger] init.2.contains(x) implies exists|k: int| 0 <= k < init.0.len() && init.0[k].0 == x by {
        let k = choose|k: int| 0 <= k < init.2.len() && init.2[k] == x;
        assert(init.0[k].0 == x);
    }
    lemma_walk_sound(init, old.versions@, order, order.len() as int, fresh);
    let st = sync_walk(old, fresh);
    assert forall|i: int| 0 <= i < new.versions@.len() implies (#[trigger] new.versions@[i]).lab_node_id is Some && exists|k: int|
        0 <= k < new.lab_graph.nodes@.len() && new.lab_graph.nodes@[k].id == new.versions@[i].lab_node_id.unwrap() by {
        assert(0 <= i < n);
        assert(s[i] == i as usize);
        assert(s.contains(i as usize));
        assert(s.to_multiset().count(i as usize) > 0);
        assert(order.to_multiset().count(i as usize) > 0);
        assert(order.contains(i as usize));
        let q = choose|q: int| 0 <= q < order.len() && order[q] == i as usize;
        assert(order[q] as int == i);
        assert(st.1[order[q] as int] is Some);
        let id = st.1[i].unwrap();
        assert(new.versions@[i].lab_node_id == st.1[i]);
        assert(st.2.contains(id));
        let k = choose|k: int| 0 <= k < st.0.len() && st.0[k].0 == id;
        assert(node_views(new.lab_graph.nodes@)[k].0 == new.lab_graph.nodes@[k].id);
    }
}

/// The walk keeps every node it starts from, at its place and with its
/// identifier; it only adds nodes and sets parents.
proof fn lemma_fold_keeps_nodes(
    init: SyncState,
    records: Seq<GenerationRecord>,
    order: Seq<usize>,
    p: int,
    fresh: Seq<u128>,
)
    requires
        0 <= p <= order.len(),
    ensures
        sync_fold(init, records, order, p, fresh).0.len() >= init.0.len(),
        forall|k: int|
            0 <= k < init.0.len() ==> (#[trigger] sync_fold(init, records, order, p, fresh).0[k]).0
                == init.0[k].0,
    decreases p,
{
    if p > 0 {
        lemma_fold_keeps_nodes(init, records, order, p - 1, fresh);
        let st = sync_fold(init, records, order, p - 1, fresh);
        let idx = order[p - 1] as int;
        let nx = sync_step(st, records[idx], idx, fresh);
        assert(nx.0.len() >= st.0.len());
        assert forall|k: int| 0 <= k < st.0.len() implies (#[trigger] nx.0[k]).0 == st.0[k].0 by {}
    }
}

/// After the walk every record has a step the walk knows, and every known
/// step is a node.
proof fn lemma_walk_complete(old: GenerativeConfig, fresh: Seq<u128>)
    requires
        fresh.len() >= old.versions@.len(),
        old.versions@.len() <= usize::MAX,
    ensures
        ({
            let st = sync_walk(old, fresh);
            &&& st.1.len() == old.versions@.len()
            &&& forall|i: int|
                0 <= i < old.versions@.len() ==> (#[trigger] st.1[i]) is Some && st.2.contains(
                    st.1[i].unwrap(),
                )
            &&& forall|x: u128| #[trigger] st.2.contains(x) ==> exists|k: int| 0 <= k < st.0.len() && st.0[k].0 == x
        }),
{
    let n = old.versions@.len();
    let s = Seq::new(n, |i: int| i as usize);
    let order = creation_order(old.versions@);
    lemma_creation_order_is_permutation(old.versions@);
    broadcast use vstd::seq_lib::group_to_multiset_ensures;
    assert forall|q: int| 0 <= q < order.len() implies #[trigger] order[q] < n by {
        assert(order.contains(order[q]));
        assert(order.to_multiset().count(order[q]) > 0);
        assert(s.to_multiset().count(order[q]) > 0);
        assert(s.contains(order[q]));
        let t = choose|t: int| 0 <= t < s.len() && s[t] == order[q];
    }
    let init = sync_start(old);
    lemma_output_pairs_are_nodes(old.lab_graph.nodes@);
    assert forall|x: u128| #[trigger] init.2.contains(x) implies exists|k: int| 0 <= k < init.0.len() && init.0[k].0 == x by {
        let k = choose|k: int| 0 <= k < init.2.len() && init.2[k] == x;
        assert(init.0[k].0 == x);
    }
    lemma_walk_sound(init, old.versions@, order, order.len() as int, fresh);
    let st = sync_walk(old, fresh);
    assert forall|i: int| 0 <= i < n implies (#[trigger] st.1[i]) is Some && st.2.contains(st.1[i].unwrap()) by {
        assert(s[i] == i as usize);
        assert(s.contains(i as usize));
        assert(s.to_multiset().count(i as usize) > 0);
        assert(order.to_multiset().count(i as usize) > 0);
        assert(order.contains(i as usize));
        let q = choose|q: int| 0 <= q < order.len() && order[q] == i as usize;
        assert(order[q] as int == i);
    }
}

/// When some record has the version, a first one has it.
proof fn lemma_first_record_of(records: Seq<GenerationRecord>, v: Seq<char>, j0: int)
    requires
        0 <= j0 < records.len(),
        records[j0].version@ == v,
    ensures
        exists|j: int|
            0 <= j < records.len() && records[j].version@ == v && forall|i: int|
                0 <= i < j ==> records[i].version@ != v,
    decreases j0,
{
    if exists|i: int| 0 <= i < j0 && records[i].version@ == v {
        let i = choose|i: int| 0 <= i < j0 && records[i].version@ == v;
        lemma_first_record_of(records, v, i);
    } else {
        assert(forall|i: int| 0 <= i < j0 ==> records[i].version@ != v);
    }
}

/// The step of a selected version is a known step.
#[verifier::spinoff_prover]
proof fn lemma_selected_step_known(
    records: Seq<GenerationRecord>,
    labs: Seq<Option<u128>>,
    known: Seq<u128>,
    v: Seq<char>,
)
    requires
        labs.len() == records.len(),
        forall|i: int| 0 <= i < records.len() ==> (#[trigger] labs[i]) is Some && known.contains(labs[i].unwrap()),
    ensures
        selected_step(records, labs, v) matches Some(x) ==> known.contains(x),
{
    let step = selected_step(records, labs, v);
    if exists|j: int| 0 <= j < records.len() && records[j].version@ == v {
        let j0 = choose|j: int| 0 <= j < records.len() && records[j].version@ == v;
        lemma_first_record_of(records, v, j0);
        let j = choose|j: int|
            0 <= j < records.len() && records[j].version@ == v && forall|i: int|
                0 <= i < j ==> records[i].version@ != v;
        assert(step == labs[j]);
        assert(labs[j] is Some && known.contains(labs[j].unwrap()));
    } else {
        assert(step is None);
    }
}

/// The selection after the walk is a known step or the first node, and is
/// set whenever there are nodes.
#[verifier::spinoff_prover]
proof fn lemma_sync_selection_known(
    old_selected: Option<u128>,
    st: SyncState,
    records: Seq<GenerationRecord>,
    selected_version: Option<Seq<char>>,
)
    requires
        st.1.len() == records.len(),
        forall|i: int| 0 <= i < records.len() ==> (#[trigger] st.1[i]) is Some && st.2.contains(st.1[i].unwrap()),
    ensures
        sync_selection(old_selected, st, records, selected_version).0 matches Some(x) ==> st.2.contains(x)
            || (st.0.len() > 0 && x == st.0[0].0),
        st.0.len() > 0 ==> sync_selection(old_selected, st, records, selected_version).0 is Some,
{
    let (nodes, labs, known, pairs, prev, changed, used) = st;
    if let Some(v) = selected_version {
        lemma_selected_step_known(records, labs, known, v);
    }
    let step = match selected_version {
        Some(v) => selected_step(records, labs, v),
        None => None,
    };
    assert(step matches Some(x) ==> known.contains(x));
}

/// Linking the versions to the lab graph removes no step: every step keeps
/// its place and identifier. Afterwards a step is selected whenever the
/// graph has one, and a selected step is a step of the graph.
pub proof fn law_linking_keeps_steps_and_selects_one(
    old: GenerativeConfig,
    new: GenerativeConfig,
    selected_version: Option<Seq<char>>,
    fresh: Seq<u128>,
    changed: bool,
)
    requires
        synced(old, new, selected_version, fresh, changed),
        fresh.len() >= old.versions@.len(),
        old.versions@.len() <= usize::MAX,
    ensures
        new.lab_graph.nodes@.len() >= old.lab_graph.nodes@.len(),
        forall|k: int|
            0 <= k < old.lab_graph.nodes@.len() ==> (#[trigger] new.lab_graph.nodes@[k]).id
                == old.lab_graph.nodes@[k].id,
        new.lab_graph.nodes@.len() > 0 ==> new.lab_graph.selected_node_id is Some,
        new.lab_graph.selected_node_id matches Some(id) ==> exists|k: int|
            0 <= k < new.lab_graph.nodes@.len() && new.lab_graph.nodes@[k].id == id,
{
    let init = sync_start(old);
    let order = creation_order(old.versions@);
    lemma_fold_keeps_nodes(init, old.versions@, order, order.len() as int, fresh);
    lemma_walk_complete(old, fresh);
    let st = sync_walk(old, fresh);
    lemma_sync_selection_known(old.lab_graph.selected_node_id, st, old.versions@, selected_version);
    assert(node_views(new.lab_graph.nodes@) == st.0);
    assert forall|k: int| 0 <= k < old.lab_graph.nodes@.len() implies (#[trigger] new.lab_graph.nodes@[k]).id
        == old.lab_graph.nodes@[k].id by {
        assert(node_views(new.lab_graph.nodes@)[k].0 == new.lab_graph.nodes@[k].id);
        assert(init.0[k].0 == old.lab_graph.nodes@[k].id);
    }
    if new.lab_graph.selected_node_id is Some {
        let x = new.lab_graph.selected_node_id->0;
        if st.2.contains(x) {
            let k = choose|k: int| 0 <= k < st.0.len() && st.0[k].0 == x;
            assert(node_views(new.lab_graph.nodes@)[k].0 == new.lab_graph.nodes@[k].id);
        } else {
            assert(node_views(new.lab_graph.nodes@)[0].0 == new.lab_graph.nodes@[0].id);
        }
    }
}

} // verus!
