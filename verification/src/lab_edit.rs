//! Edits of the asset lab graph: adding a step, changing a step's input,
//! and removing a step while keeping its outputs.

use vstd::prelude::*;
use crate::lab_model::{AssetLabNode, GenerationRecord, GenerativeConfig, InputValue, has_node};
use crate::model::{Asset, ProviderEntry, kind_media};
use crate::lab::{provider_with, asset_lab_provider_is_compatible};
use crate::uuid_text::random_id;

verus! {

/// A node whose parent was the removed step `removed` hangs from that step's
/// parent instead.
pub open spec fn reparented(n: AssetLabNode, removed: u128, parent: Option<u128>) -> AssetLabNode {
    if n.parent_node_id == Some(removed) {
        AssetLabNode { parent_node_id: parent, ..n }
    } else {
        n
    }
}

/// A record produced by the removed step `removed` is credited to that
/// step's parent instead.
pub open spec fn relinked(r: GenerationRecord, removed: u128, parent: Option<u128>) -> GenerationRecord {
    if r.lab_node_id == Some(removed) {
        GenerationRecord { lab_node_id: parent, ..r }
    } else {
        r
    }
}

/// The nodes left after removing every node with identifier `removed`,
/// reparented.
pub open spec fn nodes_without(nodes: Seq<AssetLabNode>, removed: u128, parent: Option<u128>) -> Seq<
    AssetLabNode,
>
    decreases nodes.len(),
{
    if nodes.len() == 0 {
        Seq::empty()
    } else {
        let rest = nodes_without(nodes.drop_last(), removed, parent);
        if nodes.last().id == removed {
            rest
        } else {
            rest.push(reparented(nodes.last(), removed, parent))
        }
    }
}

/// The first root among `nodes`, else the first node.
pub open spec fn fallback_selection(nodes: Seq<AssetLabNode>) -> Option<u128> {
    if exists|i: int| 0 <= i < nodes.len() && nodes[i].parent_node_id is None {
        let i = choose|i: int|
            0 <= i < nodes.len() && nodes[i].parent_node_id is None && forall|j: int|
                0 <= j < i ==> nodes[j].parent_node_id is Some;
        Some(nodes[i].id)
    } else if nodes.len() > 0 {
        Some(nodes[0].id)
    } else {
        None
    }
}

/// The parent of the first node with identifier `id`.
pub open spec fn first_parent(nodes: Seq<AssetLabNode>, id: u128) -> Option<u128>
    decreases nodes.len(),
{
    if nodes.len() == 0 {
        None
    } else if nodes[0].id == id {
        nodes[0].parent_node_id
    } else {
        first_parent(nodes.drop_first(), id)
    }
}

/// The configuration after removing step `removed`, whose parent is `parent`.
pub open spec fn step_removed(old: GenerativeConfig, new: GenerativeConfig, removed: u128, parent: Option<
    u128,
>) -> bool {
    let nodes = nodes_without(old.lab_graph.nodes@, removed, parent);
    &&& new.lab_graph.nodes@ == nodes
    &&& new.versions@ == old.versions@.map_values(|r: GenerationRecord| relinked(r, removed, parent))
    &&& new.lab_graph.selected_node_id == if old.lab_graph.selected_node_id == Some(removed) {
        fallback_selection(nodes)
    } else {
        old.lab_graph.selected_node_id
    }
    &&& new.provider_id == old.provider_id
    &&& new.active_version == old.active_version
    &&& new.inputs == old.inputs
    &&& new.reference_slots == old.reference_slots
}

/// The parent of the first node with identifier `id`, if there is one.
fn find_parent(nodes: &Vec<AssetLabNode>, id: u128) -> (r: Option<Option<u128>>)
    ensures
        match r {
            Some(p) => has_node(nodes@, id) && p == first_parent(nodes@, id),
            None => !has_node(nodes@, id),
        },
{
    let mut i: usize = 0;
    assert(nodes@.skip(0) =~= nodes@);
    while i < nodes.len()
        invariant
            i <= nodes.len(),
            first_parent(nodes@, id) == first_parent(nodes@.skip(i as int), id),
            forall|j: int| 0 <= j < i ==> nodes@[j].id != id,
        decreases nodes.len() - i,
    {
        assert(nodes@.skip(i as int).drop_first() =~= nodes@.skip(i + 1));
        if nodes[i].id == id {
            assert(nodes@[i as int].id == id);
            return Some(nodes[i].parent_node_id);
        }
        i = i + 1;
    }
    None
}

/// The first root of `nodes`, else the first node.
fn fallback_selection_exec(nodes: &Vec<AssetLabNode>) -> (r: Option<u128>)
    ensures
        r == fallback_selection(nodes@),
{
    let mut i: usize = 0;
    while i < nodes.len()
        invariant
            i <= nodes.len(),
            forall|j: int| 0 <= j < i ==> nodes@[j].parent_node_id is Some,
        decreases nodes.len() - i,
    {
        if nodes[i].parent_node_id.is_none() {
            proof {
                let k = choose|k: int|
                    0 <= k < nodes@.len() && nodes@[k].parent_node_id is None && forall|j: int|
                        0 <= j < k ==> nodes@[j].parent_node_id is Some;
                if k < i {
                } else if k > i {
                    assert(nodes@[i as int].parent_node_id is None);
                }
            }
            return Some(nodes[i].id);
        }
        i = i + 1;
    }
    if nodes.len() > 0 {
        Some(nodes[0].id)
    } else {
        None
    }
}

/// Removes step `node_id` from the lab graph, keeping its outputs: its
/// children hang from its parent, the records it produced are credited to
/// its parent, and if it was selected the first root (else the first step)
/// is selected. An error, with nothing changed, when no step has that
/// identifier.
pub fn delete_asset_lab_node(config: &mut GenerativeConfig, node_id: u128) -> (r: Result<(), String>)
    ensures
        r is Ok <==> has_node(old(config).lab_graph.nodes@, node_id),
        r is Ok ==> step_removed(
            *old(config),
            *final(config),
            node_id,
            first_parent(old(config).lab_graph.nodes@, node_id),
        ),
        r is Err ==> *final(config) == *old(config) && r->Err_0@ == "Asset Lab node not found."@,
{
    let parent = match find_parent(&config.lab_graph.nodes, node_id) {
        Some(p) => p,
        None => {
            return Err(String::from_str("Asset Lab node not found."));
        },
    };
    let ghost before = *config;
    let mut old_nodes: Vec<AssetLabNode> = Vec::new();
    std::mem::swap(&mut old_nodes, &mut config.lab_graph.nodes);
    let ghost orig_nodes = old_nodes@;
    let mut kept: Vec<AssetLabNode> = Vec::new();
    let mut k: usize = 0;
    let n = old_nodes.len();
    while old_nodes.len() > 0
        invariant
            k + old_nodes@.len() == n,
            n == orig_nodes.len(),
            old_nodes@ == orig_nodes.skip(k as int),
            kept@ == nodes_without(orig_nodes.take(k as int), node_id, parent),
        decreases old_nodes.len(),
    {
        let mut node = old_nodes.remove(0);
        proof {
            assert(orig_nodes.take(k + 1).drop_last() =~= orig_nodes.take(k as int));
            assert(orig_nodes.take(k + 1).last() == orig_nodes[k as int]);
            assert(orig_nodes.skip(k + 1) =~= orig_nodes.skip(k as int).drop_first());
        }
        if node.id != node_id {
            if node.parent_node_id == Some(node_id) {
                node.parent_node_id = parent;
            }
            kept.push(node);
        }
        k = k + 1;
    }
    assert(orig_nodes.take(n as int) =~= orig_nodes);
    let mut old_versions: Vec<GenerationRecord> = Vec::new();
    std::mem::swap(&mut old_versions, &mut config.versions);
    let ghost orig_versions = old_versions@;
    let mut records: Vec<GenerationRecord> = Vec::new();
    let m = old_versions.len();
    let mut t: usize = 0;
    while old_versions.len() > 0
        invariant
            t + old_versions@.len() == m,
            m == orig_versions.len(),
            old_versions@ == orig_versions.skip(t as int),
            records@ == orig_versions.take(t as int).map_values(
                |r: GenerationRecord| relinked(r, node_id, parent),
            ),
        decreases old_versions.len(),
    {
        let mut record = old_versions.remove(0);
        proof {
            assert(orig_versions.skip(t + 1) =~= orig_versions.skip(t as int).drop_first());
        }
        if record.lab_node_id == Some(node_id) {
            record.lab_node_id = parent;
        }
        records.push(record);
        assert(records@ =~= orig_versions.take(t + 1).map_values(
            |r: GenerationRecord| relinked(r, node_id, parent),
        ));
        t = t + 1;
    }
    assert(orig_versions.take(m as int) =~= orig_versions);
    config.versions = records;
    if config.lab_graph.selected_node_id == Some(node_id) {
        config.lab_graph.selected_node_id = fallback_selection_exec(&kept);
    }
    config.lab_graph.nodes = kept;
    Ok(())
}

proof fn lemma_nodes_without(nodes: Seq<AssetLabNode>, removed: u128, parent: Option<u128>)
    requires
        parent != Some(removed),
    ensures
        forall|k: int|
            0 <= k < nodes_without(nodes, removed, parent).len() ==> (#[trigger] nodes_without(
                nodes,
                removed,
                parent,
            )[k]).id != removed && nodes_without(nodes, removed, parent)[k].parent_node_id != Some(
                removed,
            ),
    decreases nodes.len(),
{
    if nodes.len() > 0 {
        lemma_nodes_without(nodes.drop_last(), removed, parent);
    }
}

/// Removing a lab step keeps every output: the same versions remain, in the
/// same order, none credited to the removed step; and no remaining step is
/// the removed one or hangs from it (when the graph has no self-parented
/// step of that identifier).
pub proof fn law_deleting_a_step_keeps_outputs(
    old: GenerativeConfig,
    new: GenerativeConfig,
    removed: u128,
    parent: Option<u128>,
)
    requires
        step_removed(old, new, removed, parent),
        parent != Some(removed),
    ensures
        crate::lab_model::version_names(new.versions@) == crate::lab_model::version_names(
            old.versions@,
        ),
        forall|i: int| 0 <= i < new.versions@.len() ==> (#[trigger] new.versions@[i]).lab_node_id != Some(removed),
        forall|k: int|
            0 <= k < new.lab_graph.nodes@.len() ==> (#[trigger] new.lab_graph.nodes@[k]).id != removed
                && new.lab_graph.nodes@[k].parent_node_id != Some(removed),
{
    assert(crate::lab_model::version_names(new.versions@) =~= crate::lab_model::version_names(
        old.versions@,
    ));
    lemma_nodes_without(old.lab_graph.nodes@, removed, parent);
}

/// The first provider with identifier `id`, by position.
fn provider_position(providers: &Vec<ProviderEntry>, id: u128) -> (r: Option<usize>)
    ensures
        match r {
            Some(i) => i < providers@.len() && provider_with(providers@, id) == Some(providers@[i as int]),
            None => provider_with(providers@, id) is None,
        },
{
    let mut i: usize = 0;
    assert(providers@.skip(0) =~= providers@);
    while i < providers.len()
        invariant
            i <= providers.len(),
            provider_with(providers@, id) == provider_with(providers@.skip(i as int), id),
        decreases providers.len() - i,
    {
        assert(providers@.skip(i as int).drop_first() =~= providers@.skip(i + 1));
        if providers[i].id == id {
            return Some(i);
        }
        i = i + 1;
    }
    None
}

/// Why a provider cannot be given to a new step, if it cannot: it must
/// exist and produce the asset's media.
pub open spec fn step_provider_problem(asset: Asset, providers: Seq<ProviderEntry>, provider_id: Option<
    u128,
>) -> Option<Seq<char>> {
    match provider_id {
        Some(id) => match provider_with(providers, id) {
            None => Some("Provider is unavailable."@),
            Some(p) => if kind_media(asset.kind) != p.output_type {
                Some("Provider output type does not match this asset."@)
            } else {
                None
            },
        },
        None => None,
    }
}

/// Adds an empty step with identifier `node_id` and the given provider (if
/// any) to the lab graph and selects it; an error, with nothing changed,
/// when the provider does not exist or does not produce the asset's media.
pub fn add_asset_lab_node_with_id(
    config: &mut GenerativeConfig,
    asset: &Asset,
    providers: &Vec<ProviderEntry>,
    provider_id: Option<u128>,
    node_id: u128,
) -> (r: Result<(), String>)
    ensures
        match step_provider_problem(*asset, providers@, provider_id) {
            Some(m) => r matches Err(e) && e@ == m && *final(config) == *old(config),
            None => {
                &&& r is Ok
                &&& final(config).lab_graph.nodes@.len() == old(config).lab_graph.nodes@.len() + 1
                &&& final(config).lab_graph.nodes@.drop_last() == old(config).lab_graph.nodes@
                &&& final(config).lab_graph.nodes@.last().id == node_id
                &&& final(config).lab_graph.nodes@.last().parent_node_id is None
                &&& final(config).lab_graph.nodes@.last().provider_id == provider_id
                &&& final(config).lab_graph.nodes@.last().inputs@.len() == 0
                &&& final(config).lab_graph.nodes@.last().output_version is None
                &&& final(config).lab_graph.selected_node_id == Some(node_id)
                &&& final(config).versions == old(config).versions
                &&& final(config).inputs == old(config).inputs
                &&& final(config).reference_slots == old(config).reference_slots
                &&& final(config).provider_id == old(config).provider_id
                &&& final(config).active_version == old(config).active_version
            },
        },
{
    match provider_id {
        Some(id) => match provider_position(providers, id) {
            None => {
                return Err(String::from_str("Provider is unavailable."));
            },
            Some(i) => {
                if !asset_lab_provider_is_compatible(asset, &providers[i]) {
                    return Err(String::from_str("Provider output type does not match this asset."));
                }
            },
        },
        None => {},
    }
    let ghost before = config.lab_graph.nodes@;
    config.lab_graph.selected_node_id = Some(node_id);
    config.lab_graph.nodes.push(
        AssetLabNode {
            id: node_id,
            parent_node_id: None,
            provider_id,
            inputs: Vec::new(),
            output_version: None,
        },
    );
    assert(config.lab_graph.nodes@.drop_last() =~= before);
    Ok(())
}

/// Adds an empty step with a random identifier and the given provider (if
/// any) to the lab graph and selects it, returning its identifier; an
/// error, with nothing changed, when the provider does not exist or does not
/// produce the asset's media.
pub fn add_asset_lab_node(
    config: &mut GenerativeConfig,
    asset: &Asset,
    providers: &Vec<ProviderEntry>,
    provider_id: Option<u128>,
) -> (r: Result<u128, String>)
    ensures
        match step_provider_problem(*asset, providers@, provider_id) {
            Some(m) => r matches Err(e) && e@ == m && *final(config) == *old(config),
            None => r matches Ok(id) && {
                &&& final(config).lab_graph.nodes@.len() == old(config).lab_graph.nodes@.len() + 1
                &&& final(config).lab_graph.nodes@.drop_last() == old(config).lab_graph.nodes@
                &&& final(config).lab_graph.nodes@.last().id == id
                &&& final(config).lab_graph.nodes@.last().parent_node_id is None
                &&& final(config).lab_graph.nodes@.last().provider_id == provider_id
                &&& final(config).lab_graph.nodes@.last().inputs@.len() == 0
                &&& final(config).lab_graph.nodes@.last().output_version is None
                &&& final(config).lab_graph.selected_node_id == Some(id)
                &&& final(config).versions == old(config).versions
                &&& final(config).inputs == old(config).inputs
                &&& final(config).reference_slots == old(config).reference_slots
                &&& final(config).provider_id == old(config).provider_id
                &&& final(config).active_version == old(config).active_version
            },
        },
{
    let node_id = random_id();
    match add_asset_lab_node_with_id(config, asset, providers, provider_id, node_id) {
        Ok(()) => Ok(node_id),
        Err(e) => Err(e),
    }
}

/// Whether `s` has a binding named `name`.
pub open spec fn binding_index(s: Seq<(String, InputValue)>, name: Seq<char>) -> Option<int>
    decreases s.len(),
{
    if s.len() == 0 {
        None
    } else if s[0].0@ == name {
        Some(0)
    } else {
        match binding_index(s.drop_first(), name) {
            Some(i) => Some(i + 1),
            None => None,
        }
    }
}

/// The position of the first binding named `name`.
fn find_binding_index(s: &Vec<(String, InputValue)>, name: &String) -> (r: Option<usize>)
    ensures
        match r {
            Some(i) => binding_index(s@, name@) == Some(i as int) && i < s@.len(),
            None => binding_index(s@, name@) is None,
        },
{
    let mut i: usize = 0;
    assert(s@.skip(0) =~= s@);
    while i < s.len()
        invariant
            i <= s.len(),
            match binding_index(s@, name@) {
                Some(p) => match binding_index(s@.skip(i as int), name@) {
                    Some(q) => p == q + i,
                    None => false,
                },
                None => binding_index(s@.skip(i as int), name@) is None,
            },
        decreases s.len() - i,
    {
        assert(s@.skip(i as int).drop_first() =~= s@.skip(i + 1));
        if s[i].0 == *name {
            return Some(i);
        }
        i = i + 1;
    }
    None
}

/// The bindings after setting input `name` to `value` (the binding of that
/// name is replaced, or the binding is added) or, without a value, after
/// removing the binding of that name.
pub open spec fn bindings_set(s: Seq<(String, InputValue)>, name: Seq<char>, value: Option<
    InputValue,
>, new_entry: (String, InputValue)) -> Seq<(String, InputValue)> {
    match (binding_index(s, name), value) {
        (Some(i), Some(_)) => s.update(i, new_entry),
        (None, Some(_)) => s.push(new_entry),
        (Some(i), None) => s.remove(i),
        (None, None) => s,
    }
}

/// Sets (or, without a value, removes) input `input_name` of lab step
/// `node_id` and selects the step; nothing happens when no step has that
/// identifier.
pub fn update_asset_lab_node_input(
    config: &mut GenerativeConfig,
    node_id: u128,
    input_name: String,
    value: Option<InputValue>,
)
    ensures
        match crate::lab::node_position(old(config).lab_graph.nodes@, node_id) {
            None => *final(config) == *old(config),
            Some(k) => {
                let o = old(config).lab_graph.nodes@[k];
                let n = final(config).lab_graph.nodes@[k];
                &&& final(config).lab_graph.nodes@.len() == old(config).lab_graph.nodes@.len()
                &&& forall|j: int|
                    0 <= j < old(config).lab_graph.nodes@.len() && j != k ==> #[trigger] final(config).lab_graph.nodes@[j]
                        == old(config).lab_graph.nodes@[j]
                &&& n.id == o.id && n.parent_node_id == o.parent_node_id
                &&& n.provider_id == o.provider_id && n.output_version == o.output_version
                &&& n.inputs@ == bindings_set(
                    o.inputs@,
                    input_name@,
                    value,
                    (input_name, value.unwrap()),
                )
                &&& final(config).lab_graph.selected_node_id == Some(node_id)
                &&& final(config).versions == old(config).versions
                &&& final(config).inputs == old(config).inputs
                &&& final(config).reference_slots == old(config).reference_slots
                &&& final(config).provider_id == old(config).provider_id
                &&& final(config).active_version == old(config).active_version
            },
        },
{
    let k = match crate::lab::find_node_position(&config.lab_graph.nodes, node_id) {
        Some(k) => k,
        None => {
            return;
        },
    };
    let ghost before = config.lab_graph.nodes@;
    let mut nodes: Vec<AssetLabNode> = Vec::new();
    std::mem::swap(&mut nodes, &mut config.lab_graph.nodes);
    let mut node = nodes.remove(k);
    let ghost old_inputs = node.inputs@;
    let ghost entry = (input_name, value.unwrap());
    let position = find_binding_index(&node.inputs, &input_name);
    match value {
        Some(v) => match position {
            Some(i) => {
                node.inputs.set(i, (input_name, v));
            },
            None => {
                node.inputs.push((input_name, v));
            },
        },
        None => match position {
            Some(i) => {
                node.inputs.remove(i);
            },
            None => {},
        },
    }
    assert(node.inputs@ =~= bindings_set(old_inputs, entry.0@, value, entry));
    nodes.insert(k, node);
    config.lab_graph.nodes = nodes;
    config.lab_graph.selected_node_id = Some(node_id);
    assert(config.lab_graph.nodes@ =~= before.update(k as int, config.lab_graph.nodes@[k as int]));
}

} // verus!
