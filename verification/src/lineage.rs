//! Ancestry in the asset lab graph: which earlier generation a node
//! continues, and where each node is drawn.

use vstd::prelude::*;
use crate::lab_model::{
    AssetLabNode, GenerationRecord, GenerativeConfig, node_parent, has_node, node_has_record,
};
use crate::counting::lemma_injective_range_bound;

verus! {

/// The nearest proper ancestor of `current` that produced a version,
/// following parents for at most `fuel` steps and giving up at a node that
/// was already seen or that does not exist.
pub open spec fn completed_parent_walk(
    nodes: Seq<AssetLabNode>,
    versions: Seq<GenerationRecord>,
    current: u128,
    seen: Set<u128>,
    fuel: nat,
) -> Option<u128>
    decreases fuel,
{
    if fuel == 0 {
        None
    } else {
        match node_parent(nodes, current) {
            None => None,
            Some(p) => if seen.contains(p) {
                None
            } else if node_has_record(versions, p) {
                Some(p)
            } else {
                completed_parent_walk(nodes, versions, p, seen.insert(p), (fuel - 1) as nat)
            },
        }
    }
}

/// The nearest ancestor of lab node `id` that produced a version, if the
/// ancestry reaches one before it ends or loops.
pub open spec fn completed_parent_of(config: GenerativeConfig, id: u128) -> Option<u128> {
    completed_parent_walk(
        config.lab_graph.nodes@,
        config.versions@,
        id,
        set![id],
        (config.lab_graph.nodes@.len() + 1) as nat,
    )
}

/// The parent of the first node with identifier `id`, and whether such a node exists.
fn find_node_parent(nodes: &Vec<AssetLabNode>, id: u128) -> (r: (bool, Option<u128>))
    ensures
        r.0 == has_node(nodes@, id),
        r.1 == node_parent(nodes@, id),
{
    let mut i: usize = 0;
    assert(nodes@.skip(0) =~= nodes@);
    while i < nodes.len()
        invariant
            i <= nodes.len(),
            node_parent(nodes@, id) == node_parent(nodes@.skip(i as int), id),
            forall|j: int| 0 <= j < i ==> nodes@[j].id != id,
        decreases nodes.len() - i,
    {
        assert(nodes@.skip(i as int).drop_first() =~= nodes@.skip(i + 1));
        if nodes[i].id == id {
            return (true, nodes[i].parent_node_id);
        }
        i = i + 1;
    }
    (false, None)
}

/// Whether some version was produced by lab node `id`.
fn has_version_for_node(versions: &Vec<GenerationRecord>, id: u128) -> (r: bool)
    ensures
        r == node_has_record(versions@, id),
{
    let mut i: usize = 0;
    while i < versions.len()
        invariant
            i <= versions.len(),
            forall|j: int| 0 <= j < i ==> versions@[j].lab_node_id != Some(id),
        decreases versions.len() - i,
    {
        match versions[i].lab_node_id {
            Some(n) => {
                if n == id {
                    return true;
                }
            },
            None => {},
        }
        i = i + 1;
    }
    false
}

/// Whether `v` holds `x`.
pub(crate) fn contains_id(v: &Vec<u128>, x: u128) -> (r: bool)
    ensures
        r == v@.contains(x),
{
    let mut i: usize = 0;
    while i < v.len()
        invariant
            i <= v.len(),
            forall|j: int| 0 <= j < i ==> v@[j] != x,
        decreases v.len() - i,
    {
        if v[i] == x {
            assert(v@[i as int] == x);
            return true;
        }
        i = i + 1;
    }
    false
}

/// The nearest ancestor of lab node `id` that produced a version: the walk
/// follows parents, stops with nothing at a missing node, a root, or a node
/// seen before (a malformed cycle), and stops with the first ancestor that
/// some version names as its node.
pub fn completed_parent(config: &GenerativeConfig, id: u128) -> (r: Option<u128>)
    ensures
        r == completed_parent_of(*config, id),
{
    let nodes = &config.lab_graph.nodes;
    let versions = &config.versions;
    let mut seen: Vec<u128> = Vec::new();
    seen.push(id);
    let mut current = id;
    let ghost mut fuel: nat = (nodes@.len() + 1) as nat;
    assert(seen@.to_set() =~= set![id]) by {
        assert forall|x: u128| seen@.to_set().contains(x) <==> x == id by {
            if x == id {
                assert(seen@[0] == id);
            }
        }
    }
    loop
        invariant
            nodes == &config.lab_graph.nodes,
            versions == &config.versions,
            seen@.len() >= 1,
            current == seen@.last(),
            fuel == nodes@.len() + 2 - seen@.len(),
            forall|i: int, j: int| 0 <= i < j < seen@.len() ==> seen@[i] != seen@[j],
            forall|i: int| 0 <= i < seen@.len() - 1 ==> has_node(nodes@, #[trigger] seen@[i]),
            completed_parent_walk(nodes@, versions@, current, seen@.to_set(), fuel)
                == completed_parent_of(*config, id),
        decreases fuel,
    {
        proof {
            let ids = nodes@.map_values(|n: AssetLabNode| n.id);
            let k = seen@.len() - 1;
            let f = |i: int| seen@[i];
            assert forall|i: int, j: int|
                #![trigger f(i), f(j)]
                0 <= i < k && 0 <= j < k && f(i) == f(j) implies i == j by {
                if i < j {
                    assert(seen@[i] != seen@[j]);
                } else if j < i {
                    assert(seen@[j] != seen@[i]);
                }
            }
            assert forall|j: int| 0 <= j < k implies ids.contains(#[trigger] f(j)) by {
                assert(has_node(nodes@, seen@[j]));
                let m = choose|m: int| 0 <= m < nodes@.len() && #[trigger] nodes@[m].id == seen@[j];
                assert(ids[m] == seen@[j]);
            }
            lemma_injective_range_bound(0, k, f, ids);
        }
        let (found, parent) = find_node_parent(nodes, current);
        let p = match parent {
            None => {
                return None;
            },
            Some(p) => p,
        };
        if contains_id(&seen, p) {
            return None;
        }
        if has_version_for_node(versions, p) {
            return Some(p);
        }
        proof {
            assert forall|x: u128| seen@.push(p).contains(x) <==> (seen@.contains(x) || x == p) by {
                if seen@.contains(x) {
                    let i = choose|i: int| 0 <= i < seen@.len() && seen@[i] == x;
                    assert(seen@.push(p)[i] == x);
                }
                if x == p {
                    assert(seen@.push(p)[seen@.len() as int] == x);
                }
                if seen@.push(p).contains(x) {
                    let i = choose|i: int| 0 <= i < seen@.push(p).len() && seen@.push(p)[i] == x;
                    if i < seen@.len() {
                        assert(seen@[i] == x);
                    }
                }
            }
            assert(seen@.push(p).to_set() =~= seen@.to_set().insert(p));
            if !has_node(nodes@, current) {
                lemma_node_parent_exists(nodes@, current);
            }
        }
        seen.push(p);
        current = p;
        proof {
            fuel = (fuel - 1) as nat;
        }
    }
}

proof fn lemma_node_parent_exists(nodes: Seq<AssetLabNode>, id: u128)
    requires
        node_parent(nodes, id) is Some,
    ensures
        has_node(nodes, id),
    decreases nodes.len(),
{
    if nodes[0].id == id {
        assert(nodes[0].id == id);
    } else {
        lemma_node_parent_exists(nodes.drop_first(), id);
        let i = choose|i: int| 0 <= i < nodes.drop_first().len() && #[trigger] nodes.drop_first()[i].id == id;
        assert(nodes[i + 1].id == id);
    }
}

} // verus!
