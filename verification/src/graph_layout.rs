//! Where the nodes of the asset lab graph are drawn: a depth-first walk from
//! the roots that gives each node a lane (column) and a depth (row).

use vstd::prelude::*;
use crate::lab_model::{AssetLabNode, GenerativeConfig, has_node};
use crate::lineage::contains_id;
use crate::counting::lemma_injective_range_bound;

verus! {

/// Where one node is drawn.
#[derive(Clone, Copy, Debug, PartialEq, Eq, Structural)]
pub struct AssetLabGraphLayoutEntry {
    pub node_id: u128,
    pub lane: usize,
    pub depth: usize,
}

/// Where the placeholder for a step being drafted is drawn.
#[derive(Clone, Copy, Debug, PartialEq, Eq, Structural)]
pub struct AssetLabGhostLayoutEntry {
    pub parent_node_id: u128,
    pub lane: usize,
    pub depth: usize,
}

/// The drawing positions of a graph.
#[derive(Clone, Debug)]
pub struct AssetLabGraphLayout {
    pub nodes: Vec<AssetLabGraphLayoutEntry>,
    pub ghost_entry: Option<AssetLabGhostLayoutEntry>,
}

/// The identifiers of the nodes whose parent is `parent`, in node order
/// (`None` gives the roots).
pub open spec fn child_ids(nodes: Seq<AssetLabNode>, parent: Option<u128>) -> Seq<u128>
    decreases nodes.len(),
{
    if nodes.len() == 0 {
        Seq::empty()
    } else {
        let rest = child_ids(nodes.drop_last(), parent);
        if nodes.last().parent_node_id == parent {
            rest.push(nodes.last().id)
        } else {
            rest
        }
    }
}

/// The state of the walk: the entries placed so far, the ghost placeholder,
/// the next free lane, and the nodes visited so far.
pub type WalkState = (Seq<AssetLabGraphLayoutEntry>, Option<AssetLabGhostLayoutEntry>, int, Seq<u128>);

/// The walk from node `id` at `depth` in `lane`: a node seen before is
/// skipped; otherwise it is placed and its children are walked, the first
/// child in the same lane and each later one in a fresh lane. When `id` is
/// the draft source, a placeholder child follows the real children. `fuel`
/// bounds the depth of the walk.
pub open spec fn walk_node(
    nodes: Seq<AssetLabNode>,
    draft: Option<u128>,
    fuel: nat,
    id: u128,
    depth: int,
    lane: int,
    st: WalkState,
) -> WalkState
    decreases fuel * 2, 0int,
{
    if fuel == 0 || st.3.contains(id) {
        st
    } else {
        let entry = AssetLabGraphLayoutEntry { node_id: id, lane: lane as usize, depth: depth as usize };
        let placed = (st.0.push(entry), st.1, st.2, st.3.push(id));
        walk_children(
            nodes,
            draft,
            (fuel - 1) as nat,
            id,
            depth,
            lane,
            child_ids(nodes, Some(id)),
            draft == Some(id),
            0,
            placed,
        )
    }
}

/// The number of child slots of a node: its children, and the placeholder.
pub open spec fn slot_count(kids: Seq<u128>, with_ghost: bool) -> int {
    kids.len() + if with_ghost {
        1int
    } else {
        0int
    }
}

/// The walk over the child slots of `parent` from slot `index` on.
pub open spec fn walk_children(
    nodes: Seq<AssetLabNode>,
    draft: Option<u128>,
    fuel: nat,
    parent: u128,
    depth: int,
    lane: int,
    kids: Seq<u128>,
    with_ghost: bool,
    index: int,
    st: WalkState,
) -> WalkState
    decreases fuel * 2 + 1, slot_count(kids, with_ghost) - index,
{
    if index < 0 || index >= slot_count(kids, with_ghost) {
        st
    } else {
        let child_lane = if index == 0 {
            lane
        } else {
            st.2
        };
        let st2 = if index == 0 {
            st
        } else {
            (st.0, st.1, st.2 + 1, st.3)
        };
        if with_ghost && index == kids.len() {
            let g = AssetLabGhostLayoutEntry {
                parent_node_id: parent,
                lane: child_lane as usize,
                depth: (depth + 1) as usize,
            };
            walk_children(
                nodes,
                draft,
                fuel,
                parent,
                depth,
                lane,
                kids,
                with_ghost,
                index + 1,
                (st2.0, Some(g), st2.2, st2.3),
            )
        } else {
            let st3 = walk_node(nodes, draft, fuel, kids[index], depth + 1, child_lane, st2);
            walk_children(nodes, draft, fuel, parent, depth, lane, kids, with_ghost, index + 1, st3)
        }
    }
}

/// The walk over the roots from root `k` on: each root starts in a fresh lane.
pub open spec fn walk_roots(
    nodes: Seq<AssetLabNode>,
    draft: Option<u128>,
    roots: Seq<u128>,
    k: int,
    st: WalkState,
) -> WalkState
    decreases roots.len() - k,
{
    if k < 0 || k >= roots.len() {
        st
    } else {
        let lane = st.2;
        let st1 = (st.0, st.1, st.2 + 1, st.3);
        let fuel = if st1.3.len() <= nodes.len() {
            (nodes.len() + 1 - st1.3.len()) as nat
        } else {
            0nat
        };
        walk_roots(nodes, draft, roots, k + 1, walk_node(nodes, draft, fuel, roots[k], 0, lane, st1))
    }
}

/// The layout of a graph: the walk from each root in node order.
pub open spec fn graph_layout(nodes: Seq<AssetLabNode>, draft: Option<u128>) -> WalkState {
    walk_roots(nodes, draft, child_ids(nodes, None), 0, (Seq::empty(), None, 0, Seq::empty()))
}

/// Whether no identifier occurs twice in `s`.
pub open spec fn distinct_ids(s: Seq<u128>) -> bool {
    forall|i: int, j: int| 0 <= i < j < s.len() ==> s[i] != s[j]
}

/// Whether every identifier in `s` is that of a node.
pub open spec fn all_node_ids(nodes: Seq<AssetLabNode>, s: Seq<u128>) -> bool {
    forall|k: int| 0 <= k < s.len() ==> has_node(nodes, #[trigger] s[k])
}

/// The number of nodes whose parent is in `visited`.
pub open spec fn parented_count(nodes: Seq<AssetLabNode>, visited: Seq<u128>) -> nat
    decreases nodes.len(),
{
    if nodes.len() == 0 {
        0
    } else {
        parented_count(nodes.drop_last(), visited) + match nodes.last().parent_node_id {
            Some(p) => if visited.contains(p) {
                1nat
            } else {
                0nat
            },
            None => 0nat,
        }
    }
}

/// The child slots that the visited nodes own: their children, and the
/// placeholder when the draft source is among them.
pub open spec fn slot_budget(nodes: Seq<AssetLabNode>, draft: Option<u128>, visited: Seq<u128>) -> int {
    parented_count(nodes, visited) + match draft {
        Some(d) => if visited.contains(d) {
            1int
        } else {
            0int
        },
        None => 0int,
    }
}

proof fn lemma_parented_count_bound(nodes: Seq<AssetLabNode>, visited: Seq<u128>)
    ensures
        parented_count(nodes, visited) <= nodes.len(),
    decreases nodes.len(),
{
    if nodes.len() > 0 {
        lemma_parented_count_bound(nodes.drop_last(), visited);
    }
}

proof fn lemma_parented_count_push(nodes: Seq<AssetLabNode>, visited: Seq<u128>, q: u128)
    requires
        !visited.contains(q),
    ensures
        parented_count(nodes, visited.push(q)) == parented_count(nodes, visited) + child_ids(
            nodes,
            Some(q),
        ).len(),
    decreases nodes.len(),
{
    if nodes.len() > 0 {
        lemma_parented_count_push(nodes.drop_last(), visited, q);
        match nodes.last().parent_node_id {
            Some(p) => {
                assert(visited.push(q).contains(p) <==> (visited.contains(p) || p == q)) by {
                    if visited.push(q).contains(p) {
                        let i = choose|i: int| 0 <= i < visited.push(q).len() && visited.push(q)[i] == p;
                        if i < visited.len() {
                            assert(visited[i] == p);
                        }
                    }
                    if visited.contains(p) {
                        let i = choose|i: int| 0 <= i < visited.len() && visited[i] == p;
                        assert(visited.push(q)[i] == p);
                    }
                    if p == q {
                        assert(visited.push(q)[visited.len() as int] == q);
                    }
                }
            },
            None => {},
        }
    }
}

proof fn lemma_slot_budget_push(
    nodes: Seq<AssetLabNode>,
    draft: Option<u128>,
    visited: Seq<u128>,
    q: u128,
)
    requires
        !visited.contains(q),
    ensures
        slot_budget(nodes, draft, visited.push(q)) == slot_budget(nodes, draft, visited)
            + slot_count(child_ids(nodes, Some(q)), draft == Some(q)),
{
    lemma_parented_count_push(nodes, visited, q);
    match draft {
        Some(d) => {
            assert(visited.push(q).contains(d) <==> (visited.contains(d) || d == q)) by {
                if visited.push(q).contains(d) {
                    let i = choose|i: int| 0 <= i < visited.push(q).len() && visited.push(q)[i] == d;
                    if i < visited.len() {
                        assert(visited[i] == d);
                    }
                }
                if visited.contains(d) {
                    let i = choose|i: int| 0 <= i < visited.len() && visited[i] == d;
                    assert(visited.push(q)[i] == d);
                }
                if d == q {
                    assert(visited.push(q)[visited.len() as int] == q);
                }
            }
        },
        None => {},
    }
}

proof fn lemma_slot_budget_bound(nodes: Seq<AssetLabNode>, draft: Option<u128>, visited: Seq<u128>)
    ensures
        0 <= slot_budget(nodes, draft, visited) <= nodes.len() + 1,
{
    lemma_parented_count_bound(nodes, visited);
}

proof fn lemma_child_ids_are_nodes(nodes: Seq<AssetLabNode>, parent: Option<u128>)
    ensures
        all_node_ids(nodes, child_ids(nodes, parent)),
        child_ids(nodes, parent).len() <= nodes.len(),
    decreases nodes.len(),
{
    if nodes.len() > 0 {
        let init = nodes.drop_last();
        lemma_child_ids_are_nodes(init, parent);
        let c = child_ids(nodes, parent);
        assert forall|k: int| 0 <= k < c.len() implies has_node(nodes, #[trigger] c[k]) by {
            if k < child_ids(init, parent).len() {
                let i = choose|i: int| 0 <= i < init.len() && #[trigger] init[i].id == c[k];
                assert(nodes[i].id == c[k]);
            } else {
                assert(nodes[nodes.len() - 1].id == c[k]);
            }
        }
    }
}

/// Distinct node identifiers are no more than the nodes.
proof fn lemma_visited_bound(nodes: Seq<AssetLabNode>, visited: Seq<u128>)
    requires
        distinct_ids(visited),
        all_node_ids(nodes, visited),
    ensures
        visited.len() <= nodes.len(),
{
    let ids = nodes.map_values(|n: AssetLabNode| n.id);
    let f = |i: int| visited[i];
    assert forall|j: int| 0 <= j < visited.len() implies ids.contains(#[trigger] f(j)) by {
        assert(has_node(nodes, visited[j]));
        let i = choose|i: int| 0 <= i < nodes.len() && #[trigger] nodes[i].id == visited[j];
        assert(ids[i] == visited[j]);
    }
    assert forall|i: int, j: int|
        #![trigger f(i), f(j)]
        0 <= i < visited.len() && 0 <= j < visited.len() && f(i) == f(j) implies i == j by {
        if i < j {
            assert(visited[i] != visited[j]);
        } else if j < i {
            assert(visited[j] != visited[i]);
        }
    }
    lemma_injective_range_bound(0, visited.len() as int, f, ids);
}

/// The identifiers of the nodes whose parent is `parent`, in node order.
fn child_ids_exec(nodes: &Vec<AssetLabNode>, parent: Option<u128>) -> (r: Vec<u128>)
    ensures
        r@ == child_ids(nodes@, parent),
{
    let mut r: Vec<u128> = Vec::new();
    let n = nodes.len();
    for i in 0..n
        invariant
            n == nodes@.len(),
            r@ == child_ids(nodes@.take(i as int), parent),
    {
        assert(nodes@.take(i + 1).drop_last() =~= nodes@.take(i as int));
        if nodes[i].parent_node_id == parent {
            r.push(nodes[i].id);
        }
    }
    assert(nodes@.take(n as int) =~= nodes@);
    r
}

/// The entries' node identifiers, in order.
pub open spec fn entry_ids(entries: Seq<AssetLabGraphLayoutEntry>) -> Seq<u128> {
    entries.map_values(|e: AssetLabGraphLayoutEntry| e.node_id)
}

/// Whether `a` begins with `b`.
pub open spec fn extends(a: Seq<u128>, b: Seq<u128>) -> bool {
    b.len() <= a.len() && a.take(b.len() as int) == b
}

/// The walk from node `id`; see `walk_node`.
fn walk(
    nodes: &Vec<AssetLabNode>,
    draft: Option<u128>,
    id: u128,
    depth: usize,
    lane: usize,
    layout: &mut AssetLabGraphLayout,
    next_lane: &mut usize,
    visited: &mut Vec<u128>,
    Ghost(fuel): Ghost<nat>,
)
    requires
        has_node(nodes@, id),
        distinct_ids(old(visited)@),
        all_node_ids(nodes@, old(visited)@),
        entry_ids(old(layout).nodes@) == old(visited)@,
        old(visited)@.len() + fuel >= nodes@.len() + 1,
        depth <= old(visited)@.len(),
        *old(next_lane) + nodes@.len() + 1 - slot_budget(nodes@, draft, old(visited)@) <= usize::MAX,
    ensures
        distinct_ids(final(visited)@),
        all_node_ids(nodes@, final(visited)@),
        entry_ids(final(layout).nodes@) == final(visited)@,
        extends(final(visited)@, old(visited)@),
        final(visited)@.contains(id),
        *final(next_lane) + slot_budget(nodes@, draft, old(visited)@) <= *old(next_lane)
            + slot_budget(nodes@, draft, final(visited)@),
        (final(layout).nodes@, final(layout).ghost_entry, *final(next_lane) as int, final(visited)@)
            == walk_node(
            nodes@,
            draft,
            fuel,
            id,
            depth as int,
            lane as int,
            (old(layout).nodes@, old(layout).ghost_entry, *old(next_lane) as int, old(visited)@),
        ),
    decreases fuel,
{
    proof {
        lemma_visited_bound(nodes@, visited@);
    }
    if contains_id(visited, id) {
        assert(visited@.take(visited@.len() as int) =~= visited@);
        return;
    }
    let ghost placed_at = visited@.len() as int;
    let ghost v0 = visited@;
    let ghost start = (layout.nodes@, layout.ghost_entry, *next_lane as int, visited@);
    layout.nodes.push(AssetLabGraphLayoutEntry { node_id: id, lane, depth });
    visited.push(id);
    let ghost v1 = visited@;
    proof {
        assert(distinct_ids(v1)) by {
            assert forall|i: int, j: int| 0 <= i < j < v1.len() implies v1[i] != v1[j] by {
                if j == v1.len() - 1 {
                    assert(v0[i] == v1[i]);
                    assert(v0.contains(v0[i]));
                } else {
                    assert(v0[i] == v1[i] && v0[j] == v1[j]);
                }
            }
        }
        assert(all_node_ids(nodes@, v1)) by {
            assert forall|k: int| 0 <= k < v1.len() implies has_node(nodes@, #[trigger] v1[k]) by {
                if k < v0.len() {
                    assert(v0[k] == v1[k]);
                }
            }
        }
        assert(entry_ids(layout.nodes@) =~= v1);
        lemma_visited_bound(nodes@, v1);
        lemma_slot_budget_push(nodes@, draft, v0, id);
        lemma_slot_budget_bound(nodes@, draft, v1);
        lemma_child_ids_are_nodes(nodes@, Some(id));
    }
    let kids = child_ids_exec(nodes, Some(id));
    let with_ghost = match draft {
        Some(d) => d == id,
        None => false,
    };
    let total: usize = if with_ghost {
        kids.len() + 1
    } else {
        kids.len()
    };
    let ghost placed = (layout.nodes@, layout.ghost_entry, *next_lane as int, visited@);
    let ghost next0 = *next_lane as int;
    let mut index: usize = 0;
    let node_count = nodes.len();
    assert(visited@.take(v1.len() as int) =~= v1);
    while index < total
        invariant
            total == slot_count(kids@, with_ghost),
            with_ghost == (draft == Some(id)),
            kids@ == child_ids(nodes@, Some(id)),
            all_node_ids(nodes@, kids@),
            kids@.len() <= nodes@.len(),
            index <= total,
            fuel >= 1,
            v0.len() + fuel >= nodes@.len() + 1,
            depth < v1.len(),
            v1.len() <= nodes@.len(),
            node_count == nodes@.len(),
            v1 == v0.push(id),
            !v0.contains(id),
            distinct_ids(visited@),
            all_node_ids(nodes@, visited@),
            entry_ids(layout.nodes@) == visited@,
            extends(visited@, v1),
            slot_budget(nodes@, draft, v1) == slot_budget(nodes@, draft, v0) + total,
            next0 + nodes@.len() + 1 - slot_budget(nodes@, draft, v0) <= usize::MAX,
            *next_lane + slot_budget(nodes@, draft, v1) <= next0 + slot_budget(
                nodes@,
                draft,
                visited@,
            ) + index,
            walk_children(
                nodes@,
                draft,
                (fuel - 1) as nat,
                id,
                depth as int,
                lane as int,
                kids@,
                with_ghost,
                index as int,
                (layout.nodes@, layout.ghost_entry, *next_lane as int, visited@),
            ) == walk_children(
                nodes@,
                draft,
                (fuel - 1) as nat,
                id,
                depth as int,
                lane as int,
                kids@,
                with_ghost,
                0,
                placed,
            ),
        decreases total - index,
    {
        let ghost before = (layout.nodes@, layout.ghost_entry, *next_lane as int, visited@);
        proof {
            lemma_slot_budget_bound(nodes@, draft, visited@);
        }
        let child_lane = if index == 0 {
            lane
        } else {
            let l = *next_lane;
            *next_lane = *next_lane + 1;
            l
        };
        if with_ghost && index == kids.len() {
            layout.ghost_entry = Some(
                AssetLabGhostLayoutEntry { parent_node_id: id, lane: child_lane, depth: depth + 1 },
            );
        } else {
            let ghost v_before = visited@;
            proof {
                assert(v1.len() <= visited@.len());
                lemma_visited_bound(nodes@, visited@);
            }
            walk(
                nodes,
                draft,
                kids[index],
                depth + 1,
                child_lane,
                layout,
                next_lane,
                visited,
                Ghost((fuel - 1) as nat),
            );
            proof {
                assert(extends(visited@, v1)) by {
                    assert(visited@.take(v_before.len() as int) == v_before);
                    assert(v_before.take(v1.len() as int) == v1);
                    assert(visited@.take(v1.len() as int) =~= v_before.take(v1.len() as int));
                }
            }
        }
        index = index + 1;
    }
    proof {
        assert(visited@.take(v1.len() as int)[placed_at] == id);
        assert(visited@[placed_at] == id);
        assert(extends(visited@, v0)) by {
            assert(visited@.take(v1.len() as int) == v1);
            assert(v1.take(v0.len() as int) =~= v0);
            assert(visited@.take(v0.len() as int) =~= v1.take(v0.len() as int));
        }
    }
}

/// The layout of the configuration's lab graph, if any, with a placeholder
/// below the draft source node: each root starts a fresh lane; the first
/// child of a node stays in its lane and each later child takes the next
/// free lane; a node reached twice is placed once.
pub fn asset_lab_graph_layout(
    config: Option<&GenerativeConfig>,
    draft_source_node_id: Option<u128>,
) -> (r: AssetLabGraphLayout)
    requires
        match config {
            Some(c) => c.lab_graph.nodes@.len() < usize::MAX / 2,
            None => true,
        },
    ensures
        match config {
            Some(c) => {
                let st = graph_layout(c.lab_graph.nodes@, draft_source_node_id);
                &&& r.nodes@ == st.0
                &&& r.ghost_entry == st.1
                &&& distinct_ids(entry_ids(r.nodes@))
                &&& all_node_ids(c.lab_graph.nodes@, entry_ids(r.nodes@))
                &&& forall|i: int|
                    0 <= i < c.lab_graph.nodes@.len() && c.lab_graph.nodes@[i].parent_node_id
                        is None ==> entry_ids(r.nodes@).contains(#[trigger] c.lab_graph.nodes@[i].id)
            },
            None => r.nodes@.len() == 0 && r.ghost_entry.is_none(),
        },
{
    let mut layout = AssetLabGraphLayout { nodes: Vec::new(), ghost_entry: None };
    let config = match config {
        Some(c) => c,
        None => {
            return layout;
        },
    };
    let nodes = &config.lab_graph.nodes;
    let roots = child_ids_exec(nodes, None);
    let mut next_lane: usize = 0;
    let mut visited: Vec<u128> = Vec::new();
    proof {
        lemma_child_ids_are_nodes(nodes@, None);
        assert(entry_ids(layout.nodes@) =~= visited@);
    }
    let ghost init: WalkState = (Seq::empty(), None, 0, Seq::empty());
    let n = roots.len();
    let mut k: usize = 0;
    while k < n
        invariant
            n == roots@.len(),
            roots@ == child_ids(nodes@, None),
            all_node_ids(nodes@, roots@),
            roots@.len() <= nodes@.len(),
            nodes@.len() < usize::MAX / 2,
            k <= n,
            distinct_ids(visited@),
            all_node_ids(nodes@, visited@),
            entry_ids(layout.nodes@) == visited@,
            next_lane <= k + slot_budget(nodes@, draft_source_node_id, visited@),
            forall|j: int| 0 <= j < k ==> visited@.contains(#[trigger] roots@[j]),
            walk_roots(
                nodes@,
                draft_source_node_id,
                roots@,
                k as int,
                (layout.nodes@, layout.ghost_entry, next_lane as int, visited@),
            ) == walk_roots(nodes@, draft_source_node_id, roots@, 0, init),
        decreases n - k,
    {
        proof {
            lemma_visited_bound(nodes@, visited@);
            lemma_slot_budget_bound(nodes@, draft_source_node_id, visited@);
        }
        let lane = next_lane;
        next_lane = next_lane + 1;
        let ghost fuel = (nodes@.len() + 1 - visited@.len()) as nat;
        let ghost old_visited = visited@;
        walk(
            nodes,
            draft_source_node_id,
            roots[k],
            0,
            lane,
            &mut layout,
            &mut next_lane,
            &mut visited,
            Ghost(fuel),
        );
        proof {
            assert forall|j: int| 0 <= j < k + 1 implies visited@.contains(#[trigger] roots@[j]) by {
                if j < k {
                    assert(old_visited.contains(roots@[j]));
                    let t = choose|t: int| 0 <= t < old_visited.len() && old_visited[t] == roots@[j];
                    assert(visited@.take(old_visited.len() as int)[t] == roots@[j]);
                    assert(visited@[t] == roots@[j]);
                }
            }
        }
        k = k + 1;
    }
    proof {
        assert forall|i: int|
            0 <= i < nodes@.len() && nodes@[i].parent_node_id is None implies visited@.contains(
                #[trigger] nodes@[i].id,
            ) by {
            lemma_root_listed(nodes@, i);
            let j = choose|j: int| 0 <= j < roots@.len() && roots@[j] == nodes@[i].id;
            assert(visited@.contains(roots@[j]));
        }
    }
    layout
}

/// Every node without a parent is listed among the roots.
proof fn lemma_root_listed(nodes: Seq<AssetLabNode>, i: int)
    requires
        0 <= i < nodes.len(),
        nodes[i].parent_node_id is None,
    ensures
        child_ids(nodes, None).contains(nodes[i].id),
    decreases nodes.len(),
{
    let c = child_ids(nodes, None);
    if i == nodes.len() - 1 {
        assert(c[c.len() - 1] == nodes[i].id);
    } else {
        lemma_root_listed(nodes.drop_last(), i);
        let inner = child_ids(nodes.drop_last(), None);
        let j = choose|j: int| 0 <= j < inner.len() && inner[j] == nodes[i].id;
        assert(c[j] == inner[j]);
    }
}

} // verus!
