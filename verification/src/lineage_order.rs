//! The order in which the lineage view places the lab steps that produced
//! versions: each step under its nearest completed ancestor, children after
//! one another and before their parent, every step once, even when a
//! malformed graph loops.

use vstd::prelude::*;
use crate::lab_model::{GenerativeConfig, GenerationRecord, node_has_record, node_parent, AssetLabNode};
use crate::lineage::{completed_parent, completed_parent_of, completed_parent_walk};
use crate::editor::id_listed;

verus! {

/// One placed step: its identifier, its depth (0 for a step placed at the
/// top), and the steps placed as its children, in order.
#[derive(Clone, Debug)]
pub struct LineagePlacement {
    pub id: u128,
    pub depth: usize,
    pub children: Vec<u128>,
}

/// The identifiers of placements, in order.
pub open spec fn placed_ids(out: Seq<LineagePlacement>) -> Seq<u128> {
    out.map_values(|p: LineagePlacement| p.id)
}

/// Whether some version was produced by step `x`.
pub open spec fn is_record_node(config: GenerativeConfig, x: u128) -> bool {
    exists|i: int| 0 <= i < config.versions@.len() && #[trigger] config.versions@[i].lab_node_id == Some(x)
}

/// The steps named by versions, in version order (a step named twice is
/// listed twice).
pub open spec fn record_nodes(versions: Seq<GenerationRecord>) -> Seq<u128>
    decreases versions.len(),
{
    if versions.len() == 0 {
        seq![]
    } else {
        let rest = record_nodes(versions.drop_last());
        match versions.last().lab_node_id {
            Some(x) => rest.push(x),
            None => rest,
        }
    }
}

/// The steps of `ids` whose nearest completed ancestor is `p`, in order.
pub open spec fn kids(config: GenerativeConfig, ids: Seq<u128>, p: u128) -> Seq<u128>
    decreases ids.len(),
{
    if ids.len() == 0 {
        seq![]
    } else {
        let rest = kids(config, ids.drop_last(), p);
        if completed_parent_of(config, ids.last()) == Some(p) {
            rest.push(ids.last())
        } else {
            rest
        }
    }
}

/// The steps that produced versions and whose nearest completed ancestor is
/// `p`, in version order.
pub open spec fn child_steps(config: GenerativeConfig, p: u128) -> Seq<u128> {
    kids(config, record_nodes(config.versions@), p)
}

/// Whether the nearest-completed-ancestor chain of `x` ends, within `fuel`
/// steps, at a step without a completed ancestor (no loop on the way).
pub open spec fn reaches_root(config: GenerativeConfig, x: u128, fuel: nat) -> bool
    decreases fuel,
{
    match completed_parent_of(config, x) {
        None => true,
        Some(p) => fuel > 0 && reaches_root(config, p, (fuel - 1) as nat),
    }
}

/// Whether `a` lists elements of `b` in the order `b` has them.
pub open spec fn in_order_within(a: Seq<u128>, b: Seq<u128>) -> bool {
    exists|pos: Seq<int>|
        #![trigger pos.len()]
        pos.len() == a.len() && (forall|t: int| 0 <= t < a.len() ==> 0 <= #[trigger] pos[t] < b.len() && b[pos[t]] == a[t])
            && (forall|t1: int, t2: int| 0 <= t1 < t2 < a.len() ==> #[trigger] pos[t1] < #[trigger] pos[t2])
}

/// Whether the placement at `i` is placed as a child of its nearest
/// completed ancestor: a later placement of that ancestor lists it, one
/// level above it.
pub open spec fn placed_under(config: GenerativeConfig, out: Seq<LineagePlacement>, i: int) -> bool {
    &&& completed_parent_of(config, out[i].id) is Some
    &&& exists|k: int|
        i < k < out.len() && #[trigger] out[k].id == completed_parent_of(config, out[i].id)->0
            && out[k].children@.contains(out[i].id) && out[k].depth + 1 == out[i].depth
}

/// Whether the children of the placement at `k` are steps whose nearest
/// completed ancestor it is, in version order, each placed before it one
/// level below.
pub open spec fn children_ok(config: GenerativeConfig, out: Seq<LineagePlacement>, k: int) -> bool {
    &&& in_order_within(out[k].children@, child_steps(config, out[k].id))
    &&& forall|t: int|
        0 <= t < out[k].children@.len() ==> #[trigger] placed_before(out, k, out[k].children@[t])
}

/// Whether step `c` is placed before position `k`, one level below the
/// placement there.
pub open spec fn placed_before(out: Seq<LineagePlacement>, k: int, c: u128) -> bool {
    exists|q: int| 0 <= q < k && #[trigger] out[q].id == c && out[q].depth == out[k].depth + 1
}

/// What a placement shows: its step, its depth and its children.
pub open spec fn placement_view(p: LineagePlacement) -> (u128, int, Seq<u128>) {
    (p.id, p.depth as int, p.children@)
}

/// The views of placements, in order.
pub open spec fn placement_views(out: Seq<LineagePlacement>) -> Seq<(u128, int, Seq<u128>)> {
    out.map_values(|p: LineagePlacement| placement_view(p))
}

/// The steps of `ids` without a completed ancestor, in order.
pub open spec fn root_steps(config: GenerativeConfig, ids: Seq<u128>) -> Seq<u128>
    decreases ids.len(),
{
    if ids.len() == 0 {
        seq![]
    } else {
        let rest = root_steps(config, ids.drop_last());
        if completed_parent_of(config, ids.last()) is None {
            rest.push(ids.last())
        } else {
            rest
        }
    }
}

/// The depth-first walk from step `id` at `depth`, given the steps seen and
/// the placements made so far: nothing when `id` was seen; otherwise `id`
/// is seen, its children (`ids` order) are walked one level deeper, and
/// then `id` is placed with the children that walk placed. `fuel` bounds
/// how deep the walk nests.
pub open spec fn walk_place(
    config: GenerativeConfig,
    ids: Seq<u128>,
    fuel: nat,
    id: u128,
    depth: int,
    seen: Seq<u128>,
    out: Seq<(u128, int, Seq<u128>)>,
) -> (Seq<u128>, Seq<(u128, int, Seq<u128>)>)
    decreases fuel, 0int, 0int,
{
    if fuel == 0 || seen.contains(id) {
        (seen, out)
    } else {
        let r = walk_kids(config, ids, (fuel - 1) as nat, kids(config, ids, id), 0, depth + 1, seen.push(id), out, seq![]);
        (r.0, r.1.push((id, depth, r.2)))
    }
}

/// Walks the steps `ks` from position `j` on, one after another at `depth`,
/// collecting in `placed` those that were not seen before.
pub open spec fn walk_kids(
    config: GenerativeConfig,
    ids: Seq<u128>,
    fuel: nat,
    ks: Seq<u128>,
    j: int,
    depth: int,
    seen: Seq<u128>,
    out: Seq<(u128, int, Seq<u128>)>,
    placed: Seq<u128>,
) -> (Seq<u128>, Seq<(u128, int, Seq<u128>)>, Seq<u128>)
    decreases fuel, 1int, ks.len() - j,
{
    if j < 0 || j >= ks.len() {
        (seen, out, placed)
    } else {
        let r = walk_place(config, ids, fuel, ks[j], depth, seen, out);
        let placed2 = if fuel > 0 && !seen.contains(ks[j]) {
            placed.push(ks[j])
        } else {
            placed
        };
        walk_kids(config, ids, fuel, ks, j + 1, depth, r.0, r.1, placed2)
    }
}

/// Walks from each step of `xs`, from position `j` on, at depth 0.
pub open spec fn walk_list(
    config: GenerativeConfig,
    ids: Seq<u128>,
    fuel: nat,
    xs: Seq<u128>,
    j: int,
    seen: Seq<u128>,
    out: Seq<(u128, int, Seq<u128>)>,
) -> (Seq<u128>, Seq<(u128, int, Seq<u128>)>)
    decreases xs.len() - j,
{
    if j < 0 || j >= xs.len() {
        (seen, out)
    } else {
        let r = walk_place(config, ids, fuel, xs[j], 0, seen, out);
        walk_list(config, ids, fuel, xs, j + 1, r.0, r.1)
    }
}

/// The lineage view's placements: the depth-first walk, children before
/// their parent, from each step without a completed ancestor in version
/// order, then from every step in version order (which places what a loop
/// of ancestors left out).
pub open spec fn lineage_walk(config: GenerativeConfig) -> Seq<(u128, int, Seq<u128>)> {
    let ids = record_nodes(config.versions@);
    let fuel = (ids.len() + 1) as nat;
    let first = walk_list(config, ids, fuel, root_steps(config, ids), 0, seq![], seq![]);
    walk_list(config, ids, fuel, ids, 0, first.0, first.1).1
}

/// The steps of `kids` are steps of `ids` whose nearest completed ancestor is `p`.
proof fn lemma_kids_have_parent(config: GenerativeConfig, ids: Seq<u128>, p: u128)
    ensures
        forall|t: int|
            0 <= t < kids(config, ids, p).len() ==> ids.contains(#[trigger] kids(config, ids, p)[t])
                && completed_parent_of(config, kids(config, ids, p)[t]) == Some(p),
    decreases ids.len(),
{
    if ids.len() > 0 {
        lemma_kids_have_parent(config, ids.drop_last(), p);
        let rest = kids(config, ids.drop_last(), p);
        let v = kids(config, ids, p);
        assert forall|t: int| 0 <= t < v.len() implies ids.contains(#[trigger] v[t])
            && completed_parent_of(config, v[t]) == Some(p) by {
            if t < rest.len() {
                assert(v[t] == rest[t]);
                let q = choose|q: int| 0 <= q < ids.drop_last().len() && ids.drop_last()[q] == rest[t];
                assert(ids[q] == rest[t]);
            } else {
                assert(ids[ids.len() - 1] == v[t]);
            }
        }
    }
}

/// Every step of `ids` whose nearest completed ancestor is `p` is among `kids`.
proof fn lemma_kids_complete(config: GenerativeConfig, ids: Seq<u128>, p: u128, x: u128)
    requires
        ids.contains(x),
        completed_parent_of(config, x) == Some(p),
    ensures
        kids(config, ids, p).contains(x),
    decreases ids.len(),
{
    let v = kids(config, ids, p);
    if ids.last() == x {
        assert(v[v.len() - 1] == x);
    } else {
        let q = choose|q: int| 0 <= q < ids.len() && ids[q] == x;
        assert(ids.drop_last()[q] == x);
        lemma_kids_complete(config, ids.drop_last(), p, x);
        let rest = kids(config, ids.drop_last(), p);
        let t = choose|t: int| 0 <= t < rest.len() && rest[t] == x;
        assert(v[t] == x);
    }
}

/// The listed steps are exactly the steps that produced versions.
proof fn lemma_record_nodes(versions: Seq<GenerationRecord>, x: u128)
    ensures
        record_nodes(versions).contains(x) <==> node_has_record(versions, x),
    decreases versions.len(),
{
    if versions.len() > 0 {
        let d = versions.drop_last();
        lemma_record_nodes(d, x);
        let rest = record_nodes(d);
        let v = record_nodes(versions);
        if v.contains(x) {
            let t = choose|t: int| 0 <= t < v.len() && v[t] == x;
            if t < rest.len() {
                assert(v[t] == rest[t]);
                assert(rest.contains(x));
                let i = choose|i: int| 0 <= i < d.len() && #[trigger] d[i].lab_node_id == Some(x);
                assert(versions[i].lab_node_id == Some(x));
            } else {
                assert(versions[versions.len() - 1].lab_node_id == Some(x));
            }
        }
        if node_has_record(versions, x) {
            let i = choose|i: int| 0 <= i < versions.len() && #[trigger] versions[i].lab_node_id == Some(x);
            if i < d.len() {
                assert(d[i].lab_node_id == Some(x));
                let t = choose|t: int| 0 <= t < rest.len() && rest[t] == x;
                assert(v[t] == x);
            } else {
                assert(v[v.len() - 1] == x);
            }
        }
    }
}

/// A nearest completed ancestor produced a version.
proof fn lemma_walk_ends_at_record(
    nodes: Seq<AssetLabNode>,
    versions: Seq<GenerationRecord>,
    current: u128,
    seen: Set<u128>,
    fuel: nat,
)
    ensures
        completed_parent_walk(nodes, versions, current, seen, fuel) matches Some(p) ==> node_has_record(versions, p),
    decreases fuel,
{
    if fuel > 0 {
        if let Some(p) = node_parent(nodes, current) {
            if !seen.contains(p) && !node_has_record(versions, p) {
                lemma_walk_ends_at_record(nodes, versions, p, seen.insert(p), (fuel - 1) as nat);
            }
        }
    }
}

/// A list without repeats inside another has at most its length.
proof fn lemma_distinct_within(s: Seq<u128>, ids: Seq<u128>)
    requires
        s.no_duplicates(),
        forall|x: u128| s.contains(x) ==> ids.contains(x),
    ensures
        s.len() <= ids.len(),
{
    broadcast use vstd::seq_lib::seq_to_set_is_finite;
    s.unique_seq_to_set();
    ids.lemma_cardinality_of_set();
    assert(s.to_set().subset_of(ids.to_set()));
    vstd::set_lib::lemma_len_subset(s.to_set(), ids.to_set());
}

/// What holds of a placement list holds of any list that extends it.
proof fn lemma_extension_keeps(config: GenerativeConfig, a: Seq<LineagePlacement>, b: Seq<LineagePlacement>, i: int)
    requires
        a.len() <= b.len(),
        b.take(a.len() as int) == a,
        0 <= i < a.len(),
    ensures
        placed_under(config, a, i) ==> placed_under(config, b, i),
        children_ok(config, a, i) ==> children_ok(config, b, i),
        b[i] == a[i],
{
    assert(b.take(a.len() as int)[i] == b[i]);
    if placed_under(config, a, i) {
        let k = choose|k: int|
            i < k < a.len() && #[trigger] a[k].id == completed_parent_of(config, a[i].id)->0
                && a[k].children@.contains(a[i].id) && a[k].depth + 1 == a[i].depth;
        assert(b.take(a.len() as int)[k] == b[k]);
        assert(b[k].id == completed_parent_of(config, b[i].id)->0);
    }
    if children_ok(config, a, i) {
        assert forall|t: int| 0 <= t < b[i].children@.len() implies #[trigger] placed_before(b, i, b[i].children@[t]) by {
            assert(a[i].children@[t] == b[i].children@[t]);
            assert(placed_before(a, i, a[i].children@[t]));
            let j = choose|j: int|
                0 <= j < i && #[trigger] a[j].id == a[i].children@[t] && a[j].depth == a[i].depth + 1;
            assert(b.take(a.len() as int)[j] == b[j]);
            assert(b[j] == a[j]);
            assert(0 <= j < i && b[j].id == b[i].children@[t] && b[j].depth == b[i].depth + 1);
        }
        assert(in_order_within(b[i].children@, child_steps(config, b[i].id)));
        assert(children_ok(config, b, i));
    }
}

/// The steps named by versions, in version order.
fn record_node_ids(config: &GenerativeConfig) -> (r: Vec<u128>)
    ensures
        r@ == record_nodes(config.versions@),
{
    let mut out: Vec<u128> = Vec::new();
    let n = config.versions.len();
    for i in 0..n
        invariant
            n == config.versions@.len(),
            out@ == record_nodes(config.versions@.take(i as int)),
    {
        assert(config.versions@.take(i + 1).drop_last() =~= config.versions@.take(i as int));
        assert(config.versions@.take(i + 1).last() == config.versions@[i as int]);
        if let Some(x) = config.versions[i].lab_node_id {
            out.push(x);
        }
    }
    assert(config.versions@.take(n as int) =~= config.versions@);
    out
}

/// The nearest completed ancestor of each listed step.
fn parents_of(config: &GenerativeConfig, ids: &Vec<u128>) -> (r: Vec<Option<u128>>)
    ensures
        r@.len() == ids@.len(),
        forall|i: int| 0 <= i < ids@.len() ==> #[trigger] r@[i] == completed_parent_of(*config, ids@[i]),
{
    let mut out: Vec<Option<u128>> = Vec::new();
    let n = ids.len();
    for i in 0..n
        invariant
            n == ids@.len(),
            out@.len() == i,
            forall|k: int| 0 <= k < i ==> #[trigger] out@[k] == completed_parent_of(*config, ids@[k]),
    {
        out.push(completed_parent(config, ids[i]));
    }
    out
}

/// The listed steps whose nearest completed ancestor is `id`, in order.
fn children_of(ids: &Vec<u128>, parents: &Vec<Option<u128>>, id: u128, config: Ghost<GenerativeConfig>) -> (r: Vec<u128>)
    requires
        parents@.len() == ids@.len(),
        forall|i: int| 0 <= i < ids@.len() ==> #[trigger] parents@[i] == completed_parent_of(config@, ids@[i]),
    ensures
        r@ == kids(config@, ids@, id),
{
    let mut out: Vec<u128> = Vec::new();
    let n = ids.len();
    for i in 0..n
        invariant
            n == ids@.len(),
            parents@.len() == ids@.len(),
            forall|k: int| 0 <= k < ids@.len() ==> #[trigger] parents@[k] == completed_parent_of(config@, ids@[k]),
            out@ == kids(config@, ids@.take(i as int), id),
    {
        assert(ids@.take(i + 1).drop_last() =~= ids@.take(i as int));
        assert(ids@.take(i + 1).last() == ids@[i as int]);
        assert(parents@[i as int] == completed_parent_of(config@, ids@[i as int]));
        if parents[i] == Some(id) {
            out.push(ids[i]);
        }
    }
    assert(ids@.take(n as int) =~= ids@);
    out
}

/// Whatever a list holds, a list that extends it holds.
proof fn lemma_prefix_contains(a: Seq<u128>, b: Seq<u128>, x: u128)
    requires
        a.len() <= b.len(),
        b.take(a.len() as int) == a,
        a.contains(x),
    ensures
        b.contains(x),
{
    let t = choose|t: int| 0 <= t < a.len() && a[t] == x;
    assert(b.take(a.len() as int)[t] == b[t]);
}

/// There are no more named steps than versions.
proof fn lemma_record_nodes_len(versions: Seq<GenerationRecord>)
    ensures
        record_nodes(versions).len() <= versions.len(),
    decreases versions.len(),
{
    if versions.len() > 0 {
        lemma_record_nodes_len(versions.drop_last());
    }
}

/// When every step without a completed ancestor is among `seen`, and the
/// children of every step of `seen` are too, so is every step whose chain
/// reaches such a step.
proof fn lemma_reached(config: GenerativeConfig, ids: Seq<u128>, seen: Seq<u128>, x: u128, fuel: nat)
    requires
        ids == record_nodes(config.versions@),
        forall|y: u128| ids.contains(y) && completed_parent_of(config, y) is None ==> seen.contains(y),
        forall|y: u128, c: u128| seen.contains(y) && #[trigger] kids(config, ids, y).contains(c) ==> seen.contains(c),
        ids.contains(x),
        reaches_root(config, x, fuel),
    ensures
        seen.contains(x),
    decreases fuel,
{
    if let Some(p) = completed_parent_of(config, x) {
        lemma_walk_ends_at_record(
            config.lab_graph.nodes@,
            config.versions@,
            x,
            set![x],
            (config.lab_graph.nodes@.len() + 1) as nat,
        );
        lemma_record_nodes(config.versions@, p);
        lemma_reached(config, ids, seen, p, (fuel - 1) as nat);
        lemma_kids_complete(config, ids, p, x);
    }
}

/// Places step `id` and, first, its children not placed yet, one level
/// deeper; nothing when it was placed already. Returns whether it placed it.
#[verifier::rlimit(60)]
fn place(
    ids: &Vec<u128>,
    parents: &Vec<Option<u128>>,
    config: Ghost<GenerativeConfig>,
    fuel: Ghost<nat>,
    id: u128,
    depth: usize,
    seen: &mut Vec<u128>,
    out: &mut Vec<LineagePlacement>,
) -> (placed: bool)
    requires
        fuel@ + old(seen)@.len() > ids@.len(),
        ids@ == record_nodes(config@.versions@),
        parents@.len() == ids@.len(),
        forall|i: int| 0 <= i < ids@.len() ==> #[trigger] parents@[i] == completed_parent_of(config@, ids@[i]),
        ids@.contains(id),
        old(seen)@.no_duplicates(),
        forall|x: u128| old(seen)@.contains(x) ==> ids@.contains(x),
        placed_ids(old(out)@).no_duplicates(),
        forall|x: u128| placed_ids(old(out)@).contains(x) ==> old(seen)@.contains(x),
        depth + ids@.len() - old(seen)@.len() < usize::MAX,
    ensures
        (final(seen)@, placement_views(final(out)@)) == walk_place(
            config@,
            ids@,
            fuel@,
            id,
            depth as int,
            old(seen)@,
            placement_views(old(out)@),
        ),
        placed == !old(seen)@.contains(id),
        final(seen)@.contains(id),
        final(seen)@.len() >= old(seen)@.len(),
        final(seen)@.take(old(seen)@.len() as int) == old(seen)@,
        final(seen)@.no_duplicates(),
        forall|x: u128| final(seen)@.contains(x) ==> ids@.contains(x),
        final(out)@.len() >= old(out)@.len(),
        final(out)@.take(old(out)@.len() as int) == old(out)@,
        placed_ids(final(out)@).no_duplicates(),
        forall|x: u128| placed_ids(final(out)@).contains(x) ==> final(seen)@.contains(x),
        forall|x: u128|
            final(seen)@.contains(x) && !old(seen)@.contains(x) ==> placed_ids(final(out)@).contains(x),
        forall|k: int|
            old(out)@.len() <= k < final(out)@.len() ==> !old(seen)@.contains(#[trigger] final(out)@[k].id)
                && ((final(out)@[k].depth == depth && final(out)@[k].id == id) || (final(out)@[k].depth
                > depth && completed_parent_of(config@, final(out)@[k].id) is Some)),
        !placed ==> final(out)@ == old(out)@ && final(seen)@ == old(seen)@,
        placed ==> final(out)@.len() > old(out)@.len() && final(out)@.last().id == id && final(out)@.last().depth
            == depth,
        forall|k: int| old(out)@.len() <= k < final(out)@.len() - 1 ==> #[trigger] placed_under(config@, final(out)@, k),
        forall|k: int| old(out)@.len() <= k < final(out)@.len() ==> #[trigger] children_ok(config@, final(out)@, k),
        forall|k: int, c: u128|
            old(out)@.len() <= k < final(out)@.len() && #[trigger] kids(config@, ids@, final(out)@[k].id).contains(c)
                ==> final(seen)@.contains(c),
    decreases ids@.len() - old(seen)@.len(),
{
    proof {
        lemma_distinct_within(seen@, ids@);
    }
    if id_listed(seen, id) {
        assert(fuel@ > 0);
        assert(seen@.take(seen@.len() as int) =~= seen@);
        assert(out@.take(out@.len() as int) =~= out@);
        return false;
    }
    let ghost seen0 = seen@;
    let ghost out0 = out@;
    seen.push(id);
    let ghost seen1 = seen@;
    assert(seen1 == seen0.push(id));
    assert forall|x: u128| seen1.contains(x) implies ids@.contains(x) by {
        if x != id {
            let t = choose|t: int| 0 <= t < seen1.len() && seen1[t] == x;
            assert(seen0[t] == x);
        }
    }
    proof {
        assert(seen1.no_duplicates()) by {
            assert forall|a: int, b: int| 0 <= a < seen1.len() && 0 <= b < seen1.len() && a != b implies seen1[a] != seen1[b] by {
                if a < seen0.len() && b < seen0.len() {
                } else if a == seen0.len() {
                    assert(seen0.contains(seen1[b]) || b == a);
                } else {
                    assert(seen0.contains(seen1[a]));
                }
            }
        }
        lemma_distinct_within(seen1, ids@);
    }
    assert forall|x: u128| placed_ids(out0).contains(x) implies seen1.contains(x) by {
        assert(seen0.contains(x));
        let t = choose|t: int| 0 <= t < seen0.len() && seen0[t] == x;
        assert(seen1[t] == x);
    }
    assert(out@.take(out0.len() as int) =~= out0);
    assert(seen@.take(seen1.len() as int) =~= seen1);
    let kv = children_of(ids, parents, id, config);
    proof {
        lemma_kids_have_parent(config@, ids@, id);
    }
    let mut placed_children: Vec<u128> = Vec::new();
    let ghost fm1: nat = (fuel@ - 1) as nat;
    let ghost target = walk_kids(config@, ids@, fm1, kv@, 0, depth + 1, seen1, placement_views(out0), seq![]);
    assert(placed_children@ =~= Seq::<u128>::empty());
    let ghost mut child_pos: Seq<int> = seq![];
    let ghost mut kid_pos: Seq<int> = seq![];
    let m = kv.len();
    for j in 0..m
        invariant
            m == kv@.len(),
            kv@ == kids(config@, ids@, id),
            forall|t: int| 0 <= t < kv@.len() ==> ids@.contains(#[trigger] kv@[t]) && completed_parent_of(config@, kv@[t]) == Some(id),
            ids@ == record_nodes(config@.versions@),
            parents@.len() == ids@.len(),
            forall|i: int| 0 <= i < ids@.len() ==> #[trigger] parents@[i] == completed_parent_of(config@, ids@[i]),
            seen@.len() >= seen1.len(),
            seen@.take(seen1.len() as int) == seen1,
            seen1 == seen0.push(id),
            !seen0.contains(id),
            seen@.no_duplicates(),
            forall|x: u128| seen@.contains(x) ==> ids@.contains(x),
            out@.len() >= out0.len(),
            out@.take(out0.len() as int) == out0,
            placed_ids(out@).no_duplicates(),
            forall|x: u128| placed_ids(out@).contains(x) ==> seen@.contains(x),
            forall|x: u128| placed_ids(out0).contains(x) ==> seen0.contains(x),
            forall|x: u128| seen@.contains(x) && !seen1.contains(x) ==> placed_ids(out@).contains(x),
            forall|k: int|
                out0.len() <= k < out@.len() ==> !seen1.contains(#[trigger] out@[k].id) && out@[k].depth > depth
                    && completed_parent_of(config@, out@[k].id) is Some,
            depth + ids@.len() - seen0.len() < usize::MAX,
            seen0.len() + 1 <= ids@.len(),
            seen0 == old(seen)@,
            fm1 + 1 == fuel@,
            fuel@ + seen0.len() > ids@.len(),
            walk_kids(config@, ids@, fm1, kv@, j as int, depth + 1, seen@, placement_views(out@), placed_children@)
                == target,
            child_pos.len() == placed_children@.len(),
            kid_pos.len() == placed_children@.len(),
            forall|t: int| 0 <= t < kid_pos.len() ==> 0 <= #[trigger] kid_pos[t] < j && kv@[kid_pos[t]] == placed_children@[t],
            forall|t1: int, t2: int| 0 <= t1 < t2 < kid_pos.len() ==> #[trigger] kid_pos[t1] < #[trigger] kid_pos[t2],
            forall|t: int|
                0 <= t < child_pos.len() ==> out0.len() <= #[trigger] child_pos[t] < out@.len() && out@[child_pos[t]].id
                    == placed_children@[t] && out@[child_pos[t]].depth == depth + 1,
            forall|t1: int, t2: int| 0 <= t1 < t2 < child_pos.len() ==> #[trigger] child_pos[t1] < #[trigger] child_pos[t2],
            forall|k: int| out0.len() <= k < out@.len() ==> #[trigger] placed_under(config@, out@, k) || child_pos.contains(k),
            forall|k: int| out0.len() <= k < out@.len() ==> #[trigger] children_ok(config@, out@, k),
            forall|k: int, c: u128|
                out0.len() <= k < out@.len() && #[trigger] kids(config@, ids@, out@[k].id).contains(c) ==> seen@.contains(c),
            forall|t: int| 0 <= t < j ==> seen@.contains(#[trigger] kv@[t]),
    {
        let c = kv[j];
        proof {
            lemma_distinct_within(seen@, ids@);
        }
        let ghost seen_b = seen@;
        let ghost out_b = out@;
        let ghost cp_b = child_pos;
        let ghost pc_b = placed_children@;
        assert(seen@.len() <= ids@.len());
        assert(ids@.len() - seen@.len() < ids@.len() - seen0.len());
        assert(fm1 > 0);
        let r = place(ids, parents, config, Ghost(fm1), c, depth + 1, seen, out);
        if r {
            placed_children.push(c);
        }
        proof {
            assert(walk_kids(config@, ids@, fm1, kv@, j as int, depth + 1, seen_b, placement_views(out_b), pc_b)
                == walk_kids(config@, ids@, fm1, kv@, j + 1, depth + 1, seen@, placement_views(out@), placed_children@));
            if r {
                child_pos = child_pos.push(out@.len() - 1);
                kid_pos = kid_pos.push(j as int);
            }
            assert forall|x: u128| seen1.contains(x) implies seen@.contains(x) by {
                let t = choose|t: int| 0 <= t < seen1.len() && seen1[t] == x;
                assert(seen_b.take(seen1.len() as int)[t] == x);
                assert(seen@.take(seen_b.len() as int)[t] == x);
            }
            assert(seen@.take(seen1.len() as int) =~= seen1) by {
                assert forall|t: int| 0 <= t < seen1.len() implies seen@[t] == seen1[t] by {
                    assert(seen_b.take(seen1.len() as int)[t] == seen1[t]);
                    assert(seen@.take(seen_b.len() as int)[t] == seen_b[t]);
                }
            }
            assert(out@.take(out0.len() as int) =~= out0) by {
                assert forall|t: int| 0 <= t < out0.len() implies out@[t] == out0[t] by {
                    assert(out_b.take(out0.len() as int)[t] == out0[t]);
                    assert(out@.take(out_b.len() as int)[t] == out_b[t]);
                }
            }
            assert forall|x: u128| seen@.contains(x) && !seen1.contains(x) implies placed_ids(out@).contains(x) by {
                if seen_b.contains(x) {
                    let t = choose|t: int| 0 <= t < placed_ids(out_b).len() && placed_ids(out_b)[t] == x;
                    assert(out@.take(out_b.len() as int)[t] == out_b[t]);
                    assert(placed_ids(out@)[t] == x);
                }
            }
            assert forall|k: int|
                out0.len() <= k < out@.len() implies !seen1.contains(#[trigger] out@[k].id) && out@[k].depth > depth
                    && completed_parent_of(config@, out@[k].id) is Some by {
                if k < out_b.len() {
                    assert(out@.take(out_b.len() as int)[k] == out_b[k]);
                } else {
                    if seen1.contains(out@[k].id) {
                        let t = choose|t: int| 0 <= t < seen1.len() && seen1[t] == out@[k].id;
                        assert(seen_b.take(seen1.len() as int)[t] == seen1[t]);
                        assert(seen_b.contains(out@[k].id));
                    }
                    if k == out@.len() - 1 && r {
                        assert(completed_parent_of(config@, c) == Some(id));
                    }
                }
            }
            assert forall|t: int|
                0 <= t < child_pos.len() implies out0.len() <= #[trigger] child_pos[t] < out@.len() && out@[child_pos[t]].id
                    == placed_children@[t] && out@[child_pos[t]].depth == depth + 1 by {
                if t < cp_b.len() {
                    assert(child_pos[t] == cp_b[t]);
                    assert(out@.take(out_b.len() as int)[cp_b[t]] == out_b[cp_b[t]]);
                }
            }
            assert forall|t1: int, t2: int| 0 <= t1 < t2 < child_pos.len() implies #[trigger] child_pos[t1] < #[trigger] child_pos[t2] by {
                if t2 == cp_b.len() {
                    assert(child_pos[t1] == cp_b[t1]);
                    assert(cp_b[t1] < out_b.len());
                } else {
                    assert(child_pos[t1] == cp_b[t1] && child_pos[t2] == cp_b[t2]);
                }
            }
            assert forall|t1: int, t2: int| 0 <= t1 < t2 < kid_pos.len() implies #[trigger] kid_pos[t1] < #[trigger] kid_pos[t2] by {
                if t2 == cp_b.len() {
                    assert(kid_pos[t1] < j);
                }
            }
            assert forall|k: int| out0.len() <= k < out@.len() implies #[trigger] placed_under(config@, out@, k) || child_pos.contains(k) by {
                if k < out_b.len() {
                    lemma_extension_keeps(config@, out_b, out@, k);
                    if cp_b.contains(k) {
                        let t = choose|t: int| 0 <= t < cp_b.len() && cp_b[t] == k;
                        assert(child_pos[t] == k);
                    }
                } else if k == out@.len() - 1 {
                    assert(child_pos[child_pos.len() - 1] == k);
                }
            }
            assert forall|k: int| out0.len() <= k < out@.len() implies #[trigger] children_ok(config@, out@, k) by {
                if k < out_b.len() {
                    lemma_extension_keeps(config@, out_b, out@, k);
                }
            }
            assert forall|k: int, x: u128|
                out0.len() <= k < out@.len() && #[trigger] kids(config@, ids@, out@[k].id).contains(x) implies seen@.contains(x) by {
                if k < out_b.len() {
                    lemma_extension_keeps(config@, out_b, out@, k);
                    assert(seen_b.contains(x));
                    lemma_prefix_contains(seen_b, seen@, x);
                }
            }
            assert forall|t: int| 0 <= t < j + 1 implies seen@.contains(#[trigger] kv@[t]) by {
                if t < j {
                    lemma_prefix_contains(seen_b, seen@, kv@[t]);
                }
            }
        }
    }
    proof {
        lemma_distinct_within(seen@, ids@);
        assert(target == (seen@, placement_views(out@), placed_children@));
    }
    let ghost out_c = out@;
    let ghost pc = placed_children@;
    out.push(LineagePlacement { id, depth, children: placed_children });
    proof {
        assert(placement_views(out@) =~= placement_views(out_c).push((id, depth as int, pc)));
        assert(walk_place(config@, ids@, fuel@, id, depth as int, seen0, placement_views(out0)) == (
        target.0, target.1.push((id, depth as int, target.2))));
        let last = out_c.len() as int;
        assert(out@[last].id == id && out@[last].depth == depth);
        assert(placed_ids(out@) == placed_ids(out_c).push(id));
        assert(out@.take(out_c.len() as int) =~= out_c);
        assert(!placed_ids(out_c).contains(id)) by {
            if placed_ids(out_c).contains(id) {
                let t = choose|t: int| 0 <= t < placed_ids(out_c).len() && placed_ids(out_c)[t] == id;
                if t < out0.len() {
                    assert(out_c.take(out0.len() as int)[t] == out0[t]);
                    assert(placed_ids(out0)[t] == id);
                    assert(placed_ids(out0).contains(id));
                } else {
                    assert(!seen1.contains(out_c[t].id));
                    assert(seen1[seen0.len() as int] == id);
                }
            }
        }
        assert(placed_ids(out@).no_duplicates()) by {
            let p = placed_ids(out@);
            assert forall|a: int, b: int| 0 <= a < p.len() && 0 <= b < p.len() && a != b implies p[a] != p[b] by {
                if a == p.len() - 1 {
                    assert(placed_ids(out_c).contains(p[b]));
                } else if b == p.len() - 1 {
                    assert(placed_ids(out_c).contains(p[a]));
                } else {
                    assert(p[a] == placed_ids(out_c)[a] && p[b] == placed_ids(out_c)[b]);
                }
            }
        }
        assert(out@.take(out0.len() as int) =~= out0) by {
            assert forall|t: int| 0 <= t < out0.len() implies out@[t] == out0[t] by {
                assert(out_c.take(out0.len() as int)[t] == out0[t]);
            }
        }
        assert(seen@.take(seen0.len() as int) =~= seen0) by {
            assert forall|t: int| 0 <= t < seen0.len() implies seen@[t] == seen0[t] by {
                assert(seen@.take(seen1.len() as int)[t] == seen1[t]);
            }
        }
        assert(seen@[seen0.len() as int] == id) by {
            assert(seen@.take(seen1.len() as int)[seen0.len() as int] == seen1[seen0.len() as int]);
        }
        assert forall|x: u128| placed_ids(out@).contains(x) implies seen@.contains(x) by {
            if x != id {
                let t = choose|t: int| 0 <= t < placed_ids(out@).len() && placed_ids(out@)[t] == x;
                assert(placed_ids(out_c)[t] == x);
            } else {
                assert(seen@.take(seen1.len() as int)[seen0.len() as int] == id);
            }
        }
        assert forall|x: u128| seen@.contains(x) && !seen0.contains(x) implies placed_ids(out@).contains(x) by {
            if x == id {
                assert(placed_ids(out@)[out@.len() - 1] == id);
            } else {
                if seen1.contains(x) {
                    assert(seen1 =~= seen0.push(id));
                    let t = choose|t: int| 0 <= t < seen1.len() && seen1[t] == x;
                    assert(t < seen0.len());
                    assert(seen0[t] == x);
                }
                let t = choose|t: int| 0 <= t < placed_ids(out_c).len() && placed_ids(out_c)[t] == x;
                assert(placed_ids(out@)[t] == x);
            }
        }
        assert forall|k: int|
            out0.len() <= k < out@.len() implies !seen0.contains(#[trigger] out@[k].id) && ((out@[k].depth == depth
                && out@[k].id == id) || (out@[k].depth > depth && completed_parent_of(config@, out@[k].id) is Some)) by {
            if k < out_c.len() {
                assert(out@[k] == out_c[k]);
                if seen0.contains(out_c[k].id) {
                    let t = choose|t: int| 0 <= t < seen0.len() && seen0[t] == out_c[k].id;
                    assert(seen1[t] == seen0[t]);
                }
            }
        }
        assert forall|k: int| out0.len() <= k < out@.len() - 1 implies #[trigger] placed_under(config@, out@, k) by {
            lemma_extension_keeps(config@, out_c, out@, k);
            if !placed_under(config@, out_c, k) {
                assert(child_pos.contains(k));
                let t = choose|t: int| 0 <= t < child_pos.len() && child_pos[t] == k;
                assert(out_c[k].id == placed_children@[t]);
                assert(kv@[kid_pos[t]] == placed_children@[t]);
                assert(completed_parent_of(config@, out@[k].id) == Some(id));
                assert(out@[last].children@[t] == out@[k].id);
                assert(out@[last].children@.contains(out@[k].id));
                assert(last > k && out@[last].id == completed_parent_of(config@, out@[k].id)->0);
            }
        }
        assert(in_order_within(out@[last].children@, child_steps(config@, id))) by {
            assert(kid_pos.len() == placed_children@.len());
        }
        assert forall|t: int| 0 <= t < out@[last].children@.len() implies #[trigger] placed_before(out@, last, out@[last].children@[t]) by {
            let q = child_pos[t];
            assert(out@[q] == out_c[q]);
            assert(out@[q].id == out@[last].children@[t]);
        }
        assert(children_ok(config@, out@, last));
        assert forall|k: int| out0.len() <= k < out@.len() implies #[trigger] children_ok(config@, out@, k) by {
            if k < last {
                lemma_extension_keeps(config@, out_c, out@, k);
            }
        }
        assert forall|k: int, x: u128|
            out0.len() <= k < out@.len() && #[trigger] kids(config@, ids@, out@[k].id).contains(x) implies seen@.contains(x) by {
            if k < last {
                lemma_extension_keeps(config@, out_c, out@, k);
            } else {
                let t = choose|t: int| 0 <= t < kv@.len() && kv@[t] == x;
                assert(seen@.contains(kv@[t]));
            }
        }
    }
    true
}

/// The lineage view's placement order. Every step that produced a version
/// is placed once. A step is placed after its children, one level below the
/// step it is placed under, and the children of a placement are steps whose
/// nearest completed ancestor it is, in version order. Steps without a
/// completed ancestor are placed first, at depth 0, each with its
/// descendants; every step whose chain of completed ancestors reaches such
/// a step is placed as a child of its nearest completed ancestor. A second
/// pass places, at depth 0, what a malformed loop of ancestors left out.
pub fn lineage_order(config: &GenerativeConfig) -> (r: Vec<LineagePlacement>)
    requires
        config.versions@.len() < usize::MAX,
    ensures
        placed_ids(r@).no_duplicates(),
        forall|x: u128| is_record_node(*config, x) <==> placed_ids(r@).contains(x),
        forall|k: int| 0 <= k < r@.len() ==> #[trigger] children_ok(*config, r@, k),
        forall|k: int| 0 <= k < r@.len() && #[trigger] r@[k].depth > 0 ==> placed_under(*config, r@, k),
        forall|k: int|
            0 <= k < r@.len() && completed_parent_of(*config, #[trigger] r@[k].id) is None ==> r@[k].depth == 0,
        forall|k: int|
            0 <= k < r@.len() && completed_parent_of(*config, #[trigger] r@[k].id) is Some && reaches_root(
                *config,
                r@[k].id,
                config.versions@.len() as nat,
            ) ==> placed_under(*config, r@, k),
        placement_views(r@) == lineage_walk(*config),
{
    let ghost g = *config;
    let ghost fuel = config.versions@.len() as nat;
    let ids = record_node_ids(config);
    let parents = parents_of(config, &ids);
    proof {
        lemma_record_nodes_len(config.versions@);
    }
    let n = ids.len();
    let mut roots: Vec<u128> = Vec::new();
    for i in 0..n
        invariant
            n == ids@.len(),
            parents@.len() == ids@.len(),
            forall|k: int| 0 <= k < ids@.len() ==> #[trigger] parents@[k] == completed_parent_of(g, ids@[k]),
            forall|t: int| 0 <= t < roots@.len() ==> ids@.contains(#[trigger] roots@[t]) && completed_parent_of(g, roots@[t]) is None,
            forall|t: int| 0 <= t < i && completed_parent_of(g, #[trigger] ids@[t]) is None ==> roots@.contains(ids@[t]),
            roots@ == root_steps(g, ids@.take(i as int)),
    {
        assert(ids@.take(i + 1).drop_last() =~= ids@.take(i as int));
        assert(ids@.take(i + 1).last() == ids@[i as int]);
        let ghost before = roots@;
        assert(parents@[i as int] == completed_parent_of(g, ids@[i as int]));
        if parents[i].is_none() {
            roots.push(ids[i]);
            assert(roots@[roots@.len() - 1] == ids@[i as int]);
        }
        assert forall|t: int| 0 <= t < i + 1 && completed_parent_of(g, #[trigger] ids@[t]) is None implies roots@.contains(ids@[t]) by {
            if t < i {
                assert(roots@.take(before.len() as int) =~= before);
                lemma_prefix_contains(before, roots@, ids@[t]);
            }
        }
    }
    assert(ids@.take(n as int) =~= ids@);
    let mut seen: Vec<u128> = Vec::new();
    let mut out: Vec<LineagePlacement> = Vec::new();
    assert(placed_ids(out@) =~= Seq::<u128>::empty());
    let ghost wf: nat = (ids@.len() + 1) as nat;
    let ghost first = walk_list(g, ids@, wf, roots@, 0, seq![], seq![]);
    assert(placement_views(out@) =~= Seq::<(u128, int, Seq<u128>)>::empty());
    let nr = roots.len();
    for j in 0..nr
        invariant
            nr == roots@.len(),
            g == *config,
            wf == ids@.len() + 1,
            roots@ == root_steps(g, ids@),
            walk_list(g, ids@, wf, roots@, j as int, seen@, placement_views(out@)) == first,
            ids@ == record_nodes(g.versions@),
            parents@.len() == ids@.len(),
            forall|k: int| 0 <= k < ids@.len() ==> #[trigger] parents@[k] == completed_parent_of(g, ids@[k]),
            ids@.len() < usize::MAX,
            forall|t: int| 0 <= t < roots@.len() ==> ids@.contains(#[trigger] roots@[t]) && completed_parent_of(g, roots@[t]) is None,
            forall|t: int| 0 <= t < n && completed_parent_of(g, #[trigger] ids@[t]) is None ==> roots@.contains(ids@[t]),
            n == ids@.len(),
            seen@.no_duplicates(),
            forall|x: u128| seen@.contains(x) ==> ids@.contains(x),
            placed_ids(out@).no_duplicates(),
            forall|x: u128| placed_ids(out@).contains(x) <==> seen@.contains(x),
            forall|x: u128, c: u128| seen@.contains(x) && #[trigger] kids(g, ids@, x).contains(c) ==> seen@.contains(c),
            forall|k: int| 0 <= k < out@.len() ==> #[trigger] children_ok(g, out@, k),
            forall|k: int| 0 <= k < out@.len() && #[trigger] out@[k].depth > 0 ==> placed_under(g, out@, k),
            forall|k: int| 0 <= k < out@.len() && completed_parent_of(g, #[trigger] out@[k].id) is Some ==> placed_under(g, out@, k),
            forall|t: int| 0 <= t < j ==> seen@.contains(#[trigger] roots@[t]),
    {
        let x = roots[j];
        let ghost seen_b = seen@;
        let ghost out_b = out@;
        let placed = place(&ids, &parents, Ghost(g), Ghost(wf), x, 0, &mut seen, &mut out);
        proof {
            assert(walk_list(g, ids@, wf, roots@, j as int, seen_b, placement_views(out_b)) == walk_list(
                g,
                ids@,
                wf,
                roots@,
                j + 1,
                seen@,
                placement_views(out@),
            ));
            lemma_top_step(g, ids@, seen_b, seen@, out_b, out@, x, placed);
            assert forall|k: int| 0 <= k < out@.len() && completed_parent_of(g, #[trigger] out@[k].id) is Some implies placed_under(g, out@, k) by {
                if k < out_b.len() {
                    lemma_extension_keeps(g, out_b, out@, k);
                } else if k == out@.len() - 1 {
                    assert(out@[k].id == x);
                }
            }
            assert forall|t: int| 0 <= t < j + 1 implies seen@.contains(#[trigger] roots@[t]) by {
                if t < j {
                    lemma_prefix_contains(seen_b, seen@, roots@[t]);
                }
            }
        }
    }
    proof {
        assert forall|y: u128| ids@.contains(y) && completed_parent_of(g, y) is None implies seen@.contains(y) by {
            let t = choose|t: int| 0 <= t < n && ids@[t] == y;
            assert(completed_parent_of(g, ids@[t]) is None);
            assert(roots@.contains(y));
            let q = choose|q: int| 0 <= q < nr && roots@[q] == y;
            assert(seen@.contains(roots@[q]));
        }
        assert forall|y: u128| ids@.contains(y) && reaches_root(g, y, fuel) implies seen@.contains(y) by {
            lemma_reached(g, ids@, seen@, y, fuel);
        }
        assert(first == (seen@, placement_views(out@)));
    }
    for j in 0..n
        invariant
            g == *config,
            fuel == config.versions@.len() as nat,
            wf == ids@.len() + 1,
            walk_list(g, ids@, wf, ids@, j as int, seen@, placement_views(out@)) == walk_list(
                g,
                ids@,
                wf,
                ids@,
                0,
                first.0,
                first.1,
            ),
            first == walk_list(g, ids@, wf, root_steps(g, ids@), 0, seq![], seq![]),
            ids@ == record_nodes(g.versions@),
            parents@.len() == ids@.len(),
            forall|k: int| 0 <= k < ids@.len() ==> #[trigger] parents@[k] == completed_parent_of(g, ids@[k]),
            ids@.len() < usize::MAX,
            n == ids@.len(),
            seen@.no_duplicates(),
            forall|x: u128| seen@.contains(x) ==> ids@.contains(x),
            placed_ids(out@).no_duplicates(),
            forall|x: u128| placed_ids(out@).contains(x) <==> seen@.contains(x),
            forall|x: u128, c: u128| seen@.contains(x) && #[trigger] kids(g, ids@, x).contains(c) ==> seen@.contains(c),
            forall|k: int| 0 <= k < out@.len() ==> #[trigger] children_ok(g, out@, k),
            forall|k: int| 0 <= k < out@.len() && #[trigger] out@[k].depth > 0 ==> placed_under(g, out@, k),
            forall|y: u128| ids@.contains(y) && reaches_root(g, y, fuel) ==> seen@.contains(y),
            forall|k: int|
                0 <= k < out@.len() && completed_parent_of(g, #[trigger] out@[k].id) is Some && reaches_root(g, out@[k].id, fuel)
                    ==> placed_under(g, out@, k),
            forall|t: int| 0 <= t < j ==> seen@.contains(#[trigger] ids@[t]),
    {
        let x = ids[j];
        let ghost seen_b = seen@;
        let ghost out_b = out@;
        let placed = place(&ids, &parents, Ghost(g), Ghost(wf), x, 0, &mut seen, &mut out);
        proof {
            assert(walk_list(g, ids@, wf, ids@, j as int, seen_b, placement_views(out_b)) == walk_list(
                g,
                ids@,
                wf,
                ids@,
                j + 1,
                seen@,
                placement_views(out@),
            ));
            lemma_top_step(g, ids@, seen_b, seen@, out_b, out@, x, placed);
            assert forall|y: u128| ids@.contains(y) && reaches_root(g, y, fuel) implies seen@.contains(y) by {
                lemma_prefix_contains(seen_b, seen@, y);
            }
            assert forall|k: int|
                0 <= k < out@.len() && completed_parent_of(g, #[trigger] out@[k].id) is Some && reaches_root(g, out@[k].id, fuel)
                    implies placed_under(g, out@, k) by {
                if k < out_b.len() {
                    lemma_extension_keeps(g, out_b, out@, k);
                } else if k == out@.len() - 1 {
                    assert(out@[k].id == x);
                    assert(!seen_b.contains(x));
                }
            }
            assert forall|t: int| 0 <= t < j + 1 implies seen@.contains(#[trigger] ids@[t]) by {
                if t < j {
                    lemma_prefix_contains(seen_b, seen@, ids@[t]);
                }
            }
        }
    }
    proof {
        assert(placement_views(out@) == walk_list(g, ids@, wf, ids@, n as int, seen@, placement_views(out@)).1);
        assert forall|x: u128| is_record_node(*config, x) <==> placed_ids(out@).contains(x) by {
            lemma_record_nodes(config.versions@, x);
            if ids@.contains(x) {
                let t = choose|t: int| 0 <= t < n && ids@[t] == x;
                assert(seen@.contains(ids@[t]));
            }
        }
        assert forall|k: int|
            0 <= k < out@.len() && completed_parent_of(*config, #[trigger] out@[k].id) is None implies out@[k].depth == 0 by {
            if out@[k].depth > 0 {
                assert(placed_under(g, out@, k));
            }
        }
    }
    out
}

/// One placement from the top keeps what holds between placements from the
/// top: every step seen is placed, the children of a seen step are seen,
/// children are listed as `children_ok` says, and a step placed below the
/// top is placed under its nearest completed ancestor.
proof fn lemma_top_step(
    g: GenerativeConfig,
    ids: Seq<u128>,
    seen_b: Seq<u128>,
    seen: Seq<u128>,
    out_b: Seq<LineagePlacement>,
    out: Seq<LineagePlacement>,
    x: u128,
    placed: bool,
)
    requires
        forall|y: u128| placed_ids(out_b).contains(y) <==> seen_b.contains(y),
        forall|y: u128, c: u128| seen_b.contains(y) && #[trigger] kids(g, ids, y).contains(c) ==> seen_b.contains(c),
        forall|k: int| 0 <= k < out_b.len() ==> #[trigger] children_ok(g, out_b, k),
        forall|k: int| 0 <= k < out_b.len() && #[trigger] out_b[k].depth > 0 ==> placed_under(g, out_b, k),
        seen.len() >= seen_b.len(),
        seen.take(seen_b.len() as int) == seen_b,
        out.len() >= out_b.len(),
        out.take(out_b.len() as int) == out_b,
        forall|y: u128| placed_ids(out).contains(y) ==> seen.contains(y),
        forall|y: u128| seen.contains(y) && !seen_b.contains(y) ==> placed_ids(out).contains(y),
        forall|k: int|
            out_b.len() <= k < out.len() ==> !seen_b.contains(#[trigger] out[k].id)
                && ((out[k].depth == 0 && out[k].id == x) || (out[k].depth > 0 && completed_parent_of(g, out[k].id) is Some)),
        !placed ==> out == out_b && seen == seen_b,
        placed ==> out.len() > out_b.len() && out.last().id == x && out.last().depth == 0,
        forall|k: int| out_b.len() <= k < out.len() - 1 ==> #[trigger] placed_under(g, out, k),
        forall|k: int| out_b.len() <= k < out.len() ==> #[trigger] children_ok(g, out, k),
        forall|k: int, c: u128|
            out_b.len() <= k < out.len() && #[trigger] kids(g, ids, out[k].id).contains(c) ==> seen.contains(c),
    ensures
        forall|y: u128| placed_ids(out).contains(y) <==> seen.contains(y),
        forall|y: u128, c: u128| seen.contains(y) && #[trigger] kids(g, ids, y).contains(c) ==> seen.contains(c),
        forall|k: int| 0 <= k < out.len() ==> #[trigger] children_ok(g, out, k),
        forall|k: int| 0 <= k < out.len() && #[trigger] out[k].depth > 0 ==> placed_under(g, out, k),
        forall|k: int| out_b.len() <= k < out.len() - 1 ==> #[trigger] placed_under(g, out, k),
{
    assert forall|y: u128| placed_ids(out).contains(y) <==> seen.contains(y) by {
        if seen.contains(y) && seen_b.contains(y) {
            let t = choose|t: int| 0 <= t < placed_ids(out_b).len() && placed_ids(out_b)[t] == y;
            assert(out.take(out_b.len() as int)[t] == out_b[t]);
            assert(placed_ids(out)[t] == y);
        }
    }
    assert forall|y: u128, c: u128| seen.contains(y) && #[trigger] kids(g, ids, y).contains(c) implies seen.contains(c) by {
        if seen_b.contains(y) {
            lemma_prefix_contains(seen_b, seen, c);
        } else {
            let k = choose|k: int| 0 <= k < placed_ids(out).len() && placed_ids(out)[k] == y;
            if k < out_b.len() {
                assert(out.take(out_b.len() as int)[k] == out_b[k]);
                assert(placed_ids(out_b)[k] == y);
                assert(placed_ids(out_b).contains(y));
            }
            assert(out[k].id == y);
        }
    }
    assert forall|k: int| 0 <= k < out.len() implies #[trigger] children_ok(g, out, k) by {
        if k < out_b.len() {
            lemma_extension_keeps(g, out_b, out, k);
        }
    }
    assert forall|k: int| 0 <= k < out.len() && #[trigger] out[k].depth > 0 implies placed_under(g, out, k) by {
        if k < out_b.len() {
            lemma_extension_keeps(g, out_b, out, k);
        } else if k == out.len() - 1 {
            assert(out[k].depth == 0 || placed_under(g, out, k));
        }
    }
}

} // verus!
