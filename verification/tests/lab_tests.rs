use latentslate::graph_layout::{asset_lab_graph_layout, AssetLabGhostLayoutEntry, AssetLabGraphLayoutEntry};
use latentslate::lab::{
    apply_active_generation_version_to_config, asset_lab_provider_name, asset_lab_version_exists,
    generative_config_references_version,
};
use latentslate::lab_edit::delete_asset_lab_node;
use latentslate::lab_model::{
    AssetLabGraph, AssetLabNode, GenerationRecord, GenerativeConfig, InputValue,
};
use latentslate::lineage::completed_parent;
use latentslate::lineage_order::lineage_order;
use latentslate::media_refs::{
    asset_lab_media_ref_links, asset_lab_ordered_media_ref_inputs, asset_lab_version_source_nodes,
};
use latentslate::model::{Asset, AssetKind, ProviderEntry, ProviderInputField, ProviderInputType, ProviderOutputType};
use latentslate::records::{preferred_asset_lab_version, sorted_generation_records};
use latentslate::version::parse_version_index;

fn record(version: &str, timestamp_ms: i64, lab_node_id: Option<u128>) -> GenerationRecord {
    GenerationRecord {
        version: version.to_string(),
        timestamp_ms,
        provider_id: 99,
        inputs_snapshot: Vec::new(),
        lab_node_id,
    }
}

fn node(id: u128, parent: Option<u128>) -> AssetLabNode {
    AssetLabNode { id, parent_node_id: parent, provider_id: None, inputs: Vec::new(), output_version: None }
}

fn config(versions: Vec<GenerationRecord>, nodes: Vec<AssetLabNode>) -> GenerativeConfig {
    GenerativeConfig {
        provider_id: None,
        active_version: None,
        inputs: Vec::new(),
        reference_slots: Vec::new(),
        versions,
        lab_graph: AssetLabGraph { nodes, selected_node_id: None },
    }
}

fn gen_ref(asset_id: u128, version: &str) -> InputValue {
    InputValue::GenerationRef { asset_id, version: version.to_string(), frame_reference: None }
}

fn image_asset(id: u128) -> Asset {
    Asset {
        id,
        name: "Portrait".to_string(),
        kind: AssetKind::GenerativeImage { folder: "generated/image/p".to_string(), active_version: None },
    }
}

fn field(name: &str, label: &str, input_type: ProviderInputType) -> ProviderInputField {
    ProviderInputField { name: name.to_string(), label: label.to_string(), input_type }
}

#[test]
fn version_index_reads_v_numbers_only() {
    assert_eq!(parse_version_index("v1"), Some(1));
    assert_eq!(parse_version_index("v042"), Some(42));
    assert_eq!(parse_version_index("v18446744073709551615"), Some(u64::MAX));
    assert_eq!(parse_version_index("v18446744073709551616"), None);
    assert_eq!(parse_version_index("v"), None);
    assert_eq!(parse_version_index("V3"), None);
    assert_eq!(parse_version_index("v3a"), None);
    assert_eq!(parse_version_index("take"), None);
}

#[test]
fn records_sort_newest_first() {
    let c = config(
        vec![
            record("v2", 10, None),
            record("v10", 5, None),
            record("v9", 50, None),
            record("draft", 1, None),
            record("v9", 60, None),
        ],
        Vec::new(),
    );
    let sorted: Vec<(String, i64)> =
        sorted_generation_records(&c).into_iter().map(|r| (r.version, r.timestamp_ms)).collect();
    assert_eq!(
        sorted,
        vec![
            ("v10".to_string(), 5),
            ("v9".to_string(), 60),
            ("v9".to_string(), 50),
            ("v2".to_string(), 10),
            ("draft".to_string(), 1),
        ]
    );
}

#[test]
fn sorted_records_keep_every_record_in_order() {
    let c = config(
        vec![record("b", 3, None), record("v1", 2, None), record("a", 9, None), record("v3", 1, None)],
        Vec::new(),
    );
    let sorted = sorted_generation_records(&c);
    assert_eq!(sorted.len(), 4);
    let mut names: Vec<String> = sorted.iter().map(|r| r.version.clone()).collect();
    assert_eq!(names, vec!["v3", "v1", "b", "a"]);
    names.sort();
    assert_eq!(names, vec!["a", "b", "v1", "v3"]);
}

#[test]
fn preferred_version_is_active_when_recorded() {
    let mut c = config(vec![record("v1", 1, None), record("v2", 2, None)], Vec::new());
    assert_eq!(preferred_asset_lab_version(&c), Some("v2".to_string()));
    c.active_version = Some("v1".to_string());
    assert_eq!(preferred_asset_lab_version(&c), Some("v1".to_string()));
    c.active_version = Some("v7".to_string());
    assert_eq!(preferred_asset_lab_version(&c), Some("v2".to_string()));
    assert_eq!(preferred_asset_lab_version(&config(Vec::new(), Vec::new())), None);
}

#[test]
fn layout_walks_roots_with_fresh_lanes() {
    // 1 -> {2, 3}, 2 -> {4}; 5 is a second root.
    let nodes = vec![node(1, None), node(2, Some(1)), node(3, Some(1)), node(4, Some(2)), node(5, None)];
    let c = config(Vec::new(), nodes);
    let layout = asset_lab_graph_layout(Some(&c), Some(3));
    let entries: Vec<(u128, usize, usize)> =
        layout.nodes.iter().map(|e| (e.node_id, e.lane, e.depth)).collect();
    assert_eq!(entries, vec![(1, 0, 0), (2, 0, 1), (4, 0, 2), (3, 1, 1), (5, 2, 0)]);
    assert_eq!(
        layout.ghost_entry,
        Some(AssetLabGhostLayoutEntry { parent_node_id: 3, lane: 1, depth: 2 })
    );
}

#[test]
fn layout_places_each_node_once_and_every_root() {
    let nodes = vec![node(1, None), node(1, None), node(2, Some(1)), node(3, Some(3))];
    let c = config(Vec::new(), nodes);
    let layout = asset_lab_graph_layout(Some(&c), None);
    assert_eq!(
        layout.nodes,
        vec![
            AssetLabGraphLayoutEntry { node_id: 1, lane: 0, depth: 0 },
            AssetLabGraphLayoutEntry { node_id: 2, lane: 0, depth: 1 },
        ]
    );
    assert_eq!(layout.ghost_entry, None);
    let empty = asset_lab_graph_layout(None, Some(1));
    assert!(empty.nodes.is_empty() && empty.ghost_entry.is_none());
}

#[test]
fn layout_ghost_takes_the_lane_of_a_leaf() {
    let c = config(Vec::new(), vec![node(8, None)]);
    let layout = asset_lab_graph_layout(Some(&c), Some(8));
    assert_eq!(layout.ghost_entry, Some(AssetLabGhostLayoutEntry { parent_node_id: 8, lane: 0, depth: 1 }));
}

#[test]
fn completed_parent_skips_unfinished_steps() {
    let c = config(
        vec![record("v1", 1, Some(1))],
        vec![node(1, None), node(2, Some(1)), node(3, Some(2))],
    );
    assert_eq!(completed_parent(&c, 3), Some(1));
    assert_eq!(completed_parent(&c, 1), None);
    let cyclic = config(vec![record("v1", 1, Some(9))], vec![node(1, Some(2)), node(2, Some(1))]);
    assert_eq!(completed_parent(&cyclic, 1), None);
}

#[test]
fn media_refs_follow_provider_order_then_names() {
    let asset = image_asset(10);
    let mut n = node(2, Some(1));
    n.inputs = vec![
        ("z_extra".to_string(), gen_ref(10, "v3")),
        ("style".to_string(), gen_ref(10, "v2")),
        ("a-other_ref".to_string(), gen_ref(10, "v1")),
        ("foreign".to_string(), gen_ref(11, "v1")),
        ("prompt".to_string(), InputValue::Literal { json: "\"cat\"".to_string() }),
    ];
    let p = ProviderEntry {
        id: 5,
        name: "Edit".to_string(),
        output_type: ProviderOutputType::Image,
        inputs: vec![
            field("prompt", "Prompt", ProviderInputType::Text),
            field("style", "Style reference", ProviderInputType::Image),
            field("z_extra", "Extra", ProviderInputType::Text),
        ],
    };
    let refs: Vec<(String, String)> = asset_lab_ordered_media_ref_inputs(&asset, &n, Some(&p))
        .into_iter()
        .map(|r| (r.label, r.version))
        .collect();
    assert_eq!(
        refs,
        vec![
            ("Style reference".to_string(), "v2".to_string()),
            ("a other ref".to_string(), "v1".to_string()),
            ("Extra".to_string(), "v3".to_string()),
        ]
    );
    let bare: Vec<String> = asset_lab_ordered_media_ref_inputs(&asset, &n, None)
        .into_iter()
        .map(|r| r.label)
        .collect();
    assert_eq!(bare, vec!["a other ref", "style", "z extra"]);
}

#[test]
fn version_sources_prefer_records_then_first_output() {
    let mut a = node(1, None);
    a.output_version = Some("v1".to_string());
    let mut b = node(2, None);
    b.output_version = Some("v1".to_string());
    let mut c = node(3, None);
    c.output_version = Some("v2".to_string());
    let versions = vec![record("v2", 1, Some(7)), record("v2", 2, Some(8)), record("v3", 3, None)];
    let mut sources = asset_lab_version_source_nodes(&vec![a, b, c], &versions);
    sources.sort();
    assert_eq!(sources, vec![("v1".to_string(), 1), ("v2".to_string(), 8)]);
}

#[test]
fn media_links_skip_parent_and_unknown_versions() {
    let asset = image_asset(10);
    let mut root = node(1, None);
    root.output_version = Some("v1".to_string());
    let mut other = node(2, None);
    other.output_version = Some("v2".to_string());
    let mut child = node(3, Some(1));
    child.inputs = vec![
        ("b".to_string(), gen_ref(10, "v1")),
        ("c".to_string(), gen_ref(10, "v2")),
        ("d".to_string(), gen_ref(10, "v9")),
    ];
    let nodes = vec![root, other, child];
    let links = asset_lab_media_ref_links(&asset, &nodes, &Vec::new(), &Vec::new());
    let got: Vec<(u128, u128, String, usize, usize)> = links
        .into_iter()
        .map(|l| (l.source_node_id, l.target_node_id, l.label, l.port_index, l.port_count))
        .collect();
    assert_eq!(got, vec![(2, 3, "c".to_string(), 1, 3)]);
}

#[test]
fn deleting_a_step_keeps_its_outputs() {
    let mut c = config(
        vec![record("v1", 1, Some(1)), record("v2", 2, Some(2)), record("v3", 3, Some(3))],
        vec![node(1, None), node(2, Some(1)), node(3, Some(2))],
    );
    c.lab_graph.selected_node_id = Some(2);
    assert!(delete_asset_lab_node(&mut c, 2).is_ok());
    let nodes: Vec<(u128, Option<u128>)> = c.lab_graph.nodes.iter().map(|n| (n.id, n.parent_node_id)).collect();
    assert_eq!(nodes, vec![(1, None), (3, Some(1))]);
    let records: Vec<(String, Option<u128>)> =
        c.versions.iter().map(|r| (r.version.clone(), r.lab_node_id)).collect();
    assert_eq!(
        records,
        vec![("v1".to_string(), Some(1)), ("v2".to_string(), Some(1)), ("v3".to_string(), Some(3))]
    );
    assert_eq!(c.lab_graph.selected_node_id, Some(1));
}

#[test]
fn deleting_a_missing_step_changes_nothing() {
    let mut c = config(vec![record("v1", 1, Some(1))], vec![node(1, None)]);
    let err = delete_asset_lab_node(&mut c, 4).unwrap_err();
    assert_eq!(err, "Asset Lab node not found.");
    assert_eq!(c.lab_graph.nodes.len(), 1);
    assert_eq!(c.versions[0].lab_node_id, Some(1));
}

#[test]
fn deleting_the_only_root_selects_the_first_remaining_step() {
    let mut c = config(Vec::new(), vec![node(1, None), node(2, Some(1))]);
    c.lab_graph.selected_node_id = Some(1);
    delete_asset_lab_node(&mut c, 1).unwrap();
    assert_eq!(c.lab_graph.nodes[0].parent_node_id, None);
    assert_eq!(c.lab_graph.selected_node_id, Some(2));
}

#[test]
fn active_version_takes_the_record_setup() {
    let mut rec = record("v2", 2, Some(5));
    rec.inputs_snapshot = vec![("prompt".to_string(), InputValue::Literal { json: "\"dog\"".to_string() })];
    let mut c = config(vec![record("v1", 1, None), rec], vec![node(5, None)]);
    assert!(!apply_active_generation_version_to_config(&mut c, "v3"));
    assert_eq!(c.active_version, None);
    assert!(apply_active_generation_version_to_config(&mut c, "v2"));
    assert_eq!(c.active_version.as_deref(), Some("v2"));
    assert_eq!(c.provider_id, Some(99));
    assert_eq!(c.inputs.len(), 1);
    assert_eq!(c.lab_graph.selected_node_id, Some(5));
    assert_eq!(c.lab_graph.nodes[0].output_version.as_deref(), Some("v2"));
    assert!(asset_lab_version_exists(Some(&c), "v1"));
    assert!(!asset_lab_version_exists(None, "v1"));
}

#[test]
fn config_references_versions_through_nodes() {
    let mut n = node(1, None);
    n.inputs = vec![("image".to_string(), gen_ref(10, "v4"))];
    let c = config(Vec::new(), vec![n]);
    assert!(generative_config_references_version(&c, 10, "v4"));
    assert!(!generative_config_references_version(&c, 10, "v5"));
    assert!(!generative_config_references_version(&c, 11, "v4"));
}

#[test]
fn provider_name_falls_back_to_uuid_text() {
    let providers = vec![ProviderEntry {
        id: 1,
        name: "Local".to_string(),
        output_type: ProviderOutputType::Image,
        inputs: Vec::new(),
    }];
    assert_eq!(asset_lab_provider_name(&providers, 1), "Local");
    assert_eq!(
        asset_lab_provider_name(&providers, 0x0123456789abcdef0011223344556677),
        "01234567-89ab-cdef-0011-223344556677"
    );
}

#[test]
fn lineage_places_children_before_their_parent() {
    let c = config(
        vec![record("v1", 1, Some(1)), record("v2", 2, Some(2)), record("v3", 3, Some(3)), record("v4", 4, Some(4))],
        vec![node(1, None), node(2, Some(1)), node(3, Some(2)), node(5, Some(1)), node(4, Some(5))],
    );
    let placed: Vec<(u128, usize, Vec<u128>)> =
        lineage_order(&c).into_iter().map(|p| (p.id, p.depth, p.children)).collect();
    assert_eq!(
        placed,
        vec![(3, 2, vec![]), (2, 1, vec![3]), (4, 1, vec![]), (1, 0, vec![2, 4])]
    );
}

#[test]
fn lineage_places_a_malformed_loop_once() {
    let c = config(
        vec![record("v1", 1, Some(7)), record("v2", 2, Some(8))],
        vec![node(7, Some(8)), node(8, Some(7))],
    );
    let placed: Vec<(u128, usize)> = lineage_order(&c).into_iter().map(|p| (p.id, p.depth)).collect();
    assert_eq!(placed, vec![(8, 1), (7, 0)]);
}

/// Horizontal slots over the placement order, as the lineage view draws them:
/// a leaf takes the next slot, a parent sits midway between its first and
/// last child.
fn lineage_slots(c: &GenerativeConfig) -> Vec<(u128, f32, usize)> {
    let mut out: Vec<(u128, f32, usize)> = Vec::new();
    let mut next = 0.0f32;
    for p in lineage_order(c) {
        let x_of = |id: &u128| out.iter().find(|(i, _, _)| i == id).map(|(_, x, _)| *x);
        let x = match (p.children.first().and_then(x_of), p.children.last().and_then(x_of)) {
            (Some(a), Some(b)) => (a + b) * 0.5,
            _ => {
                next += 1.0;
                next - 1.0
            }
        };
        out.push((p.id, x, p.depth));
    }
    out
}

#[test]
fn asset_lab_v4_lineage_keeps_continuations_above_parents() {
    let parents = [None, Some(0), Some(1), Some(1), Some(1), Some(2), Some(5), Some(5), None];
    let ids: Vec<u128> = (0..9).map(|i| 100 + i as u128).collect();
    let mut versions = Vec::new();
    let mut nodes = Vec::new();
    for (i, parent) in parents.iter().enumerate() {
        nodes.push(node(ids[i], parent.map(|p: usize| ids[p])));
        versions.push(record(&format!("v{}", i + 1), i as i64, Some(ids[i])));
    }
    let mut c = config(versions, nodes);
    let order: Vec<u128> = lineage_order(&c).into_iter().map(|p| p.id).collect();
    assert_eq!(order, vec![ids[6], ids[7], ids[5], ids[2], ids[3], ids[4], ids[1], ids[0], ids[8]]);
    let positions = lineage_slots(&c);
    let at = |index: usize| *positions.iter().find(|(id, _, _)| *id == ids[index]).unwrap();
    assert_eq!(positions.len(), 9);
    assert_eq!(at(0).1, at(1).1);
    assert_eq!(at(2).1, at(5).1, "v6 must stay directly above v3");
    assert_eq!(at(5).2, at(2).2 + 1);
    assert!(at(2).1 < at(3).1 && at(3).1 < at(4).1);
    assert!(at(6).1 < at(5).1 && at(5).1 < at(7).1);
    for (i, (_, x, depth)) in positions.iter().enumerate() {
        for (_, other_x, other_depth) in positions.iter().skip(i + 1) {
            if depth == other_depth {
                assert!((x - other_x).abs() >= 1.0, "branches must not overlap");
            }
        }
    }
    // Legacy unfinished nodes are skipped without changing visible ancestry.
    c.lab_graph.nodes[5].parent_node_id = Some(999);
    c.lab_graph.nodes.push(node(999, Some(ids[2])));
    assert_eq!(lineage_slots(&c), positions);
}
