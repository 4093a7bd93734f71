use latentslate::lab::{
    asset_lab_node_version, asset_lab_output_type, asset_lab_provider_is_compatible, edit_step_provider,
};
use latentslate::lab_model::{AssetLabGraph, AssetLabNode, GenerationRecord, GenerativeConfig, InputValue};
use latentslate::lab_sync::{ensure_asset_lab_graph_for_versions, link_versions_to_lab_graph};
use latentslate::model::{Asset, AssetKind, ProviderEntry, ProviderInputField, ProviderInputType, ProviderOutputType};
use latentslate::version_delete::delete_generative_version;

const ASSET: u128 = 10;

fn record(version: &str, timestamp_ms: i64, lab_node_id: Option<u128>) -> GenerationRecord {
    GenerationRecord {
        version: version.to_string(),
        timestamp_ms,
        provider_id: 99,
        inputs_snapshot: vec![("prompt".to_string(), InputValue::Literal { json: format!("\"{version}\"") })],
        lab_node_id,
    }
}

fn node(id: u128, parent: Option<u128>, output: Option<&str>) -> AssetLabNode {
    AssetLabNode {
        id,
        parent_node_id: parent,
        provider_id: None,
        inputs: Vec::new(),
        output_version: output.map(|v| v.to_string()),
    }
}

fn config(versions: Vec<GenerationRecord>, nodes: Vec<AssetLabNode>) -> GenerativeConfig {
    GenerativeConfig {
        provider_id: Some(1),
        active_version: None,
        inputs: Vec::new(),
        reference_slots: Vec::new(),
        versions,
        lab_graph: AssetLabGraph { nodes, selected_node_id: None },
    }
}

fn gen_ref(version: &str) -> InputValue {
    InputValue::GenerationRef { asset_id: ASSET, version: version.to_string(), frame_reference: None }
}

#[test]
fn linking_creates_a_chain_in_creation_order() {
    let mut c = config(vec![record("v2", 20, None), record("v1", 10, None)], Vec::new());
    let fresh = vec![501, 502];
    assert!(link_versions_to_lab_graph(&mut c, Some("v2"), &fresh));
    let nodes: Vec<(u128, Option<u128>, Option<String>)> = c
        .lab_graph
        .nodes
        .iter()
        .map(|n| (n.id, n.parent_node_id, n.output_version.clone()))
        .collect();
    assert_eq!(
        nodes,
        vec![(501, None, Some("v1".to_string())), (502, Some(501), Some("v2".to_string()))]
    );
    assert_eq!(c.versions[0].lab_node_id, Some(502));
    assert_eq!(c.versions[1].lab_node_id, Some(501));
    assert_eq!(c.lab_graph.nodes[0].provider_id, Some(99));
    assert_eq!(c.lab_graph.nodes[0].inputs.len(), 1);
    assert_eq!(c.lab_graph.selected_node_id, Some(502));
}

#[test]
fn linking_twice_changes_nothing_more() {
    let mut c = config(vec![record("v1", 10, None), record("v2", 20, None)], Vec::new());
    assert!(link_versions_to_lab_graph(&mut c, None, &vec![7, 8]));
    assert_eq!(c.lab_graph.selected_node_id, Some(7));
    assert!(!link_versions_to_lab_graph(&mut c, None, &vec![9, 10]));
    assert_eq!(c.lab_graph.nodes.len(), 2);
}

#[test]
fn linking_credits_existing_outputs_and_chains_imported_roots() {
    let mut imported = node(2, None, Some("v2"));
    imported.inputs = record("v2", 0, None).inputs_snapshot;
    let mut c = config(
        vec![record("v1", 10, None), record("v2", 20, Some(2))],
        vec![node(1, None, Some("v1")), imported],
    );
    c.lab_graph.selected_node_id = Some(77);
    assert!(link_versions_to_lab_graph(&mut c, None, &vec![900, 901]));
    assert_eq!(c.versions[0].lab_node_id, Some(1));
    assert_eq!(c.lab_graph.nodes.len(), 2);
    assert_eq!(c.lab_graph.nodes[1].parent_node_id, Some(1));
    assert_eq!(c.lab_graph.selected_node_id, Some(1));
}

#[test]
fn linking_with_random_identifiers_gives_each_version_a_step() {
    let mut c = config(vec![record("v1", 1, None), record("v2", 2, None), record("v3", 3, None)], Vec::new());
    assert!(ensure_asset_lab_graph_for_versions(&mut c, Some("v3")));
    assert_eq!(c.lab_graph.nodes.len(), 3);
    for r in &c.versions {
        let id = r.lab_node_id.expect("linked");
        assert!(c.lab_graph.nodes.iter().any(|n| n.id == id));
    }
    assert_eq!(c.lab_graph.selected_node_id, c.versions[2].lab_node_id);
}

#[test]
fn deleting_a_version_clears_its_references() {
    let mut c = config(
        vec![record("v1", 1, Some(1)), record("v2", 2, Some(2)), record("v3", 3, None)],
        vec![node(1, None, Some("v1")), node(2, Some(1), Some("v2"))],
    );
    c.lab_graph.nodes[1].inputs = vec![("image".to_string(), gen_ref("v1")), ("mask".to_string(), gen_ref("v2"))];
    c.reference_slots = vec![("style".to_string(), gen_ref("v1"))];
    c.inputs = vec![("image".to_string(), gen_ref("v1"))];
    c.active_version = Some("v1".to_string());
    assert!(delete_generative_version(&mut c, ASSET, "v1").is_ok());
    let names: Vec<&str> = c.versions.iter().map(|r| r.version.as_str()).collect();
    assert_eq!(names, vec!["v2", "v3"]);
    assert!(c.reference_slots.is_empty());
    assert_eq!(c.lab_graph.nodes[0].output_version, None);
    assert_eq!(c.lab_graph.nodes[1].inputs.len(), 1);
    assert_eq!(c.lab_graph.nodes[1].inputs[0].0, "mask");
    assert_eq!(c.active_version.as_deref(), Some("v3"));
    assert_eq!(c.provider_id, Some(99));
    match &c.inputs[0].1 {
        InputValue::Literal { json } => assert_eq!(json, "\"v3\""),
        _ => panic!("inputs come from the new active version"),
    }
}

#[test]
fn deleting_an_inactive_version_keeps_the_active_one() {
    let mut c = config(vec![record("v1", 1, None), record("v2", 2, None)], Vec::new());
    c.active_version = Some("v2".to_string());
    c.inputs = vec![("a".to_string(), gen_ref("v1")), ("b".to_string(), gen_ref("v2"))];
    delete_generative_version(&mut c, ASSET, "v1").unwrap();
    assert_eq!(c.active_version.as_deref(), Some("v2"));
    assert_eq!(c.inputs.len(), 1);
    assert_eq!(c.provider_id, Some(1));
}

#[test]
fn deleting_the_last_version_leaves_no_active_one() {
    let mut c = config(vec![record("v1", 1, None)], Vec::new());
    c.active_version = Some("v1".to_string());
    delete_generative_version(&mut c, ASSET, "v1").unwrap();
    assert!(c.versions.is_empty());
    assert_eq!(c.active_version, None);
}

#[test]
fn deleting_a_missing_version_is_an_error() {
    let mut c = config(vec![record("v1", 1, None)], Vec::new());
    let err = delete_generative_version(&mut c, ASSET, "v4").unwrap_err();
    assert_eq!(err, "Version v4 was not found.");
    assert_eq!(c.versions.len(), 1);
}

fn provider(id: u128, output_type: ProviderOutputType, input_type: ProviderInputType) -> ProviderEntry {
    ProviderEntry {
        id,
        name: format!("p{id}"),
        output_type,
        inputs: vec![ProviderInputField { name: "in".to_string(), label: "In".to_string(), input_type }],
    }
}

#[test]
fn edit_step_provider_prefers_the_producer_that_takes_the_version() {
    let asset = Asset {
        id: ASSET,
        name: "img".to_string(),
        kind: AssetKind::GenerativeImage { folder: "f".to_string(), active_version: None },
    };
    assert_eq!(asset_lab_output_type(&asset), Some(ProviderOutputType::Image));
    let providers = vec![
        provider(1, ProviderOutputType::Image, ProviderInputType::Image),
        provider(2, ProviderOutputType::Image, ProviderInputType::Text),
        provider(3, ProviderOutputType::Video, ProviderInputType::Image),
        provider(4, ProviderOutputType::Image, ProviderInputType::Image),
    ];
    assert!(asset_lab_provider_is_compatible(&asset, &providers[0]));
    assert!(!asset_lab_provider_is_compatible(&asset, &providers[2]));
    assert_eq!(edit_step_provider(&asset, 4, "v1", &providers).map(|p| p.id), Some(4));
    assert_eq!(edit_step_provider(&asset, 2, "v1", &providers).map(|p| p.id), Some(1));
    let text_only = vec![providers[1].clone(), providers[2].clone()];
    assert_eq!(edit_step_provider(&asset, 2, "v1", &text_only).map(|p| p.id), Some(2));
    assert_eq!(edit_step_provider(&asset, 3, "v1", &text_only).map(|p| p.id), Some(2));
    assert!(edit_step_provider(&asset, 3, "v1", &vec![providers[2].clone()]).is_none());
}

#[test]
fn node_version_prefers_the_node_output() {
    let c = config(
        vec![record("v1", 1, Some(5)), record("v2", 2, Some(5)), record("v3", 3, Some(6))],
        vec![node(5, None, None), node(6, None, Some("v9"))],
    );
    assert_eq!(asset_lab_node_version(&c, 5), Some("v2".to_string()));
    assert_eq!(asset_lab_node_version(&c, 6), Some("v9".to_string()));
    assert_eq!(asset_lab_node_version(&c, 7), None);
}

use latentslate::lab_edit::{add_asset_lab_node, add_asset_lab_node_with_id, update_asset_lab_node_input};

#[test]
fn adding_a_step_checks_its_provider() {
    let asset = Asset {
        id: ASSET,
        name: "img".to_string(),
        kind: AssetKind::GenerativeImage { folder: "f".to_string(), active_version: None },
    };
    let providers = vec![
        provider(1, ProviderOutputType::Image, ProviderInputType::Image),
        provider(2, ProviderOutputType::Audio, ProviderInputType::Audio),
    ];
    let mut c = config(Vec::new(), vec![node(1, None, None)]);
    assert_eq!(
        add_asset_lab_node_with_id(&mut c, &asset, &providers, Some(9), 5),
        Err("Provider is unavailable.".to_string())
    );
    assert_eq!(
        add_asset_lab_node_with_id(&mut c, &asset, &providers, Some(2), 5),
        Err("Provider output type does not match this asset.".to_string())
    );
    assert_eq!(c.lab_graph.nodes.len(), 1);
    assert!(add_asset_lab_node_with_id(&mut c, &asset, &providers, Some(1), 5).is_ok());
    assert_eq!(c.lab_graph.nodes.len(), 2);
    assert_eq!(c.lab_graph.nodes[1].id, 5);
    assert_eq!(c.lab_graph.nodes[1].provider_id, Some(1));
    assert_eq!(c.lab_graph.selected_node_id, Some(5));
    let id = add_asset_lab_node(&mut c, &asset, &providers, None).unwrap();
    assert_eq!(c.lab_graph.nodes[2].id, id);
    assert_eq!(c.lab_graph.selected_node_id, Some(id));
}

#[test]
fn updating_a_step_input_sets_or_removes_it() {
    let mut c = config(Vec::new(), vec![node(1, None, None), node(2, None, None)]);
    update_asset_lab_node_input(&mut c, 2, "prompt".to_string(), Some(InputValue::Literal { json: "\"a\"".to_string() }));
    update_asset_lab_node_input(&mut c, 2, "seed".to_string(), Some(InputValue::Literal { json: "1".to_string() }));
    update_asset_lab_node_input(&mut c, 2, "prompt".to_string(), Some(InputValue::Literal { json: "\"b\"".to_string() }));
    let names: Vec<&str> = c.lab_graph.nodes[1].inputs.iter().map(|b| b.0.as_str()).collect();
    assert_eq!(names, vec!["prompt", "seed"]);
    match &c.lab_graph.nodes[1].inputs[0].1 {
        InputValue::Literal { json } => assert_eq!(json, "\"b\""),
        _ => panic!("literal expected"),
    }
    update_asset_lab_node_input(&mut c, 2, "prompt".to_string(), None);
    assert_eq!(c.lab_graph.nodes[1].inputs.len(), 1);
    assert_eq!(c.lab_graph.selected_node_id, Some(2));
    update_asset_lab_node_input(&mut c, 7, "prompt".to_string(), None);
    assert_eq!(c.lab_graph.selected_node_id, Some(2));
    assert!(c.lab_graph.nodes[0].inputs.is_empty());
}

use latentslate::lab::{asset_lab_record_for_version, asset_lab_record_is_node_baseline};

#[test]
fn record_lookup_and_baseline() {
    let c = config(vec![record("v1", 1, Some(3)), record("v2", 2, None), record("v1", 3, None)], vec![node(3, None, None)]);
    assert_eq!(asset_lab_record_for_version(Some(&c), Some("v1")).map(|r| r.timestamp_ms), Some(1));
    assert!(asset_lab_record_for_version(Some(&c), Some("v9")).is_none());
    assert!(asset_lab_record_for_version(Some(&c), None).is_none());
    assert!(asset_lab_record_for_version(None, Some("v1")).is_none());
    assert!(asset_lab_record_is_node_baseline(&c.versions[0], &c.lab_graph.nodes[0]));
    assert!(!asset_lab_record_is_node_baseline(&c.versions[1], &c.lab_graph.nodes[0]));
    let by_output = node(4, None, Some("v2"));
    assert!(asset_lab_record_is_node_baseline(&c.versions[1], &by_output));
}

#[test]
fn visual_assets_are_images_and_videos() {
    let image = Asset { id: 1, name: "i".to_string(), kind: AssetKind::Image { path: "i.png".to_string() } };
    let gen_video = Asset {
        id: 2,
        name: "v".to_string(),
        kind: AssetKind::GenerativeVideo { folder: "f".to_string(), active_version: None },
    };
    let audio = Asset { id: 3, name: "a".to_string(), kind: AssetKind::Audio { path: "a.wav".to_string() } };
    assert!(image.is_visual() && gen_video.is_visual() && !audio.is_visual());
    assert!(gen_video.is_generative() && !image.is_generative());
    assert_eq!(gen_video.active_version(), None);
}

#[test]
fn linking_keeps_existing_steps_and_selects_one() {
    let mut c = config(vec![record("v1", 10, None), record("v2", 20, None)], vec![node(900, None, None)]);
    c.lab_graph.selected_node_id = Some(12345);
    ensure_asset_lab_graph_for_versions(&mut c, None);
    assert_eq!(c.lab_graph.nodes[0].id, 900);
    assert_eq!(c.lab_graph.nodes.len(), 3);
    let selected = c.lab_graph.selected_node_id.expect("a step is selected");
    assert!(c.lab_graph.nodes.iter().any(|n| n.id == selected));
}
