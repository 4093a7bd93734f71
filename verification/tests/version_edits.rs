use latentslate::lab_model::{AssetLabGraph, AssetLabNode, GenerationRecord, GenerativeConfig, InputValue};
use latentslate::version_edit::{duplicate_generative_version, set_generative_active_version};
use latentslate::version_guard::{
    check_version_deletable, delete_generative_version_in_project, generation_version_dependents,
};

fn record(version: &str, provider_id: u128, lab_node_id: Option<u128>) -> GenerationRecord {
    GenerationRecord {
        version: version.to_string(),
        timestamp_ms: 100,
        provider_id,
        inputs_snapshot: vec![("prompt".to_string(), InputValue::Literal { json: format!("\"{version}\"") })],
        lab_node_id,
    }
}

fn node(id: u128, output: Option<&str>) -> AssetLabNode {
    AssetLabNode {
        id,
        parent_node_id: None,
        provider_id: None,
        inputs: Vec::new(),
        output_version: output.map(|v| v.to_string()),
    }
}

fn config() -> GenerativeConfig {
    GenerativeConfig {
        provider_id: Some(1),
        active_version: Some("v2".to_string()),
        inputs: Vec::new(),
        reference_slots: Vec::new(),
        versions: vec![record("v1", 5, Some(70)), record("v2", 6, None)],
        lab_graph: AssetLabGraph { nodes: vec![node(70, Some("v1")), node(71, None)], selected_node_id: Some(71) },
    }
}

fn prompt_of(c: &GenerativeConfig) -> Option<String> {
    match c.inputs.first() {
        Some((_, InputValue::Literal { json })) => Some(json.clone()),
        _ => None,
    }
}

#[test]
fn activating_a_version_takes_its_provider_inputs_and_step() {
    let mut c = config();
    assert!(set_generative_active_version(&mut c, "v1").is_ok());
    assert_eq!(c.active_version.as_deref(), Some("v1"));
    assert_eq!(c.provider_id, Some(5));
    assert_eq!(prompt_of(&c).as_deref(), Some("\"v1\""));
    assert_eq!(c.lab_graph.selected_node_id, Some(70));
    assert_eq!(c.versions.len(), 2);
}

#[test]
fn activating_a_missing_version_changes_nothing() {
    let mut c = config();
    let err = set_generative_active_version(&mut c, "v9").unwrap_err();
    assert_eq!(err, "Version v9 was not found.");
    assert_eq!(c.active_version.as_deref(), Some("v2"));
    assert_eq!(c.provider_id, Some(1));
    assert_eq!(c.lab_graph.selected_node_id, Some(71));
}

#[test]
fn duplicating_appends_an_active_copy() {
    let mut c = config();
    assert_eq!(duplicate_generative_version(&mut c, "v1", "v3", 777), Ok("v3".to_string()));
    assert_eq!(c.versions.len(), 3);
    let copy = &c.versions[2];
    assert_eq!(copy.version, "v3");
    assert_eq!(copy.timestamp_ms, 777);
    assert_eq!(copy.provider_id, 5);
    assert_eq!(copy.lab_node_id, Some(70));
    assert_eq!(c.versions[0].version, "v1");
    assert_eq!(c.active_version.as_deref(), Some("v3"));
    assert_eq!(c.provider_id, Some(5));
    assert_eq!(prompt_of(&c).as_deref(), Some("\"v1\""));
    assert_eq!(c.lab_graph.selected_node_id, Some(70));
    assert_eq!(c.lab_graph.nodes[0].output_version.as_deref(), Some("v3"));
    assert_eq!(c.lab_graph.nodes[1].output_version, None);
}

#[test]
fn duplicating_a_missing_version_changes_nothing() {
    let mut c = config();
    assert_eq!(
        duplicate_generative_version(&mut c, "v8", "v3", 1),
        Err("Version v8 was not found.".to_string())
    );
    assert_eq!(c.versions.len(), 2);
    assert_eq!(c.active_version.as_deref(), Some("v2"));
}

fn gen_asset(id: u128, name: &str) -> latentslate::model::Asset {
    latentslate::model::Asset {
        id,
        name: name.to_string(),
        kind: latentslate::model::AssetKind::GenerativeImage { folder: format!("generated/{id}"), active_version: None },
    }
}

fn referring_config(target: u128, version: &str) -> GenerativeConfig {
    let mut c = config();
    c.inputs = vec![(
        "image".to_string(),
        InputValue::GenerationRef { asset_id: target, version: version.to_string(), frame_reference: None },
    )];
    c
}

#[test]
fn versions_other_assets_use_cannot_be_deleted() {
    let assets = vec![gen_asset(1, "Base"), gen_asset(2, "Zeta"), gen_asset(3, "Alpha")];
    let mut configs = vec![(1, config()), (2, referring_config(1, "v1")), (3, referring_config(1, "v1"))];
    assert_eq!(
        generation_version_dependents(&configs, &assets, 1, "v1"),
        vec![
            "Alpha (00000000-0000-0000-0000-000000000003)".to_string(),
            "Zeta (00000000-0000-0000-0000-000000000002)".to_string(),
        ]
    );
    let refused = check_version_deletable(&configs, &assets, 1, "v1").unwrap_err();
    assert_eq!(
        refused,
        "Version v1 is referenced by other generative assets: Alpha (00000000-0000-0000-0000-000000000003), Zeta (00000000-0000-0000-0000-000000000002)."
    );
    assert!(delete_generative_version_in_project(&mut configs, &assets, 1, "v1", Ok(())).is_err());
    assert_eq!(configs[0].1.versions.len(), 2);
    assert!(check_version_deletable(&configs, &assets, 1, "v2").is_ok());
    assert_eq!(check_version_deletable(&configs, &assets, 1, "v9"), Err("Version v9 was not found.".to_string()));
    assert_eq!(check_version_deletable(&configs, &assets, 7, "v1"), Err("Asset not found.".to_string()));
}

#[test]
fn project_deletion_needs_the_files_gone() {
    let assets = vec![gen_asset(1, "Base")];
    let mut configs = vec![(1, config())];
    assert_eq!(
        delete_generative_version_in_project(&mut configs, &assets, 1, "v2", Err("locked".to_string())),
        Err("Failed to delete version files: locked".to_string())
    );
    assert_eq!(configs[0].1.versions.len(), 2);
    assert_eq!(delete_generative_version_in_project(&mut configs, &assets, 1, "v2", Ok(())), Ok(()));
    assert_eq!(configs[0].1.versions.len(), 1);
    assert_eq!(configs[0].1.versions[0].version, "v1");
    assert_eq!(configs[0].1.active_version.as_deref(), Some("v1"));
}
