use latentslate::commands::{
    check_delete_targets, check_marker_track, check_selection, missing_ids, requested_track_name,
    select_item, DeleteKind, ItemIds, ItemKind, LookupError, MarkerTrackError, MissingItem,
};
use latentslate::moves::{Track, TrackType};
use latentslate::config_check::{
    check_config_patch, check_config_replacement, check_provider_choice, project_scoped_provider_entries,
    provider_in_scope, ConfigRefusal, GenerativeConfigPatch,
};
use latentslate::credentials::{
    credential_report, redacted_credentials_for_scope, CredentialReport, ProviderConnectionKind,
    ProviderCredential,
};
use latentslate::editor::{InputRefError, ProjectRefs};
use latentslate::ids::ProjectProviderScope;
use latentslate::lab_model::{AssetLabGraph, GenerationRecord, GenerativeConfig, InputValue};
use latentslate::model::{Asset, AssetKind, ProviderEntry, ProviderOutputType};

fn generative_image(id: u128) -> Asset {
    Asset {
        id,
        name: "gen image".to_string(),
        kind: AssetKind::GenerativeImage { folder: "generated/image".to_string(), active_version: None },
    }
}

fn provider(id: u128, output_type: ProviderOutputType) -> ProviderEntry {
    ProviderEntry { id, name: "video provider".to_string(), output_type, inputs: Vec::new() }
}

fn config(versions: &[&str]) -> GenerativeConfig {
    GenerativeConfig {
        provider_id: None,
        active_version: None,
        inputs: Vec::new(),
        reference_slots: Vec::new(),
        versions: versions
            .iter()
            .map(|v| GenerationRecord {
                version: v.to_string(),
                timestamp_ms: 0,
                provider_id: 1,
                inputs_snapshot: Vec::new(),
                lab_node_id: None,
            })
            .collect(),
        lab_graph: AssetLabGraph { nodes: Vec::new(), selected_node_id: None },
    }
}

fn empty_patch() -> GenerativeConfigPatch {
    GenerativeConfigPatch { provider_id: None, inputs: None, reference_slots: None, active_version: None }
}

fn no_items() -> ItemIds {
    ItemIds { clips: Vec::new(), assets: Vec::new(), tracks: Vec::new(), markers: Vec::new() }
}

#[test]
fn delete_commands_report_missing_ids() {
    let existing_assets: Vec<u128> = Vec::new();
    let missing_asset = 0x1234_u128;
    let response = check_delete_targets(DeleteKind::Assets, &existing_assets, &vec![missing_asset]);
    let refused = response.expect_err("a missing asset is refused");
    assert_eq!(refused.http_status(), 404);
    assert_eq!(refused.ids, vec![missing_asset]);

    let existing_clips: Vec<u128> = Vec::new();
    let missing_clip = 0x5678_u128;
    let response = check_delete_targets(DeleteKind::Clips, &existing_clips, &vec![missing_clip]);
    let refused = response.expect_err("a missing clip is refused");
    assert_eq!(refused.http_status(), 404);
    assert_eq!(refused.ids, vec![missing_clip]);
}

#[test]
fn delete_messages_list_every_missing_id() {
    let refused = check_delete_targets(DeleteKind::Assets, &vec![2], &vec![1, 2, 3]).unwrap_err();
    assert_eq!(refused.ids, vec![1, 3]);
    assert_eq!(
        refused.message(),
        "Assets not found: 00000000-0000-0000-0000-000000000001, 00000000-0000-0000-0000-000000000003"
    );
    let refused = check_delete_targets(DeleteKind::Clips, &vec![], &vec![0xab]).unwrap_err();
    assert_eq!(refused.message(), "Clips not found: 00000000-0000-0000-0000-0000000000ab");
    assert!(check_delete_targets(DeleteKind::Clips, &vec![1, 2], &vec![2, 1]).is_ok());
    assert!(check_delete_targets(DeleteKind::Clips, &vec![], &vec![]).is_ok());
    assert_eq!(missing_ids(&vec![5], &vec![7, 5, 7]), vec![7, 7]);
}

#[test]
fn selecting_by_id_or_position() {
    let ids = vec![10, 20, 30];
    assert_eq!(select_item(&ids, ItemKind::Clip, Some(20), Some(2)), Ok(20));
    assert_eq!(select_item(&ids, ItemKind::Clip, None, None), Ok(10));
    assert_eq!(select_item(&ids, ItemKind::Clip, None, Some(2)), Ok(30));
    let missing = select_item(&ids, ItemKind::Marker, Some(40), None).unwrap_err();
    assert_eq!(missing, LookupError::NotFound(ItemKind::Marker));
    assert!(missing.is_not_found());
    assert_eq!(missing.message(), "Marker not found.");
    let none = select_item(&ids, ItemKind::Track, None, Some(3)).unwrap_err();
    assert!(!none.is_not_found());
    assert_eq!(none.message(), "No matching track found.");
    assert_eq!(
        select_item(&Vec::new(), ItemKind::Asset, None, None).unwrap_err().message(),
        "No matching asset found."
    );
    assert_eq!(LookupError::NotFound(ItemKind::Clip).message(), "Clip not found.");
}

#[test]
fn selection_checks_each_kind_in_turn() {
    let items = ItemIds { clips: vec![1], assets: vec![2], tracks: vec![3], markers: vec![4] };
    let ok = ItemIds { clips: vec![1], assets: vec![2, 2], tracks: vec![], markers: vec![4] };
    assert!(check_selection(&items, &ok).is_ok());
    assert!(check_selection(&no_items(), &no_items()).is_ok());

    let bad = ItemIds { clips: vec![1], assets: vec![9], tracks: vec![8], markers: vec![] };
    let miss = check_selection(&items, &bad).unwrap_err();
    assert_eq!(miss, MissingItem { kind: ItemKind::Asset, id: 9 });
    assert_eq!(miss.message(), "Asset not found: 00000000-0000-0000-0000-000000000009");
    assert_eq!(miss.http_status(), 404);

    let bad = ItemIds { clips: vec![], assets: vec![], tracks: vec![3, 7, 6], markers: vec![5] };
    assert_eq!(check_selection(&items, &bad), Err(MissingItem { kind: ItemKind::Track, id: 7 }));
    let bad = ItemIds { clips: vec![], assets: vec![], tracks: vec![], markers: vec![5] };
    assert_eq!(
        check_selection(&items, &bad).unwrap_err().message(),
        "Marker not found: 00000000-0000-0000-0000-000000000005"
    );
}

#[test]
fn generative_config_rejects_mismatched_provider_output_type() {
    let asset_id = 0x42_u128;
    let assets = vec![generative_image(asset_id)];
    let refs = ProjectRefs { asset_ids: vec![asset_id], clips: Vec::new(), configs: vec![(asset_id, config(&[]))] };
    let provider_id = 0x77_u128;
    let providers = vec![provider(provider_id, ProviderOutputType::Video)];
    let patch = GenerativeConfigPatch { provider_id: Some(provider_id), ..empty_patch() };

    let response = check_config_patch(&refs, &assets, &providers, &ProjectProviderScope::All, asset_id, &patch);

    let refused = response.unwrap_err();
    assert_eq!(refused.http_status(), 409);
    assert!(matches!(refused, ConfigRefusal::ProviderMismatch));
}

#[test]
fn provider_choice_checks_existence_fit_then_scope() {
    let asset = generative_image(1);
    let providers = vec![provider(5, ProviderOutputType::Image), provider(6, ProviderOutputType::Audio)];
    let scope = ProjectProviderScope::Selected { provider_ids: vec![6] };
    assert!(provider_in_scope(&ProjectProviderScope::All, 5));
    assert!(!provider_in_scope(&scope, 5));
    assert!(provider_in_scope(&scope, 6));

    assert!(check_provider_choice(&asset, &providers, &ProjectProviderScope::All, 5).is_ok());
    let outside = check_provider_choice(&asset, &providers, &scope, 5).unwrap_err();
    assert!(matches!(outside, ConfigRefusal::ProviderOutsideScope));
    assert_eq!(outside.http_status(), 409);
    assert_eq!(outside.message(), "Provider is outside this project's provider scope.");
    let mismatch = check_provider_choice(&asset, &providers, &scope, 6).unwrap_err();
    assert_eq!(mismatch.message(), "Provider output type does not match this asset.");
    let missing = check_provider_choice(&asset, &providers, &scope, 7).unwrap_err();
    assert!(matches!(missing, ConfigRefusal::ProviderNotFound));
    assert_eq!(missing.http_status(), 404);
    assert_eq!(missing.message(), "Provider not found.");
}

#[test]
fn config_patches_need_an_existing_generative_asset() {
    let assets = vec![generative_image(1), generative_image(2)];
    let refs = ProjectRefs { asset_ids: vec![1, 2], clips: Vec::new(), configs: vec![(1, config(&["v1"]))] };
    let providers: Vec<ProviderEntry> = Vec::new();
    let all = ProjectProviderScope::All;

    let missing = check_config_patch(&refs, &assets, &providers, &all, 3, &empty_patch()).unwrap_err();
    assert!(matches!(missing, ConfigRefusal::AssetNotFound));
    assert_eq!(missing.message(), "Asset not found.");
    let plain = check_config_patch(&refs, &assets, &providers, &all, 2, &empty_patch()).unwrap_err();
    assert!(matches!(plain, ConfigRefusal::GenerativeAssetNotFound));
    assert_eq!(plain.message(), "Generative asset not found.");

    assert!(check_config_patch(&refs, &assets, &providers, &all, 1, &empty_patch()).is_ok());
    let keep = GenerativeConfigPatch { active_version: Some("v1".to_string()), ..empty_patch() };
    assert!(check_config_patch(&refs, &assets, &providers, &all, 1, &keep).is_ok());
    let unknown = GenerativeConfigPatch { active_version: Some("v2".to_string()), ..empty_patch() };
    let refused = check_config_patch(&refs, &assets, &providers, &all, 1, &unknown).unwrap_err();
    assert!(matches!(refused, ConfigRefusal::VersionNotFound));
    assert_eq!(refused.http_status(), 404);
    assert_eq!(refused.message(), "Generation version not found.");

    let bad_input = GenerativeConfigPatch {
        reference_slots: Some(vec![(
            "ref".to_string(),
            InputValue::AssetRef { asset_id: 9, source_clip_id: None, pinned: false, frame_reference: None },
        )]),
        ..unknown
    };
    let refused = check_config_patch(&refs, &assets, &providers, &all, 1, &bad_input).unwrap_err();
    assert!(matches!(refused, ConfigRefusal::InputRef(InputRefError::MissingAsset { asset_id: 9, .. })));
    assert_eq!(refused.http_status(), 404);
    assert_eq!(refused.message(), "Input ref references missing asset 00000000-0000-0000-0000-000000000009.");
}

#[test]
fn config_replacements_check_their_own_versions() {
    let assets = vec![generative_image(1)];
    let refs = ProjectRefs { asset_ids: vec![1], clips: Vec::new(), configs: Vec::new() };
    let providers = vec![provider(5, ProviderOutputType::Image)];
    let all = ProjectProviderScope::All;

    let mut next = config(&["v3"]);
    next.active_version = Some("v3".to_string());
    next.provider_id = Some(5);
    assert!(check_config_replacement(&refs, &assets, &providers, &all, 1, &next).is_ok());
    assert!(matches!(
        check_config_replacement(&refs, &assets, &providers, &all, 2, &next),
        Err(ConfigRefusal::AssetNotFound)
    ));
    next.active_version = Some("v4".to_string());
    assert!(matches!(
        check_config_replacement(&refs, &assets, &providers, &all, 1, &next),
        Err(ConfigRefusal::VersionNotFound)
    ));
    next.provider_id = Some(8);
    assert!(matches!(
        check_config_replacement(&refs, &assets, &providers, &all, 1, &next),
        Err(ConfigRefusal::ProviderNotFound)
    ));
    let mut bad = config(&[]);
    bad.inputs = vec![(
        "gen".to_string(),
        InputValue::GenerationRef { asset_id: 1, version: "v1".to_string(), frame_reference: None },
    )];
    assert!(matches!(
        check_config_replacement(&refs, &assets, &providers, &all, 1, &bad),
        Err(ConfigRefusal::InputRef(InputRefError::NotGenerative { asset_id: 1, .. }))
    ));
}

#[test]
fn marker_commands_need_a_marker_track() {
    let tracks = vec![Track { id: 1, track_type: TrackType::Video }, Track { id: 2, track_type: TrackType::Marker }];
    assert_eq!(check_marker_track(&tracks, None), Ok(()));
    assert_eq!(check_marker_track(&tracks, Some(2)), Ok(()));
    let conflict = check_marker_track(&tracks, Some(1)).unwrap_err();
    assert_eq!(conflict, MarkerTrackError::NotMarkerTrack);
    assert_eq!((conflict.http_status(), conflict.message()), (409, "Track is not a marker track."));
    let missing = check_marker_track(&tracks, Some(3)).unwrap_err();
    assert_eq!((missing.http_status(), missing.message()), (404, "Track not found."));
}

#[test]
fn track_names_are_trimmed_and_never_blank() {
    assert_eq!(requested_track_name(Some("  Dialogue \t")), Some("Dialogue".to_string()));
    assert_eq!(requested_track_name(Some("   ")), None);
    assert_eq!(requested_track_name(None), None);
}

#[test]
fn scoped_providers_keep_the_listed_ones_in_order() {
    let providers = vec![
        provider(5, ProviderOutputType::Image),
        provider(6, ProviderOutputType::Audio),
        provider(7, ProviderOutputType::Video),
    ];
    let scope = ProjectProviderScope::Selected { provider_ids: vec![7, 5] };
    let ids: Vec<u128> = project_scoped_provider_entries(&providers, &scope).iter().map(|p| p.id).collect();
    assert_eq!(ids, vec![5, 7]);
    let all = project_scoped_provider_entries(&providers, &ProjectProviderScope::All);
    assert_eq!(all.len(), 3);
    assert_eq!(all[1].output_type, ProviderOutputType::Audio);
    assert_eq!(all[1].name, "video provider");
}

#[test]
fn credential_reports_tell_only_whether_a_key_is_set() {
    let creds = vec![
        ProviderCredential { provider_id: 1, kind: ProviderConnectionKind::OpenAiImage, api_key: Some("key".to_string()) },
        ProviderCredential { provider_id: 2, kind: ProviderConnectionKind::XaiVideo, api_key: None },
        ProviderCredential { provider_id: 3, kind: ProviderConnectionKind::ComfyUi, api_key: Some("unused".to_string()) },
    ];
    let scope = ProjectProviderScope::Selected { provider_ids: vec![3, 1] };
    assert_eq!(
        redacted_credentials_for_scope(&creds, &scope, false),
        vec![
            CredentialReport { provider_id: 1, api_key_present: Some(true) },
            CredentialReport { provider_id: 3, api_key_present: None },
        ]
    );
    assert_eq!(
        redacted_credentials_for_scope(&creds, &scope, true),
        vec![
            CredentialReport { provider_id: 1, api_key_present: Some(true) },
            CredentialReport { provider_id: 2, api_key_present: Some(false) },
            CredentialReport { provider_id: 3, api_key_present: None },
        ]
    );
}

#[test]
fn redacts_custom_http_provider_api_key() {
    let provider = ProviderCredential {
        provider_id: 42,
        kind: ProviderConnectionKind::CustomHttp,
        api_key: Some("secret-token".to_string()),
    };
    let report = credential_report(&provider);
    assert_eq!(report.api_key_present, Some(true));
    assert_eq!(report, CredentialReport { provider_id: 42, api_key_present: Some(true) });
}
