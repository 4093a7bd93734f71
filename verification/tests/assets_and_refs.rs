use latentslate::assets::{
    asset_source_label, generative_folder, generative_output_for_asset, generative_media_type, generative_output_extensions,
    generative_source_for_extraction, is_generative_audio, is_generative_image, is_generative_video,
    resolve_generative_output_file, set_generative_folder, ExtractedAssetOutput,
};
use latentslate::editor::{
    default_generative_video_frames, validate_generative_input_refs, EditorOverlays, InputRefError,
    ProjectRefs, DEFAULT_GENERATIVE_VIDEO_FRAME_COUNT,
};
use latentslate::ids::{
    first_duplicate_uuid, normalize_project_provider_scope, unique_uuid_list, ProjectProviderScope,
};
use latentslate::media_refs::literal_config_input;
use latentslate::import::{is_project_local_folder, is_supported_asset_extension, is_supported_asset_import_path};
use latentslate::lab::{
    asset_lab_generation_ref_for_input, asset_lab_input_is_media_link, asset_lab_primary_media_input_name,
};
use latentslate::lab_model::{AssetLabGraph, GenerationRecord, GenerativeConfig, InputValue, SourceFrameReference};
use latentslate::labels::{asset_lab_input_label, seed_strategy_label, SeedStrategy};
use latentslate::model::{Asset, AssetKind, ProviderEntry, ProviderInputField, ProviderInputType, ProviderOutputType};
use latentslate::moves::Clip;

fn generative(kind: &str) -> Asset {
    let folder = format!("generated/{kind}/abc");
    let active_version = Some("v2".to_string());
    let kind = match kind {
        "image" => AssetKind::GenerativeImage { folder, active_version },
        "video" => AssetKind::GenerativeVideo { folder, active_version },
        _ => AssetKind::GenerativeAudio { folder, active_version },
    };
    Asset { id: 9, name: "gen".to_string(), kind }
}

fn field(name: &str, label: &str, input_type: ProviderInputType) -> ProviderInputField {
    ProviderInputField { name: name.to_string(), label: label.to_string(), input_type }
}

#[test]
fn generative_kinds_and_folders() {
    let img = generative("image");
    assert!(is_generative_image(&img.kind));
    assert!(!is_generative_video(&img.kind));
    assert!(is_generative_audio(&generative("audio").kind));
    assert_eq!(generative_folder(&img).map(|s| s.as_str()), Some("generated/image/abc"));
    assert_eq!(generative_media_type(&img), Some("image"));
    assert_eq!(generative_media_type(&generative("video")), Some("video"));
    let plain = Asset { id: 1, name: "a".to_string(), kind: AssetKind::Image { path: "a.png".to_string() } };
    assert_eq!(generative_folder(&plain), None);
    assert_eq!(generative_media_type(&plain), None);
    let mut moved = generative("audio");
    set_generative_folder(&mut moved, "generated/audio/new".to_string());
    assert_eq!(generative_folder(&moved).map(|s| s.as_str()), Some("generated/audio/new"));
    assert_eq!(asset_source_label(&plain), Some("a.png".to_string()));
}

#[test]
fn output_files_follow_extension_preference() {
    let img = generative("image");
    let exts = generative_output_extensions(&img).unwrap();
    assert_eq!(exts, vec!["png", "jpg", "jpeg", "gif", "webp"]);
    let files = vec!["v2.jpg".to_string(), "v2.webp".to_string(), "v1.png".to_string()];
    assert_eq!(resolve_generative_output_file(&files, Some("v2"), &exts), Some("v2.jpg".to_string()));
    assert_eq!(resolve_generative_output_file(&files, Some("v3"), &exts), None);
    assert_eq!(resolve_generative_output_file(&files, None, &exts), None);
}

#[test]
fn extraction_uses_the_requested_or_active_version() {
    let video = generative("video");
    let files = vec!["v1.mov".to_string(), "v2.mp4".to_string()];
    let active = generative_source_for_extraction(&video, None, &files).unwrap();
    assert_eq!(active.file_name, "v2.mp4");
    assert_eq!(active.output, ExtractedAssetOutput::Video);
    assert_eq!(active.target_subdir, "video");
    assert_eq!(active.default_extension, "mp4");
    assert_eq!(active.version.as_deref(), Some("v2"));
    let older = generative_source_for_extraction(&video, Some("v1"), &files).unwrap();
    assert_eq!(older.file_name, "v1.mov");
    assert!(generative_source_for_extraction(&video, Some("v9"), &files).is_none());
    let plain = Asset { id: 1, name: "a".to_string(), kind: AssetKind::Video { path: "a.mp4".to_string() } };
    assert!(generative_source_for_extraction(&plain, Some("v1"), &files).is_none());
}

#[test]
fn unique_ids_keep_first_occurrences() {
    assert_eq!(unique_uuid_list(&[3, 1, 3, 2, 1]), vec![3, 1, 2]);
    assert_eq!(unique_uuid_list(&[]), Vec::<u128>::new());
    assert_eq!(first_duplicate_uuid(&[3, 1, 2, 1, 3]), Some(1));
    assert_eq!(first_duplicate_uuid(&[3, 1, 2]), None);
    let twice = unique_uuid_list(&unique_uuid_list(&[5, 5, 6]));
    assert_eq!(twice, vec![5, 6]);
    assert_eq!(first_duplicate_uuid(&unique_uuid_list(&[9, 8, 9])), None);
}

#[test]
fn provider_scope_drops_repeats() {
    match normalize_project_provider_scope(ProjectProviderScope::Selected { provider_ids: vec![4, 4, 2, 4] }) {
        ProjectProviderScope::Selected { provider_ids } => assert_eq!(provider_ids, vec![4, 2]),
        ProjectProviderScope::All => panic!("scope changed kind"),
    }
    assert!(matches!(normalize_project_provider_scope(ProjectProviderScope::All), ProjectProviderScope::All));
}

#[test]
fn import_extensions_ignore_case() {
    assert!(is_supported_asset_extension("MP4"));
    assert!(is_supported_asset_extension("jpeg"));
    assert!(!is_supported_asset_extension("txt"));
    assert!(!is_supported_asset_extension(""));
    assert!(is_supported_asset_import_path("footage/Take.MOV"));
    assert!(is_supported_asset_import_path("a.b/c.flac"));
    assert!(!is_supported_asset_import_path("notes.txt"));
    assert!(!is_supported_asset_import_path("footage/mp4"));
    assert!(is_supported_asset_import_path("CLIP.Mp4"));
    assert!(is_supported_asset_import_path("take.1.wav"));
    assert!(!is_supported_asset_import_path(".mp4"));
    assert!(!is_supported_asset_import_path("clip."));
    assert!(!is_supported_asset_import_path("mp4"));
    assert!(is_supported_asset_import_path("/home/me/Footage/Take 2.mkv"));
    assert!(is_supported_asset_import_path("C:\\Users\\me\\Desktop\\shot.WEBP"));
    assert!(!is_supported_asset_import_path("/home/me/notes.md"));
    assert!(!is_supported_asset_import_path("/home/me/.hidden"));
}

#[test]
fn input_labels_are_cleaned() {
    let label = |l: &str, n: &str| asset_lab_input_label(&field(n, l, ProviderInputType::Text));
    assert_eq!(label("  ", "neg_prompt"), "Negative Prompt");
    assert_eq!(label("LatentSlate cfg", "x"), "CFG Scale");
    assert_eq!(label("Style  reference", "x"), "Style reference");
    assert_eq!(label("IMAGE STRENGTH", "x"), "Image Strength");
    assert_eq!(label("latentslate_latentslate_seed-value", "x"), "seed value");
    assert_eq!(seed_strategy_label(SeedStrategy::Random), "Random");
}

#[test]
fn generation_refs_fit_the_input_media() {
    let video = generative("video");
    let image_input = field("image", "Image", ProviderInputType::Image);
    match asset_lab_generation_ref_for_input(&video, &image_input, "v3") {
        Some(InputValue::GenerationRef { asset_id, version, frame_reference }) => {
            assert_eq!(asset_id, 9);
            assert_eq!(version, "v3");
            assert_eq!(frame_reference, Some(SourceFrameReference::First));
        }
        _ => panic!("expected a generation reference"),
    }
    let audio_input = field("audio", "Audio", ProviderInputType::Audio);
    assert!(asset_lab_generation_ref_for_input(&video, &audio_input, "v3").is_none());
    assert!(asset_lab_input_is_media_link(&video, &image_input));
    assert!(!asset_lab_input_is_media_link(&video, &audio_input));
    let provider = ProviderEntry {
        id: 1,
        name: "p".to_string(),
        output_type: ProviderOutputType::Video,
        inputs: vec![field("prompt", "Prompt", ProviderInputType::Text), audio_input, image_input],
    };
    assert_eq!(asset_lab_primary_media_input_name(&video, &provider).map(|s| s.as_str()), Some("image"));
}

fn config_with_versions(names: &[&str]) -> GenerativeConfig {
    GenerativeConfig {
        provider_id: None,
        active_version: None,
        inputs: Vec::new(),
        reference_slots: Vec::new(),
        versions: names
            .iter()
            .map(|v| GenerationRecord {
                version: v.to_string(),
                timestamp_ms: 0,
                provider_id: 1,
                inputs_snapshot: Vec::new(),
                lab_node_id: None,
            })
            .collect(),
        lab_graph: AssetLabGraph { nodes: Vec::new(), selected_node_id: None },
    }
}

#[test]
fn input_refs_report_the_first_problem() {
    let project = ProjectRefs {
        asset_ids: vec![1, 2, 3],
        clips: vec![Clip { id: 50, asset_id: 1, track_id: 7 }],
        configs: vec![(2, config_with_versions(&["v1"]))],
    };
    let ok = vec![
        ("a".to_string(), InputValue::AssetRef { asset_id: 1, source_clip_id: Some(50), pinned: false, frame_reference: None }),
        ("b".to_string(), InputValue::GenerationRef { asset_id: 2, version: "v1".to_string(), frame_reference: None }),
        ("c".to_string(), InputValue::Literal { json: "1".to_string() }),
    ];
    assert!(validate_generative_input_refs(&project, &ok).is_ok());
    let check = |value: InputValue| validate_generative_input_refs(&project, &vec![("in".to_string(), value)]);
    let missing = check(InputValue::AssetRef { asset_id: 0x10, source_clip_id: None, pinned: false, frame_reference: None });
    match missing {
        Err(e @ InputRefError::MissingAsset { .. }) => {
            assert_eq!(e.message(), "Input in references missing asset 00000000-0000-0000-0000-000000000010.")
        }
        other => panic!("unexpected {other:?}"),
    }
    assert!(matches!(
        check(InputValue::AssetRef { asset_id: 1, source_clip_id: Some(51), pinned: false, frame_reference: None }),
        Err(InputRefError::MissingSourceClip { clip_id: 51, .. })
    ));
    assert!(matches!(
        check(InputValue::AssetRef { asset_id: 3, source_clip_id: Some(50), pinned: false, frame_reference: None }),
        Err(InputRefError::ClipOfOtherAsset { clip_id: 50, asset_id: 3, .. })
    ));
    assert!(matches!(
        check(InputValue::GenerationRef { asset_id: 3, version: "v1".to_string(), frame_reference: None }),
        Err(InputRefError::NotGenerative { asset_id: 3, .. })
    ));
    match check(InputValue::GenerationRef { asset_id: 2, version: "v7".to_string(), frame_reference: None }) {
        Err(e @ InputRefError::MissingVersion { .. }) => {
            assert_eq!(e.message(), "Input in references missing generation version v7.")
        }
        other => panic!("unexpected {other:?}"),
    }
}

#[test]
fn editor_defaults() {
    assert_eq!(default_generative_video_frames(), DEFAULT_GENERATIVE_VIDEO_FRAME_COUNT);
    let overlays = EditorOverlays::default();
    let _ = overlays.clone();
}

use latentslate::editor::ProjectDirtyState;

#[test]
fn saved_projects_stay_clean_until_they_change() {
    let mut state = ProjectDirtyState { project_dirty: true, saved_fingerprint: None };
    state.mark_project_clean(Some("abc".to_string()));
    assert!(!state.project_dirty);
    state.refresh_project_dirty_state(Some("abc".to_string()));
    assert!(!state.project_dirty);
    state.refresh_project_dirty_state(Some("abd".to_string()));
    assert!(state.project_dirty);
    assert_eq!(state.saved_fingerprint.as_deref(), Some("abc"));
    state.refresh_project_dirty_state(None);
    assert!(!state.project_dirty);
    assert_eq!(state.saved_fingerprint, None);
    state.refresh_project_dirty_state(Some("x".to_string()));
    assert!(!state.project_dirty);
}

#[test]
fn generative_outputs_give_folder_and_media() {
    let assets = vec![
        Asset { id: 1, name: "clip".to_string(), kind: AssetKind::Video { path: "a.mp4".to_string() } },
        Asset {
            id: 2,
            name: "gen".to_string(),
            kind: AssetKind::GenerativeAudio { folder: "generated/audio/x".to_string(), active_version: None },
        },
    ];
    assert_eq!(generative_output_for_asset(&assets, 1), None);
    assert_eq!(
        generative_output_for_asset(&assets, 2),
        Some(("generated/audio/x".to_string(), ProviderOutputType::Audio))
    );
    assert_eq!(generative_output_for_asset(&assets, 3), None);
}

#[test]
fn literal_inputs_read_back_as_json_text() {
    let mut config = config_with_versions(&[]);
    config.inputs = vec![
        ("seed".to_string(), InputValue::Literal { json: "42".to_string() }),
        ("image".to_string(), InputValue::AssetRef { asset_id: 1, source_clip_id: None, pinned: false, frame_reference: None }),
    ];
    assert_eq!(literal_config_input(&config, "seed").as_deref(), Some("42"));
    assert_eq!(literal_config_input(&config, "image"), None);
    assert_eq!(literal_config_input(&config, "prompt"), None);
}

#[test]
fn only_project_local_folders_may_be_removed() {
    assert!(is_project_local_folder("generated/image/abc"));
    assert!(is_project_local_folder("generated\\video\\x"));
    assert!(is_project_local_folder("..foo/bar.."));
    assert!(!is_project_local_folder("/home/me/generated"));
    assert!(is_project_local_folder("gen:1"));
    assert!(is_project_local_folder("a\\b"));
    assert!(!is_project_local_folder("./.."));
    assert!(!is_project_local_folder("generated/../../etc"));
    assert!(!is_project_local_folder(".."));
}
