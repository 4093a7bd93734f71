use latentslate::labels::agent_api_status_text;
use latentslate::assets::generative_output_file_for_version;
use latentslate::hex_color::{color_to_hex, parse_hex_color};
use latentslate::lab::{binding_matches_candidate, AssetInputCandidate};
use latentslate::lab_model::{InputValue, SourceFrameReference};
use latentslate::model::{Asset, AssetKind};
use latentslate::selection::{resolve_asset, resolve_asset_or_selected};

fn asset(id: u128, name: &str) -> Asset {
    Asset { id, name: name.to_string(), kind: AssetKind::Image { path: format!("{name}.png") } }
}

#[test]
fn hex_colors_parse_six_digits() {
    assert_eq!(parse_hex_color("#ff8000"), Some((255, 128, 0)));
    assert_eq!(parse_hex_color("  ##0A0b0C \n"), Some((10, 11, 12)));
    assert_eq!(parse_hex_color("123456"), Some((0x12, 0x34, 0x56)));
    assert_eq!(parse_hex_color("+abcde"), Some((0x0a, 0xbc, 0xde)));
    assert_eq!(parse_hex_color("#fff"), None);
    assert_eq!(parse_hex_color("#12345g"), None);
    assert_eq!(parse_hex_color("#1234567"), None);
    assert_eq!(parse_hex_color(""), None);
}

#[test]
fn resolve_asset_prefers_id_then_name_then_first() {
    let assets = vec![asset(1, "a"), asset(2, "b"), asset(3, "b")];
    assert_eq!(resolve_asset(&assets, Some(9), Some("b")), Some(9));
    assert_eq!(resolve_asset(&assets, None, Some("b")), Some(2));
    assert_eq!(resolve_asset(&assets, None, Some("zz")), Some(1));
    assert_eq!(resolve_asset(&assets, None, None), Some(1));
    assert_eq!(resolve_asset(&Vec::new(), None, None), None);
}

#[test]
fn resolve_asset_or_selected_falls_back_to_selection() {
    let assets = vec![asset(1, "a")];
    assert_eq!(resolve_asset_or_selected(&assets, &vec![5, 6], None, Some("a")), Some(1));
    assert_eq!(resolve_asset_or_selected(&assets, &vec![5, 6], None, Some("x")), Some(5));
    assert_eq!(resolve_asset_or_selected(&assets, &Vec::new(), None, None), None);
}

#[test]
fn binding_matches_only_the_same_reference() {
    let candidate = AssetInputCandidate {
        asset_id: 4,
        source_clip_id: Some(8),
        frame_reference: Some(SourceFrameReference::Last),
        label: "clip".to_string(),
        detail: String::new(),
        contextual: true,
    };
    let value = InputValue::AssetRef {
        asset_id: 4,
        source_clip_id: Some(8),
        pinned: true,
        frame_reference: Some(SourceFrameReference::Last),
    };
    assert!(binding_matches_candidate(Some(&value), &candidate, true));
    assert!(!binding_matches_candidate(Some(&value), &candidate, false));
    assert!(!binding_matches_candidate(None, &candidate, true));
    let other = InputValue::GenerationRef { asset_id: 4, version: "v1".to_string(), frame_reference: None };
    assert!(!binding_matches_candidate(Some(&other), &candidate, true));
}

#[test]
fn output_file_for_version_uses_requested_or_active() {
    let gen = Asset {
        id: 1,
        name: "g".to_string(),
        kind: AssetKind::GenerativeAudio { folder: "gen/a".to_string(), active_version: Some("v1".to_string()) },
    };
    let files = vec!["v1.mp3".to_string(), "v1.wav".to_string(), "v2.ogg".to_string()];
    assert_eq!(generative_output_file_for_version(&gen, None, &files), Some("v1.wav".to_string()));
    assert_eq!(generative_output_file_for_version(&gen, Some("v2"), &files), Some("v2.ogg".to_string()));
    assert_eq!(generative_output_file_for_version(&gen, Some("v3"), &files), None);
    assert_eq!(generative_output_file_for_version(&asset(2, "p"), Some("v1"), &files), None);
}

use latentslate::audio::{audio_decode_asset_ids, decode_targets_to_start, AudioTrack};
use latentslate::moves::{Clip, TrackType};
use latentslate::project_list::{project_listing_name, sort_project_folders, ProjectFolder};

fn folder(name: &str) -> ProjectFolder {
    ProjectFolder {
        name: name.to_string(),
        path: format!("projects/{name}"),
        project_file: format!("projects/{name}/project.json"),
        settings_json: "{}".to_string(),
        modified_unix_ms: None,
    }
}

#[test]
fn project_names_fall_back_to_folder_then_untitled() {
    assert_eq!(project_listing_name(Some("Trailer"), Some("dir")), "Trailer");
    assert_eq!(project_listing_name(None, Some("dir")), "dir");
    assert_eq!(project_listing_name(None, None), "Untitled");
}

#[test]
fn project_folders_sort_by_lowercased_name_stably() {
    let sorted = sort_project_folders(vec![folder("beta"), folder("Alpha"), folder("alpha"), folder("Zed"), folder("a")]);
    let names: Vec<&str> = sorted.iter().map(|f| f.name.as_str()).collect();
    assert_eq!(names, vec!["a", "Alpha", "alpha", "beta", "Zed"]);
}

#[test]
fn audio_decodes_each_sounding_asset_once() {
    let tracks = vec![
        AudioTrack { id: 1, track_type: TrackType::Video, muted: false },
        AudioTrack { id: 2, track_type: TrackType::Audio, muted: true },
        AudioTrack { id: 3, track_type: TrackType::Marker, muted: false },
        AudioTrack { id: 4, track_type: TrackType::Audio, muted: false },
    ];
    let assets = vec![
        Asset { id: 10, name: "v".to_string(), kind: AssetKind::Video { path: "v.mp4".to_string() } },
        Asset { id: 11, name: "i".to_string(), kind: AssetKind::Image { path: "i.png".to_string() } },
        Asset { id: 12, name: "s".to_string(), kind: AssetKind::Audio { path: "s.wav".to_string() } },
    ];
    let clips = vec![
        Clip { id: 1, asset_id: 12, track_id: 2 },
        Clip { id: 2, asset_id: 10, track_id: 1 },
        Clip { id: 3, asset_id: 11, track_id: 1 },
        Clip { id: 4, asset_id: 12, track_id: 4 },
        Clip { id: 5, asset_id: 10, track_id: 4 },
        Clip { id: 6, asset_id: 12, track_id: 3 },
        Clip { id: 7, asset_id: 99, track_id: 4 },
    ];
    assert_eq!(audio_decode_asset_ids(&tracks, &clips, &assets), vec![10, 12]);
}

#[test]
fn decode_round_skips_failed_cached_and_running() {
    let mut in_flight = vec![3];
    let started = decode_targets_to_start(&vec![1, 2, 3, 4, 4, 5], &vec![2], &vec![5], &mut in_flight);
    assert_eq!(started, vec![1, 4]);
    assert_eq!(in_flight, vec![3, 1, 4]);
}

#[test]
fn agent_api_status_follows_listener_and_activity() {
    assert_eq!(agent_api_status_text(true, true).0, "ACTIVE");
    assert_eq!(agent_api_status_text(false, true).1, "Accepting automation requests from this device only.");
    assert_eq!(
        agent_api_status_text(true, false),
        ("PAUSED", "The local listener is ready; automation requests are paused.")
    );
    assert_eq!(agent_api_status_text(false, false), ("OFF", "Enable the service to start the local listener."));
}

#[test]
fn color_text_is_lower_case_and_reads_back() {
    assert_eq!(color_to_hex(0x12, 0xab, 0x00), "#12ab00");
    assert_eq!(color_to_hex(255, 255, 255), "#ffffff");
    for (r, g, b) in [(0u8, 0u8, 0u8), (1, 2, 3), (0xfe, 0x80, 0x7f)] {
        assert_eq!(parse_hex_color(&color_to_hex(r, g, b)), Some((r, g, b)));
    }
}
