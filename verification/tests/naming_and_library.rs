use std::cmp::Ordering;

use latentslate::library::{
    asset_icon, asset_kind_label, asset_matches_search, asset_media_group, asset_natural_cmp,
    asset_provider_output_type, compare_asset_rows, provider_matches_asset_output,
    AssetLibraryFilter, AssetLibraryGrouping, AssetLibrarySort, AssetMediaGroup,
};
use latentslate::model::{Asset, AssetKind, ProviderEntry, ProviderOutputType};
use latentslate::naming::{
    asset_lab_short_port_label, deleted_assets_status, include_requested, path_label,
    sanitize_file_stem, unique_asset_copy_name, unique_asset_name, unique_file_name,
};
use latentslate::library_view::{
    asset_library_rows, asset_library_summary, asset_row_visible, hidden_selected_count, visible_asset_indices,
};
use latentslate::natural::natural_case_insensitive_cmp;

fn image(id: u128, name: &str) -> Asset {
    Asset {
        id,
        name: name.to_string(),
        kind: AssetKind::Image { path: format!("media/{name}.png") },
    }
}

fn generative_image(id: u128, name: &str) -> Asset {
    Asset {
        id,
        name: name.to_string(),
        kind: AssetKind::GenerativeImage {
            folder: "generated/image/abc".to_string(),
            active_version: Some("v1".to_string()),
        },
    }
}

fn provider(output_type: ProviderOutputType) -> ProviderEntry {
    ProviderEntry { id: 7, name: "video provider".to_string(), output_type, inputs: Vec::new() }
}

#[test]
fn unique_asset_name_keeps_a_free_base() {
    let assets = vec![image(1, "Shot")];
    assert_eq!(unique_asset_name(&assets, "  Take  "), "Take");
}

#[test]
fn unique_asset_name_numbers_from_two() {
    let assets = vec![image(1, "Shot"), image(2, "Shot 2")];
    assert_eq!(unique_asset_name(&assets, "Shot"), "Shot 3");
}

#[test]
fn unique_asset_name_uses_asset_for_blank_names() {
    let assets = vec![image(1, "Asset")];
    assert_eq!(unique_asset_name(&assets, "   "), "Asset 2");
    assert_eq!(unique_asset_name(&Vec::new(), ""), "Asset");
}

#[test]
fn unique_asset_copy_name_appends_copy() {
    let assets = vec![image(1, "Shot"), image(2, "Shot Copy")];
    assert_eq!(unique_asset_copy_name(&assets, "Shot"), "Shot Copy 2");
    assert_eq!(unique_asset_copy_name(&assets, "Other"), "Other Copy");
}

#[test]
fn sanitize_file_stem_replaces_and_trims() {
    assert_eq!(sanitize_file_stem("My clip: v2!"), "My clip_ v2");
    assert_eq!(sanitize_file_stem("__a/b__"), "a_b");
    assert_eq!(sanitize_file_stem("///"), "asset");
    assert_eq!(sanitize_file_stem(""), "asset");
}

#[test]
fn unique_file_name_skips_existing_files() {
    let existing = vec!["frame.png".to_string(), "frame_1.png".to_string()];
    assert_eq!(unique_file_name(&existing, "frame", ".png"), "frame_2.png");
    assert_eq!(unique_file_name(&existing, "still", "..jpg"), "still.jpg");
}

#[test]
fn deleted_assets_status_wording() {
    assert_eq!(deleted_assets_status(1, 0), "Deleted asset");
    assert_eq!(deleted_assets_status(3, 0), "Deleted 3 assets");
    assert_eq!(deleted_assets_status(1, 1), "Deleted asset and 1 timeline clip");
    assert_eq!(deleted_assets_status(2, 12), "Deleted 2 assets and 12 timeline clips");
}

#[test]
fn path_label_keeps_short_paths_and_cuts_long_ones() {
    assert_eq!(path_label("media/a.png"), "media/a.png");
    let long = "0123456789".repeat(5);
    let label = path_label(&long);
    assert_eq!(label, format!("...{}", &long[5..]));
    assert_eq!(label.chars().count(), 48);
    let exact = "x".repeat(48);
    assert_eq!(path_label(&exact), exact);
}

#[test]
fn short_port_label_cuts_after_eighteen_characters() {
    assert_eq!(asset_lab_short_port_label("  Reference image  "), "Reference image");
    assert_eq!(asset_lab_short_port_label("exactly eighteen!!"), "exactly eighteen!!");
    assert_eq!(asset_lab_short_port_label("A much longer port label"), "A much longer p...");
}

#[test]
fn include_requested_ignores_case_and_accepts_all() {
    let sections = vec!["Assets".to_string(), "clips".to_string()];
    assert!(include_requested(&sections, "assets"));
    assert!(include_requested(&sections, "CLIPS"));
    assert!(!include_requested(&sections, "tracks"));
    assert!(include_requested(&vec!["ALL".to_string()], "tracks"));
    assert!(!include_requested(&Vec::new(), "tracks"));
}

#[test]
fn natural_order_compares_numbers_by_value() {
    assert_eq!(natural_case_insensitive_cmp("clip 2", "clip 10"), Ordering::Less);
    assert_eq!(natural_case_insensitive_cmp("Clip 10", "clip 2"), Ordering::Greater);
    assert_eq!(natural_case_insensitive_cmp("Alpha", "alpha"), Ordering::Equal);
    assert_eq!(natural_case_insensitive_cmp("a", "ab"), Ordering::Less);
}

#[test]
fn natural_order_is_antisymmetric_and_reflexive_on_examples() {
    let names = ["v1", "v10", "V2", "shot_003", "shot_3", "", "b", "B2"];
    for a in names {
        assert_eq!(natural_case_insensitive_cmp(a, a), Ordering::Equal);
        for b in names {
            assert_eq!(
                natural_case_insensitive_cmp(a, b),
                natural_case_insensitive_cmp(b, a).reverse()
            );
        }
    }
}

#[test]
fn natural_order_ignores_ascii_case() {
    assert_eq!(
        natural_case_insensitive_cmp("SHOT 7b", "shot 7C"),
        natural_case_insensitive_cmp("shot 7b", "shot 7c")
    );
}

#[test]
fn asset_labels_and_groups() {
    let img = image(1, "a");
    let gen = generative_image(2, "g");
    let audio = Asset { id: 3, name: "s".to_string(), kind: AssetKind::Audio { path: "s.wav".to_string() } };
    assert_eq!(asset_kind_label(&img.kind), "Image");
    assert_eq!(asset_kind_label(&gen.kind), "Generative Image");
    assert_eq!(asset_media_group(&img), AssetMediaGroup::Image);
    assert_eq!(asset_media_group(&audio), AssetMediaGroup::Audio);
    assert_eq!(AssetMediaGroup::Image.label(), "Images");
    assert_eq!(AssetLibraryFilter::All.label(), "All assets");
    assert!(AssetLibraryFilter::Generative.matches(&gen));
    assert!(!AssetLibraryFilter::Generative.matches(&img));
    assert!(AssetLibraryFilter::Image.matches(&gen));
    assert!(!AssetLibraryFilter::Video.matches(&audio));
    assert!(!asset_icon(&img).is_empty());
    let _ = AssetLibrarySort::Name.label();
    let _ = AssetLibraryGrouping::MediaType.label();
}

#[test]
fn provider_output_must_match_the_asset() {
    let gen = generative_image(2, "gen image");
    assert_eq!(asset_provider_output_type(&gen), Some(ProviderOutputType::Image));
    assert!(provider_matches_asset_output(&gen, &provider(ProviderOutputType::Image)));
    assert!(!provider_matches_asset_output(&gen, &provider(ProviderOutputType::Video)));
}

#[test]
fn provider_matching_follows_the_output_type() {
    let asset = Asset {
        id: 42,
        name: "gen image".to_string(),
        kind: AssetKind::GenerativeImage {
            folder: "generated/image".to_string(),
            active_version: None,
        },
    };
    assert!(!provider_matches_asset_output(&asset, &provider(ProviderOutputType::Video)));
}

#[test]
fn search_lowercases_name_label_and_source() {
    let asset = Asset {
        id: 1,
        name: "Ünïcode Shot".to_string(),
        kind: AssetKind::Video { path: "Footage/Take.MOV".to_string() },
    };
    assert!(asset_matches_search(&asset, ""));
    assert!(asset_matches_search(&asset, "ünïcode"));
    assert!(asset_matches_search(&asset, "video"));
    assert!(asset_matches_search(&asset, "take.mov"));
    assert!(!asset_matches_search(&asset, "Take"));
    assert!(!asset_matches_search(&asset, "audio"));
}

#[test]
fn assets_order_by_name_then_kind_then_id() {
    let a = image(5, "Shot 2");
    let b = image(1, "shot 10");
    assert_eq!(asset_natural_cmp(&a, &b), Ordering::Less);
    let c = generative_image(9, "Shot 2");
    assert_eq!(asset_natural_cmp(&c, &a), Ordering::Less);
    let d = image(3, "Shot 2");
    assert_eq!(asset_natural_cmp(&d, &a), Ordering::Less);
    assert_eq!(asset_natural_cmp(&a, &a), Ordering::Equal);
}

#[test]
fn rows_order_for_each_sort() {
    let a = image(1, "b");
    let b = image(2, "a");
    let uses = vec![(1u128, 3usize), (2u128, 1usize)];
    assert_eq!(compare_asset_rows(AssetLibrarySort::Name, 0, &a, 1, &b, &uses), Ordering::Greater);
    assert_eq!(
        compare_asset_rows(AssetLibrarySort::RecentlyAdded, 0, &a, 1, &b, &uses),
        Ordering::Greater
    );
    assert_eq!(compare_asset_rows(AssetLibrarySort::TimelineUse, 0, &a, 1, &b, &uses), Ordering::Less);
    for sort in [AssetLibrarySort::Name, AssetLibrarySort::RecentlyAdded, AssetLibrarySort::TimelineUse] {
        assert_eq!(
            compare_asset_rows(sort, 0, &a, 1, &b, &uses),
            compare_asset_rows(sort, 1, &b, 0, &a, &uses).reverse()
        );
        assert_ne!(compare_asset_rows(sort, 0, &a, 1, &b, &uses), Ordering::Equal);
    }
}

#[test]
fn library_view_shows_filtered_rows_and_sums_up() {
    use_library_view();
}

fn use_library_view() {
    let assets = vec![image(1, "Shot"), generative_image(2, "Gen"), image(3, "Other")];
    assert_eq!(visible_asset_indices(&assets, AssetLibraryFilter::All, "", None), vec![0, 1, 2]);
    assert_eq!(visible_asset_indices(&assets, AssetLibraryFilter::Generative, "", None), vec![1]);
    assert_eq!(visible_asset_indices(&assets, AssetLibraryFilter::All, "oth", None), vec![2]);
    assert_eq!(visible_asset_indices(&assets, AssetLibraryFilter::Generative, "zzz", Some(3)), vec![2]);
    assert!(asset_row_visible(&assets[0], AssetLibraryFilter::Image, "shot", None));
    assert_eq!(hidden_selected_count(&vec![1, 2, 9, 2], &vec![1]), 3);
    assert_eq!(asset_library_summary(2, 5, 1), "2 of 5 assets · 1 selected hidden");
    assert_eq!(asset_library_summary(2, 5, 0), "2 of 5 assets");
    assert_eq!(asset_library_summary(1, 1, 0), "1 asset");
    assert_eq!(asset_library_summary(4, 4, 0), "4 assets");
}

fn media(id: u128, name: &str, kind: AssetKind) -> Asset {
    Asset { id, name: name.to_string(), kind }
}

#[test]
fn library_rows_sort_by_group_then_chosen_order() {
    let assets = vec![
        media(4, "Alpha", AssetKind::Audio { path: "a.wav".to_string() }),
        image(1, "Shot"),
        media(5, "Zed", AssetKind::Video { path: "z.mp4".to_string() }),
        image(3, "Other"),
    ];
    let uses: Vec<(u128, usize)> = vec![(1, 2), (4, 1)];
    let rows = |grouping, sort| {
        asset_library_rows(&assets, AssetLibraryFilter::All, "", None, grouping, sort, &uses)
    };
    assert_eq!(rows(AssetLibraryGrouping::Ungrouped, AssetLibrarySort::Name), vec![0, 3, 1, 2]);
    assert_eq!(rows(AssetLibraryGrouping::MediaType, AssetLibrarySort::Name), vec![2, 3, 1, 0]);
    assert_eq!(rows(AssetLibraryGrouping::Ungrouped, AssetLibrarySort::RecentlyAdded), vec![3, 2, 1, 0]);
    assert_eq!(rows(AssetLibraryGrouping::Ungrouped, AssetLibrarySort::TimelineUse), vec![1, 0, 3, 2]);
    assert_eq!(
        asset_library_rows(&assets, AssetLibraryFilter::Image, "", Some(4), AssetLibraryGrouping::MediaType, AssetLibrarySort::Name, &uses),
        vec![3, 1, 0]
    );
}
