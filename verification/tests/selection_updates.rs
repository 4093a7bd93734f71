use latentslate::commands::{ItemIds, ItemKind, MissingItem};
use latentslate::editor_selection::{
    delete_assets_command, delete_assets_in_editor, delete_clips_command, delete_selected_clips, rename_asset,
    select_single_asset, set_selection, RenameError, Selection,
};
use latentslate::duplication::{assets_to_duplicate, duplicated_asset, select_duplicates};
use latentslate::model::{Asset, AssetKind};
use latentslate::moves::Clip;

fn selection() -> Selection {
    Selection { clip_ids: vec![1, 3, 1], asset_ids: vec![10], track_ids: vec![7], marker_ids: vec![8] }
}

fn clip(id: u128, asset_id: u128) -> Clip {
    Clip { id, asset_id, track_id: 7 }
}

fn asset(id: u128) -> Asset {
    Asset { id, name: format!("a{id}"), kind: AssetKind::Image { path: format!("{id}.png") } }
}

#[test]
fn set_selection_replaces_or_refuses() {
    let items = ItemIds { clips: vec![1, 2], assets: vec![10], tracks: vec![7], markers: vec![8] };
    let mut sel = selection();
    let request = ItemIds { clips: vec![2, 2], assets: vec![], tracks: vec![7], markers: vec![] };
    let mut dirty = false;
    assert!(set_selection(&mut sel, &mut dirty, &items, request).is_ok());
    assert!(dirty);
    assert_eq!(sel.clip_ids, vec![2, 2]);
    assert!(sel.asset_ids.is_empty());
    assert_eq!(sel.track_ids, vec![7]);
    assert!(sel.marker_ids.is_empty());
    let bad = ItemIds { clips: vec![1], assets: vec![], tracks: vec![9], markers: vec![] };
    let mut dirty = false;
    assert_eq!(set_selection(&mut sel, &mut dirty, &items, bad), Err(MissingItem { kind: ItemKind::Track, id: 9 }));
    assert_eq!(sel.clip_ids, vec![2, 2]);
    assert_eq!(sel.track_ids, vec![7]);
    assert!(!dirty);
}

#[test]
fn deleting_selected_clips_clears_the_selection() {
    let mut clips = vec![clip(1, 10), clip(2, 10), clip(3, 11)];
    let mut sel = selection();
    let mut status = "ready".to_string();
    let mut dirty = false;
    assert_eq!(delete_selected_clips(&mut clips, &mut sel, &mut status, &mut dirty), 2);
    assert_eq!(clips.iter().map(|c| c.id).collect::<Vec<_>>(), vec![2]);
    assert!(sel.clip_ids.is_empty() && sel.asset_ids.is_empty());
    assert_eq!(status, "Deleted 2 clips");
    assert!(dirty);

    let mut sel = Selection { clip_ids: vec![99], asset_ids: vec![10], track_ids: vec![], marker_ids: vec![] };
    let mut status = "ready".to_string();
    let mut dirty = false;
    assert_eq!(delete_selected_clips(&mut clips, &mut sel, &mut status, &mut dirty), 0);
    assert_eq!(sel.clip_ids, vec![99]);
    assert_eq!(status, "ready");
    assert!(!dirty);
}

#[test]
fn deleting_assets_clears_the_selection_and_reports() {
    let mut assets = vec![asset(10), asset(11)];
    let mut clips = vec![clip(1, 10), clip(2, 11)];
    let mut sel = selection();
    let mut status = String::new();
    let mut dirty = false;
    let counts = delete_assets_in_editor(&mut assets, &mut clips, &mut sel, &mut status, &mut dirty, &vec![10]);
    assert_eq!(counts, (1, 1));
    assert_eq!(status, "Deleted asset and 1 timeline clip");
    assert!(sel.clip_ids.is_empty() && sel.track_ids.is_empty());
    assert!(dirty);
    let mut sel = selection();
    let mut status = "ready".to_string();
    let mut dirty = false;
    assert_eq!(delete_assets_in_editor(&mut assets, &mut clips, &mut sel, &mut status, &mut dirty, &vec![77]), (0, 0));
    assert_eq!(status, "ready");
    assert_eq!(sel.asset_ids, vec![10]);
    assert!(!dirty);
}

#[test]
fn selecting_an_asset_selects_it_alone() {
    let mut sel = selection();
    select_single_asset(&mut sel, 11);
    assert_eq!(sel.asset_ids, vec![11]);
    assert!(sel.clip_ids.is_empty() && sel.track_ids.is_empty() && sel.marker_ids.is_empty());
}

#[test]
fn delete_clips_command_checks_then_prunes_the_selection() {
    let mut clips = vec![clip(1, 10), clip(2, 10), clip(3, 11)];
    let mut sel = selection();
    let mut dirty = false;
    let refused = delete_clips_command(&mut clips, &mut sel, &mut dirty, &vec![2, 9, 8]).unwrap_err();
    assert_eq!(refused.ids, vec![9, 8]);
    assert_eq!(refused.http_status(), 404);
    assert_eq!(clips.len(), 3);
    assert!(!dirty);
    assert_eq!(delete_clips_command(&mut clips, &mut sel, &mut dirty, &vec![1, 2, 1]).unwrap(), 2);
    assert_eq!(clips.iter().map(|c| c.id).collect::<Vec<_>>(), vec![3]);
    assert_eq!(sel.clip_ids, vec![3]);
    assert_eq!(sel.asset_ids, vec![10]);
    assert!(dirty);
}

#[test]
fn delete_assets_command_checks_then_deletes() {
    let mut assets = vec![asset(10), asset(11)];
    let mut clips = vec![clip(1, 10), clip(2, 11), clip(3, 10)];
    let mut sel = selection();
    let mut status = "ready".to_string();
    let mut dirty = false;
    let refused =
        delete_assets_command(&mut assets, &mut clips, &mut sel, &mut status, &mut dirty, &vec![10, 12]).unwrap_err();
    assert_eq!(refused.ids, vec![12]);
    assert_eq!(assets.len(), 2);
    assert_eq!(status, "ready");
    let counts =
        delete_assets_command(&mut assets, &mut clips, &mut sel, &mut status, &mut dirty, &vec![10, 10]).unwrap();
    assert_eq!(counts, (1, 2));
    assert_eq!(clips.iter().map(|c| c.id).collect::<Vec<_>>(), vec![2]);
    assert!(sel.clip_ids.is_empty());
    assert!(dirty);
}

#[test]
fn rename_trims_and_refuses_empty_or_unknown() {
    let mut assets = vec![asset(10), asset(11)];
    let mut status = "ready".to_string();
    assert_eq!(rename_asset(&mut assets, &mut status, 11, "   "), Err(RenameError::EmptyName));
    assert_eq!(RenameError::EmptyName.message(), "Asset name cannot be empty.");
    assert_eq!(rename_asset(&mut assets, &mut status, 12, "x"), Err(RenameError::AssetNotFound));
    assert_eq!(RenameError::AssetNotFound.message(), "Asset not found.");
    assert_eq!(status, "ready");
    assert_eq!(rename_asset(&mut assets, &mut status, 11, "  Hero shot \n"), Ok(()));
    assert_eq!(assets[1].name, "Hero shot");
    assert_eq!(assets[0].name, "a10");
    assert_eq!(status, "Asset renamed");
}

#[test]
fn duplicating_assets_copies_each_once_and_selects_the_copies() {
    assert_eq!(assets_to_duplicate(&vec![]), Err("No assets selected."));
    assert_eq!(assets_to_duplicate(&vec![11, 10, 11]), Ok(vec![11, 10]));

    let assets = vec![asset(10), Asset { id: 11, name: "a10 Copy".to_string(), kind: AssetKind::Image { path: "x.png".to_string() } }];
    let copy = duplicated_asset(&assets, &assets[0], 42, "unused".to_string());
    assert_eq!(copy.id, 42);
    assert_eq!(copy.name, "a10 Copy 2");
    assert!(matches!(copy.kind, AssetKind::Image { ref path } if path == "10.png"));
    let generative = Asset {
        id: 12,
        name: "gen".to_string(),
        kind: AssetKind::GenerativeVideo { folder: "generated/video/12".to_string(), active_version: Some("v3".to_string()) },
    };
    let copy = duplicated_asset(&assets, &generative, 43, "generated/video/43".to_string());
    assert_eq!(copy.name, "gen Copy");
    assert!(matches!(
        copy.kind,
        AssetKind::GenerativeVideo { ref folder, active_version: Some(ref v) } if folder == "generated/video/43" && v == "v3"
    ));

    let mut sel = selection();
    let mut dirty = false;
    let mut status = String::new();
    select_duplicates(&mut sel, &mut dirty, &mut status, &vec![42, 43]);
    assert_eq!(sel.asset_ids, vec![42, 43]);
    assert!(sel.clip_ids.is_empty() && sel.track_ids.is_empty() && sel.marker_ids.is_empty());
    assert!(dirty);
    assert_eq!(status, "Duplicated 2 assets");
    select_duplicates(&mut sel, &mut dirty, &mut status, &vec![42]);
    assert_eq!(status, "Duplicated asset");
}
