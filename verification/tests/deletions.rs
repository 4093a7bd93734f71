use latentslate::deletion::{delete_assets, deleted_clips_status, remove_clips};
use latentslate::model::{Asset, AssetKind};
use latentslate::moves::Clip;
use latentslate::naming::deleted_assets_status;

fn asset(id: u128) -> Asset {
    Asset { id, name: format!("asset {id}"), kind: AssetKind::Image { path: format!("media/{id}.png") } }
}

fn clip(id: u128, asset_id: u128) -> Clip {
    Clip { id, asset_id, track_id: 1 }
}

#[test]
fn removing_clips_counts_each_named_clip_once() {
    let mut clips = vec![clip(1, 10), clip(2, 10), clip(3, 11)];
    let removed = remove_clips(&mut clips, &vec![2, 9, 2, 3]);
    assert_eq!(removed, 2);
    assert_eq!(clips.iter().map(|c| c.id).collect::<Vec<_>>(), vec![1]);
    let mut clips = vec![clip(1, 10)];
    assert_eq!(remove_clips(&mut clips, &Vec::new()), 0);
    assert_eq!(clips.len(), 1);
}

#[test]
fn deleting_assets_takes_their_clips() {
    let mut assets = vec![asset(10), asset(11), asset(12)];
    let mut clips = vec![clip(1, 10), clip(2, 11), clip(3, 10), clip(4, 12)];
    let (removed_assets, removed_clips) = delete_assets(&mut assets, &mut clips, &vec![10, 10, 11, 99]);
    assert_eq!((removed_assets, removed_clips), (2, 3));
    assert_eq!(assets.iter().map(|a| a.id).collect::<Vec<_>>(), vec![12]);
    assert_eq!(clips.iter().map(|c| c.id).collect::<Vec<_>>(), vec![4]);
    assert_eq!(deleted_assets_status(removed_assets, removed_clips), "Deleted 2 assets and 3 timeline clips");
}

#[test]
fn deleting_no_assets_changes_nothing() {
    let mut assets = vec![asset(10)];
    let mut clips = vec![clip(1, 10)];
    assert_eq!(delete_assets(&mut assets, &mut clips, &Vec::new()), (0, 0));
    assert_eq!(assets.len(), 1);
    assert_eq!(clips.len(), 1);
}

#[test]
fn clip_deletion_status() {
    assert_eq!(deleted_clips_status(1), "Deleted clip");
    assert_eq!(deleted_clips_status(3), "Deleted 3 clips");
}
