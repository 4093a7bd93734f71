//! The editor's selection and what the commands that change the project do
//! to it: a batch of clip moves selects the moved clips, a selection command
//! replaces it, and deletes clear it.

use vstd::prelude::*;
use crate::commands::{
    ItemIds, MissingItem, MissingIds, DeleteKind, selection_problem, check_selection, check_delete_targets,
    missing_from,
};
use crate::text::{trim, trim_chars, chars_of, string_of};
use crate::editor::id_listed;
use crate::deletion::{
    delete_assets,
    remove_clips,
    deleted_clips_status,
    deleted_clips_message,
    kept_assets,
    kept_clips,
    present_count,
    asset_ids_of,
    clip_ids_of,
    asset_ids,
    clip_ids,
};
use crate::ids::dedup;
use crate::model::Asset;
use crate::moves::{
    Clip,
    ClipMoveMode,
    ClipMoveTarget,
    MoveError,
    ResolvedClipMove,
    Timeline,
    apply_move_clips_command,
    apply_moves,
    moved_clip_ids,
    resolve_batch,
};
use crate::naming::{deleted_assets_status, deleted_status};

verus! {

/// What is selected: clips, assets, tracks and markers, in selection order.
#[derive(Clone, Debug)]
pub struct Selection {
    pub clip_ids: Vec<u128>,
    pub asset_ids: Vec<u128>,
    pub track_ids: Vec<u128>,
    pub marker_ids: Vec<u128>,
}

/// Whether nothing is selected.
pub open spec fn selection_empty(s: Selection) -> bool {
    &&& s.clip_ids@.len() == 0
    &&& s.asset_ids@.len() == 0
    &&& s.track_ids@.len() == 0
    &&& s.marker_ids@.len() == 0
}

impl Selection {
    /// An empty selection.
    pub fn new() -> (r: Selection)
        ensures
            selection_empty(r),
    {
        Selection { clip_ids: Vec::new(), asset_ids: Vec::new(), track_ids: Vec::new(), marker_ids: Vec::new() }
    }

    /// Deselects everything.
    pub fn clear(&mut self)
        ensures
            selection_empty(*final(self)),
    {
        self.clip_ids = Vec::new();
        self.asset_ids = Vec::new();
        self.track_ids = Vec::new();
        self.marker_ids = Vec::new();
    }
}

/// Selects asset `asset_id` alone.
pub fn select_single_asset(selection: &mut Selection, asset_id: u128)
    ensures
        final(selection).asset_ids@ == seq![asset_id],
        final(selection).clip_ids@.len() == 0,
        final(selection).track_ids@.len() == 0,
        final(selection).marker_ids@.len() == 0,
{
    selection.clear();
    selection.asset_ids.push(asset_id);
    assert(selection.asset_ids@ =~= seq![asset_id]);
}

/// Moves a batch of clips across tracks and, when the batch is accepted,
/// selects exactly the moved clips, in the order of the request, and marks
/// the preview for redrawing. A refused batch changes nothing.
pub fn move_clips_and_select(
    tl: &mut Timeline,
    selection: &mut Selection,
    preview_dirty: &mut bool,
    mode: ClipMoveMode,
    moves: &Vec<ClipMoveTarget>,
    clip_ids: &Vec<u128>,
    moves_in_time: bool,
    track_delta: Option<i32>,
    track_id: Option<u128>,
) -> (r: Result<Vec<ResolvedClipMove>, MoveError>)
    ensures
        match resolve_batch(
            *old(tl),
            mode,
            moves@,
            clip_ids@,
            moves_in_time,
            track_delta,
            track_id,
        ) {
            Err(e) => {
                &&& r == Err::<Vec<ResolvedClipMove>, MoveError>(e)
                &&& final(tl)@ == old(tl)@
                &&& *final(selection) == *old(selection)
                &&& *final(preview_dirty) == *old(preview_dirty)
            },
            Ok(s) => {
                &&& r matches Ok(v) && v@ == s
                &&& final(tl).clips@ == apply_moves(old(tl).clips@, s)
                &&& final(tl).tracks@ == old(tl).tracks@
                &&& final(tl).asset_media@ == old(tl).asset_media@
                &&& final(selection).clip_ids@ == moved_clip_ids(s)
                &&& final(selection).clip_ids@ == match mode {
                    ClipMoveMode::Absolute => moves@.map_values(|t: ClipMoveTarget| t.clip_id),
                    ClipMoveMode::Relative => clip_ids@,
                }
                &&& final(selection).asset_ids@.len() == 0
                &&& final(selection).track_ids@.len() == 0
                &&& final(selection).marker_ids@.len() == 0
                &&& *final(preview_dirty)
            },
        },
{
    let result = apply_move_clips_command(tl, mode, moves, clip_ids, moves_in_time, track_delta, track_id);
    match result {
        Err(e) => Err(e),
        Ok(v) => {
            proof {
                crate::moves::law_accepted_batch_is_valid(
                    *old(tl),
                    mode,
                    moves@,
                    clip_ids@,
                    moves_in_time,
                    track_delta,
                    track_id,
                );
            }
            let mut ids: Vec<u128> = Vec::new();
            let n = v.len();
            for i in 0..n
                invariant
                    n == v@.len(),
                    ids@ == moved_clip_ids(v@.take(i as int)),
            {
                ids.push(v[i].clip_id);
                assert(ids@ =~= moved_clip_ids(v@.take(i + 1)));
            }
            assert(v@.take(n as int) =~= v@);
            selection.clear();
            selection.clip_ids = ids;
            *preview_dirty = true;
            Ok(v)
        },
    }
}

/// Replaces the selection by the one a command asks for, after checking that
/// every identifier names an item of its kind, and marks the preview for
/// redrawing; the first identifier that names nothing is reported, and
/// nothing changes.
pub fn set_selection(
    selection: &mut Selection,
    preview_dirty: &mut bool,
    items: &ItemIds,
    request: ItemIds,
) -> (r: Result<(), MissingItem>)
    ensures
        match selection_problem(*items, request) {
            Some(m) => r == Err::<(), MissingItem>(m) && *final(selection) == *old(selection)
                && *final(preview_dirty) == *old(preview_dirty),
            None => {
                &&& r is Ok
                &&& *final(preview_dirty)
                &&& final(selection).clip_ids@ == request.clips@
                &&& final(selection).asset_ids@ == request.assets@
                &&& final(selection).track_ids@ == request.tracks@
                &&& final(selection).marker_ids@ == request.markers@
            },
        },
{
    match check_selection(items, &request) {
        Err(m) => Err(m),
        Ok(()) => {
            selection.clip_ids = request.clips;
            selection.asset_ids = request.assets;
            selection.track_ids = request.tracks;
            selection.marker_ids = request.markers;
            *preview_dirty = true;
            Ok(())
        },
    }
}

/// Deletes assets and the clips that use them. When at least one asset went,
/// the selection is cleared, the preview marked for redrawing and the status
/// line tells what was deleted; otherwise these stay as they were.
pub fn delete_assets_in_editor(
    assets: &mut Vec<Asset>,
    clips: &mut Vec<Clip>,
    selection: &mut Selection,
    status: &mut String,
    preview_dirty: &mut bool,
    asset_ids_to_remove: &Vec<u128>,
) -> (r: (usize, usize))
    ensures
        final(assets)@ == kept_assets(old(assets)@, asset_ids_to_remove@),
        final(clips)@ == kept_clips(old(clips)@, asset_ids_to_remove@, true),
        r.0 == present_count(dedup(asset_ids_to_remove@), asset_ids_of(old(assets)@)),
        r.1 == old(clips)@.len() - final(clips)@.len(),
        r.0 > 0 ==> selection_empty(*final(selection)) && *final(preview_dirty) && final(status)@
            == deleted_status(r.0 as nat, r.1 as nat),
        r.0 == 0 ==> *final(selection) == *old(selection) && *final(preview_dirty) == *old(
            preview_dirty,
        ) && *final(status) == *old(status),
{
    let counts = delete_assets(assets, clips, asset_ids_to_remove);
    if counts.0 > 0 {
        selection.clear();
        *preview_dirty = true;
        *status = deleted_assets_status(counts.0, counts.1);
    }
    counts
}

/// Deletes the selected clips. When at least one went, the selection is
/// cleared, the preview marked for redrawing and the status line tells how
/// many; otherwise nothing changes. Returns how many of the distinct
/// selected identifiers named a clip.
pub fn delete_selected_clips(
    clips: &mut Vec<Clip>,
    selection: &mut Selection,
    status: &mut String,
    preview_dirty: &mut bool,
) -> (deleted: usize)
    ensures
        final(clips)@ == kept_clips(old(clips)@, old(selection).clip_ids@, false),
        deleted == present_count(dedup(old(selection).clip_ids@), clip_ids_of(old(clips)@)),
        deleted > 0 ==> selection_empty(*final(selection)) && *final(preview_dirty) && final(status)@
            == deleted_clips_message(deleted as nat),
        deleted == 0 ==> *final(selection) == *old(selection) && *final(preview_dirty) == *old(
            preview_dirty,
        ) && *final(status) == *old(status),
{
    let deleted = remove_clips(clips, &selection.clip_ids);
    if deleted > 0 {
        selection.clear();
        *preview_dirty = true;
        *status = deleted_clips_status(deleted);
    }
    deleted
}

/// `ids` without the identifiers listed in `removed`, in order.
pub open spec fn without_ids(ids: Seq<u128>, removed: Seq<u128>) -> Seq<u128>
    decreases ids.len(),
{
    if ids.len() == 0 {
        seq![]
    } else {
        let rest = without_ids(ids.drop_last(), removed);
        if removed.contains(ids.last()) {
            rest
        } else {
            rest.push(ids.last())
        }
    }
}

/// Keeps the identifiers not listed in `removed`, in order.
fn retain_unlisted(ids: &mut Vec<u128>, removed: &Vec<u128>)
    ensures
        final(ids)@ == without_ids(old(ids)@, removed@),
{
    let ghost orig = ids@;
    let mut out: Vec<u128> = Vec::new();
    let n = ids.len();
    for i in 0..n
        invariant
            n == orig.len(),
            ids@ == orig,
            out@ == without_ids(orig.take(i as int), removed@),
    {
        assert(orig.take(i + 1).drop_last() =~= orig.take(i as int));
        assert(orig.take(i + 1).last() == orig[i as int]);
        if !id_listed(removed, ids[i]) {
            out.push(ids[i]);
        }
    }
    assert(orig.take(n as int) =~= orig);
    *ids = out;
}

/// The delete-clips command: refused, with nothing changed, when some
/// identifier names no clip; otherwise the named clips are removed and, when
/// any went, they leave the selection and the preview is marked for
/// redrawing. Returns how many of the distinct identifiers named a clip.
pub fn delete_clips_command(
    clips: &mut Vec<Clip>,
    selection: &mut Selection,
    preview_dirty: &mut bool,
    clip_ids_to_remove: &Vec<u128>,
) -> (r: Result<usize, MissingIds>)
    ensures
        r is Err <==> missing_from(clip_ids_of(old(clips)@), clip_ids_to_remove@).len() > 0,
        r matches Err(m) ==> m.kind == DeleteKind::Clips && m.ids@ == missing_from(
            clip_ids_of(old(clips)@),
            clip_ids_to_remove@,
        ) && final(clips)@ == old(clips)@ && *final(selection) == *old(selection) && *final(preview_dirty)
            == *old(preview_dirty),
        r matches Ok(n) ==> final(clips)@ == kept_clips(old(clips)@, clip_ids_to_remove@, false) && n
            == present_count(dedup(clip_ids_to_remove@), clip_ids_of(old(clips)@)),
        r matches Ok(n) ==> (n > 0 ==> final(selection).clip_ids@ == without_ids(
            old(selection).clip_ids@,
            clip_ids_to_remove@,
        ) && final(selection).asset_ids == old(selection).asset_ids && final(selection).track_ids == old(selection).track_ids && final(selection).marker_ids == old(selection).marker_ids && *final(preview_dirty)),
        r matches Ok(n) ==> (n == 0 ==> *final(selection) == *old(selection) && *final(preview_dirty)
            == *old(preview_dirty)),
{
    let existing = clip_ids(clips);
    match check_delete_targets(DeleteKind::Clips, &existing, clip_ids_to_remove) {
        Err(m) => Err(m),
        Ok(()) => {
            let removed = remove_clips(clips, clip_ids_to_remove);
            if removed > 0 {
                retain_unlisted(&mut selection.clip_ids, clip_ids_to_remove);
                *preview_dirty = true;
            }
            Ok(removed)
        },
    }
}

/// The delete-assets command: refused, with nothing changed, when some
/// identifier names no asset; otherwise the assets and the clips that use
/// them are deleted as `delete_assets_in_editor` says. Returns how many
/// assets and clips went.
pub fn delete_assets_command(
    assets: &mut Vec<Asset>,
    clips: &mut Vec<Clip>,
    selection: &mut Selection,
    status: &mut String,
    preview_dirty: &mut bool,
    asset_ids_to_remove: &Vec<u128>,
) -> (r: Result<(usize, usize), MissingIds>)
    ensures
        r is Err <==> missing_from(asset_ids_of(old(assets)@), asset_ids_to_remove@).len() > 0,
        r matches Err(m) ==> m.kind == DeleteKind::Assets && m.ids@ == missing_from(
            asset_ids_of(old(assets)@),
            asset_ids_to_remove@,
        ) && final(assets)@ == old(assets)@ && final(clips)@ == old(clips)@ && *final(selection) == *old(selection)
            && *final(status) == *old(status) && *final(preview_dirty) == *old(preview_dirty),
        r matches Ok(c) ==> final(assets)@ == kept_assets(old(assets)@, asset_ids_to_remove@) && final(clips)@
            == kept_clips(old(clips)@, asset_ids_to_remove@, true) && c.0 == present_count(
            dedup(asset_ids_to_remove@),
            asset_ids_of(old(assets)@),
        ) && c.1 == old(clips)@.len() - final(clips)@.len(),
        r matches Ok(c) ==> (c.0 > 0 ==> selection_empty(*final(selection)) && *final(preview_dirty)
            && final(status)@ == deleted_status(c.0 as nat, c.1 as nat)),
        r matches Ok(c) ==> (c.0 == 0 ==> *final(selection) == *old(selection) && *final(preview_dirty)
            == *old(preview_dirty) && *final(status) == *old(status)),
{
    let existing = asset_ids(assets);
    match check_delete_targets(DeleteKind::Assets, &existing, asset_ids_to_remove) {
        Err(m) => Err(m),
        Ok(()) => Ok(delete_assets_in_editor(assets, clips, selection, status, preview_dirty, asset_ids_to_remove)),
    }
}

/// Why an asset could not be renamed.
#[derive(Clone, Copy, Debug, PartialEq, Eq, Structural)]
pub enum RenameError {
    /// The new name is empty once trimmed.
    EmptyName,
    AssetNotFound,
}

impl RenameError {
    /// The message of the refusal.
    pub fn message(&self) -> (r: &'static str)
        ensures
            r@ == (match *self {
                RenameError::EmptyName => "Asset name cannot be empty."@,
                RenameError::AssetNotFound => "Asset not found."@,
            }),
    {
        match self {
            RenameError::EmptyName => {
                proof {
                    reveal_strlit("Asset name cannot be empty.");
                }
                "Asset name cannot be empty."
            },
            RenameError::AssetNotFound => {
                proof {
                    reveal_strlit("Asset not found.");
                }
                "Asset not found."
            },
        }
    }
}

/// Renames asset `asset_id` to `name` with surrounding whitespace trimmed,
/// and sets the status line to "Asset renamed". Refused, with nothing
/// changed, when the trimmed name is empty, or else when no asset has that
/// identifier; the first asset with it is renamed.
pub fn rename_asset(assets: &mut Vec<Asset>, status: &mut String, asset_id: u128, name: &str) -> (r: Result<
    (),
    RenameError,
>)
    ensures
        (r matches Err(RenameError::EmptyName)) <==> trim(name@).len() == 0,
        (r matches Err(RenameError::AssetNotFound)) <==> trim(name@).len() > 0 && !asset_ids_of(
            old(assets)@,
        ).contains(asset_id),
        r is Err ==> final(assets)@ == old(assets)@ && *final(status) == *old(status),
        r is Ok ==> exists|i: int|
            0 <= i < old(assets)@.len() && #[trigger] old(assets)@[i].id == asset_id && (forall|j: int|
                0 <= j < i ==> old(assets)@[j].id != asset_id) && final(assets)@ == old(assets)@.update(
                i,
                Asset { name: final(assets)@[i].name, ..old(assets)@[i] },
            ) && final(assets)@[i].name@ == trim(name@),
        r is Ok ==> final(status)@ == "Asset renamed"@,
{
    let trimmed = trim_chars(&chars_of(name));
    if trimmed.len() == 0 {
        return Err(RenameError::EmptyName);
    }
    let mut i: usize = 0;
    while i < assets.len()
        invariant
            i <= assets@.len(),
            assets@ == old(assets)@,
            *status == *old(status),
            trimmed@ == trim(name@),
            trimmed@.len() > 0,
            forall|j: int| 0 <= j < i ==> assets@[j].id != asset_id,
        decreases assets.len() - i,
    {
        if assets[i].id == asset_id {
            let ghost before = assets@;
            let mut a = assets.remove(i);
            a.name = string_of(&trimmed);
            assets.insert(i, a);
            assert(assets@ =~= before.update(i as int, Asset { name: assets@[i as int].name, ..before[i as int] }));
            proof {
                reveal_strlit("Asset renamed");
            }
            *status = String::from_str("Asset renamed");
            assert(old(assets)@[i as int].id == asset_id);
            assert(asset_ids_of(old(assets)@)[i as int] == asset_id);
            return Ok(());
        }
        i = i + 1;
    }
    assert(!asset_ids_of(assets@).contains(asset_id)) by {
        if asset_ids_of(assets@).contains(asset_id) {
            let j = choose|j: int| 0 <= j < asset_ids_of(assets@).len() && asset_ids_of(assets@)[j] == asset_id;
            assert(assets@[j].id == asset_id);
        }
    }
    Err(RenameError::AssetNotFound)
}

} // verus!
