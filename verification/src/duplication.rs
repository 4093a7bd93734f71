//! Duplicating assets: which assets a request copies, what each copy is,
//! and what the editor selects and says afterwards. Copying a generative
//! asset's output folder is file work done around these.

use vstd::prelude::*;
use crate::assets::set_generative_folder;
use crate::editor_selection::Selection;
use crate::ids::{dedup, unique_uuid_list};
use crate::model::{Asset, AssetKind, kind_is_generative, kind_source, kind_active_version};
use crate::naming::{asset_names, is_free_name, unique_asset_copy_name};
use crate::text::{decimal, decimal_string};

verus! {

/// A list with an element has a distinct element.
proof fn lemma_dedup_empty(s: Seq<u128>)
    ensures
        dedup(s).len() == 0 <==> s.len() == 0,
{
    if s.len() > 0 {
        let d = dedup(s.drop_last());
        if d.contains(s.last()) {
            assert(d.len() > 0);
        }
    }
}

/// The assets a duplicate request copies: each named asset once, in
/// request order; refused when it names none.
pub fn assets_to_duplicate(asset_ids: &Vec<u128>) -> (r: Result<Vec<u128>, &'static str>)
    ensures
        r is Err <==> asset_ids@.len() == 0,
        r matches Err(m) ==> m@ == "No assets selected."@,
        r matches Ok(v) ==> v@ == dedup(asset_ids@),
{
    let unique = unique_uuid_list(asset_ids.as_slice());
    proof {
        lemma_dedup_empty(asset_ids@);
    }
    if unique.len() == 0 {
        proof {
            reveal_strlit("No assets selected.");
        }
        Err("No assets selected.")
    } else {
        Ok(unique)
    }
}

/// An equal copy of an asset kind.
fn copy_kind(kind: &AssetKind) -> (r: AssetKind)
    ensures
        r == *kind,
{
    let version = |v: &Option<String>| -> (c: Option<String>)
        ensures
            c == *v,
        {
            match v {
                Some(s) => Some(s.clone()),
                None => None,
            }
        };
    match kind {
        AssetKind::Video { path } => AssetKind::Video { path: path.clone() },
        AssetKind::Image { path } => AssetKind::Image { path: path.clone() },
        AssetKind::Audio { path } => AssetKind::Audio { path: path.clone() },
        AssetKind::GenerativeVideo { folder, active_version } => AssetKind::GenerativeVideo {
            folder: folder.clone(),
            active_version: version(active_version),
        },
        AssetKind::GenerativeImage { folder, active_version } => AssetKind::GenerativeImage {
            folder: folder.clone(),
            active_version: version(active_version),
        },
        AssetKind::GenerativeAudio { folder, active_version } => AssetKind::GenerativeAudio {
            folder: folder.clone(),
            active_version: version(active_version),
        },
    }
}

/// The copy of `source` added to a project holding `assets`: identifier
/// `new_id`, the free name based on "<name> Copy", and the same media; a
/// generative copy keeps its active version and takes `target_folder` as
/// its output folder.
pub fn duplicated_asset(assets: &Vec<Asset>, source: &Asset, new_id: u128, target_folder: String) -> (r: Asset)
    requires
        assets@.len() + 2 <= u32::MAX,
    ensures
        r.id == new_id,
        is_free_name(asset_names(assets@), source.name@ + " Copy"@, r.name@),
        !asset_names(assets@).contains(r.name@),
        kind_is_generative(source.kind) ==> kind_source(r.kind) == target_folder@ && kind_active_version(r.kind)
            == kind_active_version(source.kind) && (source.kind is GenerativeVideo <==> r.kind is GenerativeVideo)
            && (source.kind is GenerativeImage <==> r.kind is GenerativeImage) && (source.kind is GenerativeAudio
            <==> r.kind is GenerativeAudio),
        !kind_is_generative(source.kind) ==> r.kind == source.kind,
{
    let name = unique_asset_copy_name(assets, source.name.as_str());
    let mut copy = Asset { id: new_id, name, kind: copy_kind(&source.kind) };
    set_generative_folder(&mut copy, target_folder);
    copy
}

/// The status line after duplicating `n` assets.
pub open spec fn duplicated_message(n: nat) -> Seq<char> {
    if n == 1 {
        "Duplicated asset"@
    } else {
        "Duplicated "@ + decimal(n) + " assets"@
    }
}

/// After duplicating: the copies are the whole selection, the preview is
/// marked for redrawing, and the status line tells how many were made.
pub fn select_duplicates(
    selection: &mut Selection,
    preview_dirty: &mut bool,
    status: &mut String,
    duplicated: &Vec<u128>,
)
    ensures
        final(selection).asset_ids@ == duplicated@,
        final(selection).clip_ids@.len() == 0,
        final(selection).track_ids@.len() == 0,
        final(selection).marker_ids@.len() == 0,
        *final(preview_dirty),
        final(status)@ == duplicated_message(duplicated@.len()),
{
    selection.clear();
    let mut ids: Vec<u128> = Vec::new();
    let n = duplicated.len();
    for i in 0..n
        invariant
            n == duplicated@.len(),
            ids@ == duplicated@.take(i as int),
    {
        ids.push(duplicated[i]);
        assert(duplicated@.take(i + 1) =~= duplicated@.take(i as int).push(duplicated@[i as int]));
    }
    assert(duplicated@.take(n as int) =~= duplicated@);
    selection.asset_ids = ids;
    *preview_dirty = true;
    if n == 1 {
        proof {
            reveal_strlit("Duplicated asset");
        }
        *status = String::from_str("Duplicated asset");
    } else {
        proof {
            reveal_strlit("Duplicated ");
            reveal_strlit(" assets");
        }
        *status = String::from_str("Duplicated ").concat(decimal_string(n as u64).as_str()).concat(" assets");
    }
}

} // verus!
