//! Deleting clips, and assets together with the clips that use them.

use vstd::prelude::*;
use crate::model::Asset;
use crate::moves::Clip;
use crate::ids::{dedup, unique_uuid_list, law_dedup};
use crate::editor::id_listed;
use crate::text::{decimal, decimal_string};

verus! {

/// The key clips are matched by: their asset with `by_asset`, else their
/// identifier.
pub open spec fn clip_key(c: Clip, by_asset: bool) -> u128 {
    if by_asset {
        c.asset_id
    } else {
        c.id
    }
}

/// The clips whose key is not listed, in their order.
pub open spec fn kept_clips(clips: Seq<Clip>, ids: Seq<u128>, by_asset: bool) -> Seq<Clip>
    decreases clips.len(),
{
    if clips.len() == 0 {
        seq![]
    } else {
        let rest = kept_clips(clips.drop_last(), ids, by_asset);
        if ids.contains(clip_key(clips.last(), by_asset)) {
            rest
        } else {
            rest.push(clips.last())
        }
    }
}

/// The assets whose identifier is not listed, in their order.
pub open spec fn kept_assets(assets: Seq<Asset>, ids: Seq<u128>) -> Seq<Asset>
    decreases assets.len(),
{
    if assets.len() == 0 {
        seq![]
    } else {
        let rest = kept_assets(assets.drop_last(), ids);
        if ids.contains(assets.last().id) {
            rest
        } else {
            rest.push(assets.last())
        }
    }
}

/// How many of `ids` occur in `existing`.
pub open spec fn present_count(ids: Seq<u128>, existing: Seq<u128>) -> nat
    decreases ids.len(),
{
    if ids.len() == 0 {
        0
    } else {
        present_count(ids.drop_last(), existing) + if existing.contains(ids.last()) {
            1nat
        } else {
            0nat
        }
    }
}

/// The identifiers of clips, in order.
pub open spec fn clip_ids_of(clips: Seq<Clip>) -> Seq<u128> {
    clips.map_values(|c: Clip| c.id)
}

/// The identifiers of assets, in order.
pub open spec fn asset_ids_of(assets: Seq<Asset>) -> Seq<u128> {
    assets.map_values(|a: Asset| a.id)
}

pub(crate) fn clip_ids(clips: &Vec<Clip>) -> (r: Vec<u128>)
    ensures
        r@ == clip_ids_of(clips@),
{
    let mut out: Vec<u128> = Vec::new();
    let mut i: usize = 0;
    while i < clips.len()
        invariant
            i <= clips.len(),
            out@ == clip_ids_of(clips@.take(i as int)),
        decreases clips.len() - i,
    {
        out.push(clips[i].id);
        i = i + 1;
        assert(out@ =~= clip_ids_of(clips@.take(i as int)));
    }
    assert(clips@.take(clips.len() as int) =~= clips@);
    out
}

pub(crate) fn asset_ids(assets: &Vec<Asset>) -> (r: Vec<u128>)
    ensures
        r@ == asset_ids_of(assets@),
{
    let mut out: Vec<u128> = Vec::new();
    let mut i: usize = 0;
    while i < assets.len()
        invariant
            i <= assets.len(),
            out@ == asset_ids_of(assets@.take(i as int)),
        decreases assets.len() - i,
    {
        out.push(assets[i].id);
        i = i + 1;
        assert(out@ =~= asset_ids_of(assets@.take(i as int)));
    }
    assert(assets@.take(assets.len() as int) =~= assets@);
    out
}

/// How many of `ids` occur in `existing`.
fn count_present(ids: &Vec<u128>, existing: &Vec<u128>) -> (r: usize)
    ensures
        r == present_count(ids@, existing@),
{
    let mut count: usize = 0;
    let mut i: usize = 0;
    while i < ids.len()
        invariant
            i <= ids.len(),
            count == present_count(ids@.take(i as int), existing@),
            count <= i,
        decreases ids.len() - i,
    {
        assert(ids@.take(i + 1).drop_last() =~= ids@.take(i as int));
        if id_listed(existing, ids[i]) {
            count = count + 1;
        }
        i = i + 1;
    }
    assert(ids@.take(ids.len() as int) =~= ids@);
    count
}

/// Keeps the clips whose identifier (or, with `by_asset`, whose asset) is not
/// listed.
fn keep_clips(clips: &mut Vec<Clip>, ids: &Vec<u128>, by_asset: bool)
    ensures
        final(clips)@ == kept_clips(old(clips)@, ids@, by_asset),
{
    let mut source: Vec<Clip> = Vec::new();
    std::mem::swap(&mut source, clips);
    let ghost orig = source@;
    let mut i: usize = 0;
    while i < source.len()
        invariant
            i <= source.len(),
            source@ == orig,
            clips@ == kept_clips(orig.take(i as int), ids@, by_asset),
        decreases source.len() - i,
    {
        assert(orig.take(i + 1).drop_last() =~= orig.take(i as int));
        let c = source[i];
        let k = if by_asset {
            c.asset_id
        } else {
            c.id
        };
        if !id_listed(ids, k) {
            clips.push(c);
        }
        i = i + 1;
    }
    assert(orig.take(source.len() as int) =~= orig);
}

/// Keeps the assets whose identifier is not listed.
fn keep_assets(assets: &mut Vec<Asset>, ids: &Vec<u128>)
    ensures
        final(assets)@ == kept_assets(old(assets)@, ids@),
{
    let mut source: Vec<Asset> = Vec::new();
    std::mem::swap(&mut source, assets);
    let ghost orig = source@;
    let ghost n = orig.len();
    while source.len() > 0
        invariant
            n == orig.len(),
            source.len() <= n,
            source@ == orig.skip(n - source.len()),
            assets@ == kept_assets(orig.take(n - source.len()), ids@),
        decreases source.len(),
    {
        let ghost k = n - source.len();
        assert(orig.take(k + 1).drop_last() =~= orig.take(k));
        let a = source.remove(0);
        assert(source@ =~= orig.skip(k + 1));
        if !id_listed(ids, a.id) {
            assets.push(a);
        }
    }
    assert(orig.take(n as int) =~= orig);
}

/// Removes the clips with the listed identifiers; the count is how many of
/// the distinct identifiers named a clip.
pub fn remove_clips(clips: &mut Vec<Clip>, clip_ids_to_remove: &Vec<u128>) -> (removed: usize)
    ensures
        final(clips)@ == kept_clips(old(clips)@, clip_ids_to_remove@, false),
        removed == present_count(dedup(clip_ids_to_remove@), clip_ids_of(old(clips)@)),
{
    let existing = clip_ids(clips);
    let unique = unique_uuid_list(clip_ids_to_remove.as_slice());
    let removed = count_present(&unique, &existing);
    keep_clips(clips, clip_ids_to_remove, false);
    removed
}

/// Keeping never adds clips.
proof fn lemma_kept_clips_len(clips: Seq<Clip>, ids: Seq<u128>, by_asset: bool)
    ensures
        kept_clips(clips, ids, by_asset).len() <= clips.len(),
    decreases clips.len(),
{
    if clips.len() > 0 {
        lemma_kept_clips_len(clips.drop_last(), ids, by_asset);
    }
}

/// The status line after deleting clips.
pub open spec fn deleted_clips_message(n: nat) -> Seq<char> {
    if n == 1 {
        "Deleted clip"@
    } else {
        "Deleted "@ + decimal(n) + " clips"@
    }
}

/// The status line after deleting `deleted` clips.
pub fn deleted_clips_status(deleted: usize) -> (r: String)
    ensures
        r@ == deleted_clips_message(deleted as nat),
{
    if deleted == 1 {
        proof {
            reveal_strlit("Deleted clip");
        }
        String::from_str("Deleted clip")
    } else {
        proof {
            reveal_strlit("Deleted ");
            reveal_strlit(" clips");
        }
        String::from_str("Deleted ").concat(decimal_string(deleted as u64).as_str()).concat(" clips")
    }
}

/// Deletes assets and every clip that uses one of them. Returns how many of
/// the distinct identifiers named an asset, and how many clips went with them.
pub fn delete_assets(assets: &mut Vec<Asset>, clips: &mut Vec<Clip>, asset_ids_to_remove: &Vec<u128>) -> (r: (
    usize,
    usize,
))
    ensures
        final(assets)@ == kept_assets(old(assets)@, asset_ids_to_remove@),
        final(clips)@ == kept_clips(old(clips)@, asset_ids_to_remove@, true),
        r.0 == present_count(dedup(asset_ids_to_remove@), asset_ids_of(old(assets)@)),
        r.1 == old(clips)@.len() - final(clips)@.len(),
{
    if asset_ids_to_remove.len() == 0 {
        proof {
            lemma_keep_nothing(old(assets)@, old(clips)@, asset_ids_to_remove@);
        }
        return (0, 0);
    }
    let unique = unique_uuid_list(asset_ids_to_remove.as_slice());
    let existing = asset_ids(assets);
    let removed_assets = count_present(&unique, &existing);
    let before = clips.len();
    keep_clips(clips, asset_ids_to_remove, true);
    proof {
        lemma_kept_clips_len(old(clips)@, asset_ids_to_remove@, true);
    }
    let removed_clips = before - clips.len();
    keep_assets(assets, asset_ids_to_remove);
    (removed_assets, removed_clips)
}

/// With nothing listed, everything is kept.
proof fn lemma_keep_nothing(assets: Seq<Asset>, clips: Seq<Clip>, ids: Seq<u128>)
    requires
        ids.len() == 0,
    ensures
        kept_assets(assets, ids) == assets,
        kept_clips(clips, ids, true) == clips,
        present_count(dedup(ids), asset_ids_of(assets)) == 0,
    decreases assets.len() + clips.len(),
{
    if assets.len() > 0 {
        lemma_keep_nothing(assets.drop_last(), clips, ids);
        assert(assets.drop_last().push(assets.last()) =~= assets);
    }
    if clips.len() > 0 {
        lemma_keep_nothing(assets, clips.drop_last(), ids);
        assert(clips.drop_last().push(clips.last()) =~= clips);
    }
}

/// Every listed identifier that occurs is counted once.
proof fn lemma_present_count_all(ids: Seq<u128>, existing: Seq<u128>)
    requires
        forall|x: u128| ids.contains(x) ==> existing.contains(x),
    ensures
        present_count(ids, existing) == ids.len(),
    decreases ids.len(),
{
    if ids.len() > 0 {
        assert forall|x: u128| ids.drop_last().contains(x) implies existing.contains(x) by {
            let j = choose|j: int| 0 <= j < ids.drop_last().len() && ids.drop_last()[j] == x;
            assert(ids[j] == x);
        }
        lemma_present_count_all(ids.drop_last(), existing);
        assert(ids.contains(ids.last()));
    }
}

/// What deleting keeps: a clip stays exactly when it was there and its key
/// is not listed.
proof fn lemma_kept_clips_contains(clips: Seq<Clip>, ids: Seq<u128>, by_asset: bool, c: Clip)
    ensures
        kept_clips(clips, ids, by_asset).contains(c) <==> (clips.contains(c) && !ids.contains(
            clip_key(c, by_asset),
        )),
    decreases clips.len(),
{
    if clips.len() > 0 {
        let init = clips.drop_last();
        let last = clips.last();
        lemma_kept_clips_contains(init, ids, by_asset, c);
        let rest = kept_clips(init, ids, by_asset);
        assert(clips =~= init.push(last));
        if clips.contains(c) && c != last {
            let j = choose|j: int| 0 <= j < clips.len() && clips[j] == c;
            assert(init[j] == c);
        }
        if init.contains(c) {
            let j = choose|j: int| 0 <= j < init.len() && init[j] == c;
            assert(clips[j] == c);
        }
        assert(clips[clips.len() - 1] == last);
        if !ids.contains(clip_key(last, by_asset)) {
            let pushed = rest.push(last);
            assert(pushed[pushed.len() - 1] == last);
            if pushed.contains(c) && c != last {
                let j = choose|j: int| 0 <= j < pushed.len() && pushed[j] == c;
                assert(rest[j] == c);
            }
            if rest.contains(c) {
                let j = choose|j: int| 0 <= j < rest.len() && rest[j] == c;
                assert(pushed[j] == c);
            }
        }
    }
}

/// Deleting clips keeps exactly the clips not named, and a delete whose
/// every identifier names a clip reports each distinct identifier once.
pub proof fn law_clip_deletion(clips: Seq<Clip>, ids: Seq<u128>)
    ensures
        forall|c: Clip| #[trigger]
            kept_clips(clips, ids, false).contains(c) <==> (clips.contains(c) && !ids.contains(c.id)),
        (forall|x: u128| ids.contains(x) ==> clip_ids_of(clips).contains(x)) ==> present_count(
            dedup(ids),
            clip_ids_of(clips),
        ) == dedup(ids).len(),
{
    assert forall|c: Clip| #[trigger]
        kept_clips(clips, ids, false).contains(c) <==> (clips.contains(c) && !ids.contains(c.id)) by {
        lemma_kept_clips_contains(clips, ids, false, c);
    }
    law_dedup(ids);
    if forall|x: u128| ids.contains(x) ==> clip_ids_of(clips).contains(x) {
        assert forall|x: u128| dedup(ids).contains(x) implies clip_ids_of(clips).contains(x) by {
            assert(ids.contains(x));
        }
        lemma_present_count_all(dedup(ids), clip_ids_of(clips));
    }
}

/// Deleting assets takes with them exactly the clips that use them: a clip
/// stays exactly when it was there and its asset is not listed.
pub proof fn law_asset_deletion_takes_its_clips(clips: Seq<Clip>, ids: Seq<u128>)
    ensures
        forall|c: Clip| #[trigger]
            kept_clips(clips, ids, true).contains(c) <==> (clips.contains(c) && !ids.contains(
                c.asset_id,
            )),
{
    assert forall|c: Clip| #[trigger]
        kept_clips(clips, ids, true).contains(c) <==> (clips.contains(c) && !ids.contains(c.asset_id)) by {
        lemma_kept_clips_contains(clips, ids, true, c);
    }
}

} // verus!
