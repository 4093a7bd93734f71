//! Which timeline media the audio engine decodes, and which decodes to start.

use vstd::prelude::*;
use crate::model::{Asset, kind_is_audio, kind_is_video};
use crate::moves::{Clip, TrackType};
use crate::ids::dedup;
use crate::lineage::contains_id;

verus! {

/// A track as the audio engine reads it: identifier, kind and mute state.
#[derive(Clone, Copy, Debug, PartialEq, Eq, Structural)]
pub struct AudioTrack {
    pub id: u128,
    pub track_type: TrackType,
    pub muted: bool,
}

/// The last track with identifier `id` (later entries of a track table
/// replace earlier ones).
pub open spec fn audio_track_with(tracks: Seq<AudioTrack>, id: u128) -> Option<AudioTrack>
    decreases tracks.len(),
{
    if tracks.len() == 0 {
        None
    } else if tracks.last().id == id {
        Some(tracks.last())
    } else {
        audio_track_with(tracks.drop_last(), id)
    }
}

/// The first asset with identifier `id`.
pub open spec fn asset_with(assets: Seq<Asset>, id: u128) -> Option<Asset>
    decreases assets.len(),
{
    if assets.len() == 0 {
        None
    } else if assets[0].id == id {
        Some(assets[0])
    } else {
        asset_with(assets.drop_first(), id)
    }
}

/// The asset whose sound a clip contributes: a clip on an unmuted audio or
/// video track, of an audio or video asset.
pub open spec fn sounding_asset(tracks: Seq<AudioTrack>, assets: Seq<Asset>, clip: Clip) -> Option<u128> {
    match audio_track_with(tracks, clip.track_id) {
        Some(t) => if (t.track_type == TrackType::Audio || t.track_type == TrackType::Video) && !t.muted {
            match asset_with(assets, clip.asset_id) {
                Some(a) => if kind_is_audio(a.kind) || kind_is_video(a.kind) {
                    Some(a.id)
                } else {
                    None
                },
                None => None,
            }
        } else {
            None
        },
        None => None,
    }
}

/// The sounding assets of the clips, clip by clip (with repeats).
pub open spec fn sounding_assets(tracks: Seq<AudioTrack>, assets: Seq<Asset>, clips: Seq<Clip>) -> Seq<u128>
    decreases clips.len(),
{
    if clips.len() == 0 {
        Seq::empty()
    } else {
        let rest = sounding_assets(tracks, assets, clips.drop_last());
        match sounding_asset(tracks, assets, clips.last()) {
            Some(id) => rest.push(id),
            None => rest,
        }
    }
}

/// The last track with identifier `id`.
fn find_audio_track(tracks: &Vec<AudioTrack>, id: u128) -> (r: Option<AudioTrack>)
    ensures
        r == audio_track_with(tracks@, id),
{
    let mut i: usize = tracks.len();
    assert(tracks@.take(i as int) =~= tracks@);
    while i > 0
        invariant
            i <= tracks@.len(),
            audio_track_with(tracks@, id) == audio_track_with(tracks@.take(i as int), id),
        decreases i,
    {
        assert(tracks@.take(i as int).drop_last() =~= tracks@.take(i - 1));
        if tracks[i - 1].id == id {
            return Some(tracks[i - 1]);
        }
        i = i - 1;
    }
    None
}

/// The first asset with identifier `id`.
pub(crate) fn find_asset<'a>(assets: &'a Vec<Asset>, id: u128) -> (r: Option<&'a Asset>)
    ensures
        match r {
            Some(a) => asset_with(assets@, id) == Some(*a),
            None => asset_with(assets@, id) is None,
        },
{
    let mut i: usize = 0;
    assert(assets@.skip(0) =~= assets@);
    while i < assets.len()
        invariant
            i <= assets.len(),
            asset_with(assets@, id) == asset_with(assets@.skip(i as int), id),
        decreases assets.len() - i,
    {
        assert(assets@.skip(i as int).drop_first() =~= assets@.skip(i + 1));
        if assets[i].id == id {
            return Some(&assets[i]);
        }
        i = i + 1;
    }
    None
}

/// The assets whose audio the timeline plays, each once, in the order their
/// first sounding clip comes: clips on unmuted audio or video tracks, of
/// audio or video assets. (Their media files are resolved by the caller.)
pub fn audio_decode_asset_ids(tracks: &Vec<AudioTrack>, clips: &Vec<Clip>, assets: &Vec<Asset>) -> (r:
    Vec<u128>)
    ensures
        r@ == dedup(sounding_assets(tracks@, assets@, clips@)),
{
    let mut seen: Vec<u128> = Vec::new();
    let n = clips.len();
    for i in 0..n
        invariant
            n == clips@.len(),
            seen@ == dedup(sounding_assets(tracks@, assets@, clips@.take(i as int))),
    {
        let clip = clips[i];
        proof {
            assert(clips@.take(i + 1).drop_last() =~= clips@.take(i as int));
            assert(clips@.take(i + 1).last() == clip);
        }
        let sounding: Option<u128> = match find_audio_track(tracks, clip.track_id) {
            Some(t) => if (t.track_type == TrackType::Audio || t.track_type == TrackType::Video)
                && !t.muted {
                match find_asset(assets, clip.asset_id) {
                    Some(a) => if a.is_audio() || a.is_video() {
                        Some(a.id)
                    } else {
                        None
                    },
                    None => None,
                }
            } else {
                None
            },
            None => None,
        };
        match sounding {
            Some(id) => {
                let ghost s = sounding_assets(tracks@, assets@, clips@.take(i as int));
                assert(sounding_assets(tracks@, assets@, clips@.take(i + 1)) == s.push(id));
                assert(s.push(id).drop_last() =~= s);
                if !contains_id(&seen, id) {
                    seen.push(id);
                }
            },
            None => {},
        }
    }
    assert(clips@.take(n as int) =~= clips@);
    seen
}

/// The decodes a round starts, in order: targets that neither failed before,
/// nor are decoded already, nor are being decoded (a target started in this
/// round counts as being decoded).
pub open spec fn decodes_started(
    targets: Seq<u128>,
    failed: Seq<u128>,
    cached: Seq<u128>,
    in_flight: Seq<u128>,
) -> (Seq<u128>, Seq<u128>)
    decreases targets.len(),
{
    if targets.len() == 0 {
        (Seq::empty(), in_flight)
    } else {
        let (started, flight) = decodes_started(targets.drop_last(), failed, cached, in_flight);
        let t = targets.last();
        if failed.contains(t) || cached.contains(t) || flight.contains(t) {
            (started, flight)
        } else {
            (started.push(t), flight.push(t))
        }
    }
}

/// Chooses the decodes to start among `targets`, marking each started one
/// as in flight.
pub fn decode_targets_to_start(
    targets: &Vec<u128>,
    failed: &Vec<u128>,
    cached: &Vec<u128>,
    in_flight: &mut Vec<u128>,
) -> (r: Vec<u128>)
    ensures
        (r@, final(in_flight)@) == decodes_started(targets@, failed@, cached@, old(in_flight)@),
{
    let ghost start = in_flight@;
    let mut started: Vec<u128> = Vec::new();
    let n = targets.len();
    for i in 0..n
        invariant
            n == targets@.len(),
            (started@, in_flight@) == decodes_started(targets@.take(i as int), failed@, cached@, start),
    {
        let t = targets[i];
        proof {
            assert(targets@.take(i + 1).drop_last() =~= targets@.take(i as int));
            assert(targets@.take(i + 1).last() == t);
        }
        if !contains_id(failed, t) && !contains_id(cached, t) && !contains_id(in_flight, t) {
            in_flight.push(t);
            started.push(t);
        }
    }
    assert(targets@.take(n as int) =~= targets@);
    started
}

/// A decode round starts each target at most once, never one that failed
/// before, is decoded already or was in flight, and leaves in flight exactly
/// what was in flight plus what it started.
pub proof fn law_decodes_start_once(
    targets: Seq<u128>,
    failed: Seq<u128>,
    cached: Seq<u128>,
    in_flight: Seq<u128>,
)
    ensures
        ({
            let (started, flight) = decodes_started(targets, failed, cached, in_flight);
            &&& flight == in_flight + started
            &&& forall|i: int, j: int| 0 <= i < j < started.len() ==> started[i] != started[j]
            &&& forall|i: int|
                0 <= i < started.len() ==> !failed.contains(#[trigger] started[i]) && !cached.contains(
                    started[i],
                ) && !in_flight.contains(started[i])
        }),
    decreases targets.len(),
{
    if targets.len() > 0 {
        law_decodes_start_once(targets.drop_last(), failed, cached, in_flight);
        let (started, flight) = decodes_started(targets.drop_last(), failed, cached, in_flight);
        let t = targets.last();
        if !(failed.contains(t) || cached.contains(t) || flight.contains(t)) {
            assert((in_flight + started).push(t) =~= in_flight + started.push(t));
            let s2 = started.push(t);
            assert forall|i: int, j: int| 0 <= i < j < s2.len() implies s2[i] != s2[j] by {
                if j == s2.len() - 1 {
                    assert(flight[in_flight.len() + i] == started[i]);
                    assert(flight.contains(started[i]));
                }
            }
            assert forall|i: int| 0 <= i < s2.len() implies !failed.contains(#[trigger] s2[i])
                && !cached.contains(s2[i]) && !in_flight.contains(s2[i]) by {
                if i == s2.len() - 1 {
                    if in_flight.contains(t) {
                        let k = choose|k: int| 0 <= k < in_flight.len() && in_flight[k] == t;
                        assert(flight[k] == t);
                    }
                }
            }
        }
    }
}

} // verus!
