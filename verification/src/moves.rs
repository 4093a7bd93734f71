//! Moving timeline clips between tracks as one batch: every target is
//! resolved and checked before any clip changes, so a rejected batch leaves
//! the timeline as it was.
//!
//! Start times are not part of this model; the caller computes them from the
//! resolved moves.

use vstd::prelude::*;
use crate::model::ProviderOutputType;
use crate::ids::{first_duplicate_uuid, first_repeat, all_distinct};
use crate::uuid_text::{uuid_string, uuid_text};

verus! {

/// The kind of a timeline track.
#[derive(Clone, Copy, Debug, PartialEq, Eq, Structural)]
pub enum TrackType {
    Video,
    Audio,
    Marker,
}

/// A timeline track.
#[derive(Clone, Copy, Debug, PartialEq, Eq, Structural)]
pub struct Track {
    pub id: u128,
    pub track_type: TrackType,
}

/// A clip: a use of an asset on a track.
#[derive(Clone, Copy, Debug, PartialEq, Eq, Structural)]
pub struct Clip {
    pub id: u128,
    pub asset_id: u128,
    pub track_id: u128,
}

/// The parts of a project that clip moves read and change: tracks in
/// display order, clips, and the media type of each asset.
#[derive(Clone, Debug)]
pub struct Timeline {
    pub tracks: Vec<Track>,
    pub clips: Vec<Clip>,
    pub asset_media: Vec<(u128, ProviderOutputType)>,
}

/// The timeline as values: tracks, clips and asset media types.
pub open spec fn timeline_view(tl: Timeline) -> (Seq<Track>, Seq<Clip>, Seq<(u128, ProviderOutputType)>) {
    (tl.tracks@, tl.clips@, tl.asset_media@)
}

impl View for Timeline {
    type V = (Seq<Track>, Seq<Clip>, Seq<(u128, ProviderOutputType)>);

    open spec fn view(&self) -> Self::V {
        timeline_view(*self)
    }
}

/// One requested absolute move: a clip, whether a new start time is given,
/// and the track to move it to, if any.
#[derive(Clone, Copy, Debug, PartialEq, Eq, Structural)]
pub struct ClipMoveTarget {
    pub clip_id: u128,
    pub sets_start_time: bool,
    pub track_id: Option<u128>,
}

/// A checked move: the clip and the track it ends on.
#[derive(Clone, Copy, Debug, PartialEq, Eq, Structural)]
pub struct ResolvedClipMove {
    pub clip_id: u128,
    pub track_id: u128,
}

/// Why a batch of moves was refused.
#[derive(Clone, Copy, Debug, PartialEq, Eq, Structural)]
pub enum MoveError {
    /// An absolute batch without targets.
    NoTargets,
    /// A relative batch without clips.
    NoClips,
    /// A target with neither a start time nor a track.
    EmptyTarget,
    /// A relative batch that moves neither in time nor across tracks.
    NoMovement,
    /// The same clip twice in one batch.
    DuplicateClip(u128),
    /// Both a track offset and a track given for a relative batch.
    TrackDeltaAndTrack,
    ClipNotFound(u128),
    TrackNotFound(u128),
    CurrentTrackNotFound(u128),
    /// A track offset that leaves the track list.
    TrackDeltaOutOfRange(i32),
    /// The clip's asset cannot be placed on the target track.
    IncompatibleTrack(u128),
}

/// The HTTP status an automation client receives for a refused batch.
pub open spec fn error_status(e: MoveError) -> u16 {
    match e {
        MoveError::NoTargets | MoveError::NoClips | MoveError::EmptyTarget
        | MoveError::NoMovement => 400,
        MoveError::ClipNotFound(_) | MoveError::TrackNotFound(_)
        | MoveError::CurrentTrackNotFound(_) => 404,
        _ => 409,
    }
}

impl MoveError {
    /// The HTTP status: 400 for a malformed request, 404 for a missing clip
    /// or track, 409 for a conflict.
    pub fn http_status(&self) -> (r: u16)
        ensures
            r == error_status(*self),
    {
        match self {
            MoveError::NoTargets | MoveError::NoClips | MoveError::EmptyTarget
            | MoveError::NoMovement => 400,
            MoveError::ClipNotFound(_) | MoveError::TrackNotFound(_)
            | MoveError::CurrentTrackNotFound(_) => 404,
            _ => 409,
        }
    }
}

/// The first clip with identifier `id`.
pub open spec fn clip_with(clips: Seq<Clip>, id: u128) -> Option<Clip>
    decreases clips.len(),
{
    if clips.len() == 0 {
        None
    } else if clips[0].id == id {
        Some(clips[0])
    } else {
        clip_with(clips.drop_first(), id)
    }
}

/// The first track with identifier `id`.
pub open spec fn track_with(tracks: Seq<Track>, id: u128) -> Option<Track>
    decreases tracks.len(),
{
    if tracks.len() == 0 {
        None
    } else if tracks[0].id == id {
        Some(tracks[0])
    } else {
        track_with(tracks.drop_first(), id)
    }
}

/// The position of the first track with identifier `id`.
pub open spec fn track_position(tracks: Seq<Track>, id: u128) -> Option<int>
    decreases tracks.len(),
{
    if tracks.len() == 0 {
        None
    } else if tracks[0].id == id {
        Some(0)
    } else {
        match track_position(tracks.drop_first(), id) {
            Some(p) => Some(p + 1),
            None => None,
        }
    }
}

/// The media type of the first entry for asset `id`.
pub open spec fn media_of(media: Seq<(u128, ProviderOutputType)>, id: u128) -> Option<
    ProviderOutputType,
>
    decreases media.len(),
{
    if media.len() == 0 {
        None
    } else if media[0].0 == id {
        Some(media[0].1)
    } else {
        media_of(media.drop_first(), id)
    }
}

/// Whether media of type `m` may sit on a track of type `t`: pictures on
/// video tracks, sound on audio tracks, nothing on marker tracks.
pub open spec fn media_fits_track(m: ProviderOutputType, t: TrackType) -> bool {
    match t {
        TrackType::Video => m == ProviderOutputType::Video || m == ProviderOutputType::Image,
        TrackType::Audio => m == ProviderOutputType::Audio,
        TrackType::Marker => false,
    }
}

/// The check of one move's destination: the track must exist, and the
/// clip's asset must exist and fit it.
pub open spec fn target_check(tl: Timeline, asset_id: u128, track_id: u128) -> Option<MoveError> {
    match track_with(tl.tracks@, track_id) {
        None => Some(MoveError::TrackNotFound(track_id)),
        Some(t) => match media_of(tl.asset_media@, asset_id) {
            Some(m) => if media_fits_track(m, t.track_type) {
                None
            } else {
                Some(MoveError::IncompatibleTrack(track_id))
            },
            None => Some(MoveError::IncompatibleTrack(track_id)),
        },
    }
}

/// How one absolute target resolves.
pub open spec fn absolute_target(tl: Timeline, t: ClipMoveTarget) -> Result<ResolvedClipMove, MoveError> {
    if !t.sets_start_time && t.track_id is None {
        Err(MoveError::EmptyTarget)
    } else {
        match clip_with(tl.clips@, t.clip_id) {
            None => Err(MoveError::ClipNotFound(t.clip_id)),
            Some(c) => {
                let track = match t.track_id {
                    Some(x) => x,
                    None => c.track_id,
                };
                match target_check(tl, c.asset_id, track) {
                    Some(e) => Err(e),
                    None => Ok(ResolvedClipMove { clip_id: c.id, track_id: track }),
                }
            },
        }
    }
}

/// Resolution of targets in order, stopping at the first refusal.
pub open spec fn absolute_targets(tl: Timeline, moves: Seq<ClipMoveTarget>) -> Result<
    Seq<ResolvedClipMove>,
    MoveError,
>
    decreases moves.len(),
{
    if moves.len() == 0 {
        Ok(seq![])
    } else {
        match absolute_targets(tl, moves.drop_last()) {
            Err(e) => Err(e),
            Ok(s) => match absolute_target(tl, moves.last()) {
                Err(e) => Err(e),
                Ok(m) => Ok(s.push(m)),
            },
        }
    }
}

/// The clip identifiers of the targets.
pub open spec fn target_clip_ids(moves: Seq<ClipMoveTarget>) -> Seq<u128> {
    moves.map_values(|t: ClipMoveTarget| t.clip_id)
}

/// How an absolute batch resolves: it needs a target, no clip twice, and
/// every target resolving.
pub open spec fn absolute_moves(tl: Timeline, moves: Seq<ClipMoveTarget>) -> Result<
    Seq<ResolvedClipMove>,
    MoveError,
> {
    if moves.len() == 0 {
        Err(MoveError::NoTargets)
    } else {
        match first_repeat(target_clip_ids(moves)) {
            Some(d) => Err(MoveError::DuplicateClip(d)),
            None => absolute_targets(tl, moves),
        }
    }
}

/// The first clip with identifier `id`.
fn find_clip(clips: &Vec<Clip>, id: u128) -> (r: Option<Clip>)
    ensures
        r == clip_with(clips@, id),
{
    let mut i: usize = 0;
    assert(clips@.skip(0) =~= clips@);
    while i < clips.len()
        invariant
            i <= clips.len(),
            clip_with(clips@, id) == clip_with(clips@.skip(i as int), id),
        decreases clips.len() - i,
    {
        assert(clips@.skip(i as int).drop_first() =~= clips@.skip(i + 1));
        if clips[i].id == id {
            return Some(clips[i]);
        }
        i = i + 1;
    }
    None
}

/// The first track with identifier `id`.
pub(crate) fn find_track(tracks: &Vec<Track>, id: u128) -> (r: Option<Track>)
    ensures
        r == track_with(tracks@, id),
{
    let mut i: usize = 0;
    assert(tracks@.skip(0) =~= tracks@);
    while i < tracks.len()
        invariant
            i <= tracks.len(),
            track_with(tracks@, id) == track_with(tracks@.skip(i as int), id),
        decreases tracks.len() - i,
    {
        assert(tracks@.skip(i as int).drop_first() =~= tracks@.skip(i + 1));
        if tracks[i].id == id {
            return Some(tracks[i]);
        }
        i = i + 1;
    }
    None
}

/// The media type of asset `id`.
fn find_media(media: &Vec<(u128, ProviderOutputType)>, id: u128) -> (r: Option<ProviderOutputType>)
    ensures
        r == media_of(media@, id),
{
    let mut i: usize = 0;
    assert(media@.skip(0) =~= media@);
    while i < media.len()
        invariant
            i <= media.len(),
            media_of(media@, id) == media_of(media@.skip(i as int), id),
        decreases media.len() - i,
    {
        assert(media@.skip(i as int).drop_first() =~= media@.skip(i + 1));
        if media[i].0 == id {
            return Some(media[i].1);
        }
        i = i + 1;
    }
    None
}

/// Checks that a clip of asset `asset_id` may move to track `track_id`.
fn validate_clip_move_target(tl: &Timeline, asset_id: u128, track_id: u128) -> (r: Result<(), MoveError>)
    ensures
        match target_check(*tl, asset_id, track_id) {
            Some(e) => r == Err::<(), MoveError>(e),
            None => r is Ok,
        },
{
    let track = match find_track(&tl.tracks, track_id) {
        None => {
            return Err(MoveError::TrackNotFound(track_id));
        },
        Some(t) => t,
    };
    let fits = match find_media(&tl.asset_media, asset_id) {
        Some(m) => match track.track_type {
            TrackType::Video => m == ProviderOutputType::Video || m == ProviderOutputType::Image,
            TrackType::Audio => m == ProviderOutputType::Audio,
            TrackType::Marker => false,
        },
        None => false,
    };
    if fits {
        Ok(())
    } else {
        Err(MoveError::IncompatibleTrack(track_id))
    }
}

/// Resolves an absolute batch: every target names a clip, at most once, with
/// a start time or a track; the destination track (the given one, else the
/// clip's own) must exist and fit the clip's asset. Nothing is changed.
pub fn resolve_absolute_clip_moves(tl: &Timeline, moves: &Vec<ClipMoveTarget>) -> (r: Result<
    Vec<ResolvedClipMove>,
    MoveError,
>)
    ensures
        match absolute_moves(*tl, moves@) {
            Ok(s) => r matches Ok(v) && v@ == s,
            Err(e) => r == Err::<Vec<ResolvedClipMove>, MoveError>(e),
        },
{
    if moves.len() == 0 {
        return Err(MoveError::NoTargets);
    }
    let mut ids: Vec<u128> = Vec::new();
    let n = moves.len();
    for i in 0..n
        invariant
            n == moves@.len(),
            ids@ == target_clip_ids(moves@.take(i as int)),
    {
        ids.push(moves[i].clip_id);
        assert(target_clip_ids(moves@.take(i + 1)) =~= target_clip_ids(moves@.take(i as int)).push(
            moves@[i as int].clip_id,
        ));
    }
    assert(moves@.take(n as int) =~= moves@);
    match first_duplicate_uuid(ids.as_slice()) {
        Some(d) => {
            return Err(MoveError::DuplicateClip(d));
        },
        None => {},
    }
    let mut targets: Vec<ResolvedClipMove> = Vec::new();
    for i in 0..n
        invariant
            n == moves@.len(),
            moves@.len() > 0,
            first_repeat(target_clip_ids(moves@)) is None,
            absolute_targets(*tl, moves@.take(i as int)) == Ok::<Seq<ResolvedClipMove>, MoveError>(
                targets@,
            ),
    {
        let target = moves[i];
        assert(moves@.take(i + 1).drop_last() =~= moves@.take(i as int));
        if !target.sets_start_time && target.track_id.is_none() {
            assert(target.track_id is None);
            assert(absolute_target(*tl, moves@[i as int]) == Err::<ResolvedClipMove, MoveError>(
                MoveError::EmptyTarget,
            ));
            proof {
                lemma_absolute_targets_stop(*tl, moves@, i as int);
            }
            return Err(MoveError::EmptyTarget);
        }
        let clip = match find_clip(&tl.clips, target.clip_id) {
            None => {
                assert(absolute_target(*tl, moves@[i as int]) == Err::<ResolvedClipMove, MoveError>(
                    MoveError::ClipNotFound(target.clip_id),
                ));
                proof {
                    lemma_absolute_targets_stop(*tl, moves@, i as int);
                }
                return Err(MoveError::ClipNotFound(target.clip_id));
            },
            Some(c) => c,
        };
        let target_track_id = match target.track_id {
            Some(x) => x,
            None => clip.track_id,
        };
        match validate_clip_move_target(tl, clip.asset_id, target_track_id) {
            Err(e) => {
                proof {
                    lemma_absolute_targets_stop(*tl, moves@, i as int);
                }
                return Err(e);
            },
            Ok(()) => {},
        }
        targets.push(ResolvedClipMove { clip_id: clip.id, track_id: target_track_id });
    }
    Ok(targets)
}

/// Once a target is refused, the whole batch is refused with its error.
proof fn lemma_absolute_targets_stop(tl: Timeline, moves: Seq<ClipMoveTarget>, i: int)
    requires
        0 <= i < moves.len(),
        absolute_targets(tl, moves.take(i)) is Ok,
        absolute_target(tl, moves[i]) is Err,
    ensures
        absolute_targets(tl, moves) == Err::<Seq<ResolvedClipMove>, MoveError>(
            absolute_target(tl, moves[i])->Err_0,
        ),
    decreases moves.len(),
{
    if i == moves.len() - 1 {
        assert(moves.drop_last() =~= moves.take(i));
    } else {
        assert(moves.drop_last().take(i) =~= moves.take(i));
        lemma_absolute_targets_stop(tl, moves.drop_last(), i);
    }
}

/// The track `delta` places below (positive) or above (negative) track
/// `current`.
pub open spec fn relative_track(tl: Timeline, current: u128, delta: i32) -> Result<u128, MoveError> {
    if delta == 0 {
        Ok(current)
    } else {
        match track_position(tl.tracks@, current) {
            None => Err(MoveError::CurrentTrackNotFound(current)),
            Some(p) => {
                let t = p + delta;
                if t < 0 || t >= tl.tracks@.len() {
                    Err(MoveError::TrackDeltaOutOfRange(delta))
                } else {
                    Ok(tl.tracks@[t].id)
                }
            },
        }
    }
}

/// How one clip of a relative batch resolves.
pub open spec fn relative_clip(
    tl: Timeline,
    clip_id: u128,
    track_delta: Option<i32>,
    track_id: Option<u128>,
) -> Result<ResolvedClipMove, MoveError> {
    match clip_with(tl.clips@, clip_id) {
        None => Err(MoveError::ClipNotFound(clip_id)),
        Some(c) => {
            let target = match track_id {
                Some(t) => Ok(t),
                None => match track_delta {
                    Some(d) => relative_track(tl, c.track_id, d),
                    None => Ok(c.track_id),
                },
            };
            match target {
                Err(e) => Err(e),
                Ok(t) => match target_check(tl, c.asset_id, t) {
                    Some(e) => Err(e),
                    None => Ok(ResolvedClipMove { clip_id: c.id, track_id: t }),
                },
            }
        },
    }
}

/// Resolution of the clips of a relative batch in order, stopping at the
/// first refusal.
pub open spec fn relative_clips(
    tl: Timeline,
    clip_ids: Seq<u128>,
    track_delta: Option<i32>,
    track_id: Option<u128>,
) -> Result<Seq<ResolvedClipMove>, MoveError>
    decreases clip_ids.len(),
{
    if clip_ids.len() == 0 {
        Ok(seq![])
    } else {
        match relative_clips(tl, clip_ids.drop_last(), track_delta, track_id) {
            Err(e) => Err(e),
            Ok(s) => match relative_clip(tl, clip_ids.last(), track_delta, track_id) {
                Err(e) => Err(e),
                Ok(m) => Ok(s.push(m)),
            },
        }
    }
}

/// How a relative batch resolves: it needs clips, no clip twice, at most one
/// of a track offset and a track, and some movement in time or across tracks.
pub open spec fn relative_moves(
    tl: Timeline,
    clip_ids: Seq<u128>,
    moves_in_time: bool,
    track_delta: Option<i32>,
    track_id: Option<u128>,
) -> Result<Seq<ResolvedClipMove>, MoveError> {
    if clip_ids.len() == 0 {
        Err(MoveError::NoClips)
    } else {
        match first_repeat(clip_ids) {
            Some(d) => Err(MoveError::DuplicateClip(d)),
            None => if track_delta is Some && track_id is Some {
                Err(MoveError::TrackDeltaAndTrack)
            } else {
                let vertical = match track_delta {
                    Some(d) => d != 0,
                    None => false,
                } || track_id is Some;
                if !moves_in_time && !vertical {
                    Err(MoveError::NoMovement)
                } else {
                    relative_clips(tl, clip_ids, track_delta, track_id)
                }
            },
        }
    }
}

/// The position of the first track with identifier `id`.
fn find_track_position(tracks: &Vec<Track>, id: u128) -> (r: Option<usize>)
    ensures
        match r {
            Some(i) => track_position(tracks@, id) == Some(i as int),
            None => track_position(tracks@, id) is None,
        },
{
    let mut i: usize = 0;
    assert(tracks@.skip(0) =~= tracks@);
    while i < tracks.len()
        invariant
            i <= tracks.len(),
            match track_position(tracks@, id) {
                Some(p) => match track_position(tracks@.skip(i as int), id) {
                    Some(q) => p == q + i,
                    None => false,
                },
                None => track_position(tracks@.skip(i as int), id) is None,
            },
        decreases tracks.len() - i,
    {
        assert(tracks@.skip(i as int).drop_first() =~= tracks@.skip(i + 1));
        if tracks[i].id == id {
            return Some(i);
        }
        i = i + 1;
    }
    None
}

proof fn lemma_track_position_range(tracks: Seq<Track>, id: u128)
    ensures
        match track_position(tracks, id) {
            Some(p) => 0 <= p < tracks.len() && tracks[p].id == id,
            None => true,
        },
    decreases tracks.len(),
{
    if tracks.len() > 0 && tracks[0].id != id {
        lemma_track_position_range(tracks.drop_first(), id);
    }
}

/// The track `delta` places away from track `current_track_id`.
fn relative_track_id(tl: &Timeline, current_track_id: u128, delta: i32) -> (r: Result<u128, MoveError>)
    ensures
        r == relative_track(*tl, current_track_id, delta),
{
    if delta == 0 {
        return Ok(current_track_id);
    }
    proof {
        lemma_track_position_range(tl.tracks@, current_track_id);
    }
    let index = match find_track_position(&tl.tracks, current_track_id) {
        None => {
            return Err(MoveError::CurrentTrackNotFound(current_track_id));
        },
        Some(i) => i,
    };
    let target_index: i128 = index as i128 + delta as i128;
    assert(track_position(tl.tracks@, current_track_id) == Some(index as int));
    if target_index < 0 || target_index >= tl.tracks.len() as i128 {
        assert(index + delta < 0 || index + delta >= tl.tracks@.len());
        return Err(MoveError::TrackDeltaOutOfRange(delta));
    }
    let t: usize = target_index as usize;
    Ok(tl.tracks[t].id)
}

/// Once a clip is refused, the whole relative batch is refused with its error.
proof fn lemma_relative_clips_stop(
    tl: Timeline,
    clip_ids: Seq<u128>,
    track_delta: Option<i32>,
    track_id: Option<u128>,
    i: int,
)
    requires
        0 <= i < clip_ids.len(),
        relative_clips(tl, clip_ids.take(i), track_delta, track_id) is Ok,
        relative_clip(tl, clip_ids[i], track_delta, track_id) is Err,
    ensures
        relative_clips(tl, clip_ids, track_delta, track_id) == Err::<Seq<ResolvedClipMove>, MoveError>(
            relative_clip(tl, clip_ids[i], track_delta, track_id)->Err_0,
        ),
    decreases clip_ids.len(),
{
    if i == clip_ids.len() - 1 {
        assert(clip_ids.drop_last() =~= clip_ids.take(i));
    } else {
        assert(clip_ids.drop_last().take(i) =~= clip_ids.take(i));
        lemma_relative_clips_stop(tl, clip_ids.drop_last(), track_delta, track_id, i);
    }
}

/// Resolves a relative batch: each clip moves by `track_delta` tracks, or to
/// `track_id`, or stays on its track; `moves_in_time` tells whether the batch
/// shifts the clips in time. Nothing is changed.
pub fn resolve_relative_clip_moves(
    tl: &Timeline,
    clip_ids: &Vec<u128>,
    moves_in_time: bool,
    track_delta: Option<i32>,
    track_id: Option<u128>,
) -> (r: Result<Vec<ResolvedClipMove>, MoveError>)
    ensures
        match relative_moves(*tl, clip_ids@, moves_in_time, track_delta, track_id) {
            Ok(s) => r matches Ok(v) && v@ == s,
            Err(e) => r == Err::<Vec<ResolvedClipMove>, MoveError>(e),
        },
{
    if clip_ids.len() == 0 {
        return Err(MoveError::NoClips);
    }
    match first_duplicate_uuid(clip_ids.as_slice()) {
        Some(d) => {
            return Err(MoveError::DuplicateClip(d));
        },
        None => {},
    }
    if track_delta.is_some() && track_id.is_some() {
        return Err(MoveError::TrackDeltaAndTrack);
    }
    let vertical_move_requested = match track_delta {
        Some(d) => d != 0,
        None => false,
    } || track_id.is_some();
    if !moves_in_time && !vertical_move_requested {
        return Err(MoveError::NoMovement);
    }
    let mut targets: Vec<ResolvedClipMove> = Vec::new();
    let n = clip_ids.len();
    for i in 0..n
        invariant
            n == clip_ids@.len(),
            relative_moves(*tl, clip_ids@, moves_in_time, track_delta, track_id) == relative_clips(
                *tl,
                clip_ids@,
                track_delta,
                track_id,
            ),
            relative_clips(*tl, clip_ids@.take(i as int), track_delta, track_id) == Ok::<
                Seq<ResolvedClipMove>,
                MoveError,
            >(targets@),
    {
        let clip_id = clip_ids[i];
        assert(clip_ids@.take(i + 1).drop_last() =~= clip_ids@.take(i as int));
        let clip = match find_clip(&tl.clips, clip_id) {
            None => {
                proof {
                    lemma_relative_clips_stop(*tl, clip_ids@, track_delta, track_id, i as int);
                }
                return Err(MoveError::ClipNotFound(clip_id));
            },
            Some(c) => c,
        };
        let target_track_id = match track_id {
            Some(t) => t,
            None => match track_delta {
                Some(d) => match relative_track_id(tl, clip.track_id, d) {
                    Ok(t) => t,
                    Err(e) => {
                        proof {
                            lemma_relative_clips_stop(*tl, clip_ids@, track_delta, track_id, i as int);
                        }
                        return Err(e);
                    },
                },
                None => clip.track_id,
            },
        };
        match validate_clip_move_target(tl, clip.asset_id, target_track_id) {
            Err(e) => {
                proof {
                    lemma_relative_clips_stop(*tl, clip_ids@, track_delta, track_id, i as int);
                }
                return Err(e);
            },
            Ok(()) => {},
        }
        targets.push(ResolvedClipMove { clip_id: clip.id, track_id: target_track_id });
    }
    assert(clip_ids@.take(n as int) =~= clip_ids@);
    Ok(targets)
}

/// Whether a batch gives absolute targets or offsets.
#[derive(Clone, Copy, Debug, PartialEq, Eq, Structural)]
pub enum ClipMoveMode {
    Absolute,
    Relative,
}

/// How a batch of either mode resolves.
pub open spec fn resolve_batch(
    tl: Timeline,
    mode: ClipMoveMode,
    moves: Seq<ClipMoveTarget>,
    clip_ids: Seq<u128>,
    moves_in_time: bool,
    track_delta: Option<i32>,
    track_id: Option<u128>,
) -> Result<Seq<ResolvedClipMove>, MoveError> {
    match mode {
        ClipMoveMode::Absolute => absolute_moves(tl, moves),
        ClipMoveMode::Relative => relative_moves(tl, clip_ids, moves_in_time, track_delta, track_id),
    }
}

/// The position of the first clip with identifier `id`.
pub open spec fn clip_position(clips: Seq<Clip>, id: u128) -> Option<int>
    decreases clips.len(),
{
    if clips.len() == 0 {
        None
    } else if clips[0].id == id {
        Some(0)
    } else {
        match clip_position(clips.drop_first(), id) {
            Some(p) => Some(p + 1),
            None => None,
        }
    }
}

/// `clips` with the first clip of the move put on the move's track.
pub open spec fn retrack(clips: Seq<Clip>, m: ResolvedClipMove) -> Seq<Clip> {
    match clip_position(clips, m.clip_id) {
        Some(k) => clips.update(k, Clip { track_id: m.track_id, ..clips[k] }),
        None => clips,
    }
}

/// `clips` after the moves, applied in order.
pub open spec fn apply_moves(clips: Seq<Clip>, moves: Seq<ResolvedClipMove>) -> Seq<Clip>
    decreases moves.len(),
{
    if moves.len() == 0 {
        clips
    } else {
        retrack(apply_moves(clips, moves.drop_last()), moves.last())
    }
}

proof fn lemma_clip_position_range(clips: Seq<Clip>, id: u128)
    ensures
        match clip_position(clips, id) {
            Some(p) => 0 <= p < clips.len() && clips[p].id == id,
            None => forall|i: int| 0 <= i < clips.len() ==> clips[i].id != id,
        },
    decreases clips.len(),
{
    if clips.len() > 0 && clips[0].id != id {
        lemma_clip_position_range(clips.drop_first(), id);
        if clip_position(clips.drop_first(), id) is None {
            assert forall|i: int| 0 <= i < clips.len() implies clips[i].id != id by {
                if i > 0 {
                    assert(clips[i] == clips.drop_first()[i - 1]);
                }
            }
        }
    }
}

/// The position of the first clip with identifier `id`.
fn find_clip_position(clips: &Vec<Clip>, id: u128) -> (r: Option<usize>)
    ensures
        match r {
            Some(i) => clip_position(clips@, id) == Some(i as int),
            None => clip_position(clips@, id) is None,
        },
{
    let mut i: usize = 0;
    assert(clips@.skip(0) =~= clips@);
    while i < clips.len()
        invariant
            i <= clips.len(),
            match clip_position(clips@, id) {
                Some(p) => match clip_position(clips@.skip(i as int), id) {
                    Some(q) => p == q + i,
                    None => false,
                },
                None => clip_position(clips@.skip(i as int), id) is None,
            },
        decreases clips.len() - i,
    {
        assert(clips@.skip(i as int).drop_first() =~= clips@.skip(i + 1));
        if clips[i].id == id {
            return Some(i);
        }
        i = i + 1;
    }
    None
}

/// Puts each moved clip on its track, in order.
fn apply_clip_moves(clips: &mut Vec<Clip>, moves: &Vec<ResolvedClipMove>)
    ensures
        final(clips)@ == apply_moves(old(clips)@, moves@),
{
    let n = moves.len();
    for i in 0..n
        invariant
            n == moves@.len(),
            clips@ == apply_moves(old(clips)@, moves@.take(i as int)),
    {
        let m = moves[i];
        assert(moves@.take(i + 1).drop_last() =~= moves@.take(i as int));
        match find_clip_position(clips, m.clip_id) {
            Some(k) => {
                proof {
                    lemma_clip_position_range(clips@, m.clip_id);
                }
                let c = clips[k];
                clips.set(k, Clip { track_id: m.track_id, ..c });
            },
            None => {},
        }
    }
    assert(moves@.take(n as int) =~= moves@);
}

/// Moves a batch of clips across tracks. The batch is resolved first; when it
/// is refused nothing changes, otherwise every clip of the batch is put on
/// its resolved track and the resolved moves are returned (the caller sets
/// their start times and selects them).
pub fn apply_move_clips_command(
    tl: &mut Timeline,
    mode: ClipMoveMode,
    moves: &Vec<ClipMoveTarget>,
    clip_ids: &Vec<u128>,
    moves_in_time: bool,
    track_delta: Option<i32>,
    track_id: Option<u128>,
) -> (r: Result<Vec<ResolvedClipMove>, MoveError>)
    ensures
        match resolve_batch(
            *old(tl),
            mode,
            moves@,
            clip_ids@,
            moves_in_time,
            track_delta,
            track_id,
        ) {
            Err(e) => r == Err::<Vec<ResolvedClipMove>, MoveError>(e) && final(tl)@ == old(tl)@,
            Ok(s) => r matches Ok(v) && v@ == s && final(tl).clips@ == apply_moves(
                old(tl).clips@,
                s,
            ) && final(tl).tracks@ == old(tl).tracks@ && final(tl).asset_media@
                == old(tl).asset_media@,
        },
{
    let targets = match mode {
        ClipMoveMode::Absolute => resolve_absolute_clip_moves(tl, moves),
        ClipMoveMode::Relative => resolve_relative_clip_moves(
            tl,
            clip_ids,
            moves_in_time,
            track_delta,
            track_id,
        ),
    };
    let targets = match targets {
        Ok(t) => t,
        Err(e) => {
            return Err(e);
        },
    };
    apply_clip_moves(&mut tl.clips, &targets);
    Ok(targets)
}

/// Why a single clip cannot be moved to the track a command names.
#[derive(Clone, Copy, Debug, PartialEq, Eq, Structural)]
pub enum ClipTrackRefusal {
    ClipNotFound,
    TrackNotFound,
    /// The clip's asset cannot be placed on the named track.
    IncompatibleTrack,
}

impl ClipTrackRefusal {
    /// The HTTP status: 404 for a missing clip or track, 409 for a track
    /// that does not fit the clip.
    pub fn http_status(&self) -> (r: u16)
        ensures
            r == match *self {
                ClipTrackRefusal::IncompatibleTrack => 409u16,
                _ => 404u16,
            },
    {
        match self {
            ClipTrackRefusal::IncompatibleTrack => 409,
            _ => 404,
        }
    }

    /// The message sent back with the refusal.
    pub fn message(&self) -> (r: &'static str)
        ensures
            r@ == match *self {
                ClipTrackRefusal::ClipNotFound => "Clip not found."@,
                ClipTrackRefusal::TrackNotFound => "Track not found."@,
                ClipTrackRefusal::IncompatibleTrack => "Clip asset is not compatible with that track."@,
            },
    {
        match self {
            ClipTrackRefusal::ClipNotFound => "Clip not found.",
            ClipTrackRefusal::TrackNotFound => "Track not found.",
            ClipTrackRefusal::IncompatibleTrack => "Clip asset is not compatible with that track.",
        }
    }
}

/// Where a command that moves or edits one clip puts it: the clip must
/// exist; a named track must exist and, unless the clip is already on it,
/// fit the clip's asset. Without a track the clip stays on its own.
pub open spec fn single_clip_move(tl: Timeline, clip_id: u128, track_id: Option<u128>) -> Result<
    ResolvedClipMove,
    ClipTrackRefusal,
> {
    match clip_with(tl.clips@, clip_id) {
        None => Err(ClipTrackRefusal::ClipNotFound),
        Some(c) => match track_id {
            None => Ok(ResolvedClipMove { clip_id, track_id: c.track_id }),
            Some(t) => match track_with(tl.tracks@, t) {
                None => Err(ClipTrackRefusal::TrackNotFound),
                Some(_) => if c.track_id != t && target_check(tl, c.asset_id, t) is Some {
                    Err(ClipTrackRefusal::IncompatibleTrack)
                } else {
                    Ok(ResolvedClipMove { clip_id, track_id: t })
                },
            },
        },
    }
}

/// Moves one clip to the track a command names, after checking it; when the
/// check fails nothing changes. The caller then sets the clip's time.
pub fn move_single_clip(tl: &mut Timeline, clip_id: u128, track_id: Option<u128>) -> (r: Result<
    ResolvedClipMove,
    ClipTrackRefusal,
>)
    ensures
        r == single_clip_move(*old(tl), clip_id, track_id),
        match r {
            Ok(m) => final(tl).clips@ == retrack(old(tl).clips@, m) && final(tl).tracks@
                == old(tl).tracks@ && final(tl).asset_media@ == old(tl).asset_media@,
            Err(_) => final(tl)@ == old(tl)@,
        },
{
    let clip = match find_clip(&tl.clips, clip_id) {
        None => {
            return Err(ClipTrackRefusal::ClipNotFound);
        },
        Some(c) => c,
    };
    let target = match track_id {
        None => clip.track_id,
        Some(t) => {
            if find_track(&tl.tracks, t).is_none() {
                return Err(ClipTrackRefusal::TrackNotFound);
            }
            if clip.track_id != t && validate_clip_move_target(tl, clip.asset_id, t).is_err() {
                return Err(ClipTrackRefusal::IncompatibleTrack);
            }
            t
        },
    };
    let m = ResolvedClipMove { clip_id, track_id: target };
    match find_clip_position(&tl.clips, clip_id) {
        Some(k) => {
            proof {
                lemma_clip_position_range(tl.clips@, clip_id);
            }
            let c = tl.clips[k];
            tl.clips.set(k, Clip { track_id: target, ..c });
        },
        None => {},
    }
    Ok(m)
}

/// The clip identifiers of resolved moves.
pub open spec fn moved_clip_ids(s: Seq<ResolvedClipMove>) -> Seq<u128> {
    s.map_values(|m: ResolvedClipMove| m.clip_id)
}

/// A resolved move is valid on the timeline: its clip exists and its asset
/// fits the destination track.
pub open spec fn move_valid(tl: Timeline, m: ResolvedClipMove) -> bool {
    match clip_with(tl.clips@, m.clip_id) {
        Some(c) => target_check(tl, c.asset_id, m.track_id) is None,
        None => false,
    }
}

proof fn lemma_clip_with_id(clips: Seq<Clip>, id: u128)
    ensures
        clip_with(clips, id) matches Some(c) ==> c.id == id,
    decreases clips.len(),
{
    if clips.len() > 0 && clips[0].id != id {
        lemma_clip_with_id(clips.drop_first(), id);
    }
}

proof fn lemma_absolute_targets_valid(tl: Timeline, moves: Seq<ClipMoveTarget>)
    requires
        absolute_targets(tl, moves) is Ok,
    ensures
        ({
            let s = absolute_targets(tl, moves)->Ok_0;
            &&& s.len() == moves.len()
            &&& forall|i: int| 0 <= i < s.len() ==> #[trigger] s[i].clip_id == moves[i].clip_id
            &&& forall|i: int| 0 <= i < s.len() ==> move_valid(tl, #[trigger] s[i])
        }),
    decreases moves.len(),
{
    if moves.len() > 0 {
        lemma_absolute_targets_valid(tl, moves.drop_last());
        lemma_clip_with_id(tl.clips@, moves.last().clip_id);
    }
}

proof fn lemma_relative_clips_valid(
    tl: Timeline,
    clip_ids: Seq<u128>,
    track_delta: Option<i32>,
    track_id: Option<u128>,
)
    requires
        relative_clips(tl, clip_ids, track_delta, track_id) is Ok,
    ensures
        ({
            let s = relative_clips(tl, clip_ids, track_delta, track_id)->Ok_0;
            &&& s.len() == clip_ids.len()
            &&& forall|i: int| 0 <= i < s.len() ==> #[trigger] s[i].clip_id == clip_ids[i]
            &&& forall|i: int| 0 <= i < s.len() ==> move_valid(tl, #[trigger] s[i])
        }),
    decreases clip_ids.len(),
{
    if clip_ids.len() > 0 {
        lemma_relative_clips_valid(tl, clip_ids.drop_last(), track_delta, track_id);
        lemma_clip_with_id(tl.clips@, clip_ids.last());
    }
}

/// An accepted batch names every clip once, in the order of the request, and
/// every move is valid: its clip exists and the clip's asset fits the
/// destination track.
pub proof fn law_accepted_batch_is_valid(
    tl: Timeline,
    mode: ClipMoveMode,
    moves: Seq<ClipMoveTarget>,
    clip_ids: Seq<u128>,
    moves_in_time: bool,
    track_delta: Option<i32>,
    track_id: Option<u128>,
)
    requires
        resolve_batch(tl, mode, moves, clip_ids, moves_in_time, track_delta, track_id) is Ok,
    ensures
        ({
            let s = resolve_batch(tl, mode, moves, clip_ids, moves_in_time, track_delta, track_id)->Ok_0;
            &&& all_distinct(moved_clip_ids(s))
            &&& forall|i: int| 0 <= i < s.len() ==> move_valid(tl, #[trigger] s[i])
            &&& moved_clip_ids(s) == match mode {
                ClipMoveMode::Absolute => target_clip_ids(moves),
                ClipMoveMode::Relative => clip_ids,
            }
        }),
{
    let s = resolve_batch(tl, mode, moves, clip_ids, moves_in_time, track_delta, track_id)->Ok_0;
    let ids = match mode {
        ClipMoveMode::Absolute => target_clip_ids(moves),
        ClipMoveMode::Relative => clip_ids,
    };
    match mode {
        ClipMoveMode::Absolute => {
            lemma_absolute_targets_valid(tl, moves);
        },
        ClipMoveMode::Relative => {
            lemma_relative_clips_valid(tl, clip_ids, track_delta, track_id);
        },
    }
    assert(first_repeat(ids) is None);
    lemma_first_repeat_none_distinct(ids);
    assert forall|i: int, j: int| 0 <= i < j < moved_clip_ids(s).len() implies moved_clip_ids(
        s,
    )[i] != moved_clip_ids(s)[j] by {
        assert(moved_clip_ids(s)[i] == ids[i]);
        assert(moved_clip_ids(s)[j] == ids[j]);
    }
    assert(moved_clip_ids(s) =~= ids);
}

proof fn lemma_first_repeat_none_distinct(s: Seq<u128>)
    requires
        first_repeat(s) is None,
    ensures
        all_distinct(s),
{
    crate::ids::lemma_first_repeat_none(s);
}

proof fn lemma_clip_position_same_ids(a: Seq<Clip>, b: Seq<Clip>, id: u128)
    requires
        a.len() == b.len(),
        forall|k: int| 0 <= k < a.len() ==> a[k].id == b[k].id,
    ensures
        clip_position(a, id) == clip_position(b, id),
    decreases a.len(),
{
    if a.len() > 0 {
        lemma_clip_position_same_ids(a.drop_first(), b.drop_first(), id);
    }
}

/// Applying resolved moves keeps every clip's identity and asset, puts the
/// clip of each move on the move's track, and leaves every other clip as it
/// was.
pub proof fn law_applied_moves(clips: Seq<Clip>, s: Seq<ResolvedClipMove>)
    requires
        all_distinct(moved_clip_ids(s)),
    ensures
        apply_moves(clips, s).len() == clips.len(),
        forall|k: int|
            0 <= k < clips.len() ==> (#[trigger] apply_moves(clips, s)[k]).id == clips[k].id
                && apply_moves(clips, s)[k].asset_id == clips[k].asset_id,
        forall|i: int, k: int|
            0 <= i < s.len() && clip_position(clips, #[trigger] s[i].clip_id) == Some(k) ==> (
            #[trigger] apply_moves(clips, s)[k]).track_id == s[i].track_id,
        forall|k: int|
            0 <= k < clips.len() && (forall|i: int|
                0 <= i < s.len() ==> clip_position(clips, #[trigger] s[i].clip_id) != Some(k))
                ==> #[trigger] apply_moves(clips, s)[k] == clips[k],
    decreases s.len(),
{
    if s.len() > 0 {
        let prev = s.drop_last();
        assert forall|i: int, j: int| 0 <= i < j < moved_clip_ids(prev).len() implies moved_clip_ids(
            prev,
        )[i] != moved_clip_ids(prev)[j] by {
            assert(moved_clip_ids(prev)[i] == moved_clip_ids(s)[i]);
            assert(moved_clip_ids(prev)[j] == moved_clip_ids(s)[j]);
        }
        law_applied_moves(clips, prev);
        let before = apply_moves(clips, prev);
        let m = s.last();
        lemma_clip_position_same_ids(before, clips, m.clip_id);
        lemma_clip_position_range(clips, m.clip_id);
        let after = apply_moves(clips, s);
        assert(after == retrack(before, m));
        assert forall|i: int, k: int|
            0 <= i < s.len() && clip_position(clips, #[trigger] s[i].clip_id) == Some(k) implies (
            #[trigger] apply_moves(clips, s)[k]).track_id == s[i].track_id by {
            lemma_clip_position_range(clips, s[i].clip_id);
            if i < s.len() - 1 {
                assert(prev[i] == s[i]);
                if clip_position(clips, m.clip_id) == Some(k) {
                    assert(moved_clip_ids(s)[i] == s[i].clip_id);
                    assert(moved_clip_ids(s)[s.len() - 1] == m.clip_id);
                    assert(moved_clip_ids(s)[i] == moved_clip_ids(s)[s.len() - 1]);
                }
                assert(before[k].track_id == s[i].track_id);
            }
        }
        assert forall|k: int|
            0 <= k < clips.len() && (forall|i: int|
                0 <= i < s.len() ==> clip_position(clips, #[trigger] s[i].clip_id) != Some(k))
                implies #[trigger] apply_moves(clips, s)[k] == clips[k] by {
            assert forall|i: int| 0 <= i < prev.len() implies clip_position(
                clips,
                #[trigger] prev[i].clip_id,
            ) != Some(k) by {
                assert(prev[i] == s[i]);
            }
            assert(clip_position(clips, s[s.len() - 1].clip_id) != Some(k));
        }
    }
}

/// Whether media of type `m` and a track of type `t` go together, spelled
/// out: video and image media on video tracks, audio media on audio tracks.
pub open spec fn media_on_its_track(m: ProviderOutputType, t: TrackType) -> bool {
    ||| t == TrackType::Video && (m == ProviderOutputType::Video || m == ProviderOutputType::Image)
    ||| t == TrackType::Audio && m == ProviderOutputType::Audio
}

/// A valid move puts a clip whose asset is known on an existing track of
/// its media.
proof fn lemma_valid_move_media(tl: Timeline, m: ResolvedClipMove)
    requires
        move_valid(tl, m),
    ensures
        clip_with(tl.clips@, m.clip_id) matches Some(c) && track_with(tl.tracks@, m.track_id) matches Some(t)
            && media_of(tl.asset_media@, c.asset_id) matches Some(media) && media_on_its_track(
            media,
            t.track_type,
        ),
{
}

/// An accepted batch of moves puts every clip on a track of its media: a
/// clip goes to a video track only when its asset is a video or an image,
/// and to an audio track only when its asset is audio; never to a marker
/// track.
pub proof fn law_accepted_moves_keep_media_on_its_tracks(
    tl: Timeline,
    mode: ClipMoveMode,
    moves: Seq<ClipMoveTarget>,
    clip_ids: Seq<u128>,
    moves_in_time: bool,
    track_delta: Option<i32>,
    track_id: Option<u128>,
)
    requires
        resolve_batch(tl, mode, moves, clip_ids, moves_in_time, track_delta, track_id) is Ok,
    ensures
        forall|i: int|
            0 <= i < resolve_batch(tl, mode, moves, clip_ids, moves_in_time, track_delta, track_id)->Ok_0.len()
                ==> {
                let m = #[trigger] resolve_batch(tl, mode, moves, clip_ids, moves_in_time, track_delta, track_id)->Ok_0[i];
                &&& clip_with(tl.clips@, m.clip_id) matches Some(c)
                &&& track_with(tl.tracks@, m.track_id) matches Some(t)
                &&& media_of(tl.asset_media@, c.asset_id) matches Some(media)
                &&& (t.track_type == TrackType::Video ==> media == ProviderOutputType::Video || media
                    == ProviderOutputType::Image)
                &&& (t.track_type == TrackType::Audio ==> media == ProviderOutputType::Audio)
                &&& t.track_type != TrackType::Marker
            },
{
    let s = resolve_batch(tl, mode, moves, clip_ids, moves_in_time, track_delta, track_id)->Ok_0;
    law_accepted_batch_is_valid(tl, mode, moves, clip_ids, moves_in_time, track_delta, track_id);
    assert forall|i: int| 0 <= i < s.len() implies {
        let m = #[trigger] s[i];
        &&& clip_with(tl.clips@, m.clip_id) matches Some(c)
        &&& track_with(tl.tracks@, m.track_id) matches Some(t)
        &&& media_of(tl.asset_media@, c.asset_id) matches Some(media)
        &&& (t.track_type == TrackType::Video ==> media == ProviderOutputType::Video || media
            == ProviderOutputType::Image)
        &&& (t.track_type == TrackType::Audio ==> media == ProviderOutputType::Audio)
        &&& t.track_type != TrackType::Marker
    } by {
        lemma_valid_move_media(tl, s[i]);
    }
}

/// A command that moves one clip to another track puts it only on a track of
/// its media: a video track for a video or image asset, an audio track for
/// an audio asset.
pub proof fn law_single_move_keeps_media_on_its_track(tl: Timeline, clip_id: u128, track_id: Option<u128>)
    requires
        single_clip_move(tl, clip_id, track_id) is Ok,
    ensures
        ({
            let m = single_clip_move(tl, clip_id, track_id)->Ok_0;
            clip_with(tl.clips@, clip_id) matches Some(c) && (m.track_id != c.track_id ==> (track_with(
                tl.tracks@,
                m.track_id,
            ) matches Some(t) && media_of(tl.asset_media@, c.asset_id) matches Some(media) && (t.track_type
                == TrackType::Video ==> media == ProviderOutputType::Video || media == ProviderOutputType::Image)
                && (t.track_type == TrackType::Audio ==> media == ProviderOutputType::Audio) && t.track_type
                != TrackType::Marker))
        }),
{
}

} // verus!
