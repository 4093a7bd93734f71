use latentslate::model::ProviderOutputType;
use latentslate::moves::{
    move_single_clip, resolve_absolute_clip_moves,
    resolve_relative_clip_moves, Clip, ClipMoveMode, ClipMoveTarget, ClipTrackRefusal, MoveError,
    ResolvedClipMove, Timeline, Track, TrackType,
};
use latentslate::editor_selection::{move_clips_and_select, Selection};
use latentslate::lab_jobs::{list_session_results, plan_lab_submission, withdraw_advances, JobPhase, LabResultEntry, QueuedJob};
use latentslate::session::{AssetLabSubmission, AssetLabView, EscapeOutcome, LabSession, UndoEntry, UNDO_LIMIT};

const VIDEO_A: u128 = 100;
const VIDEO_B: u128 = 101;
const AUDIO: u128 = 200;
const ASSET_A: u128 = 1;
const ASSET_B: u128 = 2;
const CLIP_A: u128 = 10;
const CLIP_B: u128 = 11;

fn timeline(tracks: Vec<Track>) -> Timeline {
    Timeline {
        tracks,
        clips: vec![
            Clip { id: CLIP_A, asset_id: ASSET_A, track_id: VIDEO_A },
            Clip { id: CLIP_B, asset_id: ASSET_B, track_id: VIDEO_A },
        ],
        asset_media: vec![(ASSET_A, ProviderOutputType::Image), (ASSET_B, ProviderOutputType::Image)],
    }
}

fn video(id: u128) -> Track {
    Track { id, track_type: TrackType::Video }
}

fn audio(id: u128) -> Track {
    Track { id, track_type: TrackType::Audio }
}

fn clip(tl: &Timeline, id: u128) -> Clip {
    *tl.clips.iter().find(|c| c.id == id).expect("clip retained")
}

/// Start times as the caller keeps them: after an accepted batch, each clip
/// that the library reports as moved takes its requested start time; clips
/// the library does not report keep theirs.
fn apply_start_times(starts: &mut Vec<(u128, f64)>, moved: &[ResolvedClipMove], requested: &[(u128, f64)]) {
    for m in moved {
        if let Some((_, start)) = requested.iter().find(|(id, _)| *id == m.clip_id) {
            for entry in starts.iter_mut() {
                if entry.0 == m.clip_id {
                    entry.1 = *start;
                }
            }
        }
    }
}

fn moved_of<E>(result: &Result<Vec<ResolvedClipMove>, E>) -> Vec<ResolvedClipMove> {
    match result {
        Ok(v) => v.clone(),
        Err(_) => Vec::new(),
    }
}

fn empty_selection() -> Selection {
    Selection { clip_ids: Vec::new(), asset_ids: vec![42], track_ids: vec![VIDEO_A], marker_ids: Vec::new() }
}

fn start_of(starts: &[(u128, f64)], id: u128) -> f64 {
    starts.iter().find(|e| e.0 == id).unwrap().1
}

#[test]
fn move_clip_validates_target_track_before_changing_start_time() {
    let mut tl = timeline(vec![video(VIDEO_A), audio(AUDIO)]);
    let mut starts = vec![(CLIP_A, 1.0), (CLIP_B, 3.0)];
    let result = move_single_clip(&mut tl, CLIP_A, Some(AUDIO));
    let moved: Vec<ResolvedClipMove> = result.iter().copied().collect();
    apply_start_times(&mut starts, &moved, &[(CLIP_A, 5.0)]);
    let refused = result.unwrap_err();
    assert_eq!(refused, ClipTrackRefusal::IncompatibleTrack);
    assert_eq!(refused.http_status(), 409);
    assert_eq!(start_of(&starts, CLIP_A), 1.0);
    assert_eq!(clip(&tl, CLIP_A).track_id, VIDEO_A);
}

#[test]
fn single_clip_moves_check_clip_and_track() {
    let mut tl = timeline(vec![video(VIDEO_A), video(VIDEO_B), audio(AUDIO)]);
    assert_eq!(move_single_clip(&mut tl, 99, None), Err(ClipTrackRefusal::ClipNotFound));
    assert_eq!(move_single_clip(&mut tl, CLIP_A, Some(999)).unwrap_err().message(), "Track not found.");
    assert_eq!(
        move_single_clip(&mut tl, CLIP_B, None),
        Ok(ResolvedClipMove { clip_id: CLIP_B, track_id: VIDEO_A })
    );
    assert_eq!(
        move_single_clip(&mut tl, CLIP_A, Some(VIDEO_B)),
        Ok(ResolvedClipMove { clip_id: CLIP_A, track_id: VIDEO_B })
    );
    assert_eq!(clip(&tl, CLIP_A).track_id, VIDEO_B);
    assert_eq!(clip(&tl, CLIP_B).track_id, VIDEO_A);
    assert_eq!(
        ClipTrackRefusal::IncompatibleTrack.message(),
        "Clip asset is not compatible with that track."
    );
}

#[test]
fn move_clips_absolute_moves_multiple_clips_atomically() {
    let mut tl = timeline(vec![video(VIDEO_A), video(VIDEO_B), audio(AUDIO)]);
    let mut starts = vec![(CLIP_A, 1.0), (CLIP_B, 3.0)];
    let moves = vec![
        ClipMoveTarget { clip_id: CLIP_A, sets_start_time: true, track_id: Some(VIDEO_B) },
        ClipMoveTarget { clip_id: CLIP_B, sets_start_time: true, track_id: Some(VIDEO_B) },
    ];
    let mut selection = empty_selection();
    let mut preview_dirty = false;
    let result = move_clips_and_select(
        &mut tl,
        &mut selection,
        &mut preview_dirty,
        ClipMoveMode::Absolute,
        &moves,
        &Vec::new(),
        false,
        None,
        None,
    );
    apply_start_times(&mut starts, &moved_of(&result), &[(CLIP_A, 5.0), (CLIP_B, 7.5)]);
    assert!(result.is_ok());
    assert_eq!(start_of(&starts, CLIP_A), 5.0);
    assert_eq!(start_of(&starts, CLIP_B), 7.5);
    assert_eq!(clip(&tl, CLIP_A).track_id, VIDEO_B);
    assert_eq!(clip(&tl, CLIP_B).track_id, VIDEO_B);
    assert_eq!(selection.clip_ids, vec![CLIP_A, CLIP_B]);
    assert!(selection.asset_ids.is_empty() && selection.track_ids.is_empty() && selection.marker_ids.is_empty());
    assert!(preview_dirty);
}

#[test]
fn move_clips_relative_preserves_group_and_moves_track_delta() {
    let mut tl = timeline(vec![video(VIDEO_A), video(VIDEO_B), audio(AUDIO)]);
    let mut starts = vec![(CLIP_A, 1.0), (CLIP_B, 3.0)];
    let mut selection = empty_selection();
    let mut preview_dirty = false;
    let result = move_clips_and_select(
        &mut tl,
        &mut selection,
        &mut preview_dirty,
        ClipMoveMode::Relative,
        &Vec::new(),
        &vec![CLIP_A, CLIP_B],
        true,
        Some(1),
        None,
    );
    apply_start_times(&mut starts, &moved_of(&result), &[(CLIP_A, 1.0 + 2.5), (CLIP_B, 3.0 + 2.5)]);
    assert!(result.is_ok());
    assert_eq!(selection.clip_ids, vec![CLIP_A, CLIP_B]);
    assert_eq!(start_of(&starts, CLIP_A), 3.5);
    assert_eq!(start_of(&starts, CLIP_B), 5.5);
    assert_eq!(clip(&tl, CLIP_A).track_id, VIDEO_B);
    assert_eq!(clip(&tl, CLIP_B).track_id, VIDEO_B);
}

#[test]
fn move_clips_rejects_incompatible_target_without_partial_mutation() {
    let mut tl = timeline(vec![video(VIDEO_A), audio(AUDIO)]);
    let mut starts = vec![(CLIP_A, 1.0), (CLIP_B, 3.0)];
    let moves = vec![
        ClipMoveTarget { clip_id: CLIP_A, sets_start_time: true, track_id: None },
        ClipMoveTarget { clip_id: CLIP_B, sets_start_time: true, track_id: Some(AUDIO) },
    ];
    let mut selection = empty_selection();
    let mut preview_dirty = false;
    let result = move_clips_and_select(
        &mut tl,
        &mut selection,
        &mut preview_dirty,
        ClipMoveMode::Absolute,
        &moves,
        &Vec::new(),
        false,
        None,
        None,
    );
    apply_start_times(&mut starts, &moved_of(&result), &[(CLIP_A, 5.0), (CLIP_B, 7.0)]);
    assert_eq!(selection.asset_ids, vec![42]);
    assert!(!preview_dirty);
    let err = result.unwrap_err();
    assert_eq!(err.http_status(), 409);
    assert_eq!(err, MoveError::IncompatibleTrack(AUDIO));
    assert_eq!(start_of(&starts, CLIP_A), 1.0);
    assert_eq!(start_of(&starts, CLIP_B), 3.0);
    assert_eq!(clip(&tl, CLIP_A).track_id, VIDEO_A);
    assert_eq!(clip(&tl, CLIP_B).track_id, VIDEO_A);
}

#[test]
fn move_errors_for_each_malformed_batch() {
    let tl = timeline(vec![video(VIDEO_A), video(VIDEO_B), audio(AUDIO)]);
    assert_eq!(resolve_absolute_clip_moves(&tl, &Vec::new()), Err(MoveError::NoTargets));
    let empty = vec![ClipMoveTarget { clip_id: CLIP_A, sets_start_time: false, track_id: None }];
    assert_eq!(resolve_absolute_clip_moves(&tl, &empty), Err(MoveError::EmptyTarget));
    let twice = vec![
        ClipMoveTarget { clip_id: CLIP_A, sets_start_time: true, track_id: None },
        ClipMoveTarget { clip_id: CLIP_A, sets_start_time: true, track_id: None },
    ];
    assert_eq!(resolve_absolute_clip_moves(&tl, &twice), Err(MoveError::DuplicateClip(CLIP_A)));
    let missing = vec![ClipMoveTarget { clip_id: 999, sets_start_time: true, track_id: None }];
    assert_eq!(resolve_absolute_clip_moves(&tl, &missing), Err(MoveError::ClipNotFound(999)));
    let no_track = vec![ClipMoveTarget { clip_id: CLIP_A, sets_start_time: false, track_id: Some(7) }];
    assert_eq!(resolve_absolute_clip_moves(&tl, &no_track), Err(MoveError::TrackNotFound(7)));
    assert_eq!(resolve_relative_clip_moves(&tl, &Vec::new(), true, None, None), Err(MoveError::NoClips));
    assert_eq!(
        resolve_relative_clip_moves(&tl, &vec![CLIP_A], false, None, None),
        Err(MoveError::NoMovement)
    );
    assert_eq!(
        resolve_relative_clip_moves(&tl, &vec![CLIP_A], false, Some(1), Some(VIDEO_B)),
        Err(MoveError::TrackDeltaAndTrack)
    );
    assert_eq!(
        resolve_relative_clip_moves(&tl, &vec![CLIP_A], false, Some(-1), None),
        Err(MoveError::TrackDeltaOutOfRange(-1))
    );
    assert_eq!(MoveError::NoTargets.http_status(), 400);
    assert_eq!(MoveError::ClipNotFound(1).http_status(), 404);
    assert_eq!(MoveError::DuplicateClip(1).http_status(), 409);
}

#[test]
fn relative_moves_in_time_only_keep_tracks() {
    let tl = timeline(vec![video(VIDEO_A), audio(AUDIO)]);
    let moves = resolve_relative_clip_moves(&tl, &vec![CLIP_B], true, None, None).unwrap();
    assert_eq!(moves, vec![ResolvedClipMove { clip_id: CLIP_B, track_id: VIDEO_A }]);
}

fn session() -> LabSession<u32> {
    LabSession {
        view: AssetLabView::Create,
        session_id: 77,
        revision: 0,
        observed: Some(UndoEntry { snapshot: 0, size: 10 }),
        undo: Vec::new(),
        edit_group: None,
        preview: None,
        interacting: false,
        input_busy: false,
        pending_adopt: None,
    }
}

#[test]
fn asset_lab_v4_late_completion_cannot_replace_edits_or_audition() {
    let mut state = session();
    let submission = AssetLabSubmission { session_id: 77, revision: 0, parent_node_id: None, allow_advance: true };
    assert!(state.can_advance(&submission, false));
    state.preview = Some("v2".to_string());
    assert!(!state.can_advance(&submission, false));
    state.preview = None;
    state.view = AssetLabView::Compare;
    assert!(!state.can_advance(&submission, false));
    state.view = AssetLabView::Create;
    assert!(!state.can_advance(&submission, true));
    state.interacting = true;
    assert!(!state.can_advance(&submission, false));
    state.interacting = false;
    assert!(state.can_advance(&submission, false));
    state.observe(1, 10, false, None);
    assert!(!state.can_advance(&submission, false));
    state.observe(0, 10, false, None);
    assert!(!state.can_advance(&submission, false));
    state.revision = 0;
    state.session_id = 78;
    assert!(!state.can_advance(&submission, false));
}

#[test]
fn asset_lab_v4_undo_is_coalesced_and_bounded() {
    let mut state = session();
    state.observed = None;
    state.observe(0, 100, false, None);
    let focus = Some(5u64);
    for n in 0..8u32 {
        state.observe(n + 1, 100, false, focus);
    }
    assert_eq!(state.undo.len(), 1);
    for n in 8..40u32 {
        state.observe(n + 1, 100, false, None);
    }
    assert_eq!(state.undo.len(), 20);
    assert_eq!(UNDO_LIMIT, 20);
    state.view = AssetLabView::Compare;
    state.view = AssetLabView::Create;
    assert_eq!(state.undo.len(), 20);
}

#[test]
fn unchanged_setup_keeps_history_and_revision() {
    let mut state = session();
    state.observe(1, 10, false, Some(3));
    let revision = state.revision;
    state.observe(1, 10, true, None);
    assert_eq!(state.revision, revision);
    assert_eq!(state.undo.len(), 1);
    assert_eq!(state.edit_group, None);
}

#[test]
fn heavy_history_keeps_only_the_newest_entry() {
    let mut state = session();
    state.observed = Some(UndoEntry { snapshot: 0, size: 3_000_000 });
    state.observe(1, 3_000_000, false, None);
    state.observe(2, 3_000_000, false, None);
    assert_eq!(state.undo.len(), 1);
    assert_eq!(state.undo[0].snapshot, 1);
}

#[test]
fn new_sessions_start_clean_with_distinct_ids() {
    let a: LabSession<u32> = LabSession::new();
    let b: LabSession<u32> = LabSession::new();
    assert_eq!(a.revision, 0);
    assert!(a.undo.is_empty() && a.observed.is_none());
    assert_eq!(a.view, AssetLabView::Create);
    assert!(!a.interacting && !a.input_busy);
    assert_ne!(a.session_id, b.session_id);
}

#[test]
fn undo_restores_the_setup_before_the_edit() {
    let mut state = session();
    state.observed = Some(UndoEntry { snapshot: 1, size: 10 });
    state.observe(2, 10, false, None);
    let revision = state.revision;
    let entry = state.take_undo().expect("an undo step");
    assert_eq!(entry.snapshot, 1);
    assert!(state.undo.is_empty());
    state.finish_undo(entry, true);
    assert_eq!(state.observed.as_ref().map(|e| e.snapshot), Some(1));
    assert_eq!(state.revision, revision.wrapping_add(1));
    assert_eq!(state.edit_group, None);
    assert!(state.take_undo().is_none());
}

#[test]
fn failed_undo_keeps_the_step() {
    let mut state = session();
    state.observed = Some(UndoEntry { snapshot: 1, size: 10 });
    state.observe(2, 10, false, None);
    let entry = state.take_undo().expect("an undo step");
    state.finish_undo(entry, false);
    assert_eq!(state.undo.len(), 1);
    assert_eq!(state.undo[0].snapshot, 1);
    assert_eq!(state.observed.as_ref().map(|e| e.snapshot), Some(2));
}

#[test]
fn escape_cancels_adoption_then_audition_then_closes() {
    let mut state = session();
    state.pending_adopt = Some("v3".to_string());
    state.preview = Some("v2".to_string());
    assert!(matches!(state.on_escape(None), EscapeOutcome::CancelAdoption));
    assert_eq!(state.pending_adopt, None);
    assert_eq!(state.preview.as_deref(), Some("v2"));
    match state.on_escape(Some("v1".to_string())) {
        EscapeOutcome::DismissPreview(p) => assert_eq!(p, "v2"),
        other => panic!("unexpected {other:?}"),
    }
    assert_eq!(state.preview, None);
    match state.on_escape(Some("v1".to_string())) {
        EscapeOutcome::DismissPreview(p) => assert_eq!(p, "v1"),
        other => panic!("unexpected {other:?}"),
    }
    assert!(matches!(state.on_escape(None), EscapeOutcome::CloseLab));
}

fn job(job_id: u128, asset_id: u128, phase: JobPhase, session: Option<u128>) -> QueuedJob {
    QueuedJob {
        job_id,
        asset_id,
        phase,
        submission: session.map(|s| AssetLabSubmission { session_id: s, revision: 1, parent_node_id: None, allow_advance: true }),
    }
}

#[test]
fn lab_submissions_advance_only_alone() {
    let state = session();
    let idle = vec![job(1, 5, JobPhase::Finished, None), job(2, 6, JobPhase::Running, None)];
    let s = plan_lab_submission(&state, Some(9), 1, 5, &idle);
    assert_eq!(s, AssetLabSubmission { session_id: 77, revision: 0, parent_node_id: Some(9), allow_advance: true });
    assert!(!plan_lab_submission(&state, None, 2, 5, &idle).allow_advance);
    let busy = vec![job(3, 5, JobPhase::Canceling, None)];
    assert!(!plan_lab_submission(&state, None, 1, 5, &busy).allow_advance);

    let mut jobs = vec![job(1, 5, JobPhase::Queued, Some(77)), job(2, 6, JobPhase::Queued, Some(77)), job(3, 5, JobPhase::Running, None)];
    withdraw_advances(&mut jobs, 5);
    assert!(!jobs[0].submission.unwrap().allow_advance);
    assert!(jobs[1].submission.unwrap().allow_advance);
    assert_eq!(jobs[2].submission, None);

    let mut results = vec![LabResultEntry { job_id: 2, phase: JobPhase::Finished }];
    let queue = vec![job(1, 5, JobPhase::Queued, Some(77)), job(2, 5, JobPhase::Running, Some(77)), job(4, 5, JobPhase::Queued, Some(78))];
    list_session_results(&mut results, &queue, 77);
    assert_eq!(
        results,
        vec![LabResultEntry { job_id: 2, phase: JobPhase::Finished }, LabResultEntry { job_id: 1, phase: JobPhase::Queued }]
    );
}
