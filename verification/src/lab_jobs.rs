//! The decisions the asset lab makes when it submits a generation: whether
//! the request may advance the session, which earlier requests lose that
//! right, and which queued jobs the lab lists as its results.

use vstd::prelude::*;
use crate::session::{AssetLabSubmission, LabSession};

verus! {

/// Where a generation job stands.
#[derive(Clone, Copy, Debug, PartialEq, Eq, Structural)]
pub enum JobPhase {
    Queued,
    Running,
    Canceling,
    /// Completed, failed or cancelled.
    Finished,
}

/// A job of the generation queue, as the lab reads it.
#[derive(Clone, Copy, Debug, PartialEq, Eq, Structural)]
pub struct QueuedJob {
    pub job_id: u128,
    pub asset_id: u128,
    pub phase: JobPhase,
    /// The lab request the job belongs to, if any.
    pub submission: Option<AssetLabSubmission>,
}

/// A job listed among the lab's results.
#[derive(Clone, Copy, Debug, PartialEq, Eq, Structural)]
pub struct LabResultEntry {
    pub job_id: u128,
    pub phase: JobPhase,
}

/// Whether a job is still in progress.
pub open spec fn in_progress(p: JobPhase) -> bool {
    p == JobPhase::Queued || p == JobPhase::Running || p == JobPhase::Canceling
}

/// Whether some job of asset `asset_id` is still in progress.
pub open spec fn asset_busy(jobs: Seq<QueuedJob>, asset_id: u128) -> bool {
    exists|i: int| 0 <= i < jobs.len() && #[trigger] jobs[i].asset_id == asset_id && in_progress(jobs[i].phase)
}

/// Whether some job of asset `asset_id` is still in progress.
pub fn asset_has_job_in_progress(jobs: &Vec<QueuedJob>, asset_id: u128) -> (r: bool)
    ensures
        r == asset_busy(jobs@, asset_id),
{
    let mut i: usize = 0;
    while i < jobs.len()
        invariant
            i <= jobs.len(),
            forall|k: int| 0 <= k < i ==> !(#[trigger] jobs@[k].asset_id == asset_id && in_progress(jobs@[k].phase)),
        decreases jobs.len() - i,
    {
        let j = jobs[i];
        if j.asset_id == asset_id && (j.phase == JobPhase::Queued || j.phase == JobPhase::Running
            || j.phase == JobPhase::Canceling) {
            assert(jobs@[i as int].asset_id == asset_id);
            return true;
        }
        i = i + 1;
    }
    false
}

/// The request the lab makes for asset `asset_id`: it belongs to this
/// session and revision, continues `parent_node_id`, and may advance the
/// session only for a single generation while no other job of the asset is
/// in progress.
pub fn plan_lab_submission<S>(
    session: &LabSession<S>,
    parent_node_id: Option<u128>,
    batch_count: u32,
    asset_id: u128,
    jobs: &Vec<QueuedJob>,
) -> (r: AssetLabSubmission)
    ensures
        r.session_id == session.session_id,
        r.revision == session.revision,
        r.parent_node_id == parent_node_id,
        r.allow_advance == (batch_count == 1 && !asset_busy(jobs@, asset_id)),
{
    let busy = asset_has_job_in_progress(jobs, asset_id);
    AssetLabSubmission {
        session_id: session.session_id,
        revision: session.revision,
        parent_node_id,
        allow_advance: batch_count == 1 && !busy,
    }
}

/// A job with its lab request, if any, no longer allowed to advance.
pub open spec fn without_advance(j: QueuedJob) -> QueuedJob {
    match j.submission {
        Some(s) => QueuedJob { submission: Some(AssetLabSubmission { allow_advance: false, ..s }), ..j },
        None => j,
    }
}

/// When requests of one asset overlap, none of the asset's lab requests may
/// advance the session: every job of asset `asset_id` loses that right, and
/// other jobs stay as they were.
pub fn withdraw_advances(jobs: &mut Vec<QueuedJob>, asset_id: u128)
    ensures
        final(jobs)@.len() == old(jobs)@.len(),
        forall|k: int|
            0 <= k < old(jobs)@.len() ==> #[trigger] final(jobs)@[k] == if old(jobs)@[k].asset_id == asset_id {
                without_advance(old(jobs)@[k])
            } else {
                old(jobs)@[k]
            },
{
    let n = jobs.len();
    for i in 0..n
        invariant
            n == jobs@.len(),
            n == old(jobs)@.len(),
            forall|k: int|
                0 <= k < i ==> #[trigger] jobs@[k] == if old(jobs)@[k].asset_id == asset_id {
                    without_advance(old(jobs)@[k])
                } else {
                    old(jobs)@[k]
                },
            forall|k: int| i <= k < n ==> #[trigger] jobs@[k] == old(jobs)@[k],
    {
        let j = jobs[i];
        if j.asset_id == asset_id {
            let next = match j.submission {
                Some(s) => QueuedJob { submission: Some(AssetLabSubmission { allow_advance: false, ..s }), ..j },
                None => j,
            };
            jobs.set(i, next);
        }
    }
}

/// Whether a job belongs to session `session_id`.
pub open spec fn of_session(j: QueuedJob, session_id: u128) -> bool {
    j.submission matches Some(s) && s.session_id == session_id
}

/// Whether job `job_id` is listed.
pub open spec fn listed(results: Seq<LabResultEntry>, job_id: u128) -> bool {
    exists|k: int| 0 <= k < results.len() && #[trigger] results[k].job_id == job_id
}

/// The results after listing, in queue order, each job of the session that
/// is not listed yet.
pub open spec fn results_after(results: Seq<LabResultEntry>, jobs: Seq<QueuedJob>, session_id: u128) -> Seq<
    LabResultEntry,
>
    decreases jobs.len(),
{
    if jobs.len() == 0 {
        results
    } else {
        let r = results_after(results, jobs.drop_last(), session_id);
        let j = jobs.last();
        if of_session(j, session_id) && !listed(r, j.job_id) {
            r.push(LabResultEntry { job_id: j.job_id, phase: j.phase })
        } else {
            r
        }
    }
}

fn is_listed(results: &Vec<LabResultEntry>, job_id: u128) -> (r: bool)
    ensures
        r == listed(results@, job_id),
{
    let mut i: usize = 0;
    while i < results.len()
        invariant
            i <= results.len(),
            forall|k: int| 0 <= k < i ==> #[trigger] results@[k].job_id != job_id,
        decreases results.len() - i,
    {
        if results[i].job_id == job_id {
            return true;
        }
        i = i + 1;
    }
    false
}

/// Lists, in queue order, each job of session `session_id` that the lab does
/// not list yet; listed entries stay as they were.
pub fn list_session_results(results: &mut Vec<LabResultEntry>, jobs: &Vec<QueuedJob>, session_id: u128)
    ensures
        final(results)@ == results_after(old(results)@, jobs@, session_id),
{
    let n = jobs.len();
    for i in 0..n
        invariant
            n == jobs@.len(),
            results@ == results_after(old(results)@, jobs@.take(i as int), session_id),
    {
        assert(jobs@.take(i + 1).drop_last() =~= jobs@.take(i as int));
        let j = jobs[i];
        let mine = match j.submission {
            Some(s) => s.session_id == session_id,
            None => false,
        };
        if mine && !is_listed(results, j.job_id) {
            results.push(LabResultEntry { job_id: j.job_id, phase: j.phase });
        }
    }
    assert(jobs@.take(n as int) =~= jobs@);
}

/// A job is in progress exactly while it has not finished: an asset is busy
/// exactly when one of its jobs is queued, running or being cancelled, and
/// then a lab request for it may not advance the session.
pub proof fn law_unfinished_jobs_keep_an_asset_busy(jobs: Seq<QueuedJob>, asset_id: u128)
    ensures
        asset_busy(jobs, asset_id) <==> exists|k: int|
            0 <= k < jobs.len() && #[trigger] jobs[k].asset_id == asset_id && jobs[k].phase != JobPhase::Finished,
        (exists|k: int| 0 <= k < jobs.len() && #[trigger] jobs[k].asset_id == asset_id && jobs[k].phase == JobPhase::Running)
            ==> asset_busy(jobs, asset_id),
{
    if exists|k: int| 0 <= k < jobs.len() && #[trigger] jobs[k].asset_id == asset_id && jobs[k].phase != JobPhase::Finished {
        let k = choose|k: int| 0 <= k < jobs.len() && #[trigger] jobs[k].asset_id == asset_id && jobs[k].phase != JobPhase::Finished;
        assert(in_progress(jobs[k].phase));
    }
}

} // verus!
