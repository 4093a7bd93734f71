//! The asset lab's editing session: the undo history of the generation
//! setup, and the rule that decides whether a finished generation may move
//! the session forward.

use vstd::prelude::*;

verus! {

/// The lab's views.
#[derive(Clone, Copy, Debug, PartialEq, Eq, Structural)]
pub enum AssetLabView {
    Create,
    Lineage,
    Compare,
}

/// A generation request made from the lab, and what it may do when it
/// finishes.
#[derive(Clone, Copy, Debug, PartialEq, Eq, Structural)]
pub struct AssetLabSubmission {
    pub session_id: u128,
    pub revision: u64,
    pub parent_node_id: Option<u128>,
    pub allow_advance: bool,
}

/// What the Escape key does in the lab.
#[derive(Clone, Debug)]
pub enum EscapeOutcome {
    /// A pending adoption was cancelled.
    CancelAdoption,
    /// The audition of this result was dismissed.
    DismissPreview(String),
    /// Nothing else was open: the lab closes.
    CloseLab,
}

/// A setup snapshot and its weight in bytes (its serialized size plus the
/// pixels of its mask).
#[derive(Clone, Debug)]
pub struct UndoEntry<S> {
    pub snapshot: S,
    pub size: usize,
}

/// Most undo entries kept.
pub const UNDO_LIMIT: usize = 20;

/// Most bytes the undo entries may weigh together while more than one is kept.
pub const UNDO_BYTES_LIMIT: u64 = 4194304;

/// The editing session of the asset lab.
#[derive(Clone, Debug)]
pub struct LabSession<S> {
    pub view: AssetLabView,
    pub session_id: u128,
    /// Counts the changes of the setup; a request made at another revision
    /// is stale.
    pub revision: u64,
    /// The setup observed last.
    pub observed: Option<UndoEntry<S>>,
    /// Earlier setups, oldest first.
    pub undo: Vec<UndoEntry<S>>,
    /// The widget whose edits are being merged into one undo step.
    pub edit_group: Option<u64>,
    /// A result being auditioned.
    pub preview: Option<String>,
    pub interacting: bool,
    pub input_busy: bool,
    pub pending_adopt: Option<String>,
}

/// The total weight of undo entries.
pub open spec fn undo_bytes<S>(u: Seq<UndoEntry<S>>) -> int
    decreases u.len(),
{
    if u.len() == 0 {
        0
    } else {
        undo_bytes(u.drop_last()) + u.last().size
    }
}

/// The undo history with its oldest entries dropped until at most
/// `UNDO_LIMIT` remain and, unless only one remains, they weigh at most
/// `UNDO_BYTES_LIMIT`.
pub open spec fn trim_undo<S>(u: Seq<UndoEntry<S>>) -> Seq<UndoEntry<S>>
    decreases u.len(),
{
    if u.len() > UNDO_LIMIT || (u.len() > 1 && undo_bytes(u) > UNDO_BYTES_LIMIT) {
        trim_undo(u.drop_first())
    } else {
        u
    }
}

/// Whether a finished request may advance the session.
pub open spec fn may_advance<S>(s: LabSession<S>, submission: AssetLabSubmission, modal: bool) -> bool {
    &&& submission.session_id == s.session_id
    &&& submission.revision == s.revision
    &&& submission.allow_advance
    &&& s.view != AssetLabView::Compare
    &&& s.preview is None
    &&& !s.interacting
    &&& !s.input_busy
    &&& !modal
    &&& s.pending_adopt is None
}

/// The session after observing the current setup (`unchanged` tells that it
/// equals the setup observed last).
pub open spec fn observed_next<S>(
    s: LabSession<S>,
    n: LabSession<S>,
    setup: UndoEntry<S>,
    unchanged: bool,
    group: Option<u64>,
) -> bool {
    if unchanged {
        n == LabSession {
            edit_group: if s.edit_group != group {
                None
            } else {
                s.edit_group
            },
            ..s
        }
    } else {
        match s.observed {
            None => n == LabSession { observed: Some(setup), ..s },
            Some(before) => {
                let pushed = if group is None || s.edit_group != group || s.undo@.len() == 0 {
                    s.undo@.push(before)
                } else {
                    s.undo@
                };
                &&& n.undo@ == trim_undo(pushed)
                &&& n == LabSession {
                    observed: Some(setup),
                    undo: n.undo,
                    edit_group: group,
                    revision: if s.revision == u64::MAX {
                        0
                    } else {
                        (s.revision + 1) as u64
                    },
                    ..s
                }
            },
        }
    }
}

/// Whether the undo entries weigh more than `limit` bytes.
fn undo_bytes_exceed<S>(u: &Vec<UndoEntry<S>>, limit: u64) -> (r: bool)
    ensures
        r == (undo_bytes(u@) > limit),
{
    let mut total: u128 = 0;
    let mut i: usize = 0;
    while i < u.len()
        invariant
            i <= u.len(),
            total == undo_bytes(u@.take(i as int)),
            total <= limit,
        decreases u.len() - i,
    {
        assert(u@.take(i + 1).drop_last() =~= u@.take(i as int));
        total = total + u[i].size as u128;
        if total > limit as u128 {
            proof {
                lemma_undo_bytes_prefix(u@, i + 1);
            }
            return true;
        }
        i = i + 1;
    }
    assert(u@.take(u.len() as int) =~= u@);
    false
}

proof fn lemma_undo_bytes_prefix<S>(u: Seq<UndoEntry<S>>, k: int)
    requires
        0 <= k <= u.len(),
    ensures
        undo_bytes(u.take(k)) <= undo_bytes(u),
    decreases u.len(),
{
    if k < u.len() {
        assert(u.drop_last().take(k) =~= u.take(k));
        lemma_undo_bytes_prefix(u.drop_last(), k);
    } else {
        assert(u.take(k) =~= u);
    }
}

/// The undo history is within its bounds.
pub open spec fn undo_within_bounds<S>(u: Seq<UndoEntry<S>>) -> bool {
    u.len() <= UNDO_LIMIT && (u.len() <= 1 || undo_bytes(u) <= UNDO_BYTES_LIMIT)
}

proof fn lemma_trim_undo<S>(u: Seq<UndoEntry<S>>)
    ensures
        undo_within_bounds(trim_undo(u)),
        undo_within_bounds(u) ==> trim_undo(u) == u,
    decreases u.len(),
{
    if u.len() > UNDO_LIMIT || (u.len() > 1 && undo_bytes(u) > UNDO_BYTES_LIMIT) {
        lemma_trim_undo(u.drop_first());
    }
}

/// After a change of the setup the undo history is within its bounds: at
/// most `UNDO_LIMIT` entries, weighing at most `UNDO_BYTES_LIMIT` bytes
/// unless a single entry is left.
pub proof fn law_undo_history_bounded<S>(
    s: LabSession<S>,
    n: LabSession<S>,
    setup: UndoEntry<S>,
    group: Option<u64>,
)
    requires
        s.observed is Some,
        observed_next(s, n, setup, false, group),
    ensures
        undo_within_bounds(n.undo@),
{
    let before = s.observed->0;
    let pushed = if group is None || s.edit_group != group || s.undo@.len() == 0 {
        s.undo@.push(before)
    } else {
        s.undo@
    };
    lemma_trim_undo(pushed);
}

/// Edits in one widget group are one undo step: a further change in the
/// group that is being edited adds no entry to a history within its bounds.
pub proof fn law_group_edits_coalesce<S>(
    s: LabSession<S>,
    n: LabSession<S>,
    setup: UndoEntry<S>,
    group: Option<u64>,
)
    requires
        s.observed is Some,
        group is Some,
        s.edit_group == group,
        s.undo@.len() > 0,
        undo_within_bounds(s.undo@),
        observed_next(s, n, setup, false, group),
    ensures
        n.undo@ == s.undo@,
        n.edit_group == group,
{
    lemma_trim_undo(s.undo@);
}

/// Observing an unchanged setup leaves the history and the revision alone.
pub proof fn law_unchanged_setup_keeps_history<S>(
    s: LabSession<S>,
    n: LabSession<S>,
    setup: UndoEntry<S>,
    group: Option<u64>,
)
    requires
        observed_next(s, n, setup, true, group),
    ensures
        n.undo == s.undo,
        n.revision == s.revision,
        n.observed == s.observed,
{
}

/// A change of the setup makes every request made before it stale: a
/// request that could advance the session before the change cannot after it.
pub proof fn law_edit_supersedes_pending_request<S>(
    s: LabSession<S>,
    n: LabSession<S>,
    setup: UndoEntry<S>,
    group: Option<u64>,
    submission: AssetLabSubmission,
    modal: bool,
)
    requires
        s.observed is Some,
        observed_next(s, n, setup, false, group),
        may_advance(s, submission, modal),
    ensures
        !may_advance(n, submission, modal),
{
}

proof fn lemma_trim_undo_keeps_last<S>(u: Seq<UndoEntry<S>>)
    requires
        u.len() > 0,
    ensures
        trim_undo(u).len() > 0,
        trim_undo(u).last() == u.last(),
    decreases u.len(),
{
    if u.len() > UNDO_LIMIT || (u.len() > 1 && undo_bytes(u) > UNDO_BYTES_LIMIT) {
        assert(u.drop_first().last() == u.last());
        lemma_trim_undo_keeps_last(u.drop_first());
    }
}

/// Undo after an edit restores the setup before it: once a changed setup
/// is observed outside an ongoing group edit, the most recent undo entry is
/// the setup observed before.
pub proof fn law_undo_returns_setup_before_edit<S>(
    s: LabSession<S>,
    n: LabSession<S>,
    setup: UndoEntry<S>,
    group: Option<u64>,
)
    requires
        s.observed is Some,
        group is None || s.edit_group != group,
        observed_next(s, n, setup, false, group),
    ensures
        n.undo@.len() > 0,
        n.undo@.last() == s.observed->0,
        n.observed == Some(setup),
{
    let pushed = s.undo@.push(s.observed->0);
    lemma_trim_undo_keeps_last(pushed);
}

impl<S> LabSession<S> {
    /// A fresh session on the create view, with a random session identifier,
    /// no observed setup and no history.
    pub fn new() -> (r: LabSession<S>)
        ensures
            r.view == AssetLabView::Create,
            r.revision == 0,
            r.observed is None,
            r.undo@.len() == 0,
            r.edit_group is None,
            r.preview is None,
            !r.interacting,
            !r.input_busy,
            r.pending_adopt is None,
    {
        LabSession {
            view: AssetLabView::Create,
            session_id: crate::uuid_text::random_id(),
            revision: 0,
            observed: None,
            undo: Vec::new(),
            edit_group: None,
            preview: None,
            interacting: false,
            input_busy: false,
            pending_adopt: None,
        }
    }

    /// Whether a finished request may advance the session: it belongs to this
    /// session and revision, allows advancing, and nothing else holds the
    /// user's attention (the compare view, an audition, a drag, a busy input,
    /// a modal or a pending adoption).
    pub fn can_advance(&self, submission: &AssetLabSubmission, modal: bool) -> (r: bool)
        ensures
            r == may_advance(*self, *submission, modal),
    {
        submission.session_id == self.session_id && submission.revision == self.revision
            && submission.allow_advance && self.view != AssetLabView::Compare
            && self.preview.is_none() && !self.interacting && !self.input_busy && !modal
            && self.pending_adopt.is_none()
    }

    /// Records the current setup. A changed setup pushes the previous one on
    /// the undo history (edits in the same widget group are merged into one
    /// step), trims the history, and starts a new revision.
    pub fn observe(&mut self, setup: S, setup_size: usize, unchanged: bool, group: Option<u64>)
        requires
            unchanged ==> old(self).observed is Some,
        ensures
            observed_next(*old(self), *final(self), UndoEntry { snapshot: setup, size: setup_size }, unchanged, group),
    {
        if unchanged {
            if self.edit_group != group {
                self.edit_group = None;
            }
            return;
        }
        let previous = self.observed.take();
        self.observed = Some(UndoEntry { snapshot: setup, size: setup_size });
        match previous {
            None => {},
            Some(before) => {
                let push = group.is_none() || self.edit_group != group || self.undo.len() == 0;
                let mut undo: Vec<UndoEntry<S>> = Vec::new();
                std::mem::swap(&mut undo, &mut self.undo);
                if push {
                    undo.push(before);
                }
                self.edit_group = group;
                let ghost pushed = undo@;
                while undo.len() > UNDO_LIMIT || (undo.len() > 1 && undo_bytes_exceed(
                    &undo,
                    UNDO_BYTES_LIMIT,
                ))
                    invariant
                        trim_undo(undo@) == trim_undo(pushed),
                    decreases undo.len(),
                {
                    assert(undo@.remove(0) =~= undo@.drop_first());
                    undo.remove(0);
                }
                self.undo = undo;
                self.revision = self.revision.wrapping_add(1);
            },
        }
    }

    /// Takes the most recent undo entry: the setup to restore.
    pub fn take_undo(&mut self) -> (r: Option<UndoEntry<S>>)
        ensures
            *final(self) == (LabSession { undo: final(self).undo, ..*old(self) }),
            old(self).undo@.len() == 0 ==> r is None && final(self).undo@ == old(self).undo@,
            old(self).undo@.len() > 0 ==> r == Some(old(self).undo@.last()) && final(self).undo@
                == old(self).undo@.drop_last(),
    {
        self.undo.pop()
    }

    /// Finishes an undo with the entry `take_undo` gave: when its setup was
    /// restored it becomes the observed setup and a new revision starts, with
    /// no group edit going on; otherwise the entry goes back on the history.
    pub fn finish_undo(&mut self, entry: UndoEntry<S>, restored: bool)
        ensures
            restored ==> *final(self) == (LabSession {
                observed: Some(entry),
                revision: if old(self).revision == u64::MAX {
                    0
                } else {
                    (old(self).revision + 1) as u64
                },
                edit_group: None,
                ..*old(self)
            }),
            !restored ==> final(self).undo@ == old(self).undo@.push(entry) && *final(self) == (
            LabSession { undo: final(self).undo, ..*old(self) }),
    {
        if restored {
            self.observed = Some(entry);
            self.revision = self.revision.wrapping_add(1);
            self.edit_group = None;
        } else {
            self.undo.push(entry);
        }
    }

    /// Handles Escape: it first cancels a pending adoption, else dismisses
    /// the audition (the one open now, or the one open before this frame),
    /// else closes the lab.
    pub fn on_escape(&mut self, preview_before: Option<String>) -> (r: EscapeOutcome)
        ensures
            old(self).pending_adopt is Some ==> r is CancelAdoption && *final(self) == (LabSession {
                pending_adopt: None,
                ..*old(self)
            }),
            old(self).pending_adopt is None ==> match old(self).preview {
                Some(p) => r == EscapeOutcome::DismissPreview(p) && *final(self) == (LabSession {
                    preview: None,
                    ..*old(self)
                }),
                None => *final(self) == *old(self) && match preview_before {
                    Some(p) => r == EscapeOutcome::DismissPreview(p),
                    None => r is CloseLab,
                },
            },
    {
        if self.pending_adopt.take().is_some() {
            return EscapeOutcome::CancelAdoption;
        }
        match self.preview.take() {
            Some(p) => EscapeOutcome::DismissPreview(p),
            None => match preview_before {
                Some(p) => EscapeOutcome::DismissPreview(p),
                None => EscapeOutcome::CloseLab,
            },
        }
    }
}

} // verus!
