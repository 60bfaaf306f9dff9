//! The poller's decisions: which polled issues get a status message, and
//! when the shared time cursor advances.
//!
//! The loop itself — the interval, the per-team fetches — runs outside the
//! library; every returned issue is decided here, and the cursor rule below
//! is the only thing that moves the window.

use vstd::prelude::*;
use crate::linear::LinearIssueStatus;
use crate::store::SyncStore;

verus! {

/// What a poll tick does with one returned issue.
#[derive(Clone, Copy, Debug, PartialEq, Eq, Structural)]
pub enum PollAction {
    /// No mapping row: not an issue the engine created, skip it entirely.
    Untracked,
    /// The cache already holds this status: no status message.
    StatusUnchanged,
    /// The status differs from the cache (or none is cached): post one.
    StatusChanged,
}

/// The poll decision for an issue: only mapped issues are mirrored, and a
/// status equal to the cached one is suppressed.
pub open spec fn poll_action_spec(
    store: SyncStore,
    issue_id: Seq<char>,
    status_name: Seq<char>,
) -> PollAction {
    if !store.issue_mapped(issue_id) {
        PollAction::Untracked
    } else if store.cached_status(issue_id) == Some(status_name) {
        PollAction::StatusUnchanged
    } else {
        PollAction::StatusChanged
    }
}

/// Decide one polled issue. Comment sync runs for every mapped issue
/// regardless of this decision; only the status message depends on it.
pub fn poll_issue_decision(store: &SyncStore, issue: &LinearIssueStatus) -> (r: PollAction)
    ensures
        r == poll_action_spec(*store, issue.id@, issue.status_name@),
{
    if store.get_mapping_by_linear_issue(issue.id.as_str()).is_none() {
        return PollAction::Untracked;
    }
    match store.get_cached_status(issue.id.as_str()) {
        Some(cached) => {
            if cached == issue.status_name {
                PollAction::StatusUnchanged
            } else {
                PollAction::StatusChanged
            }
        },
        None => PollAction::StatusChanged,
    }
}

/// Advance the shared poll cursor for a whole tick: to `now` when at least
/// one team's fetch succeeded, else keep the old window so every failed
/// team is retried on it. A team failing while others succeed still loses
/// its window to the global advance — the documented, accepted tradeoff.
pub fn advance_poll_cursor(last_poll: String, now: String, any_success: bool) -> (r: String)
    ensures
        any_success ==> r == now,
        !any_success ==> r == last_poll,
{
    if any_success {
        now
    } else {
        last_poll
    }
}

/// A duplicate status is suppressed: when the cache for a mapped issue
/// already holds the reported status, the poll decision is
/// `StatusUnchanged`, so no chat message is posted and the cache is not
/// written.
pub proof fn lemma_duplicate_status_suppressed(
    store: SyncStore,
    issue_id: Seq<char>,
    status_name: Seq<char>,
)
    requires
        store.issue_mapped(issue_id),
        store.cached_status(issue_id) == Some(status_name),
    ensures
        poll_action_spec(store, issue_id, status_name) is StatusUnchanged,
{
}

} // verus!
