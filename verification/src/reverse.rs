//! Reverse sync: a detected issue-status change becomes one chat message,
//! and newly observed tracker discussion items become chat messages,
//! idempotently.

use vstd::prelude::*;
use vstd::string::StringExecFns;
use crate::error::AppError;
use crate::linear::LinearComment;
use crate::store::{SyncStore, lemma_item_found, lemma_item_present};
use crate::text::{quoted, quote_body};

verus! {

/// The thread a status message for an issue goes to, if the issue is one
/// the engine tracks.
pub open spec fn status_target_spec(store: SyncStore, issue_id: Seq<char>) -> Option<u64> {
    match store.mapping_for_issue(issue_id) {
        Some(m) => Some(m.discord_thread_id),
        None => None,
    }
}

/// Look up the thread mapped to an issue; an untracked issue is a
/// "no mapping" error, which the caller must have filtered out already.
pub fn status_update_target(store: &SyncStore, linear_issue_id: &str, identifier: &str) -> (r:
    Result<u64, AppError>)
    ensures
        match r {
            Ok(t) => status_target_spec(*store, linear_issue_id@) == Some(t),
            Err(e) => status_target_spec(*store, linear_issue_id@) is None && (e
                matches AppError::Internal(m) && m@ == "No mapping for issue "@ + identifier@),
        },
{
    match store.get_mapping_by_linear_issue(linear_issue_id) {
        Some(m) => Ok(m.discord_thread_id),
        None => {
            let mut msg = String::from_str("No mapping for issue ");
            msg.append(identifier);
            Err(AppError::Internal(msg))
        },
    }
}

/// The thread comment sync posts into, if the issue is tracked: an
/// unmapped issue makes comment sync a no-op success, not an error.
pub fn comment_sync_target(store: &SyncStore, linear_issue_id: &str) -> (r: Option<u64>)
    ensures
        r == status_target_spec(*store, linear_issue_id@),
{
    match store.get_mapping_by_linear_issue(linear_issue_id) {
        Some(m) => Some(m.discord_thread_id),
        None => None,
    }
}

/// The fixed-format status message.
pub open spec fn status_message_spec(identifier: Seq<char>, status: Seq<char>) -> Seq<char> {
    "**"@ + identifier + "** status changed to **"@ + status + "**"@
}

/// Render the status message for an issue's new status.
pub fn status_message(identifier: &str, new_status: &str) -> (r: String)
    ensures
        r@ == status_message_spec(identifier@, new_status@),
{
    let mut s = String::from_str("**");
    s.append(identifier);
    s.append("** status changed to **");
    s.append(new_status);
    s.append("**");
    proof {
        assert(s@ =~= status_message_spec(identifier@, new_status@));
    }
    s
}

/// The quoted chat message mirroring one tracker comment: the author, the
/// issue's code, and the body inside a block quote.
pub open spec fn comment_message_spec(
    author: Seq<char>,
    identifier: Seq<char>,
    body: Seq<char>,
) -> Seq<char> {
    "**"@ + author + "** commented on **"@ + identifier + "**:\n> "@ + quoted(body)
}

/// Render the chat message mirroring one tracker comment.
pub fn comment_message(author_name: &str, identifier: &str, body: &str) -> (r: String)
    ensures
        r@ == comment_message_spec(author_name@, identifier@, body@),
{
    let mut s = String::from_str("**");
    s.append(author_name);
    s.append("** commented on **");
    s.append(identifier);
    s.append("**:\n> ");
    let q = quote_body(body);
    s.append(q.as_str());
    proof {
        assert(s@ =~= comment_message_spec(author_name@, identifier@, body@));
    }
    s
}

/// What comment sync does with one fetched comment.
#[derive(Debug, Clone, PartialEq, Eq)]
pub enum CommentStep {
    /// A row for this comment exists: nothing is posted.
    AlreadySynced,
    /// Post this message, then record the comment.
    Post { message: String },
}

/// Decide one comment of the fetched list: skip it when its row exists,
/// otherwise post the rendered message and record it afterwards.
pub fn plan_comment_step(store: &SyncStore, comment: &LinearComment, identifier: &str) -> (r:
    CommentStep)
    ensures
        match r {
            CommentStep::AlreadySynced => store.comment_synced(comment.id@),
            CommentStep::Post { message } => !store.comment_synced(comment.id@) && message@
                == comment_message_spec(comment.author_name@, identifier@, comment.body@),
        },
{
    if store.is_comment_synced(comment.id.as_str()) {
        CommentStep::AlreadySynced
    } else {
        let message = comment_message(
            comment.author_name.as_str(),
            identifier,
            comment.body.as_str(),
        );
        CommentStep::Post { message }
    }
}

/// Comment mirroring is at-most-once: once a comment's row exists, any
/// later store state whose mirrored-comment table extends the earlier one
/// still reports it synced — nothing deletes such rows — and the planner
/// then answers `AlreadySynced`, so the comment's message is never posted
/// twice, however often the full list is re-fetched.
pub proof fn lemma_comment_mirrored_at_most_once(s1: SyncStore, s2: SyncStore, cid: Seq<char>)
    requires
        s1.comment_synced(cid),
        s1.item_rows().is_prefix_of(s2.item_rows()),
    ensures
        s2.comment_synced(cid),
{
    lemma_item_found(s1.item_rows(), cid);
    let i = choose|i: int|
        0 <= i < s1.item_rows().len() && #[trigger] s1.item_rows()[i].linear_comment_id@ == cid;
    assert(s2.item_rows()[i] == s1.item_rows()[i]);
    lemma_item_present(s2.item_rows(), i);
}

} // verus!
