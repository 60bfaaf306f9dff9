use discord_linear_sync::backfill::{
    backfill_channel_gate, resume_cursor, select_backfill_threads, BACKFILL_THROTTLE_MS,
};
use discord_linear_sync::config::ChannelKind;
use discord_linear_sync::error::AppError;
use discord_linear_sync::forward::ThreadInfo;
use discord_linear_sync::linear::{LinearComment, LinearIssueStatus};
use discord_linear_sync::poller::{advance_poll_cursor, poll_issue_decision, PollAction};
use discord_linear_sync::reverse::{
    comment_message, comment_sync_target, plan_comment_step, status_message,
    status_update_target, CommentStep,
};
use discord_linear_sync::store::SyncStore;

fn store_tracking(thread: u64, issue: &str, identifier: &str) -> SyncStore {
    let mut store = SyncStore::new();
    store.create_mapping(
        thread,
        issue.to_string(),
        identifier.to_string(),
        ChannelKind::Feature,
        "t0".to_string(),
    );
    store
}

#[test]
fn the_status_message_has_the_fixed_format() {
    assert_eq!(
        status_message("ABC-123", "In Progress"),
        "**ABC-123** status changed to **In Progress**"
    );
}

#[test]
fn a_status_update_targets_the_mapped_thread() {
    let store = store_tracking(42, "uuid-1", "ABC-123");
    assert_eq!(status_update_target(&store, "uuid-1", "ABC-123").unwrap(), 42);
    match status_update_target(&store, "uuid-9", "ABC-9") {
        Err(AppError::Internal(m)) => assert_eq!(m, "No mapping for issue ABC-9"),
        other => panic!("expected the no-mapping error, got {:?}", other),
    }
}

#[test]
fn status_change_detection_scenario() {
    // polling returns ABC-123 as "In Progress" while the cache holds "Todo"
    let mut store = store_tracking(42, "uuid-1", "ABC-123");
    store.upsert_cached_status("uuid-1", "Todo", "t0");

    let polled = LinearIssueStatus {
        id: "uuid-1".to_string(),
        identifier: "ABC-123".to_string(),
        status_name: "In Progress".to_string(),
        updated_at: "t1".to_string(),
    };
    assert_eq!(poll_issue_decision(&store, &polled), PollAction::StatusChanged);
    assert_eq!(
        status_message(&polled.identifier, &polled.status_name),
        "**ABC-123** status changed to **In Progress**"
    );
    store.upsert_cached_status("uuid-1", "In Progress", "t1");

    // a second tick returning the same status posts nothing
    assert_eq!(poll_issue_decision(&store, &polled), PollAction::StatusUnchanged);
}

#[test]
fn unmapped_issues_are_not_mirrored() {
    let store = SyncStore::new();
    let polled = LinearIssueStatus {
        id: "uuid-9".to_string(),
        identifier: "ZZZ-9".to_string(),
        status_name: "Done".to_string(),
        updated_at: "t1".to_string(),
    };
    assert_eq!(poll_issue_decision(&store, &polled), PollAction::Untracked);
}

#[test]
fn a_missing_cache_entry_counts_as_changed() {
    let store = store_tracking(42, "uuid-1", "ABC-123");
    let polled = LinearIssueStatus {
        id: "uuid-1".to_string(),
        identifier: "ABC-123".to_string(),
        status_name: "Todo".to_string(),
        updated_at: "t1".to_string(),
    };
    assert_eq!(poll_issue_decision(&store, &polled), PollAction::StatusChanged);
}

#[test]
fn the_poll_cursor_advances_only_on_success() {
    assert_eq!(
        advance_poll_cursor("t0".to_string(), "t1".to_string(), true),
        "t1"
    );
    assert_eq!(
        advance_poll_cursor("t0".to_string(), "t1".to_string(), false),
        "t0"
    );
}

#[test]
fn comment_sync_skips_untracked_issues_silently() {
    let store = store_tracking(42, "uuid-1", "ABC-123");
    assert_eq!(comment_sync_target(&store, "uuid-1"), Some(42));
    assert_eq!(comment_sync_target(&store, "uuid-9"), None);
}

#[test]
fn comment_messages_quote_the_body() {
    assert_eq!(
        comment_message("Ada", "ABC-123", "first\nsecond"),
        "**Ada** commented on **ABC-123**:\n> first\n> second"
    );
}

#[test]
fn an_already_recorded_comment_posts_nothing() {
    // c1 already has a row: re-running comment sync with c1 still in the
    // fetched list produces zero new messages
    let mut store = store_tracking(42, "uuid-1", "ABC-123");
    let c1 = LinearComment {
        id: "c1".to_string(),
        body: "looks good".to_string(),
        created_at: "t0".to_string(),
        author_name: "Ada".to_string(),
    };

    match plan_comment_step(&store, &c1, "ABC-123") {
        CommentStep::Post { message } => {
            assert_eq!(message, "**Ada** commented on **ABC-123**:\n> looks good");
            store.insert_synced_comment(&c1.id, "uuid-1", 900, "t0");
        },
        CommentStep::AlreadySynced => panic!("a fresh comment must be posted"),
    }

    assert_eq!(plan_comment_step(&store, &c1, "ABC-123"), CommentStep::AlreadySynced);
    assert_eq!(plan_comment_step(&store, &c1, "ABC-123"), CommentStep::AlreadySynced);
}

#[test]
fn backfill_gates_on_the_completed_flag() {
    let mut store = SyncStore::new();
    assert!(!backfill_channel_gate(&store, 100));
    assert_eq!(resume_cursor(&store, 100), None);
    store.upsert_backfill_state(100, false, Some(2), "t0");
    assert!(!backfill_channel_gate(&store, 100));
    assert_eq!(resume_cursor(&store, 100), Some(2));
    store.upsert_backfill_state(100, true, None, "t1");
    assert!(backfill_channel_gate(&store, 100));
}

fn thread(id: u64, parent: u64) -> ThreadInfo {
    ThreadInfo {
        id,
        parent_id: Some(parent),
        name: format!("thread {}", id),
        applied_tags: vec![],
    }
}

#[test]
fn backfill_selection_orders_and_filters() {
    let threads = vec![thread(3, 100), thread(1, 100), thread(2, 100), thread(9, 200)];
    let selected = select_backfill_threads(threads, 100, None);
    let ids: Vec<u64> = selected.iter().map(|t| t.id).collect();
    assert_eq!(ids, vec![1, 2, 3]);
}

#[test]
fn backfill_resumes_after_the_cursor() {
    // T1 < T2 < T3; the process died right after T1 was mapped (cursor = T1):
    // a fresh run syncs T2 and T3 only, never T1 again
    let threads = vec![thread(1, 100), thread(2, 100), thread(3, 100)];
    let selected = select_backfill_threads(threads, 100, Some(1));
    let ids: Vec<u64> = selected.iter().map(|t| t.id).collect();
    assert_eq!(ids, vec![2, 3]);
}

#[test]
fn the_backfill_throttle_is_half_a_second() {
    assert_eq!(BACKFILL_THROTTLE_MS, 500);
}
