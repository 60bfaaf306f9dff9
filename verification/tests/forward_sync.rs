use discord_linear_sync::config::{ChannelConfig, ChannelKind};
use discord_linear_sync::error::AppError;
use discord_linear_sync::forward::{
    collect_attachment_links, compose_issue_description, confirmation_message, forward_sync_gate,
    missing_parent_error, resolve_labels, resolve_message_body, thread_link, AttachmentInfo,
    ForwardGate, MessageInfo, ThreadInfo, UploadOutcome, MESSAGE_FETCH_ATTEMPTS,
    MESSAGE_FETCH_RETRY_DELAY_MS,
};
use discord_linear_sync::store::SyncStore;

fn ui_channel() -> ChannelConfig {
    ChannelConfig {
        discord_channel_id: 100,
        guild_id: 1,
        channel_type: ChannelKind::Feature,
        linear_team_id: "team-ui".to_string(),
        linear_label_id: "label-feature".to_string(),
        tag_label_map: vec![("1111".to_string(), "label-ux".to_string())],
    }
}

#[test]
fn the_gate_decides_skip_refuse_or_proceed() {
    let mut store = SyncStore::new();
    let thread = ThreadInfo {
        id: 42,
        parent_id: Some(100),
        name: "Dark mode request".to_string(),
        applied_tags: vec![1111],
    };
    assert_eq!(forward_sync_gate(&store, &thread), ForwardGate::Proceed { parent_id: 100 });

    let orphan = ThreadInfo {
        id: 43,
        parent_id: None,
        name: "orphan".to_string(),
        applied_tags: vec![],
    };
    assert_eq!(forward_sync_gate(&store, &orphan), ForwardGate::MissingParent);

    store.create_mapping(
        42,
        "uuid-42".to_string(),
        "ABC-1".to_string(),
        ChannelKind::Feature,
        "now".to_string(),
    );
    assert_eq!(forward_sync_gate(&store, &thread), ForwardGate::AlreadySynced);
}

#[test]
fn the_missing_parent_error_names_the_problem() {
    match missing_parent_error() {
        AppError::Internal(m) => assert_eq!(m, "Thread has no parent channel"),
        other => panic!("unexpected error kind: {:?}", other),
    }
}

#[test]
fn the_retry_policy_is_three_attempts_two_seconds_apart() {
    assert_eq!(MESSAGE_FETCH_ATTEMPTS, 3);
    assert_eq!(MESSAGE_FETCH_RETRY_DELAY_MS, 2000);
}

#[test]
fn an_absent_first_message_becomes_the_placeholder() {
    let msg = MessageInfo {
        content: "Please add dark mode".to_string(),
        attachments: vec![],
    };
    assert_eq!(resolve_message_body(&Some(msg)), "Please add dark mode");
    assert_eq!(resolve_message_body(&None), "(No message content available)");
}

#[test]
fn labels_start_with_the_primary_and_add_mapped_tags() {
    let cfg = ui_channel();
    let labels = resolve_labels(&cfg, &vec![1111]);
    assert_eq!(labels, vec!["label-feature".to_string(), "label-ux".to_string()]);

    // unmapped tags are ignored, not an error
    let labels = resolve_labels(&cfg, &vec![2222]);
    assert_eq!(labels, vec!["label-feature".to_string()]);

    let labels = resolve_labels(&cfg, &vec![2222, 1111, 3333]);
    assert_eq!(labels, vec!["label-feature".to_string(), "label-ux".to_string()]);
}

#[test]
fn only_successfully_uploaded_attachments_are_linked() {
    let attachments = vec![
        AttachmentInfo {
            url: "https://cdn.example/one.png".to_string(),
            filename: "one.png".to_string(),
        },
        AttachmentInfo {
            url: "https://cdn.example/two.png".to_string(),
            filename: "two.png".to_string(),
        },
    ];
    let outcomes = vec![
        UploadOutcome::Failed("download failed".to_string()),
        UploadOutcome::Uploaded("https://files.example/two".to_string()),
    ];
    let links = collect_attachment_links(&attachments, &outcomes);
    assert_eq!(links, vec!["![two.png](https://files.example/two)".to_string()]);
}

#[test]
fn the_thread_link_is_the_platform_url() {
    assert_eq!(
        thread_link(1, 100, 42),
        "https://discord.com/channels/1/100/42"
    );
}

#[test]
fn the_description_holds_body_link_and_surviving_attachments() {
    let lines = vec!["![two.png](https://files.example/two)".to_string()];
    let d = compose_issue_description("Please add dark mode", 1, 100, 42, &lines);
    assert_eq!(
        d,
        "Please add dark mode\n\n---\n[Discord Thread](https://discord.com/channels/1/100/42)\n\n**Attachments:**\n![two.png](https://files.example/two)"
    );

    let none: Vec<String> = vec![];
    let d = compose_issue_description("body", 1, 100, 42, &none);
    assert_eq!(
        d,
        "body\n\n---\n[Discord Thread](https://discord.com/channels/1/100/42)"
    );
}

#[test]
fn the_confirmation_names_the_issue() {
    let m = confirmation_message("ABC-1", "https://linear.app/acme/issue/ABC-1");
    assert_eq!(
        m,
        "Tracked as **[ABC-1](https://linear.app/acme/issue/ABC-1)** in Linear"
    );
}

#[test]
fn attachment_failure_scenario() {
    // one of two attachments fails to mirror: the issue is still created
    // and its body links only the surviving attachment
    let mut store = SyncStore::new();
    let thread = ThreadInfo {
        id: 50,
        parent_id: Some(100),
        name: "Crash report".to_string(),
        applied_tags: vec![],
    };
    assert_eq!(forward_sync_gate(&store, &thread), ForwardGate::Proceed { parent_id: 100 });

    let attachments = vec![
        AttachmentInfo {
            url: "https://cdn.example/log.txt".to_string(),
            filename: "log.txt".to_string(),
        },
        AttachmentInfo {
            url: "https://cdn.example/shot.png".to_string(),
            filename: "shot.png".to_string(),
        },
    ];
    let outcomes = vec![
        UploadOutcome::Uploaded("https://files.example/log".to_string()),
        UploadOutcome::Failed("download failed".to_string()),
    ];
    let links = collect_attachment_links(&attachments, &outcomes);
    let description = compose_issue_description("it crashed", 1, 100, 50, &links);
    assert!(description.contains("![log.txt](https://files.example/log)"));
    assert!(!description.contains("shot.png"));

    // the sync still completes: the tracker answered and the row is written
    assert!(store.create_mapping(
        50,
        "uuid-crash".to_string(),
        "BUG-5".to_string(),
        ChannelKind::Bug,
        "t0".to_string(),
    ));
    assert!(store.get_mapping_by_discord_thread(50).is_some());
}

#[test]
fn dark_mode_request_scenario() {
    // thread "Dark mode request" with tag `1111` mapped to label-ux,
    // primary label label-feature
    let cfg = ui_channel();
    let mut store = SyncStore::new();
    let thread = ThreadInfo {
        id: 42,
        parent_id: Some(100),
        name: "Dark mode request".to_string(),
        applied_tags: vec![1111],
    };

    let gate = forward_sync_gate(&store, &thread);
    assert_eq!(gate, ForwardGate::Proceed { parent_id: 100 });

    let labels = resolve_labels(&cfg, &thread.applied_tags);
    assert_eq!(labels, vec!["label-feature".to_string(), "label-ux".to_string()]);

    // the tracker answered with issue ABC-1; record the binding
    let created = store.create_mapping(
        thread.id,
        "uuid-abc-1".to_string(),
        "ABC-1".to_string(),
        cfg.channel_type,
        "2024-01-01T00:00:00Z".to_string(),
    );
    assert!(created);
    assert!(store.get_mapping_by_discord_thread(42).is_some());

    let confirmation = confirmation_message("ABC-1", "https://linear.app/acme/issue/ABC-1");
    assert!(confirmation.contains("ABC-1"));

    // a second delivery of the same thread is skipped
    assert_eq!(forward_sync_gate(&store, &thread), ForwardGate::AlreadySynced);
}
