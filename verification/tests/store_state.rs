use discord_linear_sync::config::ChannelKind;
use discord_linear_sync::store::SyncStore;

#[test]
fn creating_a_mapping_twice_keeps_one_row() {
    let mut store = SyncStore::new();
    let first = store.create_mapping(
        42,
        "uuid-1".to_string(),
        "ABC-1".to_string(),
        ChannelKind::Feature,
        "2024-01-01T00:00:00Z".to_string(),
    );
    assert!(first);
    let second = store.create_mapping(
        42,
        "uuid-other".to_string(),
        "ABC-2".to_string(),
        ChannelKind::Feature,
        "2024-01-01T00:00:01Z".to_string(),
    );
    assert!(!second);
    let row = store.get_mapping_by_discord_thread(42).unwrap();
    assert_eq!(row.linear_issue_id, "uuid-1");
    assert_eq!(row.linear_identifier, "ABC-1");
    assert!(store.get_mapping_by_linear_issue("uuid-other").is_none());
}

#[test]
fn a_mapping_is_found_by_either_key() {
    let mut store = SyncStore::new();
    store.create_mapping(
        7,
        "uuid-7".to_string(),
        "BUG-7".to_string(),
        ChannelKind::Bug,
        "now".to_string(),
    );
    assert_eq!(store.get_mapping_by_discord_thread(7).unwrap().linear_identifier, "BUG-7");
    assert_eq!(store.get_mapping_by_linear_issue("uuid-7").unwrap().discord_thread_id, 7);
    assert!(store.get_mapping_by_discord_thread(8).is_none());
    assert!(store.get_mapping_by_linear_issue("uuid-8").is_none());
}

#[test]
fn an_issue_already_mapped_blocks_a_second_thread() {
    let mut store = SyncStore::new();
    assert!(store.create_mapping(
        1,
        "uuid-x".to_string(),
        "X-1".to_string(),
        ChannelKind::Feature,
        "now".to_string(),
    ));
    assert!(!store.create_mapping(
        2,
        "uuid-x".to_string(),
        "X-2".to_string(),
        ChannelKind::Feature,
        "now".to_string(),
    ));
    assert!(store.get_mapping_by_discord_thread(2).is_none());
}

#[test]
fn the_status_cache_upserts() {
    let mut store = SyncStore::new();
    assert!(store.get_cached_status("uuid-1").is_none());
    store.upsert_cached_status("uuid-1", "Todo", "t0");
    assert_eq!(store.get_cached_status("uuid-1").unwrap(), "Todo");
    store.upsert_cached_status("uuid-1", "In Progress", "t1");
    assert_eq!(store.get_cached_status("uuid-1").unwrap(), "In Progress");
    store.upsert_cached_status("uuid-2", "Done", "t2");
    assert_eq!(store.get_cached_status("uuid-1").unwrap(), "In Progress");
    assert_eq!(store.get_cached_status("uuid-2").unwrap(), "Done");
}

#[test]
fn a_recorded_comment_stays_recorded() {
    let mut store = SyncStore::new();
    assert!(!store.is_comment_synced("c1"));
    assert!(store.insert_synced_comment("c1", "uuid-1", 900, "t0"));
    assert!(store.is_comment_synced("c1"));
    assert!(!store.insert_synced_comment("c1", "uuid-1", 901, "t1"));
    assert!(store.is_comment_synced("c1"));
    assert!(!store.is_comment_synced("c2"));
}

#[test]
fn the_backfill_cursor_upserts() {
    let mut store = SyncStore::new();
    assert!(store.get_backfill_state(10).is_none());
    store.upsert_backfill_state(10, false, Some(42), "t0");
    let s = store.get_backfill_state(10).unwrap();
    assert!(!s.completed);
    assert_eq!(s.last_thread_id, Some(42));
    store.upsert_backfill_state(10, true, None, "t1");
    let s = store.get_backfill_state(10).unwrap();
    assert!(s.completed);
    assert_eq!(s.last_thread_id, None);
    assert!(store.get_backfill_state(11).is_none());
}
