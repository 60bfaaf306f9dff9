use discord_linear_sync::config::{ChannelConfig, ChannelKind, Config, ConfigError};
use discord_linear_sync::error::AppError;
use discord_linear_sync::text::{join_lines, quote_body, str_eq, str_lt, u64_to_dec};

#[test]
fn every_error_kind_carries_its_message() {
    assert_eq!(AppError::Discord("a".to_string()).message(), "a");
    assert_eq!(AppError::Http("b".to_string()).message(), "b");
    assert_eq!(AppError::Database("c".to_string()).message(), "c");
    assert_eq!(AppError::Json("d".to_string()).message(), "d");
    assert_eq!(AppError::LinearApi("e".to_string()).message(), "e");
    assert_eq!(AppError::AttachmentUpload("f".to_string()).message(), "f");
    assert_eq!(AppError::Internal("g".to_string()).message(), "g");
}

fn channel(
    id: u64,
    guild: u64,
    kind: ChannelKind,
    team: &str,
    label: &str,
    tags: Vec<(String, String)>,
) -> ChannelConfig {
    ChannelConfig {
        discord_channel_id: id,
        guild_id: guild,
        channel_type: kind,
        linear_team_id: team.to_string(),
        linear_label_id: label.to_string(),
        tag_label_map: tags,
    }
}

#[test]
fn u64_renders_in_decimal() {
    assert_eq!(u64_to_dec(0), "0");
    assert_eq!(u64_to_dec(7), "7");
    assert_eq!(u64_to_dec(42), "42");
    assert_eq!(u64_to_dec(1207), "1207");
    assert_eq!(u64_to_dec(u64::MAX), "18446744073709551615");
}

#[test]
fn quoting_restarts_the_block_quote_prefix() {
    assert_eq!(quote_body(""), "");
    assert_eq!(quote_body("one line"), "one line");
    assert_eq!(quote_body("a\nb\nc"), "a\n> b\n> c");
}

#[test]
fn joining_lines_uses_single_newlines() {
    let empty: Vec<String> = vec![];
    assert_eq!(join_lines(&empty), "");
    assert_eq!(join_lines(&vec!["a".to_string()]), "a");
    assert_eq!(join_lines(&vec!["a".to_string(), "b".to_string()]), "a\nb");
}

#[test]
fn string_comparisons_are_lexicographic() {
    assert!(str_lt("alpha", "beta"));
    assert!(!str_lt("beta", "alpha"));
    assert!(!str_lt("same", "same"));
    assert!(str_lt("ab", "abc"));
    assert!(str_eq("same", "same"));
    assert!(!str_eq("same", "other"));
}

#[test]
fn channel_kind_names_round_trip() {
    assert_eq!(ChannelKind::from_name("feature"), Some(ChannelKind::Feature));
    assert_eq!(ChannelKind::from_name("bug"), Some(ChannelKind::Bug));
    assert_eq!(ChannelKind::from_name("task"), None);
    assert_eq!(ChannelKind::from_name(""), None);
    assert_eq!(ChannelKind::Feature.name(), "feature");
    assert_eq!(ChannelKind::Bug.name(), "bug");
    assert_eq!(
        ChannelKind::from_name(ChannelKind::Feature.name()),
        Some(ChannelKind::Feature)
    );
    assert_eq!(ChannelKind::from_name(ChannelKind::Bug.name()), Some(ChannelKind::Bug));
}

#[test]
fn empty_channel_list_is_rejected() {
    let r = Config::from_parts(
        "tok".to_string(),
        "key".to_string(),
        vec![],
        None,
        None,
    );
    assert_eq!(r.unwrap_err(), ConfigError::NoChannels);
}

#[test]
fn defaults_apply_when_settings_are_absent() {
    let c = Config::from_parts(
        "tok".to_string(),
        "key".to_string(),
        vec![channel(1, 10, ChannelKind::Feature, "team-a", "label-a", vec![])],
        None,
        None,
    )
    .unwrap();
    assert_eq!(c.database_url, "sqlite:bot.db");
    assert_eq!(c.poll_interval_secs, 30);

    let c2 = Config::from_parts(
        "tok".to_string(),
        "key".to_string(),
        vec![channel(1, 10, ChannelKind::Feature, "team-a", "label-a", vec![])],
        Some("sqlite:other.db".to_string()),
        Some(5),
    )
    .unwrap();
    assert_eq!(c2.database_url, "sqlite:other.db");
    assert_eq!(c2.poll_interval_secs, 5);
}

#[test]
fn channel_lookup_finds_the_configured_channel() {
    let c = Config::from_parts(
        "tok".to_string(),
        "key".to_string(),
        vec![
            channel(1, 10, ChannelKind::Feature, "team-a", "label-a", vec![]),
            channel(2, 11, ChannelKind::Bug, "team-b", "label-b", vec![]),
        ],
        None,
        None,
    )
    .unwrap();
    assert_eq!(c.channel_config(2).unwrap().linear_team_id, "team-b");
    assert_eq!(c.channel_config(1).unwrap().guild_id, 10);
    assert!(c.channel_config(3).is_none());
    assert!(c.is_monitored_channel(1));
    assert!(!c.is_monitored_channel(99));
}

#[test]
fn team_ids_are_unique_and_sorted() {
    let c = Config::from_parts(
        "tok".to_string(),
        "key".to_string(),
        vec![
            channel(1, 10, ChannelKind::Feature, "team-b", "l", vec![]),
            channel(2, 11, ChannelKind::Bug, "team-a", "l", vec![]),
            channel(3, 10, ChannelKind::Bug, "team-b", "l", vec![]),
        ],
        None,
        None,
    )
    .unwrap();
    assert_eq!(c.unique_team_ids(), vec!["team-a".to_string(), "team-b".to_string()]);
    assert_eq!(c.unique_guild_ids(), vec![10, 11]);
}

#[test]
fn tag_lookup_returns_the_mapped_label() {
    let cfg = channel(
        1,
        10,
        ChannelKind::Feature,
        "team-a",
        "label-feature",
        vec![("1111".to_string(), "label-ux".to_string())],
    );
    assert_eq!(cfg.label_for_tag("1111").unwrap(), "label-ux");
    assert!(cfg.label_for_tag("2222").is_none());
}
