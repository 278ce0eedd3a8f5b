use tui_majo::net::p2p::behaviour::{
    agent_version, classify_topic, mp_topic_for_room, TopicKind, AGENT_PREFIX, MP_TOPIC_PREFIX,
};
use tui_majo::net::p2p::discovery::{encode_metadata, parse_metadata};
use tui_majo::net::p2p::mode::RoomMode;
use tui_majo::net::text::{hex_short, str_eq};

#[test]
fn kebab_round_trip() {
    for m in RoomMode::all() {
        assert_eq!(RoomMode::from_kebab(m.as_kebab()), *m);
    }
}

#[test]
fn from_kebab_unknown_falls_back_to_standard() {
    assert_eq!(RoomMode::from_kebab("garbage"), RoomMode::Standard);
    assert_eq!(RoomMode::from_kebab(""), RoomMode::Standard);
}

#[test]
fn default_is_standard() {
    assert_eq!(RoomMode::default(), RoomMode::Standard);
}

#[test]
fn mode_labels() {
    assert_eq!(RoomMode::Standard.as_kebab(), "standard");
    assert_eq!(RoomMode::ZeroTrust.as_kebab(), "zero-trust");
    assert_eq!(RoomMode::Standard.short_tag(), "标准");
    assert_eq!(RoomMode::ZeroTrust.short_tag(), "零信任");
    assert_eq!(RoomMode::Standard.label(), "标准模式 (房主权威)");
    assert_eq!(RoomMode::ZeroTrust.label(), "零信任模式 (mental poker)");
    assert_eq!(RoomMode::all(), &[RoomMode::Standard, RoomMode::ZeroTrust]);
}

#[test]
fn metadata_round_trip() {
    let encoded = encode_metadata("Alice", 2, "lobby", "abcd-1234");
    let agent = format!("{AGENT_PREFIX}{encoded}");
    let md = parse_metadata(&agent).unwrap();
    assert_eq!(md.host_nick, "Alice");
    assert_eq!(md.players, 2);
    assert_eq!(md.state, "lobby");
    assert_eq!(md.room_id, "abcd-1234");
}

#[test]
fn parse_rejects_non_tui_majo_agent() {
    assert!(parse_metadata("ipfs/0.1.0").is_none());
}

#[test]
fn sanitize_handles_special_chars() {
    let m = encode_metadata("A;li=ce", 1, "lobby", "id");
    assert!(!m.contains("A;li=ce"));
    assert!(m.contains("A_li_ce"));
}

#[test]
fn parse_metadata_lifecycle_alias() {
    let agent = format!("{AGENT_PREFIX}host_nick=Bob;players=1;lifecycle=in_game;room_id=x");
    let md = parse_metadata(&agent).unwrap();
    assert_eq!(md.state, "in_game");
}

#[test]
fn parse_metadata_state_legacy_alias() {
    let agent = format!("{AGENT_PREFIX}host_nick=Bob;players=1;state=in_game;room_id=x");
    let md = parse_metadata(&agent).unwrap();
    assert_eq!(md.state, "in_game");
}

#[test]
fn parse_metadata_unknown_keys_skipped() {
    let agent = format!("{AGENT_PREFIX}host_nick=Z;players=1;lifecycle=lobby;room_id=r;extra=ok");
    let md = parse_metadata(&agent).unwrap();
    assert_eq!(md.host_nick, "Z");
}

#[test]
fn parse_metadata_invalid_players_clamps_to_zero() {
    let agent = format!("{AGENT_PREFIX}host_nick=Z;players=abc;lifecycle=lobby;room_id=r");
    let md = parse_metadata(&agent).unwrap();
    assert_eq!(md.players, 0);
}

#[test]
fn parse_metadata_kv_without_eq_is_skipped() {
    let agent = format!("{AGENT_PREFIX}host_nick=Z;orphankey;players=1;lifecycle=lobby;room_id=r");
    let md = parse_metadata(&agent).unwrap();
    assert_eq!(md.host_nick, "Z");
}

#[test]
fn encode_metadata_exact_string() {
    assert_eq!(
        encode_metadata("Alice", 2, "lobby", "abcd-1234"),
        "host_nick=Alice;players=2;lifecycle=lobby;room_id=abcd-1234"
    );
    assert_eq!(encode_metadata("", 255, "a=b", ""), "host_nick=;players=255;lifecycle=a_b;room_id=");
    assert_eq!(encode_metadata("x", 40, "y", "z"), "host_nick=x;players=40;lifecycle=y;room_id=z");
}

#[test]
fn parse_metadata_players_follow_u8_parsing() {
    let with = |p: &str| parse_metadata(&format!("{AGENT_PREFIX}players={p}")).unwrap().players;
    assert_eq!(with("+7"), 7);
    assert_eq!(with("007"), 7);
    assert_eq!(with("255"), 255);
    assert_eq!(with("256"), 0);
    assert_eq!(with("-1"), 0);
    assert_eq!(with(""), 0);
    assert_eq!(with("+"), 0);
    assert_eq!(with("1 "), 0);
}

#[test]
fn parse_metadata_later_keys_win_and_value_keeps_equals() {
    let md = parse_metadata(&format!("{AGENT_PREFIX}host_nick=a;host_nick=b=c;;")).unwrap();
    assert_eq!(md.host_nick, "b=c");
    assert_eq!(md.players, 0);
    assert_eq!(md.state, "");
    assert_eq!(md.room_id, "");
    assert_eq!(md.last_seen_unix_ms, 0);
    assert_eq!(md.mode, RoomMode::Standard);
    let md = parse_metadata(AGENT_PREFIX).unwrap();
    assert_eq!(md.host_nick, "");
}

#[test]
fn mp_topic_is_prefix_room_and_version() {
    assert_eq!(mp_topic_for_room("abcd-1234"), "tui-majo/mp/abcd-1234/v1");
    assert!(mp_topic_for_room("r").starts_with(MP_TOPIC_PREFIX));
}

#[test]
fn hex_short_takes_at_most_eight_bytes() {
    assert_eq!(hex_short(&[]), "");
    assert_eq!(hex_short(&[0x00, 0xab, 0x0f]), "00ab0f");
    assert_eq!(
        hex_short(&[1, 2, 3, 4, 5, 6, 7, 8, 9, 10]),
        "0102030405060708"
    );
}

#[test]
fn str_eq_compares_chars() {
    assert!(str_eq("零信任", "零信任"));
    assert!(!str_eq("abc", "abd"));
    assert!(!str_eq("ab", "abc"));
}

#[test]
fn topics_are_classified_by_name_and_prefix() {
    assert_eq!(classify_topic("tui-majo/lobby/v1"), TopicKind::Lobby);
    assert_eq!(classify_topic("tui-majo/relays/v1"), TopicKind::Relays);
    assert_eq!(classify_topic(&mp_topic_for_room("abcd")), TopicKind::Mp);
    assert_eq!(classify_topic("tui-majo/mp/"), TopicKind::Mp);
    assert_eq!(classify_topic("tui-majo/lobby/v2"), TopicKind::Other);
    assert_eq!(classify_topic("tui-majo/m"), TopicKind::Other);
    assert_eq!(classify_topic(""), TopicKind::Other);
}

#[test]
fn agent_version_carries_metadata_back_to_the_browser() {
    let agent = agent_version(&encode_metadata("Bob", 3, "in_game", "r-1"));
    assert_eq!(agent, "tui-majo/host_nick=Bob;players=3;lifecycle=in_game;room_id=r-1");
    let md = parse_metadata(&agent).unwrap();
    assert_eq!(md.host_nick, "Bob");
    assert_eq!(md.players, 3);
    assert_eq!(md.state, "in_game");
    assert_eq!(md.room_id, "r-1");
}
