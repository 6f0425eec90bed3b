use rust_claw::discord_channel::{
    format_discord_channel_jid, inbound_message, parse_discord_channel_id, require_channel_id,
    typing_step, DiscordChannelConfig, DiscordMessage, Outbox, TypingStep,
};
use rust_claw::duration::Duration;

#[test]
fn parses_discord_jid_suffix() {
    assert_eq!(parse_discord_channel_id("123@discord"), Some(123));
}

#[test]
fn parses_discord_prefix() {
    assert_eq!(parse_discord_channel_id("discord:456"), Some(456));
}

#[test]
fn parses_raw_channel_id() {
    assert_eq!(parse_discord_channel_id("789"), Some(789));
}

#[test]
fn rejects_invalid_channel_jid() {
    assert_eq!(parse_discord_channel_id("group@g.us"), None);
}

#[test]
fn chat_names_stand_for_channels() {
    assert_eq!(format_discord_channel_jid(18446744073709551615), "18446744073709551615@discord");
    assert_eq!(
        parse_discord_channel_id(&format_discord_channel_jid(u64::MAX)),
        Some(u64::MAX)
    );
}

fn config(prefix_outbound: bool) -> DiscordChannelConfig {
    DiscordChannelConfig {
        bot_token: "t".to_string(),
        reconnect_delay: Duration::from_secs(1),
        assistant_name: "Andy".to_string(),
        prefix_outbound,
    }
}

#[test]
fn replies_carry_the_name_where_asked() {
    assert_eq!(config(true).decorate_outbound("hi"), "Andy: hi");
    assert_eq!(config(false).decorate_outbound("hi"), "hi");
}

fn message(content: &str, urls: &[&str], author_id: u64) -> DiscordMessage {
    DiscordMessage {
        id: 7,
        channel_id: 8,
        author_id,
        author_name: "alice".to_string(),
        author_global_name: Some("Alice".to_string()),
        author_is_bot: false,
        content: content.to_string(),
        attachment_urls: urls.iter().map(|u| u.to_string()).collect(),
        timestamp: "2026-02-19T00:00:00.000Z".to_string(),
    }
}

#[test]
fn messages_come_in_with_attachments() {
    let inbound = inbound_message(&message(" ", &["u1", "u2"], 1), 2);
    assert_eq!(inbound.id, "7");
    assert_eq!(inbound.chat_jid, "8@discord");
    assert_eq!(inbound.sender, "1");
    assert_eq!(inbound.sender_name, "Alice");
    assert_eq!(inbound.content, "u1\nu2");
    assert!(!inbound.is_from_me);
    let own = inbound_message(&message("hi", &["u1"], 2), 2);
    assert!(own.is_from_me);
    assert_eq!(own.content, "hi");
}

#[test]
fn messages_wait_in_order() {
    let mut outbox = Outbox::new();
    assert!(!outbox.is_connected());
    assert!(!outbox.submit("a", "1"));
    assert!(!outbox.submit("a", "2"));
    outbox.set_connected(true);
    assert!(outbox.begin_flush());
    assert!(!outbox.begin_flush());
    let first = outbox.take_oldest().expect("first");
    assert_eq!(first, ("a".to_string(), "1".to_string()));
    outbox.put_back(first);
    assert_eq!(outbox.waiting_count(), 2);
    assert_eq!(outbox.take_oldest().expect("again").1, "1");
    assert_eq!(outbox.take_oldest().expect("second").1, "2");
    assert!(outbox.take_oldest().is_none());
    outbox.end_flush();
    assert!(outbox.submit("a", "3"));
    outbox.keep("a", "3");
    assert_eq!(outbox.waiting_count(), 1);
}

#[test]
fn typing_is_shown_once_and_only_when_connected() {
    assert_eq!(typing_step(false, true, true), TypingStep::Stop);
    assert_eq!(typing_step(true, false, false), TypingStep::Keep);
    assert_eq!(typing_step(true, true, true), TypingStep::Keep);
    assert_eq!(typing_step(true, true, false), TypingStep::Start);
}

#[test]
fn chats_of_other_services_have_no_channel() {
    assert_eq!(require_channel_id(" 7@discord "), Ok(7));
    assert_eq!(
        require_channel_id("group@g.us"),
        Err("unsupported Discord channel JID: group@g.us".to_string())
    );
}
