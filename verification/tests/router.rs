use rust_claw::channel_outbound::ChannelOutboundSender;
use rust_claw::router::{
    connected_channel, escape_xml, find_channel, format_messages, format_outbound, sent,
    strip_internal_tags, RouteError,
};
use rust_claw::types::{Channel, NewMessage};

struct MockChannel {
    name: &'static str,
    connected: bool,
    jid_suffix: &'static str,
}

impl MockChannel {
    fn new(name: &'static str, connected: bool, jid_suffix: &'static str) -> Self {
        Self {
            name,
            connected,
            jid_suffix,
        }
    }
}

impl Channel for MockChannel {
    fn name(&self) -> &str {
        self.name
    }

    fn is_connected(&self) -> bool {
        self.connected
    }

    fn owns_jid(&self, jid: &str) -> bool {
        jid.ends_with(self.jid_suffix)
    }
}

#[test]
fn escape_xml_escapes_critical_characters() {
    let escaped = escape_xml(r#"<tag attr="x">a&b</tag>"#);
    assert_eq!(escaped, "&lt;tag attr=&quot;x&quot;&gt;a&amp;b&lt;/tag&gt;");
}

#[test]
fn escape_xml_keeps_other_text() {
    assert_eq!(escape_xml(""), "");
    assert_eq!(escape_xml("안녕 'x'"), "안녕 'x'");
    assert_eq!(escape_xml("&amp;"), "&amp;amp;");
}

#[test]
fn format_messages_wraps_xml_messages() {
    let messages = vec![NewMessage {
        id: "1".to_string(),
        chat_jid: "group@g.us".to_string(),
        sender: "user".to_string(),
        sender_name: "Alice <QA>".to_string(),
        content: "hello & bye".to_string(),
        timestamp: "2026-02-19T00:00:00.000Z".to_string(),
        is_from_me: false,
        is_bot_message: false,
    }];

    let rendered = format_messages(&messages, "Andy");
    assert!(rendered.contains("You are Andy, the assistant for this group."));
    assert!(rendered.contains("Reply to the latest message in <messages>"));
    assert!(rendered.contains("If asked your name or identity, identify yourself as \"Andy\"."));
    assert!(rendered.contains(
        "<messages>\n<message sender=\"Alice &lt;QA&gt;\" time=\"2026-02-19T00:00:00.000Z\">hello &amp; bye</message>\n</messages>"
    ));
}

#[test]
fn format_messages_puts_one_message_on_a_line() {
    let message = |id: &str| NewMessage {
        id: id.to_string(),
        chat_jid: "c".to_string(),
        sender: "s".to_string(),
        sender_name: "S".to_string(),
        content: id.to_string(),
        timestamp: "t".to_string(),
        is_from_me: false,
        is_bot_message: false,
    };
    let rendered = format_messages(&[message("a"), message("b")], "Bot");
    assert_eq!(
        rendered,
        "You are Bot, the assistant for this group.\nReply to the latest message in <messages> with one natural message.\nRules:\n- Output only the final reply message.\n- Do not provide multiple tone/style options unless explicitly requested.\n- If asked your name or identity, identify yourself as \"Bot\".\n- Match the latest message language and keep it concise.\n\n<messages>\n<message sender=\"S\" time=\"t\">a</message>\n<message sender=\"S\" time=\"t\">b</message>\n</messages>"
    );
}

#[test]
fn strip_internal_tags_removes_hidden_content() {
    let input = "before<internal>secret\ncontent</internal>after";
    assert_eq!(strip_internal_tags(input), "beforeafter");
}

#[test]
fn strip_internal_tags_handles_edges() {
    assert_eq!(strip_internal_tags("  plain \n"), "plain");
    assert_eq!(
        strip_internal_tags("a<internal>1</internal>b<internal>2</internal>c"),
        "abc"
    );
    assert_eq!(
        strip_internal_tags("<internal>a<internal>b</internal>c</internal>"),
        "c</internal>"
    );
    assert_eq!(strip_internal_tags("x<internal>open"), "x<internal>open");
    assert_eq!(format_outbound("<internal>all</internal>"), "");
}

#[test]
fn route_outbound_uses_connected_channel() {
    let channels = vec![
        MockChannel::new("wa-disconnected", false, "@g.us"),
        MockChannel::new("wa", true, "@g.us"),
    ];
    let chosen = connected_channel(&channels, "123@g.us").expect("channel");
    assert_eq!(chosen.name(), "wa");
    assert_eq!(sent(Ok(())), Ok(()));
    assert_eq!(
        find_channel(&channels, "123@g.us").map(|c| c.name()),
        Some("wa-disconnected")
    );
}

#[test]
fn route_outbound_errors_when_no_channel() {
    let channels = vec![MockChannel::new("telegram", true, "@telegram")];
    let result = connected_channel(&channels, "123@g.us").map(|_| ());
    assert_eq!(
        result,
        Err(RouteError::NoChannel {
            jid: "123@g.us".to_string()
        })
    );
    assert!(find_channel(&channels, "123@g.us").is_none());
}

#[test]
fn route_outbound_propagates_send_failure() {
    let channels = vec![MockChannel::new("wa", true, "@g.us")];
    assert!(connected_channel(&channels, "123@g.us").is_ok());
    assert_eq!(
        sent(Err("send failed".to_string())),
        Err(RouteError::SendFailed("send failed".to_string()))
    );
}

#[test]
fn route_errors_have_messages() {
    let missing = RouteError::NoChannel {
        jid: "j".to_string(),
    };
    assert_eq!(missing.message(), "No channel for JID: j");
    assert_eq!(
        RouteError::SendFailed("down".to_string()).message(),
        "Failed to send message: down"
    );
}

#[test]
fn sends_to_matching_connected_channel() {
    let sender = ChannelOutboundSender::new(vec![MockChannel::new("mock", true, "@g.us")]);
    assert!(sender.channel_for("group@g.us").is_ok());
}

#[test]
fn returns_error_when_no_channel_matches() {
    let sender = ChannelOutboundSender::new(vec![MockChannel::new("mock", true, "@telegram")]);
    assert!(sender.channel_for("group@g.us").is_err());
    match sender.typing_channel("group@g.us") {
        Err(message) => assert_eq!(message, "no connected channel for JID: group@g.us"),
        Ok(_) => panic!("no channel serves the chat"),
    }
}

#[test]
fn typing_routes_to_matching_connected_channel() {
    let sender = ChannelOutboundSender::new(vec![MockChannel::new("mock", true, "@g.us")]);
    assert!(sender.typing_channel("group@g.us").is_ok());
}
