//! Discord: names of chats, and messages that wait for the connection.

use vstd::prelude::*;
use vstd::string::*;

use std::collections::VecDeque;

use crate::duration::Duration;
use crate::number::{decimal, decimal_reads_back, lemma_decimal_digits, parse_u64, u64_text, unsigned_value};
use crate::text::laws::joined_text_holds_its_parts;
use crate::text::{
    contains_text, is_digit, join, joined, strip_prefix, strip_suffix, trim, trimmed, trimmed_end,
    trimmed_start, without_prefix, without_suffix,
};
use crate::types::NewMessage;

verus! {

#[derive(Debug)]
pub struct DiscordChannelConfig {
    pub bot_token: String,
    pub reconnect_delay: Duration,
    pub assistant_name: String,
    pub prefix_outbound: bool,
}

/// The name of a chat.
pub open spec fn chat_name(channel_id: nat) -> Seq<char> {
    decimal(channel_id) + "@discord"@
}

/// The name of a chat.
pub fn format_discord_channel_jid(channel_id: u64) -> (jid: String)
    ensures
        jid@ == chat_name(channel_id as nat),
{
    u64_text(channel_id).concat("@discord")
}

/// The channel that a chat's name stands for: its number, with a prefix or a
/// suffix or neither.
pub open spec fn channel_of(jid: Seq<char>) -> Option<nat> {
    let text = trimmed(jid);
    let number = match without_prefix(text, "discord:"@) {
        Some(rest) => rest,
        None => match without_suffix(text, "@discord"@) {
            Some(rest) => rest,
            None => text,
        },
    };
    unsigned_value(trimmed(number), u64::MAX as nat)
}

/// The channel that a chat's name stands for.
pub fn parse_discord_channel_id(jid: &str) -> (channel_id: Option<u64>)
    ensures
        match channel_id {
            Some(id) => channel_of(jid@) == Some(id as nat),
            None => channel_of(jid@) is None,
        },
{
    let text = trim(jid);
    let number = match strip_prefix(text.as_str(), "discord:") {
        Some(rest) => rest,
        None => match strip_suffix(text.as_str(), "@discord") {
            Some(rest) => rest,
            None => text,
        },
    };
    parse_u64(trim(number.as_str()).as_str())
}

/// The channel of a chat, or why there is none.
pub open spec fn channel_or_reason(jid: Seq<char>) -> Result<nat, Seq<char>> {
    match channel_of(jid) {
        Some(id) => Ok(id),
        None => Err("unsupported Discord channel JID: "@ + jid),
    }
}

/// The channel of a chat, or why there is none.
pub fn require_channel_id(jid: &str) -> (channel_id: Result<u64, String>)
    ensures
        match channel_id {
            Ok(id) => channel_or_reason(jid@) == Ok::<nat, Seq<char>>(id as nat),
            Err(reason) => channel_or_reason(jid@) == Err::<nat, Seq<char>>(reason@),
        },
{
    match parse_discord_channel_id(jid) {
        Some(id) => Ok(id),
        None => Err("unsupported Discord channel JID: ".to_owned().concat(jid)),
    }
}

/// What to do about the typing sign in a channel.
#[derive(Debug, Clone, Copy, PartialEq, Eq, Structural)]
pub enum TypingStep {
    /// Stop showing it, where it is shown.
    Stop,
    /// Leave it as it is.
    Keep,
    /// Start showing it.
    Start,
}

/// What to do about the typing sign: it is shown at most once in a channel, and
/// not without a connection.
pub fn typing_step(is_typing: bool, connected: bool, already_shown: bool) -> (step: TypingStep)
    ensures
        step == if !is_typing {
            TypingStep::Stop
        } else if connected && !already_shown {
            TypingStep::Start
        } else {
            TypingStep::Keep
        },
{
    if !is_typing {
        TypingStep::Stop
    } else if connected && !already_shown {
        TypingStep::Start
    } else {
        TypingStep::Keep
    }
}

/// A chat's name stands for its channel.
pub proof fn chat_name_stands_for_channel(channel_id: nat)
    requires
        channel_id <= u64::MAX,
    ensures
        channel_of(chat_name(channel_id)) == Some(channel_id),
{
    let digits = decimal(channel_id);
    let suffix = "@discord"@;
    let name = chat_name(channel_id);
    reveal_strlit("@discord");
    reveal_strlit("discord:");
    lemma_decimal_digits(channel_id);
    assert(is_digit(digits[0]));
    assert(is_digit(digits.last()));
    assert(name[0] == digits[0]);
    assert(name.last() == 'd');
    assert(trimmed_start(name) == name);
    assert(trimmed_end(name) == name);
    assert(!"discord:"@.is_prefix_of(name)) by {
        if "discord:"@.is_prefix_of(name) {
            assert(name.subrange(0, 8)[0] == "discord:"@[0]);
        }
    }
    assert(name.subrange(name.len() - suffix.len(), name.len() as int) =~= suffix);
    assert(name.take(name.len() - suffix.len()) =~= digits);
    assert(trimmed_start(digits) == digits);
    assert(trimmed_end(digits) == digits);
    decimal_reads_back(channel_id, u64::MAX as nat);
}

impl DiscordChannelConfig {
    /// A text as it goes out: behind the assistant's name where that is wanted.
    pub open spec fn decorated(&self, text: Seq<char>) -> Seq<char> {
        if self.prefix_outbound {
            self.assistant_name@ + ": "@ + text
        } else {
            text
        }
    }

    /// A text as it goes out.
    pub fn decorate_outbound(&self, text: &str) -> (out: String)
        ensures
            out@ == self.decorated(text@),
    {
        if self.prefix_outbound {
            self.assistant_name.clone().concat(": ").concat(text)
        } else {
            text.to_owned()
        }
    }
}

/// A message as Discord reports it.
#[derive(Debug)]
pub struct DiscordMessage {
    pub id: u64,
    pub channel_id: u64,
    pub author_id: u64,
    pub author_name: String,
    pub author_global_name: Option<String>,
    pub author_is_bot: bool,
    pub content: String,
    pub attachment_urls: Vec<String>,
    pub timestamp: String,
}

/// What a message says: its text, or where it has none what is attached.
pub open spec fn message_content(content: Seq<char>, urls: Seq<Seq<char>>) -> Seq<char> {
    if trimmed(content).len() == 0 {
        joined(urls, "\n"@)
    } else {
        content
    }
}

/// A message as the rest of the runtime takes it.
pub fn inbound_message(message: &DiscordMessage, current_user_id: u64) -> (inbound: NewMessage)
    ensures
        inbound.id@ == decimal(message.id as nat),
        inbound.chat_jid@ == chat_name(message.channel_id as nat),
        inbound.sender@ == decimal(message.author_id as nat),
        inbound.sender_name@ == match message.author_global_name {
            Some(name) => name@,
            None => message.author_name@,
        },
        inbound.content@ == message_content(
            message.content@,
            message.attachment_urls.deep_view(),
        ),
        inbound.timestamp@ == message.timestamp@,
        inbound.is_from_me == (current_user_id == message.author_id),
        inbound.is_bot_message == message.author_is_bot,
{
    let content = if trim(message.content.as_str()).as_str().is_empty() {
        join(&message.attachment_urls, "\n")
    } else {
        message.content.clone()
    };
    let sender_name = match &message.author_global_name {
        Some(name) => name.clone(),
        None => message.author_name.clone(),
    };
    NewMessage {
        id: u64_text(message.id),
        chat_jid: format_discord_channel_jid(message.channel_id),
        sender: u64_text(message.author_id),
        sender_name,
        content,
        timestamp: message.timestamp.clone(),
        is_from_me: current_user_id == message.author_id,
        is_bot_message: message.author_is_bot,
    }
}

// ---------------------------------------------------------------------------
// Messages that wait
// ---------------------------------------------------------------------------

/// Messages that could not go out yet, oldest first.
#[derive(Debug)]
pub struct Outbox {
    waiting: VecDeque<(String, String)>,
    connected: bool,
    flushing: bool,
}

/// The content of an [`Outbox`].
pub struct OutboxView {
    pub waiting: Seq<(Seq<char>, Seq<char>)>,
    pub connected: bool,
    pub flushing: bool,
}

pub open spec fn messages_view(messages: Seq<(String, String)>) -> Seq<(Seq<char>, Seq<char>)> {
    Seq::new(messages.len(), |i: int| (messages[i].0@, messages[i].1@))
}

impl View for Outbox {
    type V = OutboxView;

    closed spec fn view(&self) -> OutboxView {
        OutboxView {
            waiting: messages_view(self.waiting@),
            connected: self.connected,
            flushing: self.flushing,
        }
    }
}

impl Outbox {
    /// An outbox without messages or connection.
    pub fn new() -> (outbox: Outbox)
        ensures
            outbox@ == (OutboxView {
                waiting: Seq::empty(),
                connected: false,
                flushing: false,
            }),
    {
        let outbox = Outbox { waiting: VecDeque::new(), connected: false, flushing: false };
        proof {
            assert(outbox@.waiting =~= Seq::<(Seq<char>, Seq<char>)>::empty());
        }
        outbox
    }

    /// Notes whether there is a connection.
    pub fn set_connected(&mut self, connected: bool)
        ensures
            final(self)@ == (OutboxView { connected, ..old(self)@ }),
    {
        self.connected = connected;
    }

    /// Whether there is a connection.
    pub fn is_connected(&self) -> (yes: bool)
        ensures
            yes == self@.connected,
    {
        self.connected
    }

    /// How many messages wait.
    pub fn waiting_count(&self) -> (count: usize)
        ensures
            count == self@.waiting.len(),
    {
        self.waiting.len()
    }

    /// Hands a message in: the answer says whether it is to be sent now; without
    /// a connection it waits.
    pub fn submit(&mut self, jid: &str, text: &str) -> (send_now: bool)
        ensures
            send_now == old(self)@.connected,
            final(self)@ == (OutboxView {
                waiting: if old(self)@.connected {
                    old(self)@.waiting
                } else {
                    old(self)@.waiting.push((jid@, text@))
                },
                ..old(self)@
            }),
    {
        if self.connected {
            return true;
        }
        self.keep(jid, text);
        false
    }

    /// Puts a message that could not be sent behind those that wait.
    pub fn keep(&mut self, jid: &str, text: &str)
        ensures
            final(self)@ == (OutboxView {
                waiting: old(self)@.waiting.push((jid@, text@)),
                ..old(self)@
            }),
    {
        let ghost before = self@.waiting;
        self.waiting.push_back((jid.to_owned(), text.to_owned()));
        proof {
            assert(messages_view(self.waiting@) =~= before.push((jid@, text@)));
        }
    }

    /// Begins to send what waits; not without a connection, nor where that is
    /// under way.
    pub fn begin_flush(&mut self) -> (begun: bool)
        ensures
            begun == (old(self)@.connected && !old(self)@.flushing),
            final(self)@ == (OutboxView {
                flushing: old(self)@.flushing || old(self)@.connected,
                ..old(self)@
            }),
    {
        if !self.connected || self.flushing {
            return false;
        }
        self.flushing = true;
        true
    }

    /// Ends sending what waits.
    pub fn end_flush(&mut self)
        ensures
            final(self)@ == (OutboxView { flushing: false, ..old(self)@ }),
    {
        self.flushing = false;
    }

    /// Takes the oldest message out.
    pub fn take_oldest(&mut self) -> (message: Option<(String, String)>)
        ensures
            match message {
                Some(m) => {
                    &&& old(self)@.waiting.len() > 0
                    &&& (m.0@, m.1@) == old(self)@.waiting[0]
                    &&& final(self)@ == without_oldest(old(self)@)
                },
                None => old(self)@.waiting.len() == 0 && final(self)@ == old(self)@,
            },
    {
        let ghost before = self@.waiting;
        let message = self.waiting.pop_front();
        proof {
            if message is Some {
                assert(messages_view(self.waiting@) =~= before.drop_first());
            } else {
                assert(messages_view(self.waiting@) =~= before);
            }
        }
        message
    }

    /// Puts the oldest message back where it could not be sent.
    pub fn put_back(&mut self, message: (String, String))
        ensures
            final(self)@ == with_oldest(old(self)@, (message.0@, message.1@)),
    {
        let ghost before = self@.waiting;
        self.waiting.push_front(message);
        proof {
            assert(messages_view(self.waiting@) =~= seq![(message.0@, message.1@)] + before);
        }
    }
}

/// The outbox without its oldest message.
pub open spec fn without_oldest(outbox: OutboxView) -> OutboxView {
    OutboxView { waiting: outbox.waiting.drop_first(), ..outbox }
}

/// The outbox with a message in front of those that wait.
pub open spec fn with_oldest(outbox: OutboxView, message: (Seq<char>, Seq<char>)) -> OutboxView {
    OutboxView { waiting: seq![message] + outbox.waiting, ..outbox }
}

/// No message is lost or overtaken: taking the oldest message out and putting it
/// back leaves the outbox as it was.
pub proof fn message_put_back_keeps_order(outbox: OutboxView)
    requires
        outbox.waiting.len() > 0,
    ensures
        with_oldest(without_oldest(outbox), outbox.waiting[0]) == outbox,
{
    assert(seq![outbox.waiting[0]] + outbox.waiting.drop_first() =~= outbox.waiting);
}

/// What goes out is the text itself, behind the assistant's name where that is wanted.
pub proof fn text_goes_out_as_it_is(channel: DiscordChannelConfig, text: Seq<char>)
    ensures
        !channel.prefix_outbound ==> channel.decorated(text) == text,
        channel.prefix_outbound ==> channel.decorated(text) == channel.assistant_name@ + ": "@
            + text,
        text.is_suffix_of(channel.decorated(text)),
{
    let out = channel.decorated(text);
    assert(out.subrange(out.len() - text.len(), out.len() as int) =~= text);
}

/// A message says what it says; one that says nothing says where its attachments are.
pub proof fn message_without_text_shows_its_attachments(content: Seq<char>, urls: Seq<Seq<char>>)
    ensures
        trimmed(content).len() > 0 ==> message_content(content, urls) == content,
        trimmed(content).len() == 0 ==> forall|i: int|
            0 <= i < urls.len() ==> contains_text(
                message_content(content, urls),
                #[trigger] urls[i],
            ),
{
    if trimmed(content).len() == 0 {
        assert forall|i: int| 0 <= i < urls.len() implies contains_text(
            message_content(content, urls),
            #[trigger] urls[i],
        ) by {
            joined_text_holds_its_parts(urls, "\n"@, i);
        }
    }
}

/// Chats of different channels have different names.
pub proof fn channels_have_their_own_chats(a: nat, b: nat)
    requires
        a <= u64::MAX,
        b <= u64::MAX,
        chat_name(a) == chat_name(b),
    ensures
        a == b,
{
    chat_name_stands_for_channel(a);
    chat_name_stands_for_channel(b);
}

} // verus!
