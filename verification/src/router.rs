//! Messages in and out: what the agent reads and what people get.

use vstd::prelude::*;
use vstd::string::*;

use crate::text::{
    char_text, contains_text, find_from, join, joined, lemma_find_from, to_chars, trim, trimmed,
};
use crate::types::{Channel, NewMessage};

verus! {

/// Why a message did not go out.
#[derive(Debug, PartialEq, Eq)]
pub enum RouteError {
    NoChannel { jid: String },
    SendFailed(String),
}

/// The message of a [`RouteError`].
pub open spec fn route_error_text(error: RouteError) -> Seq<char> {
    match error {
        RouteError::NoChannel { jid } => "No channel for JID: "@ + jid@,
        RouteError::SendFailed(err) => "Failed to send message: "@ + err@,
    }
}

impl RouteError {
    /// The error as a message.
    pub fn message(&self) -> (text: String)
        ensures
            text@ == route_error_text(*self),
    {
        match self {
            RouteError::NoChannel { jid } => "No channel for JID: ".to_owned().concat(jid.as_str()),
            RouteError::SendFailed(err) => "Failed to send message: ".to_owned().concat(
                err.as_str(),
            ),
        }
    }
}

// ---------------------------------------------------------------------------
// What the agent reads
// ---------------------------------------------------------------------------

/// How one character is written in XML.
pub open spec fn escaped_char(c: char) -> Seq<char> {
    if c == '&' {
        "&amp;"@
    } else if c == '<' {
        "&lt;"@
    } else if c == '>' {
        "&gt;"@
    } else if c == '"' {
        "&quot;"@
    } else {
        seq![c]
    }
}

/// A text as it is written in XML, character by character.
pub open spec fn escaped(s: Seq<char>) -> Seq<char>
    decreases s.len(),
{
    if s.len() == 0 {
        Seq::empty()
    } else {
        escaped(s.drop_last()) + escaped_char(s.last())
    }
}

/// A text as it is written in XML.
pub fn escape_xml(value: &str) -> (out: String)
    ensures
        out@ == escaped(value@),
{
    let chars = to_chars(value);
    let mut out = String::new();
    let mut i: usize = 0;
    while i < chars.len()
        invariant
            i <= chars@.len(),
            chars@ == value@,
            out@ == escaped(value@.take(i as int)),
        decreases chars@.len() - i,
    {
        let c = chars[i];
        proof {
            assert(value@.take(i as int + 1).drop_last() =~= value@.take(i as int));
        }
        if c == '&' {
            out.append("&amp;");
        } else if c == '<' {
            out.append("&lt;");
        } else if c == '>' {
            out.append("&gt;");
        } else if c == '"' {
            out.append("&quot;");
        } else {
            out.append(char_text(c).as_str());
        }
        i += 1;
    }
    proof {
        assert(value@.take(value@.len() as int) =~= value@);
    }
    out
}

/// No markup survives: an escaped text holds none of `<`, `>` and `"`.
pub proof fn escaped_text_has_no_markup(s: Seq<char>)
    ensures
        !escaped(s).contains('<'),
        !escaped(s).contains('>'),
        !escaped(s).contains('"'),
    decreases s.len(),
{
    reveal_strlit("&amp;");
    reveal_strlit("&lt;");
    reveal_strlit("&gt;");
    reveal_strlit("&quot;");
    if s.len() > 0 {
        escaped_text_has_no_markup(s.drop_last());
        let before = escaped(s.drop_last());
        let last = escaped_char(s.last());
        assert forall|i: int| 0 <= i < escaped(s).len() implies escaped(s)[i] != '<' && escaped(
            s,
        )[i] != '>' && escaped(s)[i] != '"' by {
            if i < before.len() {
                assert(escaped(s)[i] == before[i]);
                assert(before.contains(before[i]));
            } else {
                assert(escaped(s)[i] == last[i - before.len()]);
            }
        }
    }
}

/// One message as the agent reads it.
pub open spec fn message_line(message: NewMessage) -> Seq<char> {
    "<message sender=\""@ + escaped(message.sender_name@) + "\" time=\""@ + message.timestamp@
        + "\">"@ + escaped(message.content@) + "</message>"@
}

/// The prompt for a group: who the agent is, the rules of a reply, and the
/// messages one to a line.
pub open spec fn prompt_for(messages: Seq<NewMessage>, assistant_name: Seq<char>) -> Seq<char> {
    "You are "@ + assistant_name
        + ", the assistant for this group.\nReply to the latest message in <messages> with one natural message.\nRules:\n- Output only the final reply message.\n- Do not provide multiple tone/style options unless explicitly requested.\n- If asked your name or identity, identify yourself as \""@
        + assistant_name
        + "\".\n- Match the latest message language and keep it concise.\n\n<messages>\n"@
        + joined(Seq::new(messages.len(), |i: int| message_line(messages[i])), "\n"@)
        + "\n</messages>"@
}

/// The prompt for a group.
pub fn format_messages(messages: &[NewMessage], assistant_name: &str) -> (prompt: String)
    ensures
        prompt@ == prompt_for(messages@, assistant_name@),
{
    let ghost wanted = Seq::new(messages@.len(), |i: int| message_line(messages@[i]));
    let mut lines: Vec<String> = Vec::new();
    let mut i: usize = 0;
    while i < messages.len()
        invariant
            i <= messages@.len(),
            wanted == Seq::new(messages@.len(), |i: int| message_line(messages@[i])),
            lines.deep_view() =~= wanted.take(i as int),
        decreases messages@.len() - i,
    {
        let ghost before = lines.deep_view();
        let message = &messages[i];
        let line = "<message sender=\"".to_owned().concat(
            escape_xml(message.sender_name.as_str()).as_str(),
        ).concat("\" time=\"").concat(message.timestamp.as_str()).concat("\">").concat(
            escape_xml(message.content.as_str()).as_str(),
        ).concat("</message>");
        lines.push(line);
        proof {
            assert(lines.deep_view() =~= before.push(wanted[i as int]));
        }
        i += 1;
    }
    proof {
        assert(lines.deep_view() =~= wanted);
    }
    "You are ".to_owned().concat(assistant_name).concat(
        ", the assistant for this group.\nReply to the latest message in <messages> with one natural message.\nRules:\n- Output only the final reply message.\n- Do not provide multiple tone/style options unless explicitly requested.\n- If asked your name or identity, identify yourself as \"",
    ).concat(assistant_name).concat(
        "\".\n- Match the latest message language and keep it concise.\n\n<messages>\n",
    ).concat(join(&lines, "\n").as_str()).concat("\n</messages>")
}

// ---------------------------------------------------------------------------
// What people get
// ---------------------------------------------------------------------------

/// The text without each span from an `open` mark to the next `close` mark.
pub open spec fn spans_removed(s: Seq<char>, open: Seq<char>, close: Seq<char>) -> Seq<char>
    decreases s.len(),
{
    match find_from(s, open, 0) {
        Some(i) if open.len() > 0 => match find_from(s, close, i + open.len()) {
            Some(j) => {
                proof {
                    lemma_find_from(s, open, 0);
                    lemma_find_from(s, close, i + open.len());
                }
                s.take(i) + spans_removed(s.skip(j + close.len()), open, close)
            },
            None => s,
        },
        _ => s,
    }
}

/// Removes spans by `regex::Regex::replace_all` with the pattern of an `open`
/// mark, as few characters as possible, and a `close` mark. The contract claims
/// what the regex crate documents: matches are found from the left, do not
/// overlap, and a lazy repetition ends at the first `close` mark. A pattern made of
/// marks this short is always compiled.
#[verifier::external_body]
fn remove_spans(text: &str, open: &str, close: &str) -> (out: String)
    requires
        0 < open@.len() <= 100,
        0 < close@.len() <= 100,
    ensures
        out@ == spans_removed(text@, open@, close@),
{
    let pattern = format!("(?s){}.*?{}", regex::escape(open), regex::escape(close));
    match regex::Regex::new(&pattern) {
        Ok(regex) => regex.replace_all(text, "").into_owned(),
        Err(_) => text.to_string(),
    }
}

/// A text without what is marked as internal and without surrounding white
/// space.
pub open spec fn without_internal(text: Seq<char>) -> Seq<char> {
    trimmed(spans_removed(text, "<internal>"@, "</internal>"@))
}

/// A text without what is marked as internal and without surrounding white
/// space.
pub fn strip_internal_tags(text: &str) -> (out: String)
    ensures
        out@ == without_internal(text@),
{
    proof {
        reveal_strlit("<internal>");
        reveal_strlit("</internal>");
    }
    trim(remove_spans(text, "<internal>", "</internal>").as_str())
}

/// A text that marks nothing as internal is only trimmed.
pub proof fn unmarked_text_is_only_trimmed(text: Seq<char>)
    requires
        !contains_text(text, "<internal>"@),
    ensures
        without_internal(text) == trimmed(text),
{
    lemma_find_from(text, "<internal>"@, 0);
}

/// The first internal span of a text is left out whole, with its marks.
pub proof fn first_internal_span_is_left_out(text: Seq<char>, start: int, end: int)
    requires
        find_from(text, "<internal>"@, 0) == Some(start),
        find_from(text, "</internal>"@, start + "<internal>"@.len()) == Some(end),
    ensures
        without_internal(text) == trimmed(
            text.take(start) + spans_removed(
                text.skip(end + "</internal>"@.len()),
                "<internal>"@,
                "</internal>"@,
            ),
        ),
{
    reveal_strlit("<internal>");
}

/// What people get of an agent's text.
pub fn format_outbound(raw_text: &str) -> (out: String)
    ensures
        out@ == without_internal(raw_text@),
{
    strip_internal_tags(raw_text)
}

/// Whether a channel said of a chat that it serves it, or that it does not.
pub open spec fn said_serves<C: Channel>(channel: C, jid: &str, yes: bool) -> bool {
    call_ensures(C::owns_jid, (&channel, jid), yes)
}

/// Whether a channel said that it is up, or that it is not.
pub open spec fn said_up<C: Channel>(channel: C, yes: bool) -> bool {
    call_ensures(C::is_connected, (&channel,), yes)
}

/// The first channel that serves a chat.
pub fn find_channel<'a, C: Channel>(channels: &'a Vec<C>, jid: &str) -> (found: Option<&'a C>)
    ensures
        match found {
            Some(c) => exists|i: int|
                0 <= i < channels@.len() && *c == #[trigger] channels@[i] && said_serves(
                    channels@[i],
                    jid,
                    true,
                ) && forall|k: int| 0 <= k < i ==> said_serves(#[trigger] channels@[k], jid, false),
            None => forall|k: int|
                0 <= k < channels@.len() ==> said_serves(#[trigger] channels@[k], jid, false),
        },
{
    let mut i: usize = 0;
    while i < channels.len()
        invariant
            i <= channels@.len(),
            forall|k: int| 0 <= k < i ==> said_serves(#[trigger] channels@[k], jid, false),
        decreases channels@.len() - i,
    {
        if channels[i].owns_jid(jid) {
            return Some(&channels[i]);
        }
        i += 1;
    }
    None
}

/// Whether a channel said that it serves a chat and is up.
pub open spec fn carries<C: Channel>(channel: C, jid: &str) -> bool {
    said_serves(channel, jid, true) && said_up(channel, true)
}

/// Whether a channel said that it does not serve a chat, or that it does and is
/// not up.
pub open spec fn declines<C: Channel>(channel: C, jid: &str) -> bool {
    said_serves(channel, jid, false) || said_serves(channel, jid, true) && said_up(channel, false)
}

/// Whether `channel` carries a chat and every one before it declines.
pub open spec fn is_first_carrier<C: Channel>(channels: Seq<C>, jid: &str, channel: C) -> bool {
    exists|i: int|
        0 <= i < channels.len() && channel == #[trigger] channels[i] && carries(channels[i], jid)
            && forall|k: int| 0 <= k < i ==> declines(#[trigger] channels[k], jid)
}

/// Whether every channel declines a chat.
pub open spec fn no_carrier<C: Channel>(channels: Seq<C>, jid: &str) -> bool {
    forall|k: int| 0 <= k < channels.len() ==> declines(#[trigger] channels[k], jid)
}

/// The first channel that serves a chat and is up.
pub fn connected_channel<'a, C: Channel>(channels: &'a Vec<C>, jid: &str) -> (found: Result<
    &'a C,
    RouteError,
>)
    ensures
        match found {
            Ok(c) => is_first_carrier(channels@, jid, *c),
            Err(e) => no_carrier(channels@, jid) && (e matches RouteError::NoChannel {
                jid: missing,
            } && missing@ == jid@),
        },
{
    let mut i: usize = 0;
    while i < channels.len()
        invariant
            i <= channels@.len(),
            forall|k: int| 0 <= k < i ==> declines(#[trigger] channels@[k], jid),
        decreases channels@.len() - i,
    {
        if channels[i].owns_jid(jid) && channels[i].is_connected() {
            return Ok(&channels[i]);
        }
        i += 1;
    }
    Err(RouteError::NoChannel { jid: jid.to_owned() })
}

/// What became of a message that was handed to a channel.
pub fn sent(result: Result<(), String>) -> (out: Result<(), RouteError>)
    ensures
        match result {
            Ok(_) => out is Ok,
            Err(e) => out matches Err(RouteError::SendFailed(f)) && f == e,
        },
{
    match result {
        Ok(_) => Ok(()),
        Err(e) => Err(RouteError::SendFailed(e)),
    }
}

/// Escaping goes character by character: a text is escaped as its parts are, and one
/// without markup stays as it is.
pub proof fn plain_text_is_not_escaped(s: Seq<char>, rest: Seq<char>)
    ensures
        escaped(s + rest) == escaped(s) + escaped(rest),
        !s.contains('&') && !s.contains('<') && !s.contains('>') && !s.contains('"') ==> escaped(s)
            == s,
    decreases s.len() + rest.len(),
{
    if rest.len() > 0 {
        plain_text_is_not_escaped(s, rest.drop_last());
        assert((s + rest).drop_last() =~= s + rest.drop_last());
        assert(escaped(s + rest) =~= escaped(s) + escaped(rest));
    } else {
        assert(s + rest =~= s);
        assert(escaped(s) + escaped(rest) =~= escaped(s));
        if s.len() > 0 && !s.contains('&') && !s.contains('<') && !s.contains('>') && !s.contains(
            '"',
        ) {
            let before = s.drop_last();
            assert forall|c: char| before.contains(c) implies s.contains(c) by {
                let i = choose|i: int| 0 <= i < before.len() && before[i] == c;
                assert(s[i] == c);
            }
            assert(s.contains(s.last())) by {
                assert(s[s.len() - 1] == s.last());
            }
            plain_text_is_not_escaped(before, Seq::empty());
            assert(before + Seq::<char>::empty() =~= before);
            assert(escaped(s) =~= s);
        }
    }
}

/// Each character that XML has a use for is written as its own entity.
pub proof fn special_characters_are_written_as_entities(text: Seq<char>, c: char)
    ensures
        escaped(text.push('&')) == escaped(text) + "&amp;"@,
        escaped(text.push('<')) == escaped(text) + "&lt;"@,
        escaped(text.push('>')) == escaped(text) + "&gt;"@,
        escaped(text.push('"')) == escaped(text) + "&quot;"@,
        c != '&' && c != '<' && c != '>' && c != '"' ==> escaped(text.push(c)) == escaped(
            text,
        ).push(c),
{
    assert(text.push('&').drop_last() =~= text);
    assert(text.push('<').drop_last() =~= text);
    assert(text.push('>').drop_last() =~= text);
    assert(text.push('"').drop_last() =~= text);
    assert(text.push(c).drop_last() =~= text);
    assert(escaped(text) + seq![c] =~= escaped(text).push(c));
}

/// The first channel that carries a chat takes it: channels behind it make no difference,
/// and a channel comes into question only where all before it decline.
pub proof fn first_channel_takes_the_chat<C: Channel>(
    channels: Seq<C>,
    jid: &str,
    channel: C,
    other: C,
)
    ensures
        is_first_carrier(channels, jid, channel) ==> is_first_carrier(
            channels.push(other),
            jid,
            channel,
        ),
        no_carrier(channels, jid) && carries(other, jid) ==> is_first_carrier(
            channels.push(other),
            jid,
            other,
        ),
{
    let more = channels.push(other);
    if is_first_carrier(channels, jid, channel) {
        let i = choose|i: int|
            0 <= i < channels.len() && channel == #[trigger] channels[i] && carries(
                channels[i],
                jid,
            ) && forall|k: int| 0 <= k < i ==> declines(#[trigger] channels[k], jid);
        assert(more[i] == channels[i]);
        assert forall|k: int| 0 <= k < i implies declines(#[trigger] more[k], jid) by {
            assert(more[k] == channels[k]);
        }
    }
    if no_carrier(channels, jid) && carries(other, jid) {
        let i = channels.len() as int;
        assert(more[i] == other);
        assert forall|k: int| 0 <= k < i implies declines(#[trigger] more[k], jid) by {
            assert(more[k] == channels[k]);
        }
    }
}

} // verus!
