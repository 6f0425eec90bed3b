//! What is known of groups: who is registered, how far messages were read, and
//! which sessions go on.

use vstd::prelude::*;
use vstd::string::*;

use crate::name_map::{put_text, text_under, texts, NameMap};
use crate::orchestrator::agent::{
    runner_session, session_id_for_runner, AgentRunInput, OrchestratorConfig,
};
use crate::orchestrator::run::GroupRun;
use crate::router::{format_messages, prompt_for};
use crate::text::laws::trimming_takes_only_white_space;
use crate::text::{same_text, trim, trimmed};
use crate::types::{NewMessage, RegisteredGroup};

verus! {

// ---------------------------------------------------------------------------
// Triggers
// ---------------------------------------------------------------------------

/// Whether a character has a meaning of its own in a regular expression.
pub open spec fn is_meta(c: char) -> bool {
    ||| c == '\\' || c == '.' || c == '+' || c == '*' || c == '?' || c == '('
    ||| c == ')' || c == '|' || c == '[' || c == ']' || c == '{' || c == '}'
    ||| c == '^' || c == '$' || c == '#' || c == '&' || c == '-' || c == '~'
}

/// A text with a backslash before every character that has a meaning of its own
/// in a regular expression.
pub open spec fn regex_escaped(text: Seq<char>) -> Seq<char>
    decreases text.len(),
{
    if text.len() == 0 {
        Seq::empty()
    } else {
        let before = regex_escaped(text.drop_last());
        if is_meta(text.last()) {
            before.push('\\').push(text.last())
        } else {
            before.push(text.last())
        }
    }
}

/// A pattern that matches a text literally, by `regex::escape`. The contract
/// claims what the crate does: it puts a backslash before every meta character.
#[verifier::external_body]
fn regex_escape(text: &str) -> (pattern: String)
    ensures
        pattern@ == regex_escaped(text@),
{
    regex::escape(text)
}

/// Whether `regex::Regex` finds a pattern in a text; not where the pattern is
/// none.
pub uninterp spec fn regex_found(pattern: Seq<char>, text: Seq<char>) -> bool;

/// Looks for a pattern by `regex::Regex::is_match`. The contract claims that
/// the answer is a function of the arguments.
#[verifier::external_body]
fn regex_is_match(pattern: &str, text: &str) -> (found: bool)
    ensures
        found == regex_found(pattern@, text@),
{
    regex::Regex::new(pattern).map(|regex| regex.is_match(text)).unwrap_or(false)
}

/// Whether a message begins by addressing the assistant, in any case and as a
/// whole word.
pub open spec fn addresses(content: Seq<char>, name: Seq<char>) -> bool {
    regex_found("(?i)^@"@ + regex_escaped(name) + "\\b"@, trimmed(content))
}

/// Whether a message begins by addressing the assistant.
pub fn has_trigger(content: &str, assistant_name: &str) -> (yes: bool)
    ensures
        yes == addresses(content@, assistant_name@),
{
    let pattern = "(?i)^@".to_owned().concat(regex_escape(assistant_name).as_str()).concat("\\b");
    regex_is_match(pattern.as_str(), trim(content).as_str())
}

/// Whether one of the messages addresses the assistant.
pub open spec fn any_addresses(messages: Seq<NewMessage>, name: Seq<char>) -> bool {
    exists|i: int| 0 <= i < messages.len() && addresses((#[trigger] messages[i]).content@, name)
}

/// Whether one of the messages addresses the assistant.
pub fn any_trigger(messages: &Vec<NewMessage>, assistant_name: &str) -> (yes: bool)
    ensures
        yes == any_addresses(messages@, assistant_name@),
{
    let mut i: usize = 0;
    while i < messages.len()
        invariant
            i <= messages@.len(),
            forall|k: int|
                0 <= k < i ==> !addresses((#[trigger] messages@[k]).content@, assistant_name@),
        decreases messages@.len() - i,
    {
        if has_trigger(messages[i].content.as_str(), assistant_name) {
            return true;
        }
        i += 1;
    }
    false
}

/// Whether a group's messages only count when one addresses the assistant: all
/// groups but the main one, unless they are set otherwise.
pub open spec fn needs_address(group: RegisteredGroup, main_folder: Seq<char>) -> bool {
    group.folder@ != main_folder && group.requires_trigger != Some(false)
}

/// Whether messages make the agent run for a group, given whether one of them
/// addresses it.
pub open spec fn wants_run(group: RegisteredGroup, main_folder: Seq<char>, addressed: bool) -> bool {
    addressed || !needs_address(group, main_folder)
}

/// Whether messages make the agent run for a group, given whether one of them
/// addresses it.
pub fn group_wants_run(group: &RegisteredGroup, main_group_folder: &str, addressed: bool) -> (yes:
    bool)
    ensures
        yes == wants_run(*group, main_group_folder@, addressed),
{
    if addressed || same_text(group.folder.as_str(), main_group_folder) {
        return true;
    }
    match group.requires_trigger {
        Some(required) => !required,
        None => false,
    }
}

/// The main group, and groups set not to need it, run on any message; all
/// others only when addressed.
pub proof fn only_addressed_groups_run(
    group: RegisteredGroup,
    main_folder: Seq<char>,
    addressed: bool,
)
    ensures
        group.folder@ == main_folder ==> wants_run(group, main_folder, addressed),
        group.requires_trigger == Some(false) ==> wants_run(group, main_folder, addressed),
        group.folder@ != main_folder && group.requires_trigger != Some(false) ==> (wants_run(
            group,
            main_folder,
            addressed,
        ) <==> addressed),
{
}

// ---------------------------------------------------------------------------
// State
// ---------------------------------------------------------------------------

#[derive(Debug)]
pub struct RouterState {
    pub last_timestamp: String,
    pub sessions: NameMap<String>,
    pub registered_groups: NameMap<RegisteredGroup>,
    pub last_agent_timestamp: NameMap<String>,
}

/// The content of a [`RouterState`].
pub struct RouterView {
    pub last_timestamp: Seq<char>,
    pub sessions: Map<Seq<char>, Seq<char>>,
    pub registered_groups: Map<Seq<char>, RegisteredGroup>,
    pub cursors: Map<Seq<char>, Seq<char>>,
}

impl View for RouterState {
    type V = RouterView;

    open spec fn view(&self) -> RouterView {
        RouterView {
            last_timestamp: self.last_timestamp@,
            sessions: texts(self.sessions@),
            registered_groups: self.registered_groups@,
            cursors: texts(self.last_agent_timestamp@),
        }
    }
}

/// How far a chat's messages were read; the empty text means not at all.
pub open spec fn cursor_of(state: RouterView, jid: Seq<char>) -> Seq<char> {
    if state.cursors.contains_key(jid) {
        state.cursors[jid]
    } else {
        Seq::empty()
    }
}

/// The stored session of a folder.
pub open spec fn session_of(state: RouterView, folder: Seq<char>) -> Option<Seq<char>> {
    if state.sessions.contains_key(folder) {
        Some(state.sessions[folder])
    } else {
        None
    }
}

/// What a run of a group's messages starts with.
#[derive(Debug)]
pub struct GroupStart {
    pub input: AgentRunInput,
    pub run: GroupRun,
}

/// Whether a group's pending messages start a run.
pub open spec fn starts_run(
    state: RouterView,
    jid: Seq<char>,
    pending: Seq<NewMessage>,
    main_folder: Seq<char>,
    addressed: bool,
) -> bool {
    &&& state.registered_groups.contains_key(jid)
    &&& pending.len() > 0
    &&& wants_run(state.registered_groups[jid], main_folder, addressed)
}

/// Whether an input asks the agent to answer a group's pending messages.
pub open spec fn answers(
    input: AgentRunInput,
    state: RouterView,
    jid: Seq<char>,
    pending: Seq<NewMessage>,
    assistant_name: Seq<char>,
    main_folder: Seq<char>,
) -> bool {
    let group = state.registered_groups[jid];
    &&& input.group.deep_view() == group.deep_view()
    &&& input.prompt@ == prompt_for(pending, assistant_name)
    &&& input.session_id.deep_view() == runner_session(session_of(state, group.folder@))
    &&& input.group_folder@ == group.folder@
    &&& input.chat_jid@ == jid
    &&& input.is_main == (group.folder@ == main_folder)
    &&& !input.is_scheduled_task
}

impl RouterState {
    /// The maps hold each name once.
    pub open spec fn wf(&self) -> bool {
        &&& self.sessions.wf()
        &&& self.registered_groups.wf()
        &&& self.last_agent_timestamp.wf()
    }

    /// How far a chat's messages were read.
    pub fn cursor(&self, chat_jid: &str) -> (cursor: String)
        requires
            self.wf(),
        ensures
            cursor@ == cursor_of(self@, chat_jid@),
    {
        match text_under(&self.last_agent_timestamp, chat_jid) {
            Some(cursor) => cursor,
            None => String::new(),
        }
    }

    /// Notes how far a chat's messages were read.
    pub fn set_cursor(&mut self, chat_jid: &str, cursor: String)
        requires
            old(self).wf(),
        ensures
            final(self).wf(),
            final(self)@ == (RouterView {
                cursors: old(self)@.cursors.insert(chat_jid@, cursor@),
                ..old(self)@
            }),
    {
        put_text(&mut self.last_agent_timestamp, chat_jid, cursor);
    }

    /// Notes the session that a folder goes on with.
    pub fn set_session(&mut self, folder: &str, session: String)
        requires
            old(self).wf(),
        ensures
            final(self).wf(),
            final(self)@ == (RouterView {
                sessions: old(self)@.sessions.insert(folder@, session@),
                ..old(self)@
            }),
    {
        put_text(&mut self.sessions, folder, session);
    }

    /// Notes a group.
    pub fn register_group(&mut self, jid: &str, group: RegisteredGroup)
        requires
            old(self).wf(),
        ensures
            final(self).wf(),
            final(self)@ == (RouterView {
                registered_groups: old(self)@.registered_groups.insert(jid@, group),
                ..old(self)@
            }),
    {
        self.registered_groups.insert(jid, group);
    }

    /// Starts a run on a chat's pending messages where they call for one: the
    /// cursor moves to the last of them.
    pub fn begin_group_run(
        &mut self,
        chat_jid: &str,
        pending: &Vec<NewMessage>,
        config: &OrchestratorConfig,
    ) -> (start: Option<GroupStart>)
        requires
            old(self).wf(),
        ensures
            final(self).wf(),
            start is Some <==> starts_run(
                old(self)@,
                chat_jid@,
                pending@,
                config.main_group_folder@,
                any_addresses(pending@, config.assistant_name@),
            ),
            start is None ==> final(self)@ == old(self)@,
            start matches Some(s) ==> {
                &&& final(self)@ == (RouterView {
                    cursors: old(self)@.cursors.insert(chat_jid@, pending@.last().timestamp@),
                    ..old(self)@
                })
                &&& s.run.previous_cursor@ == cursor_of(old(self)@, chat_jid@)
                &&& !s.run.received_stream_event
                &&& !s.run.output_sent_to_user
                &&& answers(
                    s.input,
                    old(self)@,
                    chat_jid@,
                    pending@,
                    config.assistant_name@,
                    config.main_group_folder@,
                )
            },
    {
        let addressed = any_trigger(pending, config.assistant_name.as_str());
        self.begin_addressed_run(chat_jid, pending, config, addressed)
    }

    /// The same, given whether one of the messages addresses the assistant.
    pub fn begin_addressed_run(
        &mut self,
        chat_jid: &str,
        pending: &Vec<NewMessage>,
        config: &OrchestratorConfig,
        addressed: bool,
    ) -> (start: Option<GroupStart>)
        requires
            old(self).wf(),
        ensures
            final(self).wf(),
            start is Some <==> starts_run(
                old(self)@,
                chat_jid@,
                pending@,
                config.main_group_folder@,
                addressed,
            ),
            start is None ==> final(self)@ == old(self)@,
            start matches Some(s) ==> {
                &&& final(self)@ == (RouterView {
                    cursors: old(self)@.cursors.insert(chat_jid@, pending@.last().timestamp@),
                    ..old(self)@
                })
                &&& s.run.previous_cursor@ == cursor_of(old(self)@, chat_jid@)
                &&& !s.run.received_stream_event
                &&& !s.run.output_sent_to_user
                &&& answers(
                    s.input,
                    old(self)@,
                    chat_jid@,
                    pending@,
                    config.assistant_name@,
                    config.main_group_folder@,
                )
            },
    {
        let group = match self.registered_groups.get(chat_jid) {
            Some(group) => {
                if pending.len() == 0 || !group_wants_run(
                    group,
                    config.main_group_folder.as_str(),
                    addressed,
                ) {
                    return None;
                }
                group.duplicate()
            },
            None => {
                return None;
            },
        };
        let folder = group.folder.clone();
        let previous_cursor = self.cursor(chat_jid);
        let session_id = session_id_for_runner(text_under(&self.sessions, folder.as_str()));
        let is_main = same_text(folder.as_str(), config.main_group_folder.as_str());
        let prompt = format_messages(pending.as_slice(), config.assistant_name.as_str());
        let cursor = pending[pending.len() - 1].timestamp.clone();
        self.set_cursor(chat_jid, cursor);
        Some(
            GroupStart {
                input: AgentRunInput {
                    group,
                    prompt,
                    session_id,
                    group_folder: folder,
                    chat_jid: chat_jid.to_owned(),
                    is_main,
                    is_scheduled_task: false,
                },
                run: GroupRun::start(previous_cursor),
            },
        )
    }
}

/// A name without characters of a special meaning is looked for as it is.
pub proof fn plain_names_are_looked_for(name: Seq<char>)
    requires
        forall|i: int| 0 <= i < name.len() ==> !is_meta(#[trigger] name[i]),
    ensures
        regex_escaped(name) == name,
    decreases name.len(),
{
    if name.len() > 0 {
        assert(!is_meta(name[name.len() - 1]));
        plain_names_are_looked_for(name.drop_last());
        assert(name.drop_last().push(name.last()) =~= name);
    }
}

/// A message addresses the assistant where it begins with an at sign and the name as a
/// whole word, in any case. White space around the message makes no difference.
pub proof fn message_addresses_by_name(content: Seq<char>, name: Seq<char>)
    ensures
        addresses(trimmed(content), name) == addresses(content, name),
        (forall|i: int| 0 <= i < name.len() ==> !is_meta(#[trigger] name[i])) ==> addresses(
            content,
            name,
        ) == regex_found("(?i)^@"@ + name + "\\b"@, trimmed(content)),
{
    trimming_takes_only_white_space(content);
    if forall|i: int| 0 <= i < name.len() ==> !is_meta(#[trigger] name[i]) {
        plain_names_are_looked_for(name);
    }
}

} // verus!
