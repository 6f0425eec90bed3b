//! New messages: which groups they concern and what is handed on.

use vstd::prelude::*;
use vstd::string::*;

use crate::orchestrator::agent::{
    runner_session, session_id_for_runner, AgentRunInput, OrchestratorConfig,
};
use crate::orchestrator::state::{
    addresses, any_addresses, any_trigger, cursor_of, group_wants_run, session_of, wants_run,
    RouterState, RouterView,
};
use crate::text::{holds_text, same_text};
use crate::types::{ContextMode, NewMessage, RegisteredGroup, ScheduledTask};

verus! {

// ---------------------------------------------------------------------------
// Polling
// ---------------------------------------------------------------------------

/// The chats that messages belong to, each where it first occurs.
pub open spec fn chats_of(messages: Seq<NewMessage>) -> Seq<Seq<char>>
    decreases messages.len(),
{
    if messages.len() == 0 {
        Seq::empty()
    } else {
        let before = chats_of(messages.drop_last());
        let jid = messages.last().chat_jid@;
        if before.contains(jid) {
            before
        } else {
            before.push(jid)
        }
    }
}

fn list_chats(messages: &Vec<NewMessage>) -> (chats: Vec<String>)
    ensures
        chats.deep_view() == chats_of(messages@),
{
    let mut chats: Vec<String> = Vec::new();
    let mut i: usize = 0;
    while i < messages.len()
        invariant
            i <= messages@.len(),
            chats.deep_view() =~= chats_of(messages@.take(i as int)),
        decreases messages@.len() - i,
    {
        let ghost before = chats.deep_view();
        proof {
            assert(messages@.take(i as int + 1).drop_last() =~= messages@.take(i as int));
        }
        if !holds_text(&chats, messages[i].chat_jid.as_str()) {
            chats.push(messages[i].chat_jid.clone());
            proof {
                assert(chats.deep_view() =~= before.push(messages@[i as int].chat_jid@));
            }
        }
        i += 1;
    }
    proof {
        assert(messages@.take(messages@.len() as int) =~= messages@);
    }
    chats
}

/// The messages of one chat, in their order.
pub open spec fn messages_of(messages: Seq<NewMessage>, jid: Seq<char>) -> Seq<NewMessage>
    decreases messages.len(),
{
    if messages.len() == 0 {
        Seq::empty()
    } else {
        let before = messages_of(messages.drop_last(), jid);
        if messages.last().chat_jid@ == jid {
            before.push(messages.last())
        } else {
            before
        }
    }
}

fn select_messages(messages: &Vec<NewMessage>, jid: &str) -> (selected: Vec<NewMessage>)
    ensures
        selected@ == messages_of(messages@, jid@),
{
    let mut selected: Vec<NewMessage> = Vec::new();
    let mut i: usize = 0;
    while i < messages.len()
        invariant
            i <= messages@.len(),
            selected@ =~= messages_of(messages@.take(i as int), jid@),
        decreases messages@.len() - i,
    {
        proof {
            assert(messages@.take(i as int + 1).drop_last() =~= messages@.take(i as int));
        }
        if same_text(messages[i].chat_jid.as_str(), jid) {
            selected.push(messages[i].duplicate());
        }
        i += 1;
    }
    proof {
        assert(messages@.take(messages@.len() as int) =~= messages@);
    }
    selected
}

/// A chat whose new messages are handed on.
#[derive(Debug)]
pub struct PollCandidate {
    pub chat_jid: String,
    /// How far the chat's messages were read before.
    pub pending_since: String,
    pub messages: Vec<NewMessage>,
}

/// The content of a [`PollCandidate`].
pub struct CandidateView {
    pub chat_jid: Seq<char>,
    pub pending_since: Seq<char>,
    pub messages: Seq<NewMessage>,
}

impl DeepView for PollCandidate {
    type V = CandidateView;

    open spec fn deep_view(&self) -> CandidateView {
        CandidateView {
            chat_jid: self.chat_jid@,
            pending_since: self.pending_since@,
            messages: self.messages@,
        }
    }
}

/// Whether a chat's new messages are handed on: it is registered, and they call
/// for the agent.
pub open spec fn handed_on(
    state: RouterView,
    messages: Seq<NewMessage>,
    jid: Seq<char>,
    assistant_name: Seq<char>,
    main_folder: Seq<char>,
) -> bool {
    state.registered_groups.contains_key(jid) && wants_run(
        state.registered_groups[jid],
        main_folder,
        any_addresses(messages_of(messages, jid), assistant_name),
    )
}

/// The chats among `chats` whose new messages are handed on.
pub open spec fn candidates(
    state: RouterView,
    messages: Seq<NewMessage>,
    chats: Seq<Seq<char>>,
    assistant_name: Seq<char>,
    main_folder: Seq<char>,
) -> Seq<CandidateView>
    decreases chats.len(),
{
    if chats.len() == 0 {
        Seq::empty()
    } else {
        let before = candidates(state, messages, chats.drop_last(), assistant_name, main_folder);
        let jid = chats.last();
        if handed_on(state, messages, jid, assistant_name, main_folder) {
            before.push(
                CandidateView {
                    chat_jid: jid,
                    pending_since: cursor_of(state, jid),
                    messages: messages_of(messages, jid),
                },
            )
        } else {
            before
        }
    }
}

/// The messages to hand on: all that are pending, or else the new ones.
pub fn messages_to_send(pending: Vec<NewMessage>, new: Vec<NewMessage>) -> (chosen: Vec<NewMessage>)
    ensures
        chosen@ == if pending@.len() == 0 {
            new@
        } else {
            pending@
        },
{
    if pending.len() == 0 {
        new
    } else {
        pending
    }
}

impl RouterState {
    /// Notes how far messages of all chats were read.
    pub fn note_polled(&mut self, new_timestamp: String)
        requires
            old(self).wf(),
        ensures
            final(self).wf(),
            final(self)@ == (RouterView { last_timestamp: new_timestamp@, ..old(self)@ }),
    {
        self.last_timestamp = new_timestamp;
    }

    /// The chats whose new messages are handed on, in the order in which they
    /// first occur.
    pub fn poll_candidates(
        &self,
        messages: &Vec<NewMessage>,
        config: &OrchestratorConfig,
    ) -> (found: Vec<PollCandidate>)
        requires
            self.wf(),
        ensures
            found.deep_view() == candidates(
                self@,
                messages@,
                chats_of(messages@),
                config.assistant_name@,
                config.main_group_folder@,
            ),
    {
        let chats = list_chats(messages);
        let ghost all = chats.deep_view();
        let mut found: Vec<PollCandidate> = Vec::new();
        let mut i: usize = 0;
        while i < chats.len()
            invariant
                self.wf(),
                i <= chats@.len(),
                all == chats.deep_view(),
                found.deep_view() =~= candidates(
                    self@,
                    messages@,
                    all.take(i as int),
                    config.assistant_name@,
                    config.main_group_folder@,
                ),
            decreases chats@.len() - i,
        {
            let ghost before = found.deep_view();
            proof {
                assert(all.take(i as int + 1).drop_last() =~= all.take(i as int));
                assert(all[i as int] == chats@[i as int]@);
            }
            let jid = chats[i].as_str();
            if let Some(group) = self.registered_groups.get(jid) {
                let selected = select_messages(messages, jid);
                let addressed = any_trigger(&selected, config.assistant_name.as_str());
                if group_wants_run(group, config.main_group_folder.as_str(), addressed) {
                    let candidate = PollCandidate {
                        chat_jid: jid.to_owned(),
                        pending_since: self.cursor(jid),
                        messages: selected,
                    };
                    found.push(candidate);
                    proof {
                        assert(found.deep_view() =~= before.push(candidate.deep_view()));
                    }
                }
            }
            i += 1;
        }
        proof {
            assert(all.take(all.len() as int) =~= all);
        }
        found
    }

    /// Notes that messages were handed to the agent that runs for a chat.
    pub fn note_delivered(&mut self, chat_jid: &str, messages: &Vec<NewMessage>)
        requires
            old(self).wf(),
        ensures
            final(self).wf(),
            messages@.len() == 0 ==> final(self)@ == old(self)@,
            messages@.len() > 0 ==> final(self)@ == (RouterView {
                cursors: old(self)@.cursors.insert(chat_jid@, messages@.last().timestamp@),
                ..old(self)@
            }),
    {
        if messages.len() > 0 {
            self.set_cursor(chat_jid, messages[messages.len() - 1].timestamp.clone());
        }
    }

    /// The chats whose pending messages are looked for on start, with how far
    /// they were read: each registered chat once, in no stated order.
    pub fn recovery_queries(&self) -> (queries: Vec<(String, String)>)
        requires
            self.wf(),
        ensures
            forall|i: int|
                0 <= i < queries@.len() ==> self@.registered_groups.contains_key(
                    (#[trigger] queries@[i]).0@,
                ) && queries@[i].1@ == cursor_of(self@, queries@[i].0@),
            forall|jid: Seq<char>| #[trigger]
                self@.registered_groups.contains_key(jid) ==> exists|i: int|
                    0 <= i < queries@.len() && queries@[i].0@ == jid,
            forall|i: int, j: int|
                0 <= i < j < queries@.len() ==> (#[trigger] queries@[i]).0@ != (
                #[trigger] queries@[j]).0@,
    {
        let mut queries: Vec<(String, String)> = Vec::new();
        let mut i: usize = 0;
        proof {
            self.registered_groups.lemma_listed();
        }
        while i < self.registered_groups.len()
            invariant
                self.wf(),
                i <= self.registered_groups.entry_count(),
                queries@.len() == i,
                forall|k: int|
                    0 <= k < i ==> (#[trigger] queries@[k]).0@ == self.registered_groups.name_at(k),
                forall|k: int|
                    0 <= k < i ==> self@.registered_groups.contains_key((#[trigger] queries@[k]).0@)
                        && queries@[k].1@ == cursor_of(self@, queries@[k].0@),
            decreases self.registered_groups.entry_count() - i,
        {
            let (jid, _group) = self.registered_groups.entry(i);
            queries.push((jid.to_owned(), self.cursor(jid)));
            i += 1;
        }
        proof {
            self.registered_groups.lemma_listed();
            assert forall|jid: Seq<char>| #[trigger]
                self@.registered_groups.contains_key(jid) implies exists|i: int|
                0 <= i < queries@.len() && queries@[i].0@ == jid by {
                let k = choose|k: int|
                    0 <= k < self.registered_groups.entry_count()
                        && self.registered_groups.name_at(k) == jid;
                assert(queries@[k].0@ == jid);
            }
        }
        queries
    }
}

/// Only registered chats whose messages call for the agent are handed on, with
/// all their new messages; and every such chat is.
pub proof fn polled_chats_are_those_handed_on(
    state: RouterView,
    messages: Seq<NewMessage>,
    chats: Seq<Seq<char>>,
    name: Seq<char>,
    main_folder: Seq<char>,
)
    ensures
        forall|i: int|
            0 <= i < candidates(state, messages, chats, name, main_folder).len() ==> {
                let c = #[trigger] candidates(state, messages, chats, name, main_folder)[i];
                &&& chats.contains(c.chat_jid)
                &&& handed_on(state, messages, c.chat_jid, name, main_folder)
                &&& c.messages == messages_of(messages, c.chat_jid)
                &&& c.pending_since == cursor_of(state, c.chat_jid)
            },
        forall|k: int|
            0 <= k < chats.len() && handed_on(
                state,
                messages,
                #[trigger] chats[k],
                name,
                main_folder,
            ) ==> exists|i: int|
                0 <= i < candidates(state, messages, chats, name, main_folder).len()
                    && candidates(state, messages, chats, name, main_folder)[i].chat_jid
                    == chats[k],
    decreases chats.len(),
{
    if chats.len() > 0 {
        let rest = chats.drop_last();
        polled_chats_are_those_handed_on(state, messages, rest, name, main_folder);
        let before = candidates(state, messages, rest, name, main_folder);
        let all = candidates(state, messages, chats, name, main_folder);
        assert(chats[chats.len() - 1] == chats.last());
        assert forall|i: int| 0 <= i < all.len() implies {
            let c = #[trigger] all[i];
            &&& chats.contains(c.chat_jid)
            &&& handed_on(state, messages, c.chat_jid, name, main_folder)
            &&& c.messages == messages_of(messages, c.chat_jid)
            &&& c.pending_since == cursor_of(state, c.chat_jid)
        } by {
            if i < before.len() {
                assert(all[i] == before[i]);
                let k = choose|k: int| 0 <= k < rest.len() && rest[k] == before[i].chat_jid;
                assert(chats[k] == before[i].chat_jid);
            }
        }
        assert forall|k: int|
            0 <= k < chats.len() && handed_on(
                state,
                messages,
                #[trigger] chats[k],
                name,
                main_folder,
            ) implies exists|i: int| 0 <= i < all.len() && all[i].chat_jid == chats[k] by {
            if k < rest.len() {
                assert(rest[k] == chats[k]);
                let i = choose|i: int| 0 <= i < before.len() && before[i].chat_jid == rest[k];
                assert(all[i] == before[i]);
            } else {
                assert(all.last().chat_jid == chats[k]);
                assert(all[all.len() - 1].chat_jid == chats[k]);
            }
        }
    }
}

/// The chats of messages are just those that some message belongs to, each once.
pub proof fn every_message_has_its_chat(messages: Seq<NewMessage>)
    ensures
        forall|k: int|
            0 <= k < messages.len() ==> chats_of(messages).contains(
                (#[trigger] messages[k]).chat_jid@,
            ),
        forall|jid: Seq<char>| #[trigger]
            chats_of(messages).contains(jid) ==> exists|k: int|
                0 <= k < messages.len() && (#[trigger] messages[k]).chat_jid@ == jid,
        chats_of(messages).no_duplicates(),
    decreases messages.len(),
{
    if messages.len() > 0 {
        let rest = messages.drop_last();
        let before = chats_of(rest);
        let all = chats_of(messages);
        every_message_has_its_chat(rest);
        assert forall|k: int| 0 <= k < messages.len() implies all.contains(
            (#[trigger] messages[k]).chat_jid@,
        ) by {
            if k < rest.len() {
                assert(rest[k] == messages[k]);
                let i = choose|i: int| 0 <= i < before.len() && before[i] == rest[k].chat_jid@;
                assert(all[i] == before[i]);
            } else if !before.contains(messages.last().chat_jid@) {
                assert(all[before.len() as int] == messages[k].chat_jid@);
            }
        }
        assert forall|jid: Seq<char>| #[trigger] all.contains(jid) implies exists|k: int|
            0 <= k < messages.len() && (#[trigger] messages[k]).chat_jid@ == jid by {
            if before.contains(jid) {
                let k = choose|k: int| 0 <= k < rest.len() && (#[trigger] rest[k]).chat_jid@ == jid;
                assert(messages[k].chat_jid@ == jid);
            } else {
                assert(messages[messages.len() - 1].chat_jid@ == jid);
            }
        }
    }
}

/// The messages of a chat are just those that belong to it, in their order.
pub proof fn messages_of_chat_are_its_own(messages: Seq<NewMessage>, jid: Seq<char>)
    ensures
        messages_of(messages, jid) == messages.filter(|m: NewMessage| m.chat_jid@ == jid),
        forall|k: int|
            0 <= k < messages.len() && (#[trigger] messages[k]).chat_jid@ == jid ==> messages_of(
                messages,
                jid,
            ).contains(messages[k]),
        forall|i: int|
            0 <= i < messages_of(messages, jid).len() ==> messages.contains(
                #[trigger] messages_of(messages, jid)[i],
            ) && messages_of(messages, jid)[i].chat_jid@ == jid,
    decreases messages.len(),
{
    reveal(Seq::filter);
    if messages.len() > 0 {
        let rest = messages.drop_last();
        let before = messages_of(rest, jid);
        let all = messages_of(messages, jid);
        messages_of_chat_are_its_own(rest, jid);
        assert forall|k: int|
            0 <= k < messages.len() && (#[trigger] messages[k]).chat_jid@ == jid implies all.contains(
            messages[k],
        ) by {
            if k < rest.len() {
                assert(rest[k] == messages[k]);
                let i = choose|i: int| 0 <= i < before.len() && before[i] == rest[k];
                assert(all[i] == before[i]);
            } else {
                assert(all[before.len() as int] == messages[k]);
            }
        }
        assert forall|i: int| 0 <= i < all.len() implies messages.contains(#[trigger] all[i])
            && all[i].chat_jid@ == jid by {
            if i < before.len() {
                assert(all[i] == before[i]);
                let k = choose|k: int| 0 <= k < rest.len() && rest[k] == before[i];
                assert(messages[k] == all[i]);
            } else {
                assert(messages[messages.len() - 1] == all[i]);
            }
        }
    }
}

/// Whether a chat's messages call for the agent: the chat is registered, and it is the
/// main one, or needs no address, or one of its messages addresses the assistant.
pub open spec fn calls_for_agent(
    state: RouterView,
    messages: Seq<NewMessage>,
    jid: Seq<char>,
    assistant_name: Seq<char>,
    main_folder: Seq<char>,
) -> bool {
    &&& state.registered_groups.contains_key(jid)
    &&& {
        ||| state.registered_groups[jid].folder@ == main_folder
        ||| state.registered_groups[jid].requires_trigger == Some(false)
        ||| exists|k: int|
            0 <= k < messages.len() && (#[trigger] messages[k]).chat_jid@ == jid && addresses(
                messages[k].content@,
                assistant_name,
            )
    }
}

proof fn lemma_called(
    state: RouterView,
    messages: Seq<NewMessage>,
    jid: Seq<char>,
    name: Seq<char>,
    main_folder: Seq<char>,
)
    ensures
        handed_on(state, messages, jid, name, main_folder) == calls_for_agent(
            state,
            messages,
            jid,
            name,
            main_folder,
        ),
{
    let own = messages_of(messages, jid);
    messages_of_chat_are_its_own(messages, jid);
    if any_addresses(own, name) {
        let i = choose|i: int| 0 <= i < own.len() && addresses((#[trigger] own[i]).content@, name);
        assert(messages.contains(own[i]));
        let k = choose|k: int| 0 <= k < messages.len() && messages[k] == own[i];
        assert(messages[k].chat_jid@ == jid && addresses(messages[k].content@, name));
    }
    if exists|k: int|
        0 <= k < messages.len() && (#[trigger] messages[k]).chat_jid@ == jid && addresses(
            messages[k].content@,
            name,
        ) {
        let k = choose|k: int|
            0 <= k < messages.len() && (#[trigger] messages[k]).chat_jid@ == jid && addresses(
                messages[k].content@,
                name,
            );
        assert(own.contains(messages[k]));
        let i = choose|i: int| 0 <= i < own.len() && own[i] == messages[k];
        assert(addresses(own[i].content@, name));
    }
}

/// Whether one of the candidates is a chat and holds a message.
pub open spec fn holds_message(
    found: Seq<CandidateView>,
    jid: Seq<char>,
    message: NewMessage,
) -> bool {
    exists|i: int|
        0 <= i < found.len() && (#[trigger] found[i]).chat_jid == jid && found[i].messages.contains(
            message,
        )
}

/// No new message is passed over: every message of a chat whose messages call for the
/// agent is handed on with that chat.
pub proof fn every_called_message_is_handed_on(
    state: RouterView,
    messages: Seq<NewMessage>,
    name: Seq<char>,
    main_folder: Seq<char>,
)
    ensures
        forall|k: int|
            0 <= k < messages.len() && calls_for_agent(
                state,
                messages,
                (#[trigger] messages[k]).chat_jid@,
                name,
                main_folder,
            ) ==> holds_message(
                candidates(state, messages, chats_of(messages), name, main_folder),
                messages[k].chat_jid@,
                messages[k],
            ),
{
    let chats = chats_of(messages);
    let found = candidates(state, messages, chats, name, main_folder);
    every_message_has_its_chat(messages);
    polled_chats_are_those_handed_on(state, messages, chats, name, main_folder);
    assert forall|k: int|
        0 <= k < messages.len() && calls_for_agent(
            state,
            messages,
            (#[trigger] messages[k]).chat_jid@,
            name,
            main_folder,
        ) implies holds_message(found, messages[k].chat_jid@, messages[k]) by {
        let jid = messages[k].chat_jid@;
        lemma_called(state, messages, jid, name, main_folder);
        messages_of_chat_are_its_own(messages, jid);
        assert(chats.contains(jid));
        let c = choose|c: int| 0 <= c < chats.len() && chats[c] == jid;
        assert(handed_on(state, messages, chats[c], name, main_folder));
        let i = choose|i: int| 0 <= i < found.len() && found[i].chat_jid == chats[c];
        assert(found[i].messages.contains(messages[k]));
    }
}

/// Nothing else is handed on: each candidate is a chat whose messages call for the
/// agent, with just its own messages in their order and with how far it was read
/// before; and no chat is a candidate twice.
pub proof fn only_called_messages_are_handed_on(
    state: RouterView,
    messages: Seq<NewMessage>,
    name: Seq<char>,
    main_folder: Seq<char>,
)
    ensures
        ({
            let found = candidates(state, messages, chats_of(messages), name, main_folder);
            &&& forall|i: int|
                0 <= i < found.len() ==> {
                    let c = #[trigger] found[i];
                    &&& calls_for_agent(state, messages, c.chat_jid, name, main_folder)
                    &&& c.messages == messages.filter(|m: NewMessage| m.chat_jid@ == c.chat_jid)
                    &&& c.messages.len() > 0
                    &&& state.cursors.contains_key(c.chat_jid) ==> c.pending_since
                        == state.cursors[c.chat_jid]
                    &&& !state.cursors.contains_key(c.chat_jid) ==> c.pending_since.len() == 0
                }
            &&& forall|i: int, j: int|
                0 <= i < j < found.len() ==> (#[trigger] found[i]).chat_jid != (
                #[trigger] found[j]).chat_jid
        }),
{
    let chats = chats_of(messages);
    let found = candidates(state, messages, chats, name, main_folder);
    every_message_has_its_chat(messages);
    polled_chats_are_those_handed_on(state, messages, chats, name, main_folder);
    lemma_candidates_differ(state, messages, chats, name, main_folder);
    assert forall|i: int| 0 <= i < found.len() implies {
        let c = #[trigger] found[i];
        &&& calls_for_agent(state, messages, c.chat_jid, name, main_folder)
        &&& c.messages == messages.filter(|m: NewMessage| m.chat_jid@ == c.chat_jid)
        &&& c.messages.len() > 0
        &&& state.cursors.contains_key(c.chat_jid) ==> c.pending_since == state.cursors[c.chat_jid]
        &&& !state.cursors.contains_key(c.chat_jid) ==> c.pending_since.len() == 0
    } by {
        let jid = found[i].chat_jid;
        lemma_called(state, messages, jid, name, main_folder);
        messages_of_chat_are_its_own(messages, jid);
        assert(chats.contains(jid));
        let k = choose|k: int|
            0 <= k < messages.len() && (#[trigger] messages[k]).chat_jid@ == jid;
        assert(messages_of(messages, jid).contains(messages[k]));
    }
}

proof fn lemma_candidates_differ(
    state: RouterView,
    messages: Seq<NewMessage>,
    chats: Seq<Seq<char>>,
    name: Seq<char>,
    main_folder: Seq<char>,
)
    requires
        chats.no_duplicates(),
    ensures
        ({
            let found = candidates(state, messages, chats, name, main_folder);
            forall|i: int, j: int|
                0 <= i < j < found.len() ==> (#[trigger] found[i]).chat_jid != (
                #[trigger] found[j]).chat_jid
        }),
    decreases chats.len(),
{
    if chats.len() > 0 {
        let rest = chats.drop_last();
        let before = candidates(state, messages, rest, name, main_folder);
        let found = candidates(state, messages, chats, name, main_folder);
        lemma_candidates_differ(state, messages, rest, name, main_folder);
        polled_chats_are_those_handed_on(state, messages, rest, name, main_folder);
        assert forall|i: int, j: int| 0 <= i < j < found.len() implies (
        #[trigger] found[i]).chat_jid != (#[trigger] found[j]).chat_jid by {
            assert(found[i] == before[i]);
            if j < before.len() {
                assert(found[j] == before[j]);
            } else {
                assert(rest.contains(before[i].chat_jid));
                let k = choose|k: int| 0 <= k < rest.len() && rest[k] == before[i].chat_jid;
                assert(chats[k] == rest[k]);
                assert(chats[k] != chats[chats.len() - 1]);
            }
        }
    }
}

/// Going back restores the cursor: after a run moved it and went back, the chat
/// is read from where it was before, and no other chat is touched.
pub proof fn rollback_restores_cursor(state: RouterView, jid: Seq<char>, moved: Seq<char>)
    ensures
        ({
            let advanced = RouterView { cursors: state.cursors.insert(jid, moved), ..state };
            let back = RouterView {
                cursors: advanced.cursors.insert(jid, cursor_of(state, jid)),
                ..advanced
            };
            &&& cursor_of(advanced, jid) == moved
            &&& forall|other: Seq<char>| #[trigger] cursor_of(back, other) == cursor_of(
                state,
                other,
            )
        }),
{
}

// ---------------------------------------------------------------------------
// Scheduled tasks
// ---------------------------------------------------------------------------

/// Whether an input asks the agent to do a task for a group.
pub open spec fn does_task(
    input: AgentRunInput,
    state: RouterView,
    group: RegisteredGroup,
    task: ScheduledTask,
    main_folder: Seq<char>,
) -> bool {
    &&& input.group.deep_view() == group.deep_view()
    &&& input.prompt@ == task.prompt@
    &&& input.session_id.deep_view() == if task.context_mode == ContextMode::Group {
        runner_session(session_of(state, task.group_folder@))
    } else {
        None
    }
    &&& input.group_folder@ == task.group_folder@
    &&& input.chat_jid@ == task.chat_jid@
    &&& input.is_main == (group.folder@ == main_folder)
    &&& input.is_scheduled_task
}

/// Whether a registered group has a folder.
pub open spec fn has_folder(state: RouterView, jid: Seq<char>, folder: Seq<char>) -> bool {
    state.registered_groups.contains_key(jid) && state.registered_groups[jid].folder@ == folder
}

impl RouterState {
    /// What a run of a scheduled task starts with: the group of its folder, and
    /// the group's session where the task shares it.
    pub fn begin_task_run(&self, task: &ScheduledTask, config: &OrchestratorConfig) -> (input:
        Result<AgentRunInput, String>)
        requires
            self.wf(),
        ensures
            match input {
                Ok(i) => exists|jid: Seq<char>| #[trigger]
                    has_folder(self@, jid, task.group_folder@) && does_task(
                        i,
                        self@,
                        self@.registered_groups[jid],
                        *task,
                        config.main_group_folder@,
                    ),
                Err(message) => {
                    &&& message@ == "group not found for folder "@ + task.group_folder@
                    &&& forall|jid: Seq<char>| !#[trigger] has_folder(
                        self@,
                        jid,
                        task.group_folder@,
                    )
                },
            },
    {
        proof {
            self.registered_groups.lemma_listed();
        }
        let mut i: usize = 0;
        while i < self.registered_groups.len()
            invariant
                self.wf(),
                i <= self.registered_groups.entry_count(),
                forall|k: int|
                    0 <= k < i ==> self@.registered_groups[#[trigger] self.registered_groups.name_at(
                        k,
                    )].folder@ != task.group_folder@,
            decreases self.registered_groups.entry_count() - i,
        {
            let (jid, group) = self.registered_groups.entry(i);
            if same_text(group.folder.as_str(), task.group_folder.as_str()) {
                let session_id = if task.context_mode == ContextMode::Group {
                    session_id_for_runner(self.stored_session(task.group_folder.as_str()))
                } else {
                    None
                };
                let is_main = same_text(
                    group.folder.as_str(),
                    config.main_group_folder.as_str(),
                );
                proof {
                    assert(has_folder(self@, jid@, task.group_folder@));
                }
                return Ok(
                    AgentRunInput {
                        group: group.duplicate(),
                        prompt: task.prompt.clone(),
                        session_id,
                        group_folder: task.group_folder.clone(),
                        chat_jid: task.chat_jid.clone(),
                        is_main,
                        is_scheduled_task: true,
                    },
                );
            }
            i += 1;
        }
        proof {
            self.registered_groups.lemma_listed();
            assert forall|jid: Seq<char>| !#[trigger] has_folder(
                self@,
                jid,
                task.group_folder@,
            ) by {
                if self@.registered_groups.contains_key(jid) {
                    let k = choose|k: int|
                        0 <= k < self.registered_groups.entry_count()
                            && self.registered_groups.name_at(k) == jid;
                    assert(self.registered_groups.name_at(k) == jid);
                }
            }
        }
        Err("group not found for folder ".to_owned().concat(task.group_folder.as_str()))
    }

    /// The stored session of a folder.
    pub fn stored_session(&self, folder: &str) -> (session: Option<String>)
        requires
            self.wf(),
        ensures
            session.deep_view() == session_of(self@, folder@),
    {
        match self.sessions.get(folder) {
            Some(session) => Some(session.clone()),
            None => None,
        }
    }
}

/// Messages that wait are handed on, and new ones where none waits: none of them is lost.
pub proof fn waiting_messages_are_handed_on(
    pending: Vec<NewMessage>,
    new: Vec<NewMessage>,
    chosen: Vec<NewMessage>,
)
    requires
        call_ensures(messages_to_send, (pending, new), chosen),
    ensures
        pending@.len() > 0 ==> chosen@ == pending@,
        pending@.len() == 0 ==> chosen@ == new@,
{
}

} // verus!
