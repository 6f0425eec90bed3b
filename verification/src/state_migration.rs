//! Taking over state from files that earlier versions kept.

use vstd::prelude::*;
use vstd::string::*;

use crate::json::{
    distinct_keys, holds_pairs, is_text_map, lists_map, member_map, parsed_json, parsed_text_map,
    read_text_map, write_json_texts,
};
use crate::number::{decimal, decimal_reads_back, lemma_decimal_digits, u64_text};
use crate::text::{outcome, trim, trimmed};
use crate::types::RegisteredGroup;

verus! {

/// What was taken over.
#[derive(Debug, PartialEq, Eq)]
pub struct JsonStateMigrationReport {
    pub migrated_files: Vec<String>,
    pub router_state_keys: usize,
    pub sessions: usize,
    pub groups: usize,
}

impl Default for JsonStateMigrationReport {
    fn default() -> (report: JsonStateMigrationReport)
        ensures
            report.migrated_files@.len() == 0,
            report.router_state_keys == 0,
            report.sessions == 0,
            report.groups == 0,
    {
        JsonStateMigrationReport {
            migrated_files: Vec::new(),
            router_state_keys: 0,
            sessions: 0,
            groups: 0,
        }
    }
}

impl JsonStateMigrationReport {
    /// Whether anything was taken over.
    pub fn has_changes(&self) -> (yes: bool)
        ensures
            yes == (self.migrated_files@.len() > 0),
    {
        self.migrated_files.len() > 0
    }
}

/// What the file on the router held.
#[derive(Debug)]
pub struct RouterStateJson {
    pub last_timestamp: Option<String>,
    pub last_agent_timestamp: Option<Vec<(String, String)>>,
}

/// What the files held, each where it was found.
#[derive(Debug)]
pub struct LegacyState {
    pub router: Option<RouterStateJson>,
    pub sessions: Option<Vec<(String, String)>>,
    pub groups: Option<Vec<(String, RegisteredGroup)>>,
}

/// What is to be stored, and how much that is.
#[derive(Debug)]
pub struct MigrationPlan {
    pub router_state: Vec<(String, String)>,
    pub sessions: Vec<(String, String)>,
    pub groups: Vec<(String, RegisteredGroup)>,
    pub report: JsonStateMigrationReport,
}

/// Whether a text is blank.
pub open spec fn is_blank(text: Seq<char>) -> bool {
    trimmed(text).len() == 0
}

fn blank(text: &str) -> (yes: bool)
    ensures
        yes == is_blank(text@),
{
    trim(text).as_str().is_empty()
}

/// Whether sessions are what a text holds: the map to texts that is read from it,
/// one pair for each key, or why it holds none.
pub open spec fn holds_sessions(
    raw: Seq<char>,
    sessions: Result<Seq<(Seq<char>, Seq<char>)>, Seq<char>>,
) -> bool {
    match (sessions, parsed_text_map(raw)) {
        (Ok(pairs), Ok(map)) => lists_map(pairs, map),
        (Err(message), Err(reason)) => message == reason,
        _ => false,
    }
}

/// The sessions in the text of a file.
pub fn read_sessions(raw: &str) -> (sessions: Result<Vec<(String, String)>, String>)
    ensures
        holds_sessions(raw@, outcome(sessions)),
        sessions is Ok ==> is_text_map(parsed_json(raw@)) && lists_map(
            sessions->Ok_0.deep_view(),
            member_map(parsed_json(raw@)->Ok_0->Object_0),
        ),
{
    read_text_map(raw)
}

/// The sessions that are taken over: those with a folder and an id.
pub open spec fn filled_sessions(sessions: Seq<(Seq<char>, Seq<char>)>) -> Seq<
    (Seq<char>, Seq<char>),
>
    decreases sessions.len(),
{
    if sessions.len() == 0 {
        Seq::empty()
    } else {
        let before = filled_sessions(sessions.drop_last());
        if is_blank(sessions.last().0) || is_blank(sessions.last().1) {
            before
        } else {
            before.push(sessions.last())
        }
    }
}

/// The sessions that are taken over.
pub fn migrate_sessions(sessions: &Vec<(String, String)>) -> (kept: Vec<(String, String)>)
    ensures
        kept.deep_view() == filled_sessions(sessions.deep_view()),
{
    let ghost all = sessions.deep_view();
    let mut kept: Vec<(String, String)> = Vec::new();
    let mut i: usize = 0;
    proof {
        assert(kept.deep_view() =~= filled_sessions(all.take(0)));
    }
    while i < sessions.len()
        invariant
            i <= sessions@.len(),
            all == sessions.deep_view(),
            kept.deep_view() == filled_sessions(all.take(i as int)),
        decreases sessions@.len() - i,
    {
        let ghost before = kept.deep_view();
        proof {
            assert(all.take(i as int + 1).drop_last() =~= all.take(i as int));
            assert(all[i as int] == (sessions@[i as int].0@, sessions@[i as int].1@));
        }
        if !blank(sessions[i].0.as_str()) && !blank(sessions[i].1.as_str()) {
            kept.push((sessions[i].0.clone(), sessions[i].1.clone()));
            proof {
                assert(kept.deep_view() =~= before.push(all[i as int]));
            }
        }
        i += 1;
    }
    proof {
        assert(all.take(all.len() as int) =~= all);
    }
    kept
}

/// The groups that are taken over: those with a name for their chat.
pub open spec fn named_groups(groups: Seq<(String, RegisteredGroup)>) -> Seq<
    (Seq<char>, crate::types::RegisteredView),
>
    decreases groups.len(),
{
    if groups.len() == 0 {
        Seq::empty()
    } else {
        let before = named_groups(groups.drop_last());
        if is_blank(groups.last().0@) {
            before
        } else {
            before.push((groups.last().0@, groups.last().1.deep_view()))
        }
    }
}

/// The groups that are taken over.
pub fn migrate_registered_groups(groups: &Vec<(String, RegisteredGroup)>) -> (kept: Vec<
    (String, RegisteredGroup),
>)
    ensures
        kept.deep_view() == named_groups(groups@),
{
    let mut kept: Vec<(String, RegisteredGroup)> = Vec::new();
    let mut i: usize = 0;
    proof {
        assert(kept.deep_view() =~= named_groups(groups@.take(0)));
    }
    while i < groups.len()
        invariant
            i <= groups@.len(),
            kept.deep_view() == named_groups(groups@.take(i as int)),
        decreases groups@.len() - i,
    {
        let ghost before = kept.deep_view();
        proof {
            assert(groups@.take(i as int + 1).drop_last() =~= groups@.take(i as int));
        }
        if !blank(groups[i].0.as_str()) {
            let entry = (groups[i].0.clone(), groups[i].1.duplicate());
            kept.push(entry);
            proof {
                assert(kept.deep_view() =~= before.push(entry.deep_view()));
            }
        }
        i += 1;
    }
    proof {
        assert(groups@.take(groups@.len() as int) =~= groups@);
    }
    kept
}

/// Whether `stored` is what is stored of the router's file: the timestamp as it
/// is, and the cursors as a text that gives them back when read.
pub open spec fn stores_router(state: RouterStateJson, stored: Seq<(String, String)>) -> bool {
    let keys: int = (if state.last_timestamp is Some {
        1int
    } else {
        0
    });
    &&& stored.len() == keys + (if state.last_agent_timestamp is Some {
        1int
    } else {
        0
    })
    &&& state.last_timestamp matches Some(text) ==> stored[0].0@ == "last_timestamp"@
        && stored[0].1@ == text@
    &&& state.last_agent_timestamp matches Some(cursors) ==> {
        &&& stored.last().0@ == "last_agent_timestamp"@
        &&& parsed_json(stored.last().1@) matches Ok(value) && holds_pairs(
            value,
            cursors.deep_view(),
        )
    }
}

/// Whether the cursors of a router's file name each chat once, as the members of
/// a JSON object do.
pub open spec fn router_ok(state: RouterStateJson) -> bool {
    state.last_agent_timestamp matches Some(cursors) ==> distinct_keys(cursors.deep_view())
}

/// What is stored of the router's file.
pub fn migrate_router_state(state: &RouterStateJson) -> (stored: Vec<(String, String)>)
    requires
        router_ok(*state),
    ensures
        stores_router(*state, stored@),
{
    let mut stored: Vec<(String, String)> = Vec::new();
    if let Some(text) = &state.last_timestamp {
        stored.push(("last_timestamp".to_owned(), text.clone()));
    }
    if let Some(cursors) = &state.last_agent_timestamp {
        if let Ok(text) = write_json_texts(cursors) {
            stored.push(("last_agent_timestamp".to_owned(), text));
        }
    }
    stored
}

/// The file names of what earlier versions kept.
pub open spec fn legacy_files(legacy: LegacyState) -> Seq<Seq<char>> {
    (if legacy.router is Some {
        seq!["router_state.json"@]
    } else {
        seq![]
    }) + (if legacy.sessions is Some {
        seq!["sessions.json"@]
    } else {
        seq![]
    }) + (if legacy.groups is Some {
        seq!["registered_groups.json"@]
    } else {
        seq![]
    })
}

/// Whether a plan says what is to be stored of files that earlier versions kept,
/// and names those files.
pub open spec fn plans_migration(plan: MigrationPlan, legacy: LegacyState) -> bool {
    &&& match legacy.router {
        Some(state) => stores_router(state, plan.router_state@),
        None => plan.router_state@.len() == 0,
    }
    &&& plan.sessions.deep_view() == match legacy.sessions {
        Some(sessions) => filled_sessions(sessions.deep_view()),
        None => Seq::empty(),
    }
    &&& plan.groups.deep_view() == match legacy.groups {
        Some(groups) => named_groups(groups@),
        None => Seq::empty(),
    }
    &&& plan.report.migrated_files.deep_view() == legacy_files(legacy)
    &&& plan.report.router_state_keys == plan.router_state@.len()
    &&& plan.report.sessions == plan.sessions@.len()
    &&& plan.report.groups == plan.groups@.len()
}

/// What is to be stored of files that earlier versions kept, with the names of
/// those files.
pub fn migrate_json_state(legacy: &LegacyState) -> (plan: MigrationPlan)
    requires
        legacy.router matches Some(state) ==> router_ok(state),
    ensures
        plans_migration(plan, *legacy),
{
    let router_state = match &legacy.router {
        Some(state) => migrate_router_state(state),
        None => Vec::new(),
    };
    let sessions = match &legacy.sessions {
        Some(sessions) => migrate_sessions(sessions),
        None => {
            let none: Vec<(String, String)> = Vec::new();
            proof {
                assert(none.deep_view() =~= Seq::<(Seq<char>, Seq<char>)>::empty());
            }
            none
        },
    };
    let groups = match &legacy.groups {
        Some(groups) => migrate_registered_groups(groups),
        None => {
            let none: Vec<(String, RegisteredGroup)> = Vec::new();
            proof {
                assert(none.deep_view() =~= Seq::<
                    (Seq<char>, crate::types::RegisteredView),
                >::empty());
            }
            none
        },
    };
    let mut migrated_files: Vec<String> = Vec::new();
    proof {
        assert(migrated_files.deep_view() =~= Seq::<Seq<char>>::empty());
    }
    if legacy.router.is_some() {
        migrated_files.push("router_state.json".to_owned());
    }
    if legacy.sessions.is_some() {
        migrated_files.push("sessions.json".to_owned());
    }
    if legacy.groups.is_some() {
        migrated_files.push("registered_groups.json".to_owned());
    }
    proof {
        assert(migrated_files.deep_view() =~= legacy_files(*legacy));
    }
    let report = JsonStateMigrationReport {
        migrated_files,
        router_state_keys: router_state.len(),
        sessions: sessions.len(),
        groups: groups.len(),
    };
    MigrationPlan { router_state, sessions, groups, report }
}

/// What is left of files once those named are archived.
pub open spec fn left_of(legacy: LegacyState, archived: Seq<Seq<char>>) -> LegacyState {
    LegacyState {
        router: if archived.contains("router_state.json"@) {
            None
        } else {
            legacy.router
        },
        sessions: if archived.contains("sessions.json"@) {
            None
        } else {
            legacy.sessions
        },
        groups: if archived.contains("registered_groups.json"@) {
            None
        } else {
            legacy.groups
        },
    }
}

/// Whether a plan stores nothing and reports no change.
pub open spec fn changes_nothing(plan: MigrationPlan) -> bool {
    &&& plan.router_state@.len() == 0
    &&& plan.sessions@.len() == 0
    &&& plan.groups@.len() == 0
    &&& plan.report.migrated_files@.len() == 0
    &&& plan.report.router_state_keys == 0
    &&& plan.report.sessions == 0
    &&& plan.report.groups == 0
}

/// Without files of earlier versions nothing changes.
pub proof fn nothing_to_migrate_changes_nothing(plan: MigrationPlan, legacy: LegacyState)
    requires
        plans_migration(plan, legacy),
        legacy.router is None,
        legacy.sessions is None,
        legacy.groups is None,
    ensures
        changes_nothing(plan),
{
    assert(plan.sessions.deep_view().len() == plan.sessions@.len());
    assert(plan.groups.deep_view().len() == plan.groups@.len());
    assert(plan.report.migrated_files.deep_view().len() == plan.report.migrated_files@.len());
}

/// The migration happens once: after the files that it names are archived, and
/// without new ones, migrating again changes nothing.
pub proof fn migration_happens_once(plan: MigrationPlan, legacy: LegacyState, again: MigrationPlan)
    requires
        plans_migration(plan, legacy),
        plans_migration(again, left_of(legacy, plan.report.migrated_files.deep_view())),
    ensures
        changes_nothing(again),
{
    let files = legacy_files(legacy);
    let left = left_of(legacy, files);
    let router: int = if legacy.router is Some {
        1
    } else {
        0
    };
    let sessions: int = if legacy.sessions is Some {
        1
    } else {
        0
    };
    if legacy.router is Some {
        assert(files[0] == "router_state.json"@);
    }
    if legacy.sessions is Some {
        assert(files[router] == "sessions.json"@);
    }
    if legacy.groups is Some {
        assert(files[router + sessions] == "registered_groups.json"@);
    }
    nothing_to_migrate_changes_nothing(again, left);
}

/// The name under which a file that was taken over is kept, at the `attempt`-th
/// try for a name that is free.
pub open spec fn archived_name(file_name: Seq<char>, attempt: nat) -> Seq<char> {
    if attempt == 0 {
        file_name + ".migrated"@
    } else {
        file_name + ".migrated."@ + decimal(attempt)
    }
}

/// The name under which a file that was taken over is kept.
pub fn archive_name(file_name: &str, attempt: u64) -> (name: String)
    ensures
        name@ == archived_name(file_name@, attempt as nat),
{
    if attempt == 0 {
        file_name.to_owned().concat(".migrated")
    } else {
        file_name.to_owned().concat(".migrated.").concat(u64_text(attempt).as_str())
    }
}

/// Every session that has a folder and an id is taken over, and no other.
pub proof fn every_filled_session_is_taken_over(sessions: Seq<(Seq<char>, Seq<char>)>)
    ensures
        filled_sessions(sessions) == sessions.filter(
            |s: (Seq<char>, Seq<char>)| trimmed(s.0).len() > 0 && trimmed(s.1).len() > 0,
        ),
    decreases sessions.len(),
{
    reveal(Seq::filter);
    if sessions.len() > 0 {
        every_filled_session_is_taken_over(sessions.drop_last());
    }
}

/// Every group that has a name for its chat is taken over as it is.
pub proof fn every_named_group_is_taken_over(groups: Seq<(String, RegisteredGroup)>)
    ensures
        forall|k: int|
            0 <= k < groups.len() && trimmed((#[trigger] groups[k]).0@).len() > 0 ==> named_groups(
                groups,
            ).contains((groups[k].0@, groups[k].1.deep_view())),
        named_groups(groups).len() <= groups.len(),
    decreases groups.len(),
{
    if groups.len() > 0 {
        let rest = groups.drop_last();
        let before = named_groups(rest);
        let all = named_groups(groups);
        every_named_group_is_taken_over(rest);
        assert forall|k: int|
            0 <= k < groups.len() && trimmed((#[trigger] groups[k]).0@).len() > 0 implies all.contains(
            (groups[k].0@, groups[k].1.deep_view()),
        ) by {
            let wanted = (groups[k].0@, groups[k].1.deep_view());
            if k < rest.len() {
                assert(rest[k] == groups[k]);
                let i = choose|i: int| 0 <= i < before.len() && before[i] == wanted;
                assert(all[i] == wanted);
            } else {
                assert(all[before.len() as int] == wanted);
            }
        }
    }
}

/// A file that was taken over keeps its name, and each further try is for another name.
pub proof fn taken_file_keeps_its_name(file_name: Seq<char>, a: nat, b: nat)
    ensures
        file_name.is_prefix_of(archived_name(file_name, a)),
        archived_name(file_name, a) != file_name,
        archived_name(file_name, a) == archived_name(file_name, b) ==> a == b,
{
    reveal_strlit(".migrated");
    reveal_strlit(".migrated.");
    let first = archived_name(file_name, a);
    let second = archived_name(file_name, b);
    assert(first.subrange(0, file_name.len() as int) =~= file_name);
    let head = file_name + ".migrated."@;
    lemma_decimal_digits(a);
    lemma_decimal_digits(b);
    if first == second && a > 0 && b > 0 {
        assert((head + decimal(a)).skip(head.len() as int) =~= decimal(a));
        assert((head + decimal(b)).skip(head.len() as int) =~= decimal(b));
        decimal_reads_back(a, a + b);
        decimal_reads_back(b, a + b);
    }
}

/// What the router's file says is stored under its names: the timestamp as it is, and the
/// cursors so that they are read back.
pub proof fn router_file_is_taken_over(state: RouterStateJson, stored: Seq<(String, String)>)
    requires
        stores_router(state, stored),
    ensures
        (state.last_timestamp matches Some(text) ==> exists|i: int|
            0 <= i < stored.len() && (#[trigger] stored[i]).0@ == "last_timestamp"@ && stored[i].1@
                == text@),
        (state.last_agent_timestamp matches Some(cursors) ==> exists|i: int|
            0 <= i < stored.len() && (#[trigger] stored[i]).0@ == "last_agent_timestamp"@
                && parsed_json(stored[i].1@) is Ok && holds_pairs(
                parsed_json(stored[i].1@)->Ok_0,
                cursors.deep_view(),
            )),
        state.last_timestamp is None && state.last_agent_timestamp is None ==> stored.len() == 0,
{
    if state.last_timestamp is Some {
        assert(stored[0].0@ == "last_timestamp"@);
    }
    if state.last_agent_timestamp is Some {
        assert(stored[stored.len() - 1].0@ == "last_agent_timestamp"@);
    }
}

} // verus!
