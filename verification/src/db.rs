//! What is stored: rows of plain values, and what they stand for.

use vstd::prelude::*;
use vstd::string::*;

use crate::orchestrator::snapshots::task_times_ok;
use crate::text::{
    ascii_lower, comes_before, holds_text, same_text, text_before, to_ascii_lower, trim, trimmed,
};
use crate::timestamp::{
    parse_rfc3339, rfc3339_instant, rfc3339_millis_text, to_rfc3339_millis, to_the_millisecond,
    Timestamp,
};
use crate::types::{
    context_mode_reads_back, schedule_type_reads_back, task_status_reads_back, ContainerConfig,
    ContextMode, NewMessage, RegisteredGroup, ScheduleType, ScheduledTask, TaskRunLog,
    TaskRunStatus, TaskStatus,
};

verus! {

/// Why something could not be stored or read.
#[derive(Debug, PartialEq, Eq)]
pub enum DbError {
    Sql(String),
    Io(String),
    Serialization(String),
    InvalidEnum { field: &'static str, value: String },
    InvalidTimestamp { field: &'static str, value: String },
}

/// The message of a [`DbError`].
pub open spec fn db_error_text(error: DbError) -> Seq<char> {
    match error {
        DbError::Sql(reason) => "database error: "@ + reason@,
        DbError::Io(reason) => "io error: "@ + reason@,
        DbError::Serialization(reason) => "serialization error: "@ + reason@,
        DbError::InvalidEnum { field, value } => "invalid enum value for "@ + field@ + ": "@
            + value@,
        DbError::InvalidTimestamp { field, value } => "invalid timestamp value for "@ + field@
            + ": "@ + value@,
    }
}

impl DbError {
    /// The error as a message.
    pub fn message(&self) -> (text: String)
        ensures
            text@ == db_error_text(*self),
    {
        match self {
            DbError::Sql(reason) => "database error: ".to_owned().concat(reason.as_str()),
            DbError::Io(reason) => "io error: ".to_owned().concat(reason.as_str()),
            DbError::Serialization(reason) => "serialization error: ".to_owned().concat(
                reason.as_str(),
            ),
            DbError::InvalidEnum { field, value } => "invalid enum value for ".to_owned().concat(
                field,
            ).concat(": ").concat(value.as_str()),
            DbError::InvalidTimestamp {
                field,
                value,
            } => "invalid timestamp value for ".to_owned().concat(field).concat(": ").concat(
                value.as_str(),
            ),
        }
    }
}

/// Whether an error says that a field holds a word that it cannot.
pub open spec fn says_invalid_enum(error: DbError, field: Seq<char>, value: Seq<char>) -> bool {
    error matches DbError::InvalidEnum { field: f, value: v } && f@ == field && v@ == value
}

/// Whether an error says that a field holds no instant.
pub open spec fn says_invalid_timestamp(
    error: DbError,
    field: Seq<char>,
    value: Seq<char>,
) -> bool {
    error matches DbError::InvalidTimestamp { field: f, value: v } && f@ == field && v@ == value
}

// ---------------------------------------------------------------------------
// Instants
// ---------------------------------------------------------------------------

/// Reads the instant in a field.
pub fn parse_iso8601(field: &'static str, value: &str) -> (instant: Result<Timestamp, DbError>)
    ensures
        match instant {
            Ok(t) => rfc3339_instant(value@) == Ok::<Timestamp, Seq<char>>(t) && t.wf(),
            Err(e) => rfc3339_instant(value@) is Err && says_invalid_timestamp(
                e,
                field@,
                value@,
            ),
        },
{
    match parse_rfc3339(value) {
        Ok(t) => Ok(t),
        Err(_) => Err(DbError::InvalidTimestamp { field, value: value.to_owned() }),
    }
}

/// Writes an instant as it is stored: its text, from which it is read back to
/// the millisecond.
pub fn to_iso8601(t: Timestamp) -> (text: String)
    requires
        t.wf(),
    ensures
        text@ == rfc3339_millis_text(t),
        t.four_digit_year() ==> rfc3339_instant(text@) == Ok::<Timestamp, Seq<char>>(
            to_the_millisecond(t),
        ),
{
    to_rfc3339_millis(t)
}

// ---------------------------------------------------------------------------
// Tasks
// ---------------------------------------------------------------------------

/// A task as it is stored.
#[derive(Debug)]
pub struct TaskRow {
    pub id: String,
    pub group_folder: String,
    pub chat_jid: String,
    pub prompt: String,
    pub schedule_type: String,
    pub schedule_value: String,
    pub context_mode: String,
    pub next_run: Option<String>,
    pub last_run: Option<String>,
    pub last_result: Option<String>,
    pub status: String,
    pub created_at: String,
}

/// The instant in an optional field.
pub open spec fn instant_in(value: Option<Seq<char>>) -> Option<Result<Timestamp, Seq<char>>> {
    match value {
        Some(text) => Some(rfc3339_instant(text)),
        None => None,
    }
}

/// Whether a row stands for a task.
pub open spec fn stands_for_task(row: TaskRow, task: ScheduledTask) -> bool {
    &&& task.id@ == row.id@
    &&& task.group_folder@ == row.group_folder@
    &&& task.chat_jid@ == row.chat_jid@
    &&& task.prompt@ == row.prompt@
    &&& ScheduleType::named(row.schedule_type@) == Some(task.schedule_type)
    &&& task.schedule_value@ == row.schedule_value@
    &&& ContextMode::named(row.context_mode@) == Some(task.context_mode)
    &&& instant_in(row.next_run.deep_view()) == (match task.next_run {
        Some(t) => Some(Ok::<Timestamp, Seq<char>>(t)),
        None => None,
    })
    &&& instant_in(row.last_run.deep_view()) == (match task.last_run {
        Some(t) => Some(Ok::<Timestamp, Seq<char>>(t)),
        None => None,
    })
    &&& task.last_result.deep_view() == row.last_result.deep_view()
    &&& TaskStatus::named(row.status@) == Some(task.status)
    &&& rfc3339_instant(row.created_at@) == Ok::<Timestamp, Seq<char>>(task.created_at)
}

/// Whether an optional field holds something that is no instant.
pub open spec fn no_instant(value: Option<Seq<char>>) -> bool {
    value matches Some(text) && rfc3339_instant(text) is Err
}

/// Whether an error is that of the first field of a row that stands for
/// nothing.
pub open spec fn task_row_error(row: TaskRow, error: DbError) -> bool {
    if ScheduleType::named(row.schedule_type@) is None {
        says_invalid_enum(error, "schedule_type"@, row.schedule_type@)
    } else if ContextMode::named(row.context_mode@) is None {
        says_invalid_enum(error, "context_mode"@, row.context_mode@)
    } else if TaskStatus::named(row.status@) is None {
        says_invalid_enum(error, "status"@, row.status@)
    } else if no_instant(row.next_run.deep_view()) {
        says_invalid_timestamp(error, "next_run"@, row.next_run->Some_0@)
    } else if no_instant(row.last_run.deep_view()) {
        says_invalid_timestamp(error, "last_run"@, row.last_run->Some_0@)
    } else {
        rfc3339_instant(row.created_at@) is Err && says_invalid_timestamp(
            error,
            "created_at"@,
            row.created_at@,
        )
    }
}

fn optional_instant(field: &'static str, value: &Option<String>) -> (instant: Result<
    Option<Timestamp>,
    DbError,
>)
    ensures
        match instant {
            Ok(t) => instant_in(value.deep_view()) == (match t {
                Some(t) => Some(Ok::<Timestamp, Seq<char>>(t)),
                None => None,
            }) && (t matches Some(i) ==> i.wf()),
            Err(e) => no_instant(value.deep_view()) && says_invalid_timestamp(
                e,
                field@,
                value->Some_0@,
            ),
        },
{
    match value {
        Some(text) => match parse_iso8601(field, text.as_str()) {
            Ok(t) => Ok(Some(t)),
            Err(e) => Err(e),
        },
        None => Ok(None),
    }
}

/// The task that a row stands for.
pub fn row_to_task(row: TaskRow) -> (task: Result<ScheduledTask, DbError>)
    ensures
        match task {
            Ok(t) => stands_for_task(row, t) && task_times_ok(t),
            Err(e) => task_row_error(row, e),
        },
{
    let schedule_type = match ScheduleType::from_str(row.schedule_type.as_str()) {
        Some(kind) => kind,
        None => {
            return Err(
                DbError::InvalidEnum { field: "schedule_type", value: row.schedule_type },
            );
        },
    };
    let context_mode = match ContextMode::from_str(row.context_mode.as_str()) {
        Some(mode) => mode,
        None => {
            return Err(DbError::InvalidEnum { field: "context_mode", value: row.context_mode });
        },
    };
    let status = match TaskStatus::from_str(row.status.as_str()) {
        Some(status) => status,
        None => {
            return Err(DbError::InvalidEnum { field: "status", value: row.status });
        },
    };
    let next_run = match optional_instant("next_run", &row.next_run) {
        Ok(t) => t,
        Err(e) => {
            return Err(e);
        },
    };
    let last_run = match optional_instant("last_run", &row.last_run) {
        Ok(t) => t,
        Err(e) => {
            return Err(e);
        },
    };
    let created_at = match parse_iso8601("created_at", row.created_at.as_str()) {
        Ok(t) => t,
        Err(e) => {
            return Err(e);
        },
    };
    Ok(
        ScheduledTask {
            id: row.id,
            group_folder: row.group_folder,
            chat_jid: row.chat_jid,
            prompt: row.prompt,
            schedule_type,
            schedule_value: row.schedule_value,
            context_mode,
            next_run,
            last_run,
            last_result: row.last_result,
            status,
            created_at,
        },
    )
}

/// A task with its times cut to the millisecond.
pub open spec fn cut_instant(t: Option<Timestamp>) -> Option<Timestamp> {
    match t {
        Some(t) => Some(to_the_millisecond(t)),
        None => None,
    }
}

/// Whether the times of a task lie in the years 0 to 9999.
pub open spec fn ordinary_times(task: ScheduledTask) -> bool {
    &&& task.next_run matches Some(t) ==> t.four_digit_year()
    &&& task.last_run matches Some(t) ==> t.four_digit_year()
    &&& task.created_at.four_digit_year()
}

fn stored_instant(t: Option<Timestamp>) -> (text: Option<String>)
    requires
        t matches Some(i) ==> i.wf(),
    ensures
        text.deep_view() == (match t {
            Some(i) => Some(rfc3339_millis_text(i)),
            None => None,
        }),
        t matches Some(i) ==> i.four_digit_year() ==> instant_in(text.deep_view()) == Some(
            Ok::<Timestamp, Seq<char>>(to_the_millisecond(i)),
        ),
{
    match t {
        Some(i) => Some(to_iso8601(i)),
        None => None,
    }
}

/// The row that a task is stored as: it stands for the task, with its times cut
/// to the millisecond.
pub fn task_row(task: &ScheduledTask) -> (row: TaskRow)
    requires
        task_times_ok(*task),
    ensures
        row.id@ == task.id@,
        row.group_folder@ == task.group_folder@,
        row.chat_jid@ == task.chat_jid@,
        row.prompt@ == task.prompt@,
        row.schedule_type@ == task.schedule_type.text(),
        row.schedule_value@ == task.schedule_value@,
        row.context_mode@ == task.context_mode.text(),
        row.next_run.deep_view() == (match task.next_run {
            Some(t) => Some(rfc3339_millis_text(t)),
            None => None,
        }),
        row.last_run.deep_view() == (match task.last_run {
            Some(t) => Some(rfc3339_millis_text(t)),
            None => None,
        }),
        row.last_result.deep_view() == task.last_result.deep_view(),
        row.status@ == task.status.text(),
        row.created_at@ == rfc3339_millis_text(task.created_at),
        ordinary_times(*task) ==> stands_for_task(
            row,
            ScheduledTask {
                next_run: cut_instant(task.next_run),
                last_run: cut_instant(task.last_run),
                created_at: to_the_millisecond(task.created_at),
                ..*task
            },
        ),
{
    proof {
        schedule_type_reads_back(task.schedule_type, Seq::empty());
        context_mode_reads_back(task.context_mode, Seq::empty());
        task_status_reads_back(task.status, Seq::empty());
    }
    TaskRow {
        id: task.id.clone(),
        group_folder: task.group_folder.clone(),
        chat_jid: task.chat_jid.clone(),
        prompt: task.prompt.clone(),
        schedule_type: task.schedule_type.as_str().to_owned(),
        schedule_value: task.schedule_value.clone(),
        context_mode: task.context_mode.as_str().to_owned(),
        next_run: stored_instant(task.next_run),
        last_run: stored_instant(task.last_run),
        last_result: task.last_result.clone(),
        status: task.status.as_str().to_owned(),
        created_at: to_iso8601(task.created_at),
    }
}

/// A row stands for one task only, but for how its texts are held: two tasks
/// that it stands for agree in everything.
pub proof fn row_stands_for_one_task(row: TaskRow, a: ScheduledTask, b: ScheduledTask)
    requires
        stands_for_task(row, a),
        stands_for_task(row, b),
    ensures
        a.id@ == b.id@,
        a.group_folder@ == b.group_folder@,
        a.chat_jid@ == b.chat_jid@,
        a.prompt@ == b.prompt@,
        a.schedule_type == b.schedule_type,
        a.schedule_value@ == b.schedule_value@,
        a.context_mode == b.context_mode,
        a.next_run == b.next_run,
        a.last_run == b.last_run,
        a.last_result.deep_view() == b.last_result.deep_view(),
        a.status == b.status,
        a.created_at == b.created_at,
{
}

// ---------------------------------------------------------------------------
// Runs of tasks
// ---------------------------------------------------------------------------

/// A run of a task as it is stored.
#[derive(Debug)]
pub struct TaskLogRow {
    pub task_id: String,
    pub run_at: String,
    pub duration_ms: i64,
    pub status: String,
    pub result: Option<String>,
    pub error: Option<String>,
}

/// The end of a run that a word stands for.
pub open spec fn run_status_named(text: Seq<char>) -> Option<TaskRunStatus> {
    if text == "success"@ {
        Some(TaskRunStatus::Success)
    } else if text == "error"@ {
        Some(TaskRunStatus::Error)
    } else {
        None
    }
}

/// The run that a row stands for; a duration below zero counts as none.
pub fn row_to_task_log(row: TaskLogRow) -> (log: Result<TaskRunLog, DbError>)
    ensures
        match log {
            Ok(l) => {
                &&& l.task_id@ == row.task_id@
                &&& rfc3339_instant(row.run_at@) == Ok::<Timestamp, Seq<char>>(l.run_at)
                &&& l.duration_ms == if row.duration_ms < 0 {
                    0
                } else {
                    row.duration_ms as int
                }
                &&& run_status_named(row.status@) == Some(l.status)
                &&& l.result.deep_view() == row.result.deep_view()
                &&& l.error.deep_view() == row.error.deep_view()
            },
            Err(e) => if rfc3339_instant(row.run_at@) is Err {
                says_invalid_timestamp(e, "run_at"@, row.run_at@)
            } else {
                run_status_named(row.status@) is None && says_invalid_enum(
                    e,
                    "status"@,
                    row.status@,
                )
            },
        },
{
    let run_at = match parse_iso8601("run_at", row.run_at.as_str()) {
        Ok(t) => t,
        Err(e) => {
            return Err(e);
        },
    };
    let status = if same_text(row.status.as_str(), "success") {
        TaskRunStatus::Success
    } else if same_text(row.status.as_str(), "error") {
        TaskRunStatus::Error
    } else {
        return Err(DbError::InvalidEnum { field: "status", value: row.status });
    };
    let duration_ms: u64 = if row.duration_ms < 0 {
        0
    } else {
        row.duration_ms as u64
    };
    Ok(
        TaskRunLog {
            task_id: row.task_id,
            run_at,
            duration_ms,
            status,
            result: row.result,
            error: row.error,
        },
    )
}

// ---------------------------------------------------------------------------
// Groups
// ---------------------------------------------------------------------------

/// A group as it is stored; its container's configuration is read apart.
#[derive(Debug)]
pub struct GroupRow {
    pub jid: String,
    pub name: String,
    pub folder: String,
    pub trigger_pattern: String,
    pub added_at: String,
    pub requires_trigger: Option<i64>,
}

pub open spec fn stored_flag(flag: Option<i64>) -> Option<bool> {
    match flag {
        Some(n) => Some(n == 1),
        None => None,
    }
}

/// The group that a row stands for, once its container's configuration was
/// read.
pub fn row_to_registered_group(row: GroupRow, container_config: Option<ContainerConfig>) -> (group: (
    String,
    RegisteredGroup,
))
    ensures
        group.0 == row.jid,
        group.1 == (RegisteredGroup {
            name: row.name,
            folder: row.folder,
            trigger: row.trigger_pattern,
            added_at: row.added_at,
            container_config,
            requires_trigger: stored_flag(row.requires_trigger),
        }),
{
    let requires_trigger = match row.requires_trigger {
        Some(n) => Some(n == 1),
        None => None,
    };
    (
        row.jid,
        RegisteredGroup {
            name: row.name,
            folder: row.folder,
            trigger: row.trigger_pattern,
            added_at: row.added_at,
            container_config,
            requires_trigger,
        },
    )
}

/// How it is stored whether a group needs to be addressed: unless it is set
/// otherwise, it does.
pub fn requires_trigger_value(requires_trigger: Option<bool>) -> (value: i64)
    ensures
        value == if requires_trigger == Some(false) {
            0int
        } else {
            1
        },
        requires_trigger matches Some(flag) ==> stored_flag(Some(value)) == Some(flag),
{
    match requires_trigger {
        None => 1,
        Some(true) => 1,
        Some(false) => 0,
    }
}

// ---------------------------------------------------------------------------
// Messages
// ---------------------------------------------------------------------------

/// A message as it is stored.
#[derive(Debug)]
pub struct MessageRow {
    pub id: String,
    pub chat_jid: String,
    pub sender: String,
    pub sender_name: String,
    pub content: String,
    pub timestamp: String,
    pub is_from_me: i64,
    pub is_bot_message: i64,
}

/// The message that a row stands for.
pub fn row_to_message(row: MessageRow) -> (message: NewMessage)
    ensures
        message == (NewMessage {
            id: row.id,
            chat_jid: row.chat_jid,
            sender: row.sender,
            sender_name: row.sender_name,
            content: row.content,
            timestamp: row.timestamp,
            is_from_me: row.is_from_me == 1,
            is_bot_message: row.is_bot_message == 1,
        }),
{
    NewMessage {
        id: row.id,
        chat_jid: row.chat_jid,
        sender: row.sender,
        sender_name: row.sender_name,
        content: row.content,
        timestamp: row.timestamp,
        is_from_me: row.is_from_me == 1,
        is_bot_message: row.is_bot_message == 1,
    }
}

/// The row that a message is stored as; it stands for the message.
pub fn message_row(message: NewMessage) -> (row: MessageRow)
    ensures
        message == (NewMessage {
            id: row.id,
            chat_jid: row.chat_jid,
            sender: row.sender,
            sender_name: row.sender_name,
            content: row.content,
            timestamp: row.timestamp,
            is_from_me: row.is_from_me == 1,
            is_bot_message: row.is_bot_message == 1,
        }),
        row.is_from_me == 0 || row.is_from_me == 1,
        row.is_bot_message == 0 || row.is_bot_message == 1,
{
    MessageRow {
        id: message.id,
        chat_jid: message.chat_jid,
        sender: message.sender,
        sender_name: message.sender_name,
        content: message.content,
        timestamp: message.timestamp,
        is_from_me: if message.is_from_me {
            1
        } else {
            0
        },
        is_bot_message: if message.is_bot_message {
            1
        } else {
            0
        },
    }
}

/// The messages of the given chats.
pub open spec fn in_chats(messages: Seq<NewMessage>, jids: Seq<Seq<char>>) -> Seq<NewMessage>
    decreases messages.len(),
{
    if messages.len() == 0 {
        Seq::empty()
    } else {
        let before = in_chats(messages.drop_last(), jids);
        if jids.contains(messages.last().chat_jid@) {
            before.push(messages.last())
        } else {
            before
        }
    }
}

/// The latest of a timestamp and those of messages.
pub open spec fn latest_timestamp(messages: Seq<NewMessage>, floor: Seq<char>) -> Seq<char>
    decreases messages.len(),
{
    if messages.len() == 0 {
        floor
    } else {
        let before = latest_timestamp(messages.drop_last(), floor);
        if comes_before(before, messages.last().timestamp@) {
            messages.last().timestamp@
        } else {
            before
        }
    }
}

/// The messages of the given chats, and how far messages were read with them:
/// up to the latest of theirs.
pub fn select_new_messages(
    all_rows: Vec<NewMessage>,
    jids: &Vec<String>,
    last_timestamp: &str,
) -> (selected: (Vec<NewMessage>, String))
    ensures
        selected.0@ == in_chats(all_rows@, jids.deep_view()),
        selected.1@ == latest_timestamp(in_chats(all_rows@, jids.deep_view()), last_timestamp@),
{
    let ghost wanted = jids.deep_view();
    let mut filtered: Vec<NewMessage> = Vec::new();
    let mut newest = last_timestamp.to_owned();
    let mut i: usize = 0;
    while i < all_rows.len()
        invariant
            i <= all_rows@.len(),
            wanted == jids.deep_view(),
            filtered@ =~= in_chats(all_rows@.take(i as int), wanted),
            newest@ == latest_timestamp(filtered@, last_timestamp@),
        decreases all_rows@.len() - i,
    {
        proof {
            assert(all_rows@.take(i as int + 1).drop_last() =~= all_rows@.take(i as int));
        }
        if holds_text(jids, all_rows[i].chat_jid.as_str()) {
            let ghost before = filtered@;
            let message = all_rows[i].duplicate();
            if text_before(newest.as_str(), message.timestamp.as_str()) {
                newest = message.timestamp.clone();
            }
            filtered.push(message);
            proof {
                assert(filtered@.drop_last() =~= before);
            }
        }
        i += 1;
    }
    proof {
        assert(all_rows@.take(all_rows@.len() as int) =~= all_rows@);
    }
    (filtered, newest)
}

/// What was read stays read: the timestamp never goes back, and no message of
/// the selection lies after it.
pub proof fn reading_never_goes_back(messages: Seq<NewMessage>, floor: Seq<char>)
    ensures
        !comes_before(latest_timestamp(messages, floor), floor),
        forall|i: int|
            0 <= i < messages.len() ==> !comes_before(
                latest_timestamp(messages, floor),
                (#[trigger] messages[i]).timestamp@,
            ),
    decreases messages.len(),
{
    crate::text::lemma_before_total(floor, floor);
    if messages.len() > 0 {
        let rest = messages.drop_last();
        reading_never_goes_back(rest, floor);
        let before = latest_timestamp(rest, floor);
        let after = latest_timestamp(messages, floor);
        let last = messages.last().timestamp@;
        crate::text::lemma_before_total(last, last);
        crate::text::lemma_before_total(before, last);
        assert forall|x: Seq<char>| !comes_before(before, x) implies !#[trigger] comes_before(
            after,
            x,
        ) by {
            if after != before && comes_before(after, x) {
                crate::text::lemma_before_transitive(before, after, x);
            }
        }
        assert forall|i: int| 0 <= i < messages.len() implies !comes_before(
            after,
            (#[trigger] messages[i]).timestamp@,
        ) by {
            if i < rest.len() {
                assert(rest[i] == messages[i]);
            }
        }
    }
}

// ---------------------------------------------------------------------------
// Skills
// ---------------------------------------------------------------------------

/// The name under which a skill's setting is stored.
pub open spec fn stored_skill_name(name: Seq<char>) -> Seq<char> {
    ascii_lower(trimmed(name))
}

/// The name under which a skill's setting is stored.
pub fn normalize_skill_name(value: &str) -> (name: String)
    ensures
        name@ == stored_skill_name(value@),
{
    to_ascii_lower(trim(value).as_str())
}

/// The setting to store for a skill; nothing where its name is blank.
pub fn skill_setting(skill_name: &str, enabled: bool) -> (setting: Option<(String, i64)>)
    ensures
        match setting {
            Some((name, value)) => {
                &&& name@ == stored_skill_name(skill_name@)
                &&& name@.len() > 0
                &&& value == if enabled {
                    1int
                } else {
                    0
                }
            },
            None => stored_skill_name(skill_name@).len() == 0,
        },
{
    let name = normalize_skill_name(skill_name);
    if name.as_str().is_empty() {
        return None;
    }
    Some(
        (
            name,
            if enabled {
                1
            } else {
                0
            },
        ),
    )
}

/// Only messages of the chats that are asked for are read, all of them and in their order.
pub proof fn messages_of_the_chats_are_read(messages: Seq<NewMessage>, jids: Seq<Seq<char>>)
    ensures
        in_chats(messages, jids) == messages.filter(|m: NewMessage| jids.contains(m.chat_jid@)),
    decreases messages.len(),
{
    reveal(Seq::filter);
    if messages.len() > 0 {
        messages_of_the_chats_are_read(messages.drop_last(), jids);
    }
}

/// What is noted as read is the time of a message that was read, or stays as it was.
pub proof fn reading_goes_no_further_than_read(messages: Seq<NewMessage>, floor: Seq<char>)
    ensures
        latest_timestamp(messages, floor) == floor || exists|i: int|
            0 <= i < messages.len() && (#[trigger] messages[i]).timestamp@ == latest_timestamp(
                messages,
                floor,
            ),
    decreases messages.len(),
{
    if messages.len() > 0 {
        let rest = messages.drop_last();
        reading_goes_no_further_than_read(rest, floor);
        let last = latest_timestamp(messages, floor);
        if last == latest_timestamp(rest, floor) && last != floor {
            let i = choose|i: int|
                0 <= i < rest.len() && (#[trigger] rest[i]).timestamp@ == last;
            assert(messages[i].timestamp@ == last);
        } else if last != latest_timestamp(rest, floor) {
            assert(messages[messages.len() - 1].timestamp@ == last);
        }
    }
}

/// How a run ended is read as it was written.
pub proof fn run_status_reads_back(status: TaskRunStatus, text: Seq<char>)
    ensures
        run_status_named(status.text()) == Some(status),
        run_status_named(text) == Some(status) ==> text == status.text(),
{
    reveal_strlit("success");
    reveal_strlit("error");
    assert("success"@.len() == 7);
    assert("error"@.len() == 5);
}

/// A row that stands for a task says the same as the task, each thing in its own column.
pub proof fn row_says_what_the_task_says(row: TaskRow, task: ScheduledTask)
    requires
        stands_for_task(row, task),
    ensures
        row.id@ == task.id@,
        row.group_folder@ == task.group_folder@,
        row.chat_jid@ == task.chat_jid@,
        row.prompt@ == task.prompt@,
        row.schedule_type@ == task.schedule_type.text(),
        row.schedule_value@ == task.schedule_value@,
        row.context_mode@ == task.context_mode.text(),
        row.status@ == task.status.text(),
        row.next_run is Some <==> task.next_run is Some,
        row.last_run is Some <==> task.last_run is Some,
        row.next_run matches Some(text) ==> rfc3339_instant(text@) == Ok::<Timestamp, Seq<char>>(
            task.next_run->Some_0,
        ),
        row.last_run matches Some(text) ==> rfc3339_instant(text@) == Ok::<Timestamp, Seq<char>>(
            task.last_run->Some_0,
        ),
        rfc3339_instant(row.created_at@) == Ok::<Timestamp, Seq<char>>(task.created_at),
        row.last_result.deep_view() == task.last_result.deep_view(),
{
    crate::types::schedule_type_reads_back(task.schedule_type, row.schedule_type@);
    crate::types::context_mode_reads_back(task.context_mode, row.context_mode@);
    crate::types::task_status_reads_back(task.status, row.status@);
}

/// White space around a skill's name makes no difference.
pub proof fn skill_names_are_stored_without_white_space(name: Seq<char>)
    ensures
        stored_skill_name(trimmed(name)) == stored_skill_name(name),
        stored_skill_name(name) == ascii_lower(trimmed(name)),
{
    crate::text::laws::trimming_takes_only_white_space(name);
}

/// A message that is stored is read back as it was.
pub proof fn stored_message_reads_back(message: NewMessage, row: MessageRow, read: NewMessage)
    requires
        call_ensures(message_row, (message,), row),
        call_ensures(row_to_message, (row,), read),
    ensures
        read == message,
{
}

/// A flag is set where it was stored as one, and not given where none was stored.
pub proof fn stored_flags_are_read(n: i64)
    ensures
        stored_flag(Some(n)) == Some(true) <==> n == 1,
        stored_flag(Some(n)) == Some(false) <==> n != 1,
        stored_flag(None) is None,
{
}

/// An instant that is stored loses less than a millisecond, and none that is given is lost.
pub proof fn stored_instant_loses_little(t: Timestamp)
    ensures
        cut_instant(None) is None,
        cut_instant(Some(t)) is Some,
        ({
            let cut = cut_instant(Some(t))->Some_0;
            &&& cut.seconds == t.seconds
            &&& cut.nanos <= t.nanos < cut.nanos + 1_000_000
            &&& cut.nanos % 1_000_000 == 0
        }),
{
}

} // verus!
