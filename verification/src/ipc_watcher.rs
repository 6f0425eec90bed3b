//! What groups ask for through files, and what they may have.

use vstd::prelude::*;
use vstd::string::*;

use crate::json::{field, parse_json, parsed_json, text_field, Json, JsonValue};
use crate::name_map::NameMap;
use crate::number::{decimal, i64_text, signed_decimal, u64_text};
use crate::task_scheduler::{compute_initial_run, first_run};
use crate::text::{ascii_lower, outcome, piece, same_text, to_ascii_lower, to_chars};
use crate::timestamp::Timestamp;
use crate::timezone::{zone_ok, TaskTimezone, Zone};
use crate::types::{
    ContainerConfig, ContextMode, RegisteredGroup, ScheduleType, ScheduledTask, TaskStatus,
};

pub mod laws;

verus! {

// ---------------------------------------------------------------------------
// Fields
// ---------------------------------------------------------------------------

/// The first of the fields that holds a text, other than the empty one.
pub open spec fn filled_text(payload: Json, keys: Seq<Seq<char>>) -> Option<Seq<char>>
    decreases keys.len(),
{
    if keys.len() == 0 {
        None
    } else {
        match text_field(payload, keys[0]) {
            Some(text) if text.len() > 0 => Some(text),
            _ => filled_text(payload, keys.drop_first()),
        }
    }
}

/// The first of the fields that holds a text, other than the empty one.
pub fn string_field(payload: &JsonValue, keys: &Vec<&str>) -> (text: Option<String>)
    ensures
        text.deep_view() == filled_text(payload@, keys.deep_view()),
{
    let ghost all = keys.deep_view();
    let mut i: usize = 0;
    proof {
        assert(all.skip(0) =~= all);
    }
    while i < keys.len()
        invariant
            i <= keys@.len(),
            all == keys.deep_view(),
            filled_text(payload@, all) == filled_text(payload@, all.skip(i as int)),
        decreases keys@.len() - i,
    {
        proof {
            assert(all.skip(i as int)[0] == keys@[i as int]@);
            assert(all.skip(i as int).drop_first() =~= all.skip(i as int + 1));
        }
        if let Some(text) = payload.get_text(keys[i]) {
            if !text.is_empty() {
                return Some(text.to_owned());
            }
        }
        i += 1;
    }
    None
}

/// The first of the fields that holds a flag.
pub open spec fn first_flag(payload: Json, keys: Seq<Seq<char>>) -> Option<bool>
    decreases keys.len(),
{
    if keys.len() == 0 {
        None
    } else {
        match field(payload, keys[0]) {
            Some(Json::Bool(flag)) => Some(flag),
            _ => first_flag(payload, keys.drop_first()),
        }
    }
}

/// The first of the fields that holds a flag.
pub fn bool_field(payload: &JsonValue, keys: &Vec<&str>) -> (flag: Option<bool>)
    ensures
        flag == first_flag(payload@, keys.deep_view()),
{
    let ghost all = keys.deep_view();
    let mut i: usize = 0;
    proof {
        assert(all.skip(0) =~= all);
    }
    while i < keys.len()
        invariant
            i <= keys@.len(),
            all == keys.deep_view(),
            first_flag(payload@, all) == first_flag(payload@, all.skip(i as int)),
        decreases keys@.len() - i,
    {
        proof {
            assert(all.skip(i as int)[0] == keys@[i as int]@);
            assert(all.skip(i as int).drop_first() =~= all.skip(i as int + 1));
        }
        if let Some(value) = payload.get(keys[i]) {
            if let JsonValue::Bool(flag) = value {
                return Some(*flag);
            }
        }
        i += 1;
    }
    None
}

fn one_key<'a>(key: &'a str) -> (keys: Vec<&'a str>)
    ensures
        keys.deep_view() == seq![key@],
{
    let keys: Vec<&'a str> = vec![key];
    proof {
        assert(keys.deep_view() =~= seq![key@]);
    }
    keys
}

fn two_keys<'a>(first: &'a str, second: &'a str) -> (keys: Vec<&'a str>)
    ensures
        keys.deep_view() == seq![first@, second@],
{
    let keys: Vec<&'a str> = vec![first, second];
    proof {
        assert(keys.deep_view() =~= seq![first@, second@]);
    }
    keys
}

// ---------------------------------------------------------------------------
// Messages
// ---------------------------------------------------------------------------

/// Whether a group may act on a chat: the main group on all, the others on the
/// chat that is registered for their folder.
pub open spec fn may_reach(
    groups: Map<Seq<char>, RegisteredGroup>,
    jid: Seq<char>,
    source: Seq<char>,
    is_main: bool,
) -> bool {
    is_main || (groups.contains_key(jid) && groups[jid].folder@ == source)
}

/// The chat and the text of a message that is to be sent; nothing where the
/// payload is no message or the group may not send it.
pub open spec fn message_to_send(
    payload: Json,
    groups: Map<Seq<char>, RegisteredGroup>,
    source: Seq<char>,
    is_main: bool,
) -> Option<(Seq<char>, Seq<char>)> {
    if filled_text(payload, seq!["type"@]) != Some("message"@) {
        None
    } else {
        match (
            filled_text(payload, seq!["chatJid"@, "chat_jid"@]),
            filled_text(payload, seq!["text"@]),
        ) {
            (Some(jid), Some(text)) => if may_reach(groups, jid, source, is_main) {
                Some((jid, text))
            } else {
                None
            },
            _ => None,
        }
    }
}

/// The chat and the text of a message that is to be sent.
pub fn plan_message(
    payload: &JsonValue,
    groups: &NameMap<RegisteredGroup>,
    source_group: &str,
    is_main: bool,
) -> (message: Option<(String, String)>)
    requires
        groups.wf(),
    ensures
        message.deep_view() == message_to_send(payload@, groups@, source_group@, is_main),
{
    match string_field(payload, &one_key("type")) {
        Some(kind) => {
            if !same_text(kind.as_str(), "message") {
                return None;
            }
        },
        None => {
            return None;
        },
    }
    let jid = match string_field(payload, &two_keys("chatJid", "chat_jid")) {
        Some(jid) => jid,
        None => {
            return None;
        },
    };
    let text = match string_field(payload, &one_key("text")) {
        Some(text) => text,
        None => {
            return None;
        },
    };
    if !is_main {
        match groups.get(jid.as_str()) {
            Some(group) => {
                if !same_text(group.folder.as_str(), source_group) {
                    return None;
                }
            },
            None => {
                return None;
            },
        }
    }
    Some((jid, text))
}

// ---------------------------------------------------------------------------
// Requests
// ---------------------------------------------------------------------------

/// What a group asks for.
#[derive(Debug)]
pub enum IpcRequest {
    /// Nothing that may be done.
    Ignore,
    /// Schedule a task.
    Schedule(ScheduleRequest),
    /// Pause or resume a task.
    SetStatus { task_id: String, status: TaskStatus },
    /// Remove a task.
    Cancel { task_id: String },
    /// Switch a skill on or off in a folder.
    SetSkill { group_folder: String, skill_name: String, enabled: bool },
    /// Register a group.
    Register(RegisterRequest),
    /// Write the group's snapshots anew.
    Refresh,
}

/// A task that a group wants scheduled.
#[derive(Debug)]
pub struct ScheduleRequest {
    pub prompt: String,
    pub schedule_type: String,
    pub schedule_value: String,
    pub target_jid: String,
    pub context_mode: ContextMode,
}

/// A group that is to be registered; the container's configuration is still to
/// be read.
#[derive(Debug)]
pub struct RegisterRequest {
    pub jid: String,
    pub name: String,
    pub folder: String,
    pub trigger: String,
    pub container_config: Option<JsonValue>,
    pub requires_trigger: Option<bool>,
}

/// The content of an [`IpcRequest`].
pub enum RequestView {
    Ignore,
    Schedule(ScheduleView),
    SetStatus { task_id: Seq<char>, status: TaskStatus },
    Cancel { task_id: Seq<char> },
    SetSkill { group_folder: Seq<char>, skill_name: Seq<char>, enabled: bool },
    Register(RegisterView),
    Refresh,
}

/// The content of a [`ScheduleRequest`].
pub struct ScheduleView {
    pub prompt: Seq<char>,
    pub schedule_type: Seq<char>,
    pub schedule_value: Seq<char>,
    pub target_jid: Seq<char>,
    pub context_mode: ContextMode,
}

/// The content of a [`RegisterRequest`].
pub struct RegisterView {
    pub jid: Seq<char>,
    pub name: Seq<char>,
    pub folder: Seq<char>,
    pub trigger: Seq<char>,
    pub container_config: Option<Json>,
    pub requires_trigger: Option<bool>,
}

impl View for ScheduleRequest {
    type V = ScheduleView;

    open spec fn view(&self) -> ScheduleView {
        ScheduleView {
            prompt: self.prompt@,
            schedule_type: self.schedule_type@,
            schedule_value: self.schedule_value@,
            target_jid: self.target_jid@,
            context_mode: self.context_mode,
        }
    }
}

impl View for RegisterRequest {
    type V = RegisterView;

    open spec fn view(&self) -> RegisterView {
        RegisterView {
            jid: self.jid@,
            name: self.name@,
            folder: self.folder@,
            trigger: self.trigger@,
            container_config: self.container_config.deep_view(),
            requires_trigger: self.requires_trigger,
        }
    }
}

impl View for IpcRequest {
    type V = RequestView;

    open spec fn view(&self) -> RequestView {
        match *self {
            IpcRequest::Ignore => RequestView::Ignore,
            IpcRequest::Schedule(request) => RequestView::Schedule(request@),
            IpcRequest::SetStatus { task_id, status } => RequestView::SetStatus {
                task_id: task_id@,
                status,
            },
            IpcRequest::Cancel { task_id } => RequestView::Cancel { task_id: task_id@ },
            IpcRequest::SetSkill { group_folder, skill_name, enabled } => RequestView::SetSkill {
                group_folder: group_folder@,
                skill_name: skill_name@,
                enabled,
            },
            IpcRequest::Register(request) => RequestView::Register(request@),
            IpcRequest::Refresh => RequestView::Refresh,
        }
    }
}

/// A task to schedule, where the payload says all of it.
pub open spec fn schedule_asked(payload: Json) -> RequestView {
    match (
        filled_text(payload, seq!["prompt"@]),
        filled_text(payload, seq!["schedule_type"@, "scheduleType"@]),
        filled_text(payload, seq!["schedule_value"@, "scheduleValue"@]),
        filled_text(payload, seq!["targetJid"@, "target_jid"@, "chatJid"@, "chat_jid"@]),
    ) {
        (
            Some(prompt),
            Some(schedule_type),
            Some(schedule_value),
            Some(target_jid),
        ) => RequestView::Schedule(
            ScheduleView {
                prompt,
                schedule_type,
                schedule_value,
                target_jid,
                context_mode: if filled_text(payload, seq!["context_mode"@, "contextMode"@])
                    == Some("group"@) {
                    ContextMode::Group
                } else {
                    ContextMode::Isolated
                },
            },
        ),
        _ => RequestView::Ignore,
    }
}

fn ask_schedule(payload: &JsonValue) -> (request: IpcRequest)
    ensures
        request@ == schedule_asked(payload@),
{
    let prompt = match string_field(payload, &one_key("prompt")) {
        Some(text) => text,
        None => {
            return IpcRequest::Ignore;
        },
    };
    let schedule_type = match string_field(payload, &two_keys("schedule_type", "scheduleType")) {
        Some(text) => text,
        None => {
            return IpcRequest::Ignore;
        },
    };
    let schedule_value = match string_field(
        payload,
        &two_keys("schedule_value", "scheduleValue"),
    ) {
        Some(text) => text,
        None => {
            return IpcRequest::Ignore;
        },
    };
    let keys: Vec<&str> = vec!["targetJid", "target_jid", "chatJid", "chat_jid"];
    proof {
        assert(keys.deep_view() =~= seq!["targetJid"@, "target_jid"@, "chatJid"@, "chat_jid"@]);
    }
    let target_jid = match string_field(payload, &keys) {
        Some(text) => text,
        None => {
            return IpcRequest::Ignore;
        },
    };
    let context_mode = match string_field(payload, &two_keys("context_mode", "contextMode")) {
        Some(text) => if same_text(text.as_str(), "group") {
            ContextMode::Group
        } else {
            ContextMode::Isolated
        },
        None => ContextMode::Isolated,
    };
    IpcRequest::Schedule(
        ScheduleRequest { prompt, schedule_type, schedule_value, target_jid, context_mode },
    )
}

/// The folder in which a group may switch a skill: the main group in any,
/// another group in its own; its own where none is named.
pub open spec fn skill_folder(
    requested: Option<Seq<char>>,
    source: Seq<char>,
    is_main: bool,
) -> Option<Seq<char>> {
    match requested {
        None => Some(source),
        Some(folder) => if is_main || folder == source {
            Some(folder)
        } else {
            None
        },
    }
}

/// A skill to switch, where the payload names it and the group may.
pub open spec fn skill_asked(
    payload: Json,
    source: Seq<char>,
    is_main: bool,
    enabled: bool,
) -> RequestView {
    match filled_text(payload, seq!["skillName"@, "skill_name"@]) {
        None => RequestView::Ignore,
        Some(skill_name) => match skill_folder(
            filled_text(payload, seq!["targetGroupFolder"@, "target_group_folder"@]),
            source,
            is_main,
        ) {
            None => RequestView::Ignore,
            Some(group_folder) => RequestView::SetSkill { group_folder, skill_name, enabled },
        },
    }
}

fn ask_skill(payload: &JsonValue, source_group: &str, is_main: bool, enabled: bool) -> (request:
    IpcRequest)
    ensures
        request@ == skill_asked(payload@, source_group@, is_main, enabled),
{
    let skill_name = match string_field(payload, &two_keys("skillName", "skill_name")) {
        Some(text) => text,
        None => {
            return IpcRequest::Ignore;
        },
    };
    let requested = string_field(payload, &two_keys("targetGroupFolder", "target_group_folder"));
    let group_folder = match requested {
        None => source_group.to_owned(),
        Some(folder) => {
            if !is_main && !same_text(folder.as_str(), source_group) {
                return IpcRequest::Ignore;
            }
            folder
        },
    };
    IpcRequest::SetSkill { group_folder, skill_name, enabled }
}

/// A group to register, where the payload says all of it and the main group
/// asks.
pub open spec fn register_asked(payload: Json, is_main: bool) -> RequestView {
    if !is_main {
        RequestView::Ignore
    } else {
        match (
            filled_text(payload, seq!["jid"@]),
            filled_text(payload, seq!["name"@]),
            filled_text(payload, seq!["folder"@]),
            filled_text(payload, seq!["trigger"@]),
        ) {
            (Some(jid), Some(name), Some(folder), Some(trigger)) => RequestView::Register(
                RegisterView {
                    jid,
                    name,
                    folder,
                    trigger,
                    container_config: match field(payload, "containerConfig"@) {
                        Some(config) => Some(config),
                        None => field(payload, "container_config"@),
                    },
                    requires_trigger: first_flag(
                        payload,
                        seq!["requiresTrigger"@, "requires_trigger"@],
                    ),
                },
            ),
            _ => RequestView::Ignore,
        }
    }
}

fn ask_register(payload: &JsonValue, is_main: bool) -> (request: IpcRequest)
    ensures
        request@ == register_asked(payload@, is_main),
{
    if !is_main {
        return IpcRequest::Ignore;
    }
    let jid = match string_field(payload, &one_key("jid")) {
        Some(text) => text,
        None => {
            return IpcRequest::Ignore;
        },
    };
    let name = match string_field(payload, &one_key("name")) {
        Some(text) => text,
        None => {
            return IpcRequest::Ignore;
        },
    };
    let folder = match string_field(payload, &one_key("folder")) {
        Some(text) => text,
        None => {
            return IpcRequest::Ignore;
        },
    };
    let trigger = match string_field(payload, &one_key("trigger")) {
        Some(text) => text,
        None => {
            return IpcRequest::Ignore;
        },
    };
    let container_config = match payload.get("containerConfig") {
        Some(config) => Some(config.duplicate()),
        None => match payload.get("container_config") {
            Some(config) => Some(config.duplicate()),
            None => None,
        },
    };
    let requires_trigger = bool_field(payload, &two_keys("requiresTrigger", "requires_trigger"));
    IpcRequest::Register(
        RegisterRequest { jid, name, folder, trigger, container_config, requires_trigger },
    )
}

/// What a payload asks for, as far as the group may ask it.
pub open spec fn asked(payload: Json, source: Seq<char>, is_main: bool) -> RequestView {
    match filled_text(payload, seq!["type"@]) {
        None => RequestView::Ignore,
        Some(kind) => {
            let task_id = filled_text(payload, seq!["taskId"@, "task_id"@]);
            if kind == "schedule_task"@ {
                schedule_asked(payload)
            } else if kind == "pause_task"@ {
                match task_id {
                    Some(task_id) => RequestView::SetStatus { task_id, status: TaskStatus::Paused },
                    None => RequestView::Ignore,
                }
            } else if kind == "resume_task"@ {
                match task_id {
                    Some(task_id) => RequestView::SetStatus { task_id, status: TaskStatus::Active },
                    None => RequestView::Ignore,
                }
            } else if kind == "cancel_task"@ {
                match task_id {
                    Some(task_id) => RequestView::Cancel { task_id },
                    None => RequestView::Ignore,
                }
            } else if kind == "enable_skill"@ {
                skill_asked(payload, source, is_main, true)
            } else if kind == "disable_skill"@ {
                skill_asked(payload, source, is_main, false)
            } else if kind == "register_group"@ {
                register_asked(payload, is_main)
            } else if kind == "refresh_groups"@ {
                if is_main {
                    RequestView::Refresh
                } else {
                    RequestView::Ignore
                }
            } else if kind == "refresh_skills"@ {
                RequestView::Refresh
            } else {
                RequestView::Ignore
            }
        },
    }
}

/// What a payload asks for, as far as the group may ask it.
pub fn plan_request(payload: &JsonValue, source_group: &str, is_main: bool) -> (request: IpcRequest)
    ensures
        request@ == asked(payload@, source_group@, is_main),
{
    let kind = match string_field(payload, &one_key("type")) {
        Some(kind) => kind,
        None => {
            return IpcRequest::Ignore;
        },
    };
    let kind = kind.as_str();
    let task_id = string_field(payload, &two_keys("taskId", "task_id"));
    if same_text(kind, "schedule_task") {
        ask_schedule(payload)
    } else if same_text(kind, "pause_task") {
        match task_id {
            Some(task_id) => IpcRequest::SetStatus { task_id, status: TaskStatus::Paused },
            None => IpcRequest::Ignore,
        }
    } else if same_text(kind, "resume_task") {
        match task_id {
            Some(task_id) => IpcRequest::SetStatus { task_id, status: TaskStatus::Active },
            None => IpcRequest::Ignore,
        }
    } else if same_text(kind, "cancel_task") {
        match task_id {
            Some(task_id) => IpcRequest::Cancel { task_id },
            None => IpcRequest::Ignore,
        }
    } else if same_text(kind, "enable_skill") {
        ask_skill(payload, source_group, is_main, true)
    } else if same_text(kind, "disable_skill") {
        ask_skill(payload, source_group, is_main, false)
    } else if same_text(kind, "register_group") {
        ask_register(payload, is_main)
    } else if same_text(kind, "refresh_groups") {
        if is_main {
            IpcRequest::Refresh
        } else {
            IpcRequest::Ignore
        }
    } else if same_text(kind, "refresh_skills") {
        IpcRequest::Refresh
    } else {
        IpcRequest::Ignore
    }
}

/// Whether a group may change a task: the main group any, another group its
/// own.
pub open spec fn may_change(task: ScheduledTask, source: Seq<char>, is_main: bool) -> bool {
    is_main || task.group_folder@ == source
}

/// Whether a group may change a task that was looked up.
pub fn task_change_allowed(task: &Option<ScheduledTask>, source_group: &str, is_main: bool) -> (yes:
    bool)
    ensures
        yes == (task matches Some(t) && may_change(*t, source_group@, is_main)),
{
    match task {
        Some(task) => is_main || same_text(task.group_folder.as_str(), source_group),
        None => false,
    }
}

/// Whether a request to schedule may be made: the target is registered, the
/// group may act on it, and the kind of schedule is known.
pub open spec fn schedule_permitted(
    request: ScheduleView,
    groups: Map<Seq<char>, RegisteredGroup>,
    source: Seq<char>,
    is_main: bool,
) -> bool {
    &&& groups.contains_key(request.target_jid)
    &&& may_reach(groups, request.target_jid, source, is_main)
    &&& ScheduleType::named(request.schedule_type) is Some
}

/// When the task that a permitted request asks for first runs.
pub open spec fn asked_first_run(request: ScheduleView, now: Timestamp, zone: Zone) -> Result<
    Timestamp,
    Seq<char>,
> {
    first_run(
        ScheduleType::named(request.schedule_type)->Some_0,
        request.schedule_value,
        now,
        zone,
    )
}

/// Whether a request to schedule is granted: it is permitted and has a first run.
pub open spec fn schedule_granted(
    request: ScheduleView,
    groups: Map<Seq<char>, RegisteredGroup>,
    source: Seq<char>,
    is_main: bool,
    now: Timestamp,
    zone: Zone,
) -> bool {
    schedule_permitted(request, groups, source, is_main) && asked_first_run(
        request,
        now,
        zone,
    ) is Ok
}

/// What is noted of a permitted request whose schedule has no first run.
pub open spec fn bad_schedule_note(request: ScheduleView, reason: Seq<char>) -> Seq<char> {
    "ignored schedule_task due to invalid schedule (type="@ + request.schedule_type + ", value="@
        + request.schedule_value + "): "@ + reason
}

/// Whether a task is the one that a granted request asks for.
pub open spec fn is_asked_task(
    task: ScheduledTask,
    request: ScheduleView,
    groups: Map<Seq<char>, RegisteredGroup>,
    id: Seq<char>,
    now: Timestamp,
    zone: Zone,
) -> bool {
    let kind = ScheduleType::named(request.schedule_type)->Some_0;
    &&& task.id@ == id
    &&& task.group_folder@ == groups[request.target_jid].folder@
    &&& task.chat_jid@ == request.target_jid
    &&& task.prompt@ == request.prompt
    &&& task.schedule_type == kind
    &&& task.schedule_value@ == request.schedule_value
    &&& task.context_mode == request.context_mode
    &&& task.next_run == Some(first_run(kind, request.schedule_value, now, zone)->Ok_0)
    &&& task.last_run is None
    &&& task.last_result is None
    &&& task.status == TaskStatus::Active
    &&& task.created_at == now
}

/// The task that a request asks for, where it is granted; nothing where it is not
/// permitted, and a note where its schedule has no first run.
pub fn plan_schedule(
    request: ScheduleRequest,
    groups: &NameMap<RegisteredGroup>,
    source_group: &str,
    is_main: bool,
    id: String,
    now: Timestamp,
    timezone: &TaskTimezone,
) -> (task: Result<Option<ScheduledTask>, String>)
    requires
        groups.wf(),
        now.inner(),
        zone_ok(timezone@),
    ensures
        match task {
            Ok(Some(t)) => schedule_granted(
                request@,
                groups@,
                source_group@,
                is_main,
                now,
                timezone@,
            ) && is_asked_task(t, request@, groups@, id@, now, timezone@),
            Ok(None) => !schedule_permitted(request@, groups@, source_group@, is_main),
            Err(note) => schedule_permitted(request@, groups@, source_group@, is_main) && (
            asked_first_run(request@, now, timezone@) matches Err(reason) && note@
                == bad_schedule_note(request@, reason)),
        },
{
    let folder = match groups.get(request.target_jid.as_str()) {
        Some(group) => {
            if !is_main && !same_text(group.folder.as_str(), source_group) {
                return Ok(None);
            }
            group.folder.clone()
        },
        None => {
            return Ok(None);
        },
    };
    let schedule_type = match ScheduleType::from_str(request.schedule_type.as_str()) {
        Some(kind) => kind,
        None => {
            return Ok(None);
        },
    };
    let next_run = match compute_initial_run(
        schedule_type,
        request.schedule_value.as_str(),
        now,
        timezone,
    ) {
        Ok(next_run) => next_run,
        Err(reason) => {
            return Err(
                "ignored schedule_task due to invalid schedule (type=".to_owned().concat(
                    request.schedule_type.as_str(),
                ).concat(", value=").concat(request.schedule_value.as_str()).concat("): ").concat(
                    reason.as_str(),
                ),
            );
        },
    };
    Ok(Some(
        ScheduledTask {
            id,
            group_folder: folder,
            chat_jid: request.target_jid,
            prompt: request.prompt,
            schedule_type,
            schedule_value: request.schedule_value,
            context_mode: request.context_mode,
            next_run: Some(next_run),
            last_run: None,
            last_result: None,
            status: TaskStatus::Active,
            created_at: now,
        },
    ))
}

/// The group that a request registers, once its container's configuration was
/// read.
pub fn group_to_register(
    request: RegisterRequest,
    container_config: Option<ContainerConfig>,
    added_at: String,
) -> (group: (String, RegisteredGroup))
    ensures
        group.0 == request.jid,
        group.1 == (RegisteredGroup {
            name: request.name,
            folder: request.folder,
            trigger: request.trigger,
            added_at,
            container_config,
            requires_trigger: request.requires_trigger,
        }),
{
    (
        request.jid,
        RegisteredGroup {
            name: request.name,
            folder: request.folder,
            trigger: request.trigger,
            added_at,
            container_config,
            requires_trigger: request.requires_trigger,
        },
    )
}

// ---------------------------------------------------------------------------
// Laws
// ---------------------------------------------------------------------------

/// A group other than the main one sends messages to its own chat alone.
pub proof fn messages_stay_in_their_group(
    payload: Json,
    groups: Map<Seq<char>, RegisteredGroup>,
    source: Seq<char>,
)
    ensures
        message_to_send(payload, groups, source, false) matches Some((jid, _))
            ==> groups.contains_key(jid) && groups[jid].folder@ == source,
{
}

/// A group other than the main one registers no group, and switches skills in
/// its own folder alone.
pub proof fn only_main_group_acts_on_others(payload: Json, source: Seq<char>)
    ensures
        !(asked(payload, source, false) is Register),
        asked(payload, source, false) matches RequestView::SetSkill { group_folder, .. }
            ==> group_folder == source,
{
}

/// A group other than the main one schedules tasks for itself alone: a task that
/// is granted to it belongs to its own folder.
pub proof fn scheduled_tasks_stay_in_their_group(
    task: ScheduledTask,
    request: ScheduleView,
    groups: Map<Seq<char>, RegisteredGroup>,
    source: Seq<char>,
    id: Seq<char>,
    now: Timestamp,
    zone: Zone,
)
    requires
        schedule_granted(request, groups, source, false, now, zone),
        is_asked_task(task, request, groups, id, now, zone),
    ensures
        task.group_folder@ == source,
        may_change(task, source, false),
{
}

// ---------------------------------------------------------------------------
// Files
// ---------------------------------------------------------------------------

/// The payload in a file's text.
pub fn read_payload(raw: &str, path: &str) -> (payload: Result<JsonValue, String>)
    ensures
        outcome(payload) == (match parsed_json(raw@) {
            Ok(value) => Ok::<Json, Seq<char>>(value),
            Err(reason) => Err("invalid JSON payload in "@ + path@ + ": "@ + reason),
        }),
{
    match parse_json(raw) {
        Ok(value) => Ok(value),
        Err(reason) => Err(
            "invalid JSON payload in ".to_owned().concat(path).concat(": ").concat(
                reason.as_str(),
            ),
        ),
    }
}

/// What becomes of a file.
#[derive(Debug, Clone, Copy, PartialEq, Eq, Structural)]
pub enum FileFate {
    Delete,
    MoveToErrors,
}

/// A file is deleted once what it asks for was done; one that cannot be read or
/// that fails is kept aside.
pub fn file_fate(read: bool, processed: bool) -> (fate: FileFate)
    ensures
        fate == if read && processed {
            FileFate::Delete
        } else {
            FileFate::MoveToErrors
        },
{
    if read && processed {
        FileFate::Delete
    } else {
        FileFate::MoveToErrors
    }
}

/// The name under which a file is kept aside; with the time where the plain name
/// is taken.
pub open spec fn aside_name(
    source: Seq<char>,
    file_name: Seq<char>,
    taken_at: Option<i64>,
) -> Seq<char> {
    match taken_at {
        None => source + "-"@ + file_name,
        Some(ms) => source + "-"@ + signed_decimal(ms as int) + "-"@ + file_name,
    }
}

/// The name under which a file is kept aside.
pub fn error_file_name(source_group: &str, file_name: &str, taken_at: Option<i64>) -> (name: String)
    ensures
        name@ == aside_name(source_group@, file_name@, taken_at),
{
    match taken_at {
        None => source_group.to_owned().concat("-").concat(file_name),
        Some(ms) => source_group.to_owned().concat("-").concat(i64_text(ms).as_str()).concat(
            "-",
        ).concat(file_name),
    }
}

/// Whether a directory is a group's: any but the one for files kept aside.
pub fn is_group_dir(name: &str) -> (yes: bool)
    ensures
        yes == (name@ != "errors"@),
{
    !same_text(name, "errors")
}

/// What follows the last dot of a file name, where something comes before it.
pub open spec fn extension_of(name: Seq<char>) -> Option<Seq<char>>
    decreases name.len(),
{
    if name.len() < 2 {
        None
    } else if name.last() == '.' {
        Some(Seq::empty())
    } else {
        match extension_of(name.drop_last()) {
            Some(rest) => Some(rest.push(name.last())),
            None => None,
        }
    }
}

/// Whether a file name has the extension of JSON files, in any ASCII case.
pub open spec fn names_json(name: Seq<char>) -> bool {
    extension_of(name) matches Some(extension) && ascii_lower(extension) == "json"@
}

fn extension(name: &str) -> (out: Option<String>)
    ensures
        out.deep_view() == extension_of(name@),
{
    let chars = to_chars(name);
    let total: usize = chars.len();
    let mut i: usize = total;
    proof {
        assert(name@.take(total as int) =~= name@);
        assert(name@.skip(total as int) =~= Seq::<char>::empty());
        match extension_of(name@) {
            Some(rest) => {
                assert(rest + Seq::<char>::empty() =~= rest);
            },
            None => {},
        }
    }
    while i > 1
        invariant
            i <= total,
            total == chars@.len(),
            chars@ == name@,
            extension_of(name@) == (match extension_of(name@.take(i as int)) {
                Some(rest) => Some(rest + name@.skip(i as int)),
                None => None,
            }),
        decreases i,
    {
        proof {
            assert(name@.take(i as int).last() == chars@[i - 1]);
            assert(name@.take(i as int).drop_last() =~= name@.take(i - 1));
        }
        if chars[i - 1] == '.' {
            proof {
                assert(Seq::<char>::empty() + name@.skip(i as int) =~= name@.skip(i as int));
                assert(name@.subrange(i as int, total as int) =~= name@.skip(i as int));
            }
            return Some(piece(&chars, i, total));
        }
        proof {
            match extension_of(name@.take(i - 1)) {
                Some(rest) => {
                    assert(rest.push(chars@[i - 1]) + name@.skip(i as int) =~= rest + name@.skip(
                        i - 1,
                    ));
                },
                None => {},
            }
        }
        i -= 1;
    }
    None
}

/// Whether a file name has the extension of JSON files, in any ASCII case.
pub fn is_json_file(name: &str) -> (yes: bool)
    ensures
        yes == names_json(name@),
{
    match extension(name) {
        Some(extension) => same_text(to_ascii_lower(extension.as_str()).as_str(), "json"),
        None => false,
    }
}

/// The id of a new task.
pub open spec fn task_id_of(now_ms: int, counter: nat) -> Seq<char> {
    "task-"@ + signed_decimal(now_ms) + "-"@ + decimal(counter)
}

/// The id of a new task.
pub fn next_task_id(now_ms: i64, counter: u64) -> (id: String)
    ensures
        id@ == task_id_of(now_ms as int, counter as nat),
{
    "task-".to_owned().concat(i64_text(now_ms).as_str()).concat("-").concat(
        u64_text(counter).as_str(),
    )
}

} // verus!
