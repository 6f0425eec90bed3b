//! What the parts of the library share.

use vstd::prelude::*;
use vstd::string::*;

use crate::text::same_text;
use crate::timestamp::Timestamp;

verus! {

#[derive(Debug, PartialEq, Eq)]
pub struct NewMessage {
    pub id: String,
    pub chat_jid: String,
    pub sender: String,
    pub sender_name: String,
    pub content: String,
    pub timestamp: String,
    pub is_from_me: bool,
    pub is_bot_message: bool,
}

impl NewMessage {
    /// Another message with the same content.
    pub fn duplicate(&self) -> (copy: NewMessage)
        ensures
            copy == *self,
    {
        NewMessage {
            id: self.id.clone(),
            chat_jid: self.chat_jid.clone(),
            sender: self.sender.clone(),
            sender_name: self.sender_name.clone(),
            content: self.content.clone(),
            timestamp: self.timestamp.clone(),
            is_from_me: self.is_from_me,
            is_bot_message: self.is_bot_message,
        }
    }
}

/// A way to reach people.
pub trait Channel {
    fn name(&self) -> &str;

    fn is_connected(&self) -> bool;

    fn owns_jid(&self, jid: &str) -> bool;
}

#[derive(Debug, PartialEq, Eq)]
pub struct AdditionalMount {
    pub host_path: String,
    pub container_path: Option<String>,
    pub readonly: Option<bool>,
}

#[derive(Debug, PartialEq, Eq)]
pub struct ContainerConfig {
    pub additional_mounts: Vec<AdditionalMount>,
    pub timeout_ms: Option<u64>,
}

#[derive(Debug, PartialEq, Eq)]
pub struct RegisteredGroup {
    pub name: String,
    pub folder: String,
    pub trigger: String,
    pub added_at: String,
    pub container_config: Option<ContainerConfig>,
    pub requires_trigger: Option<bool>,
}

/// The content of an [`AdditionalMount`].
pub struct MountView {
    pub host_path: Seq<char>,
    pub container_path: Option<Seq<char>>,
    pub readonly: Option<bool>,
}

/// The content of a [`ContainerConfig`].
pub struct ContainerView {
    pub additional_mounts: Seq<MountView>,
    pub timeout_ms: Option<u64>,
}

/// The content of a [`RegisteredGroup`].
pub struct RegisteredView {
    pub name: Seq<char>,
    pub folder: Seq<char>,
    pub trigger: Seq<char>,
    pub added_at: Seq<char>,
    pub container_config: Option<ContainerView>,
    pub requires_trigger: Option<bool>,
}

impl DeepView for AdditionalMount {
    type V = MountView;

    open spec fn deep_view(&self) -> MountView {
        MountView {
            host_path: self.host_path@,
            container_path: self.container_path.deep_view(),
            readonly: self.readonly,
        }
    }
}

impl DeepView for ContainerConfig {
    type V = ContainerView;

    open spec fn deep_view(&self) -> ContainerView {
        ContainerView {
            additional_mounts: self.additional_mounts.deep_view(),
            timeout_ms: self.timeout_ms,
        }
    }
}

impl DeepView for RegisteredGroup {
    type V = RegisteredView;

    open spec fn deep_view(&self) -> RegisteredView {
        RegisteredView {
            name: self.name@,
            folder: self.folder@,
            trigger: self.trigger@,
            added_at: self.added_at@,
            container_config: self.container_config.deep_view(),
            requires_trigger: self.requires_trigger,
        }
    }
}

impl AdditionalMount {
    /// Another mount with the same content.
    pub fn duplicate(&self) -> (copy: AdditionalMount)
        ensures
            copy.deep_view() == self.deep_view(),
    {
        AdditionalMount {
            host_path: self.host_path.clone(),
            container_path: self.container_path.clone(),
            readonly: self.readonly,
        }
    }
}

impl ContainerConfig {
    /// Another configuration with the same content.
    pub fn duplicate(&self) -> (copy: ContainerConfig)
        ensures
            copy.deep_view() == self.deep_view(),
    {
        let mut mounts: Vec<AdditionalMount> = Vec::new();
        let mut i: usize = 0;
        while i < self.additional_mounts.len()
            invariant
                i <= self.additional_mounts@.len(),
                mounts@.len() == i,
                forall|k: int|
                    0 <= k < i ==> (#[trigger] mounts@[k]).deep_view()
                        == self.additional_mounts@[k].deep_view(),
            decreases self.additional_mounts@.len() - i,
        {
            mounts.push(self.additional_mounts[i].duplicate());
            i += 1;
        }
        proof {
            assert(mounts.deep_view() =~= self.additional_mounts.deep_view());
        }
        ContainerConfig { additional_mounts: mounts, timeout_ms: self.timeout_ms }
    }
}

impl RegisteredGroup {
    /// Another group with the same content.
    pub fn duplicate(&self) -> (copy: RegisteredGroup)
        ensures
            copy.deep_view() == self.deep_view(),
    {
        let container_config = match &self.container_config {
            Some(config) => Some(config.duplicate()),
            None => None,
        };
        RegisteredGroup {
            name: self.name.clone(),
            folder: self.folder.clone(),
            trigger: self.trigger.clone(),
            added_at: self.added_at.clone(),
            container_config,
            requires_trigger: self.requires_trigger,
        }
    }
}

#[derive(Debug, PartialEq, Eq)]
pub struct ChatInfo {
    pub jid: String,
    pub name: String,
    pub last_message_time: String,
}

/// How a task repeats.
#[derive(Debug, Clone, Copy, PartialEq, Eq, Structural)]
pub enum ScheduleType {
    Cron,
    Interval,
    Once,
}

impl ScheduleType {
    /// The word for the kind of schedule.
    pub open spec fn text(self) -> Seq<char> {
        match self {
            ScheduleType::Cron => "cron"@,
            ScheduleType::Interval => "interval"@,
            ScheduleType::Once => "once"@,
        }
    }

    /// The kind of schedule that a word stands for.
    pub open spec fn named(text: Seq<char>) -> Option<ScheduleType> {
        if text == "cron"@ {
            Some(ScheduleType::Cron)
        } else if text == "interval"@ {
            Some(ScheduleType::Interval)
        } else if text == "once"@ {
            Some(ScheduleType::Once)
        } else {
            None
        }
    }

    /// The word for the kind of schedule.
    pub fn as_str(self) -> (text: &'static str)
        ensures
            text@ == self.text(),
    {
        match self {
            ScheduleType::Cron => "cron",
            ScheduleType::Interval => "interval",
            ScheduleType::Once => "once",
        }
    }

    /// The kind of schedule that a word stands for.
    pub fn from_str(value: &str) -> (found: Option<ScheduleType>)
        ensures
            found == ScheduleType::named(value@),
    {
        if same_text(value, "cron") {
            Some(ScheduleType::Cron)
        } else if same_text(value, "interval") {
            Some(ScheduleType::Interval)
        } else if same_text(value, "once") {
            Some(ScheduleType::Once)
        } else {
            None
        }
    }
}

/// Reading the word for a kind of schedule gives it back, and only its word does.
pub proof fn schedule_type_reads_back(value: ScheduleType, text: Seq<char>)
    ensures
        ScheduleType::named(value.text()) == Some(value),
        ScheduleType::named(text) == Some(value) ==> text == value.text(),
{
    reveal_strlit("cron");
    reveal_strlit("interval");
    reveal_strlit("once");
    assert("cron"@[0] == 'c');
    assert("interval"@[0] == 'i');
    assert("once"@[0] == 'o');
}

/// Whether a task shares its group's session.
#[derive(Debug, Clone, Copy, PartialEq, Eq, Structural)]
pub enum ContextMode {
    Group,
    Isolated,
}

impl ContextMode {
    /// The word for the mode.
    pub open spec fn text(self) -> Seq<char> {
        match self {
            ContextMode::Group => "group"@,
            ContextMode::Isolated => "isolated"@,
        }
    }

    /// The mode that a word stands for.
    pub open spec fn named(text: Seq<char>) -> Option<ContextMode> {
        if text == "group"@ {
            Some(ContextMode::Group)
        } else if text == "isolated"@ {
            Some(ContextMode::Isolated)
        } else {
            None
        }
    }

    /// The word for the mode.
    pub fn as_str(self) -> (text: &'static str)
        ensures
            text@ == self.text(),
    {
        match self {
            ContextMode::Group => "group",
            ContextMode::Isolated => "isolated",
        }
    }

    /// The mode that a word stands for.
    pub fn from_str(value: &str) -> (found: Option<ContextMode>)
        ensures
            found == ContextMode::named(value@),
    {
        if same_text(value, "group") {
            Some(ContextMode::Group)
        } else if same_text(value, "isolated") {
            Some(ContextMode::Isolated)
        } else {
            None
        }
    }
}

/// Reading the word for a mode gives it back, and only its word does.
pub proof fn context_mode_reads_back(value: ContextMode, text: Seq<char>)
    ensures
        ContextMode::named(value.text()) == Some(value),
        ContextMode::named(text) == Some(value) ==> text == value.text(),
{
    reveal_strlit("group");
    reveal_strlit("isolated");
    assert("group"@[0] == 'g');
    assert("isolated"@[0] == 'i');
}

/// Where a task stands.
#[derive(Debug, Clone, Copy, PartialEq, Eq, Structural)]
pub enum TaskStatus {
    Active,
    Paused,
    Completed,
}

impl TaskStatus {
    /// The word for the status.
    pub open spec fn text(self) -> Seq<char> {
        match self {
            TaskStatus::Active => "active"@,
            TaskStatus::Paused => "paused"@,
            TaskStatus::Completed => "completed"@,
        }
    }

    /// The status that a word stands for.
    pub open spec fn named(text: Seq<char>) -> Option<TaskStatus> {
        if text == "active"@ {
            Some(TaskStatus::Active)
        } else if text == "paused"@ {
            Some(TaskStatus::Paused)
        } else if text == "completed"@ {
            Some(TaskStatus::Completed)
        } else {
            None
        }
    }

    /// The word for the status.
    pub fn as_str(self) -> (text: &'static str)
        ensures
            text@ == self.text(),
    {
        match self {
            TaskStatus::Active => "active",
            TaskStatus::Paused => "paused",
            TaskStatus::Completed => "completed",
        }
    }

    /// The status that a word stands for.
    pub fn from_str(value: &str) -> (found: Option<TaskStatus>)
        ensures
            found == TaskStatus::named(value@),
    {
        if same_text(value, "active") {
            Some(TaskStatus::Active)
        } else if same_text(value, "paused") {
            Some(TaskStatus::Paused)
        } else if same_text(value, "completed") {
            Some(TaskStatus::Completed)
        } else {
            None
        }
    }
}

/// Reading the word for a status gives it back, and only its word does.
pub proof fn task_status_reads_back(value: TaskStatus, text: Seq<char>)
    ensures
        TaskStatus::named(value.text()) == Some(value),
        TaskStatus::named(text) == Some(value) ==> text == value.text(),
{
    reveal_strlit("active");
    reveal_strlit("paused");
    reveal_strlit("completed");
    assert("active"@[0] == 'a');
    assert("paused"@[0] == 'p');
    assert("completed"@[0] == 'c');
}

/// How a run of a task ended.
#[derive(Debug, Clone, Copy, PartialEq, Eq, Structural)]
pub enum TaskRunStatus {
    Success,
    Error,
}

impl TaskRunStatus {
    /// The word for the end of a run.
    pub open spec fn text(self) -> Seq<char> {
        match self {
            TaskRunStatus::Success => "success"@,
            TaskRunStatus::Error => "error"@,
        }
    }

    /// The word for the end of a run.
    pub fn as_str(self) -> (text: &'static str)
        ensures
            text@ == self.text(),
    {
        match self {
            TaskRunStatus::Success => "success",
            TaskRunStatus::Error => "error",
        }
    }
}

#[derive(Debug, PartialEq, Eq)]
pub struct ScheduledTask {
    pub id: String,
    pub group_folder: String,
    pub chat_jid: String,
    pub prompt: String,
    pub schedule_type: ScheduleType,
    pub schedule_value: String,
    pub context_mode: ContextMode,
    pub next_run: Option<Timestamp>,
    pub last_run: Option<Timestamp>,
    pub last_result: Option<String>,
    pub status: TaskStatus,
    pub created_at: Timestamp,
}

#[derive(Debug, PartialEq, Eq)]
pub struct TaskRunLog {
    pub task_id: String,
    pub run_at: Timestamp,
    pub duration_ms: u64,
    pub status: TaskRunStatus,
    pub result: Option<String>,
    pub error: Option<String>,
}

} // verus!
