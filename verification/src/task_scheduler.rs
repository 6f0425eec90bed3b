//! Scheduled tasks: when they run next and what is noted of a run.

use vstd::prelude::*;
use vstd::string::*;

use crate::cron_schedule::{
    cron_schedule, cron_verdict, next_fire_at_offset, next_fire_in_zone, parse_cron_schedule,
    with_seconds,
};
use crate::number::{parse_i64, signed_value};
use crate::text::{head, head_chars, outcome};
use crate::timestamp::{
    add_millis, is_no_later, later_by, local_reading, no_later, rfc3339_instant, Timestamp,
};
use crate::timezone::{
    next_cron_run, next_fire, once_instant, parse_once_timestamp, zone_instants, zone_ok,
    LocalInstant, TaskTimezone, Zone,
};
use crate::types::{
    ScheduleType, ScheduledTask, TaskRunLog, TaskRunStatus, TaskStatus,
};

verus! {

/// How a task ended.
#[derive(Debug, Default, PartialEq, Eq)]
pub struct TaskExecution {
    pub result: Option<String>,
    pub error: Option<String>,
}

/// The content of a [`TaskExecution`].
pub struct TaskExecutionView {
    pub result: Option<Seq<char>>,
    pub error: Option<Seq<char>>,
}

impl View for TaskExecution {
    type V = TaskExecutionView;

    open spec fn view(&self) -> TaskExecutionView {
        TaskExecutionView { result: self.result.deep_view(), error: self.error.deep_view() }
    }
}

// ---------------------------------------------------------------------------
// When a task runs
// ---------------------------------------------------------------------------

/// The interval that a text gives, in milliseconds.
pub open spec fn interval_of(value: Seq<char>, too_small: Seq<char>) -> Result<int, Seq<char>> {
    match signed_value(value, i64::MAX as nat) {
        None => Err("invalid interval value: "@ + value),
        Some(ms) => if ms <= 0 {
            Err(too_small + value)
        } else {
            Ok(ms)
        },
    }
}

fn parse_interval(value: &str, too_small: &str) -> (interval: Result<i64, String>)
    ensures
        match interval {
            Ok(ms) => ms > 0 && interval_of(value@, too_small@) == Ok::<int, Seq<char>>(ms as int),
            Err(message) => interval_of(value@, too_small@) == Err::<int, Seq<char>>(message@),
        },
{
    match parse_i64(value) {
        None => Err("invalid interval value: ".to_owned().concat(value)),
        Some(ms) => if ms <= 0 {
            Err(too_small.to_owned().concat(value))
        } else {
            Ok(ms)
        },
    }
}

/// When a task runs after a run at `now`: never again for a single run, after
/// its interval, or when its cron expression next fires.
pub open spec fn next_run_after(
    kind: ScheduleType,
    value: Seq<char>,
    now: Timestamp,
    zone: Zone,
) -> Result<Option<Timestamp>, Seq<char>> {
    match kind {
        ScheduleType::Once => Ok(None),
        ScheduleType::Interval => match interval_of(
            value,
            "interval must be positive milliseconds: "@,
        ) {
            Err(message) => Err(message),
            Ok(ms) => Ok(later_by(now, ms)),
        },
        ScheduleType::Cron => match cron_schedule(value) {
            Err(message) => Err(message),
            Ok(expression) => Ok(next_fire(expression, now, zone)),
        },
    }
}

/// Whether the next run of an interval task lies in the calendar.
pub open spec fn next_run_fits(kind: ScheduleType, value: Seq<char>, now: Timestamp) -> bool {
    kind == ScheduleType::Interval ==> match signed_value(value, i64::MAX as nat) {
        Some(ms) => ms > 0 ==> later_by(now, ms) is Some,
        None => true,
    }
}

/// Whether the next run of an interval task lies in the calendar.
pub fn fits_calendar(task: &ScheduledTask, now: Timestamp) -> (yes: bool)
    requires
        now.plain(),
    ensures
        yes == next_run_fits(task.schedule_type, task.schedule_value@, now),
{
    if task.schedule_type != ScheduleType::Interval {
        return true;
    }
    match parse_i64(task.schedule_value.as_str()) {
        Some(ms) => if ms > 0 {
            add_millis(now, ms).is_some()
        } else {
            true
        },
        None => true,
    }
}

impl DeepView for TaskTimezone {
    type V = Zone;

    open spec fn deep_view(&self) -> Zone {
        self@
    }
}

/// When a task runs after a run at `now`: later than that, but for a cron
/// expression in a named zone, whose clocks may repeat an hour.
pub fn compute_next_run(task: &ScheduledTask, now: Timestamp, timezone: &TaskTimezone) -> (next:
    Result<Option<Timestamp>, String>)
    requires
        now.inner(),
        zone_ok(timezone@),
        next_run_fits(task.schedule_type, task.schedule_value@, now),
    ensures
        outcome(next) == next_run_after(
            task.schedule_type,
            task.schedule_value@,
            now,
            timezone@,
        ),
        timezone@ is Fixed || task.schedule_type != ScheduleType::Cron ==> (next matches Ok(
            Some(t),
        ) ==> t.plain() && t.total_nanos() > now.total_nanos()),
{
    match task.schedule_type {
        ScheduleType::Once => Ok(None),
        ScheduleType::Interval => match parse_interval(
            task.schedule_value.as_str(),
            "interval must be positive milliseconds: ",
        ) {
            Err(message) => Err(message),
            Ok(ms) => Ok(add_millis(now, ms)),
        },
        ScheduleType::Cron => match parse_cron_schedule(task.schedule_value.as_str()) {
            Err(message) => Err(message),
            Ok(schedule) => Ok(next_cron_run(&schedule, now, timezone)),
        },
    }
}

/// When a new task first runs.
pub open spec fn first_run(
    kind: ScheduleType,
    value: Seq<char>,
    now: Timestamp,
    zone: Zone,
) -> Result<Timestamp, Seq<char>> {
    match kind {
        ScheduleType::Cron => match cron_schedule(value) {
            Err(message) => Err(message),
            Ok(expression) => match next_fire(expression, now, zone) {
                Some(next) => Ok(next),
                None => Err("cron expression produced no next run"@),
            },
        },
        ScheduleType::Interval => match interval_of(value, "interval must be > 0: "@) {
            Err(message) => Err(message),
            Ok(ms) => match later_by(now, ms) {
                Some(next) => Ok(next),
                None => Err("interval overflow while computing next_run"@),
            },
        },
        ScheduleType::Once => once_instant(value, zone),
    }
}

/// When a new task first runs.
pub fn compute_initial_run(
    schedule_type: ScheduleType,
    schedule_value: &str,
    now: Timestamp,
    timezone: &TaskTimezone,
) -> (first: Result<Timestamp, String>)
    requires
        now.inner(),
        zone_ok(timezone@),
    ensures
        outcome(first) == first_run(schedule_type, schedule_value@, now, timezone@),
{
    match schedule_type {
        ScheduleType::Cron => match parse_cron_schedule(schedule_value) {
            Err(message) => Err(message),
            Ok(schedule) => match next_cron_run(&schedule, now, timezone) {
                Some(next) => Ok(next),
                None => Err("cron expression produced no next run".to_owned()),
            },
        },
        ScheduleType::Interval => match parse_interval(
            schedule_value,
            "interval must be > 0: ",
        ) {
            Err(message) => Err(message),
            Ok(ms) => match add_millis(now, ms) {
                Some(next) => Ok(next),
                None => Err("interval overflow while computing next_run".to_owned()),
            },
        },
        ScheduleType::Once => parse_once_timestamp(schedule_value, timezone),
    }
}

/// An interval task runs again exactly its interval later, so never at or
/// before the run that it follows.
pub proof fn interval_task_runs_later(value: Seq<char>, now: Timestamp, zone: Zone)
    requires
        now.plain(),
    ensures
        next_run_after(ScheduleType::Interval, value, now, zone) matches Ok(Some(next))
            ==> next.total_nanos() > now.total_nanos() && !no_later(next, now),
        next_run_after(ScheduleType::Interval, value, now, zone) matches Ok(Some(next)) ==> (
        signed_value(value, i64::MAX as nat) matches Some(ms) && next.total_nanos()
            == now.total_nanos() + ms * 1_000_000),
{
    match next_run_after(ScheduleType::Interval, value, now, zone) {
        Ok(Some(next)) => {
            let ms = signed_value(value, i64::MAX as nat)->Some_0;
            let total = now.total_nanos() + ms * 1_000_000;
            assert(next.total_nanos() == total) by {
                assert(total == (total / 1_000_000_000) * 1_000_000_000 + total % 1_000_000_000);
            }
        },
        _ => {},
    }
}

/// A task that runs once never runs again.
pub proof fn single_task_runs_once(value: Seq<char>, now: Timestamp, zone: Zone)
    ensures
        next_run_after(ScheduleType::Once, value, now, zone) == Ok::<Option<Timestamp>, Seq<char>>(
            None,
        ),
{
}

/// A cron task goes on as it began: after any instant it next runs when a new task
/// with the same expression in the same time zone would first run. That is when the
/// expression next fires in this very zone.
pub proof fn cron_task_keeps_its_zone(value: Seq<char>, now: Timestamp, zone: Zone)
    ensures
        ({
            let next = next_run_after(ScheduleType::Cron, value, now, zone);
            let first = first_run(ScheduleType::Cron, value, now, zone);
            &&& first matches Ok(t) ==> next == Ok::<Option<Timestamp>, Seq<char>>(Some(t))
            &&& next matches Ok(Some(t)) ==> first == Ok::<Timestamp, Seq<char>>(t)
            &&& next matches Ok(None) ==> first is Err
            &&& next matches Err(message) ==> first == Err::<Timestamp, Seq<char>>(message)
            &&& next matches Ok(t) ==> match zone {
                Zone::Named(name) => t == next_fire_in_zone(with_seconds(value), now, name),
                Zone::Fixed(offset) => t == next_fire_at_offset(with_seconds(value), now, offset),
            }
            &&& next is Ok <==> cron_verdict(with_seconds(value)) is Ok
        }),
{
}

/// An interval task that is new first runs its interval from now, as it would run
/// again after a run now.
pub proof fn interval_task_begins_as_it_goes_on(value: Seq<char>, now: Timestamp, zone: Zone)
    requires
        now.plain(),
    ensures
        ({
            let next = next_run_after(ScheduleType::Interval, value, now, zone);
            let first = first_run(ScheduleType::Interval, value, now, zone);
            &&& first matches Ok(t) ==> next == Ok::<Option<Timestamp>, Seq<char>>(Some(t))
            &&& first matches Ok(t) ==> (signed_value(value, i64::MAX as nat) matches Some(ms)
                && ms > 0 && t.total_nanos() == now.total_nanos() + ms * 1_000_000)
            &&& next is Ok <==> (signed_value(value, i64::MAX as nat) matches Some(ms) && ms > 0)
        }),
{
    interval_task_runs_later(value, now, zone);
}

/// A task that runs once first runs at the instant that is written, or when the clocks
/// of its zone show what is written, whatever the time is now.
pub proof fn single_task_runs_when_written(
    value: Seq<char>,
    now: Timestamp,
    later: Timestamp,
    zone: Zone,
)
    ensures
        first_run(ScheduleType::Once, value, now, zone) == first_run(
            ScheduleType::Once,
            value,
            later,
            zone,
        ),
        rfc3339_instant(value) matches Ok(t) ==> first_run(ScheduleType::Once, value, now, zone)
            == Ok::<Timestamp, Seq<char>>(t),
        rfc3339_instant(value) is Err ==> (first_run(ScheduleType::Once, value, now, zone) matches Ok(
            t,
        ) ==> (local_reading(value, "%Y-%m-%dT%H:%M:%S%.f"@) matches Ok(reading) && match zone {
            Zone::Fixed(offset) => t.seconds + offset == reading.seconds && t.nanos
                == reading.nanos,
            Zone::Named(name) => match zone_instants(reading, name) {
                LocalInstant::Single(at) => t == at,
                LocalInstant::Ambiguous(early, _) => t == early,
                LocalInstant::Gap => false,
            },
        })),
{
}

// ---------------------------------------------------------------------------
// Due tasks
// ---------------------------------------------------------------------------

/// Whether a task is due: it is active and its time has come.
pub open spec fn is_due(task: ScheduledTask, now: Timestamp) -> bool {
    task.status == TaskStatus::Active && (task.next_run matches Some(t) && no_later(t, now))
}

/// Whether a task is due.
pub fn task_is_due(task: &ScheduledTask, now: Timestamp) -> (yes: bool)
    ensures
        yes == is_due(*task, now),
{
    if task.status != TaskStatus::Active {
        return false;
    }
    match &task.next_run {
        Some(t) => is_no_later(t, &now),
        None => false,
    }
}

/// Whether a task that was due is still to run: it was not removed, and is
/// active.
pub fn still_runs(current: &Option<ScheduledTask>) -> (yes: bool)
    ensures
        yes == (current matches Some(task) && task.status == TaskStatus::Active),
{
    match current {
        Some(task) => task.status == TaskStatus::Active,
        None => false,
    }
}

// ---------------------------------------------------------------------------
// What is noted of a run
// ---------------------------------------------------------------------------

/// A result as the task shows it: its first characters.
pub fn truncate_summary(value: &str) -> (summary: String)
    ensures
        summary@ == head(value@, 200),
{
    head_chars(value, 200)
}

/// What is noted of a run.
#[derive(Debug)]
pub struct RunReport {
    pub log: TaskRunLog,
    pub next_run: Option<Timestamp>,
    pub summary: String,
}

/// The error of a run: the task's own, else that of its schedule.
pub open spec fn run_error(
    execution: TaskExecutionView,
    next: Result<Option<Timestamp>, Seq<char>>,
) -> Option<Seq<char>> {
    match execution.error {
        Some(message) => Some(message),
        None => match next {
            Ok(_) => None,
            Err(message) => Some(message),
        },
    }
}

/// What a task shows of a run.
pub open spec fn run_summary(error: Option<Seq<char>>, result: Option<Seq<char>>) -> Seq<char> {
    match error {
        Some(message) => "Error: "@ + message,
        None => match result {
            Some(text) => head(text, 200),
            None => "Completed"@,
        },
    }
}

/// What is noted of a run, given when the task runs next.
pub fn report_run(
    task: &ScheduledTask,
    execution: TaskExecution,
    next: Result<Option<Timestamp>, String>,
    run_at: Timestamp,
    duration_ms: u64,
) -> (report: RunReport)
    ensures
        report.log.task_id@ == task.id@,
        report.log.run_at == run_at,
        report.log.duration_ms == duration_ms,
        report.log.result.deep_view() == execution@.result,
        report.log.error.deep_view() == run_error(execution@, outcome(next)),
        report.log.status == if run_error(execution@, outcome(next)) is Some {
            TaskRunStatus::Error
        } else {
            TaskRunStatus::Success
        },
        report.next_run == match next {
            Ok(t) => t,
            Err(_) => None,
        },
        report.summary@ == run_summary(run_error(execution@, outcome(next)), execution@.result),
{
    let mut error = execution.error;
    let next_run = match next {
        Ok(t) => t,
        Err(message) => {
            if error.is_none() {
                error = Some(message);
            }
            None
        },
    };
    let summary = match &error {
        Some(message) => "Error: ".to_owned().concat(message.as_str()),
        None => match &execution.result {
            Some(text) => truncate_summary(text.as_str()),
            None => "Completed".to_owned(),
        },
    };
    let status = if error.is_some() {
        TaskRunStatus::Error
    } else {
        TaskRunStatus::Success
    };
    RunReport {
        log: TaskRunLog {
            task_id: task.id.clone(),
            run_at,
            duration_ms,
            status,
            result: execution.result,
            error,
        },
        next_run,
        summary,
    }
}

/// The status of a task after a run: completed where it does not run again.
pub open spec fn status_after(status: TaskStatus, next_run: Option<Timestamp>) -> TaskStatus {
    if next_run is None {
        TaskStatus::Completed
    } else {
        status
    }
}

/// The task after a run.
pub fn apply_run(task: &mut ScheduledTask, next_run: Option<Timestamp>, summary: String, run_at: Timestamp)
    ensures
        *final(task) == (ScheduledTask {
            next_run,
            last_run: Some(run_at),
            last_result: Some(summary),
            status: status_after(old(task).status, next_run),
            ..*old(task)
        }),
{
    task.next_run = next_run;
    task.last_run = Some(run_at);
    task.last_result = Some(summary);
    if next_run.is_none() {
        task.status = TaskStatus::Completed;
    }
}

/// A task that is completed, or that was run and waits for a later time, is not
/// due.
pub proof fn run_task_is_not_due(task: ScheduledTask, next: Option<Timestamp>, now: Timestamp)
    requires
        next matches Some(t) ==> !no_later(t, now),
    ensures
        !is_due(
            ScheduledTask {
                next_run: next,
                status: status_after(task.status, next),
                ..task
            },
            now,
        ),
{
}

/// A task is due exactly while it is active and the time of its next run has come: not
/// before, and not while it is paused or after it was completed.
pub proof fn task_is_due_when_its_time_has_come(task: ScheduledTask, now: Timestamp)
    requires
        now.plain(),
        task.next_run matches Some(t) ==> t.plain(),
    ensures
        is_due(task, now) <==> {
            &&& task.status == TaskStatus::Active
            &&& task.next_run is Some
            &&& task.next_run->Some_0.total_nanos() <= now.total_nanos()
        },
{
}

/// A run is noted as it ended: as failed exactly where the task failed or its schedule
/// gives no next run for an error, the task's own error first; what the task shows is the
/// error, or the beginning of its result, or that it is completed.
pub proof fn run_is_noted_as_it_ended(
    execution: TaskExecutionView,
    next: Result<Option<Timestamp>, Seq<char>>,
)
    ensures
        ({
            let error = run_error(execution, next);
            let summary = run_summary(error, execution.result);
            &&& error is None <==> execution.error is None && next is Ok
            &&& execution.error matches Some(message) ==> error == Some(message)
            &&& execution.error is None && next is Err ==> error == Some(next->Err_0)
            &&& error matches Some(message) ==> message.is_suffix_of(summary) && summary
                == "Error: "@ + message
            &&& error is None && execution.result is Some ==> summary.is_prefix_of(
                execution.result->Some_0,
            ) && summary.len() <= 200 && (execution.result->Some_0.len() <= 200 ==> summary
                == execution.result->Some_0)
            &&& error is None && execution.result is None ==> summary == "Completed"@
        }),
{
    let error = run_error(execution, next);
    let summary = run_summary(error, execution.result);
    if let Some(message) = error {
        assert(summary.subrange(summary.len() - message.len(), summary.len() as int) =~= message);
    } else if let Some(text) = execution.result {
        assert(text.subrange(0, summary.len() as int) =~= summary);
    }
}

/// A task that runs again keeps its status and is due then, and one that does not is
/// completed.
pub proof fn task_is_completed_when_it_runs_no_more(
    status: TaskStatus,
    next: Option<Timestamp>,
)
    ensures
        next is None ==> status_after(status, next) == TaskStatus::Completed,
        next is Some ==> status_after(status, next) == status,
{
}

/// Instants are in order, and later by a time is later by just that time.
pub proof fn later_instants_come_later(t: Timestamp, ms: int)
    requires
        t.plain(),
        ms > 0,
    ensures
        later_by(t, ms) matches Some(l) ==> l.total_nanos() == t.total_nanos() + ms * 1_000_000
            && no_later(t, l) && !no_later(l, t),
{
    if let Some(l) = later_by(t, ms) {
        let total = t.total_nanos() + ms * 1_000_000;
        assert(total == (total / 1_000_000_000) * 1_000_000_000 + total % 1_000_000_000);
    }
}

/// A task that was paused, was completed or is gone does not run.
pub proof fn only_active_tasks_run(current: Option<ScheduledTask>, yes: bool)
    requires
        call_ensures(still_runs, (&current,), yes),
    ensures
        yes ==> current is Some && current->Some_0.status == TaskStatus::Active,
        current is Some && current->Some_0.status == TaskStatus::Active ==> yes,
{
}

} // verus!
