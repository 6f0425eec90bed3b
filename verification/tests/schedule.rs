use chrono::TimeZone;

use rust_claw::cron_schedule::{normalize_cron_expression, parse_cron_schedule};
use rust_claw::db::{parse_iso8601, to_iso8601};
use rust_claw::task_scheduler::{
    apply_run, compute_initial_run, compute_next_run, fits_calendar, report_run, still_runs,
    task_is_due, truncate_summary, TaskExecution,
};
use rust_claw::timestamp::{add_millis, is_no_later, Timestamp};
use rust_claw::timezone::{
    earliest_instant, local_datetime_to_utc, next_cron_run, parse_fixed_offset,
    parse_once_timestamp, resolve_task_timezone_from_sources, timezone_label, LocalInstant,
    TaskTimezone,
};
use rust_claw::types::{ContextMode, ScheduleType, ScheduledTask, TaskRunStatus, TaskStatus};

fn at(year: i32, month: u32, day: u32, hour: u32, minute: u32, second: u32) -> Timestamp {
    let instant = chrono::Utc
        .with_ymd_and_hms(year, month, day, hour, minute, second)
        .unwrap();
    Timestamp {
        seconds: instant.timestamp(),
        nanos: 0,
    }
}

fn now() -> Timestamp {
    at(2026, 2, 19, 0, 0, 0)
}

fn seconds_from_now(seconds: i64) -> Timestamp {
    Timestamp {
        seconds: now().seconds + seconds,
        nanos: 0,
    }
}

fn utc() -> TaskTimezone {
    TaskTimezone::Fixed(0)
}

fn seoul() -> TaskTimezone {
    TaskTimezone::Named("Asia/Seoul".to_string())
}

fn build_task(
    id: &str,
    schedule_type: ScheduleType,
    schedule_value: &str,
    next_run: Option<Timestamp>,
    status: TaskStatus,
) -> ScheduledTask {
    ScheduledTask {
        id: id.to_string(),
        group_folder: "main".to_string(),
        chat_jid: "group@g.us".to_string(),
        prompt: "prompt".to_string(),
        schedule_type,
        schedule_value: schedule_value.to_string(),
        context_mode: ContextMode::Isolated,
        next_run,
        last_run: None,
        last_result: None,
        status,
        created_at: now(),
    }
}

fn rfc3339(t: Timestamp) -> String {
    chrono::DateTime::from_timestamp(t.seconds, t.nanos)
        .expect("instant")
        .to_rfc3339()
}

#[test]
fn parse_cron_schedule_accepts_five_field_expression() {
    let schedule = parse_cron_schedule("0 9 * * *").expect("parse cron");
    let next_run = next_cron_run(&schedule, at(2026, 2, 19, 0, 0, 0), &utc()).expect("next run");

    assert_eq!(next_run, at(2026, 2, 19, 9, 0, 0));
}

#[test]
fn parse_cron_schedule_accepts_six_field_expression() {
    parse_cron_schedule("0 0 9 * * *").expect("parse six-field cron");
}

#[test]
fn cron_expressions_get_seconds() {
    assert_eq!(normalize_cron_expression(" 0  9 * * * "), "0 0  9 * * *");
    assert_eq!(normalize_cron_expression("0 0 9 * * *"), "0 0 9 * * *");
    assert!(parse_cron_schedule("never").is_err());
}

#[test]
fn parse_fixed_offset_accepts_valid_and_rejects_invalid_values() {
    let offset = parse_fixed_offset("+09:00").expect("parse +09:00");
    assert_eq!(offset, 9 * 3600);
    assert!(parse_fixed_offset("UTC").is_none());
    assert!(parse_fixed_offset("+99:00").is_none());
    assert_eq!(parse_fixed_offset("-03:30"), Some(-(3 * 3600 + 30 * 60)));
    assert_eq!(parse_fixed_offset("+09:60"), None);
}

#[test]
fn cron_next_run_respects_timezone_offset() {
    let schedule = parse_cron_schedule("0 9 * * *").expect("cron schedule");
    let now = at(2026, 2, 19, 0, 0, 0);

    let utc_next = next_cron_run(&schedule, now, &TaskTimezone::Fixed(0)).expect("utc next");
    let plus_nine_next =
        next_cron_run(&schedule, now, &TaskTimezone::Fixed(9 * 3600)).expect("plus nine next");

    assert_eq!(utc_next, at(2026, 2, 19, 9, 0, 0));
    assert_eq!(plus_nine_next, at(2026, 2, 20, 0, 0, 0));
}

#[test]
fn cron_next_run_respects_named_zone() {
    let schedule = parse_cron_schedule("0 9 * * *").expect("cron schedule");
    let new_york = TaskTimezone::Named("America/New_York".to_string());
    assert_eq!(
        next_cron_run(&schedule, at(2026, 2, 19, 0, 0, 0), &new_york),
        Some(at(2026, 2, 19, 14, 0, 0))
    );
}

#[test]
fn task_scheduler_resolve_task_timezone_uses_system_named_timezone_when_env_is_missing() {
    let timezone =
        resolve_task_timezone_from_sources(None, Some("America/New_York".to_string()), 0);
    assert_eq!(
        timezone,
        TaskTimezone::Named("America/New_York".to_string())
    );
}

#[test]
fn task_scheduler_resolve_task_timezone_falls_back_to_local_offset_when_system_timezone_is_unknown()
{
    let timezone =
        resolve_task_timezone_from_sources(None, Some("Not/A_Real_Zone".to_string()), 9 * 3600);
    assert_eq!(timezone, TaskTimezone::Fixed(9 * 3600));
}

#[test]
fn ipc_watcher_resolve_task_timezone_uses_system_named_timezone_when_env_is_missing() {
    let timezone =
        resolve_task_timezone_from_sources(None, Some("America/New_York".to_string()), 0);
    assert_eq!(
        timezone,
        TaskTimezone::Named("America/New_York".to_string())
    );
}

#[test]
fn ipc_watcher_resolve_task_timezone_falls_back_to_local_offset_when_system_timezone_is_unknown() {
    let timezone =
        resolve_task_timezone_from_sources(None, Some("Not/A_Real_Zone".to_string()), 9 * 3600);
    assert_eq!(timezone, TaskTimezone::Fixed(9 * 3600));
}

#[test]
fn configured_zone_comes_first() {
    let system = Some("America/New_York".to_string());
    assert_eq!(
        resolve_task_timezone_from_sources(Some("Asia/Seoul".to_string()), system.clone(), 0),
        seoul()
    );
    assert_eq!(
        resolve_task_timezone_from_sources(Some("+02:00".to_string()), system.clone(), 0),
        TaskTimezone::Fixed(7200)
    );
    assert_eq!(
        resolve_task_timezone_from_sources(Some("nowhere".to_string()), system, 0),
        TaskTimezone::Named("America/New_York".to_string())
    );
}

#[test]
fn parse_once_timestamp_accepts_local_timestamp_without_timezone() {
    let parsed =
        parse_once_timestamp("2026-02-19T22:00:00", &seoul()).expect("parse once timestamp");
    assert_eq!(rfc3339(parsed), "2026-02-19T13:00:00+00:00");
}

#[test]
fn parse_once_timestamp_accepts_rfc3339_timestamp() {
    let parsed =
        parse_once_timestamp("2026-02-19T22:00:00+09:00", &seoul()).expect("parse once timestamp");
    assert_eq!(rfc3339(parsed), "2026-02-19T13:00:00+00:00");
}

#[test]
fn gaps_and_repeated_hours_are_handled() {
    let new_york = TaskTimezone::Named("America/New_York".to_string());
    assert_eq!(
        local_datetime_to_utc(at(2026, 3, 8, 2, 30, 0), &new_york),
        None
    );
    assert_eq!(
        local_datetime_to_utc(at(2026, 11, 1, 1, 30, 0), &new_york),
        Some(at(2026, 11, 1, 5, 30, 0))
    );
    assert!(parse_once_timestamp("2026-03-08 02:30:00", &new_york).is_err());
    assert!(parse_once_timestamp("tomorrow", &new_york).is_err());
    assert_eq!(earliest_instant(LocalInstant::Gap), None);
    assert_eq!(
        earliest_instant(LocalInstant::Ambiguous(now(), seconds_from_now(1))),
        Some(now())
    );
}

#[test]
fn zones_have_labels() {
    assert_eq!(timezone_label(&seoul()), "Asia/Seoul");
    assert_eq!(timezone_label(&TaskTimezone::Fixed(-9000)), "-02:30");
    assert_eq!(timezone_label(&utc()), "+00:00");
}

#[test]
fn get_due_tasks_returns_only_active_due_tasks() {
    let tasks = vec![
        build_task(
            "due",
            ScheduleType::Interval,
            "60000",
            Some(seconds_from_now(-5)),
            TaskStatus::Active,
        ),
        build_task(
            "paused",
            ScheduleType::Interval,
            "60000",
            Some(seconds_from_now(-5)),
            TaskStatus::Paused,
        ),
        build_task(
            "future",
            ScheduleType::Interval,
            "60000",
            Some(seconds_from_now(10)),
            TaskStatus::Active,
        ),
    ];
    let due_tasks: Vec<_> = tasks.iter().filter(|t| task_is_due(t, now())).collect();
    assert_eq!(due_tasks.len(), 1);
    assert_eq!(due_tasks[0].id, "due");
}

#[test]
fn update_task_after_run_marks_once_task_completed_when_next_run_missing() {
    let mut saved = build_task(
        "once-task",
        ScheduleType::Once,
        "once",
        Some(seconds_from_now(-1)),
        TaskStatus::Active,
    );
    apply_run(&mut saved, None, "done".to_string(), now());
    assert_eq!(saved.status, TaskStatus::Completed);
    assert!(saved.last_run.is_some());
    assert_eq!(saved.last_result.as_deref(), Some("done"));
}

/// One round of the scheduler over a task, with what the executor answers.
fn run_due(task: &mut ScheduledTask, answer: TaskExecution) -> Option<TaskRunStatus> {
    if !task_is_due(task, now()) {
        return None;
    }
    assert!(fits_calendar(task, now()));
    let next = compute_next_run(task, now(), &utc());
    let report = report_run(task, answer, next, now(), 12);
    let status = report.log.status;
    apply_run(task, report.next_run, report.summary, now());
    Some(status)
}

#[test]
fn scheduler_runs_due_interval_task_and_keeps_it_active() {
    let mut updated = build_task(
        "task-1",
        ScheduleType::Interval,
        "50",
        Some(seconds_from_now(-1)),
        TaskStatus::Active,
    );
    let status = run_due(
        &mut updated,
        TaskExecution {
            result: Some("done".to_string()),
            error: None,
        },
    );
    assert_eq!(updated.status, TaskStatus::Active);
    assert!(updated.next_run.is_some());
    assert_eq!(updated.last_result.as_deref(), Some("done"));
    assert_eq!(status, Some(TaskRunStatus::Success));
    assert_eq!(
        updated.next_run,
        Some(Timestamp {
            seconds: now().seconds,
            nanos: 50_000_000,
        })
    );
    assert!(!task_is_due(&updated, now()));
}

#[test]
fn scheduler_skips_paused_tasks() {
    let mut task = build_task(
        "paused-task",
        ScheduleType::Interval,
        "50",
        Some(seconds_from_now(-1)),
        TaskStatus::Paused,
    );
    let status = run_due(
        &mut task,
        TaskExecution {
            result: None,
            error: None,
        },
    );
    assert_eq!(status, None);
    assert!(!still_runs(&Some(task)));
    assert!(!still_runs(&None));
}

#[test]
fn once_tasks_complete_after_execution() {
    let mut updated = build_task(
        "once-task",
        ScheduleType::Once,
        "once",
        Some(seconds_from_now(-1)),
        TaskStatus::Active,
    );
    run_due(
        &mut updated,
        TaskExecution {
            result: None,
            error: None,
        },
    );
    assert_eq!(updated.status, TaskStatus::Completed);
    assert!(updated.next_run.is_none());
    assert_eq!(updated.last_result.as_deref(), Some("Completed"));
}

#[test]
fn failed_runs_are_reported() {
    let task = build_task(
        "t",
        ScheduleType::Once,
        "once",
        Some(now()),
        TaskStatus::Active,
    );
    let report = report_run(
        &task,
        TaskExecution {
            result: None,
            error: Some("boom".to_string()),
        },
        Ok(None),
        now(),
        7,
    );
    assert_eq!(report.log.status, TaskRunStatus::Error);
    assert_eq!(report.log.duration_ms, 7);
    assert_eq!(report.summary, "Error: boom");
    let long = "가".repeat(300);
    assert_eq!(truncate_summary(&long).chars().count(), 200);
    assert_eq!(truncate_summary("short"), "short");
}

#[test]
fn bad_intervals_are_refused() {
    for value in ["0", "-5", "x"] {
        let task = build_task(
            "t",
            ScheduleType::Interval,
            value,
            Some(now()),
            TaskStatus::Active,
        );
        assert!(compute_next_run(&task, now(), &utc()).is_err());
    }
    assert!(compute_initial_run(ScheduleType::Interval, "0", now(), &utc()).is_err());
    assert_eq!(
        compute_initial_run(ScheduleType::Interval, "1000", now(), &utc()),
        Ok(seconds_from_now(1))
    );
    assert_eq!(
        compute_initial_run(ScheduleType::Cron, "0 9 * * *", now(), &seoul()),
        Ok(at(2026, 2, 20, 0, 0, 0))
    );
    assert_eq!(
        compute_initial_run(ScheduleType::Once, "2026-02-19T22:00:00", now(), &seoul()),
        Ok(at(2026, 2, 19, 13, 0, 0))
    );
}

#[test]
fn instants_are_compared_and_moved() {
    let half = Timestamp {
        seconds: now().seconds,
        nanos: 500_000_000,
    };
    assert!(is_no_later(&now(), &half) && !is_no_later(&half, &now()));
    assert_eq!(half.millis(), now().seconds * 1000 + 500);
    assert_eq!(add_millis(half, 600), Some(Timestamp {
        seconds: now().seconds + 1,
        nanos: 100_000_000,
    }));
    assert_eq!(add_millis(half, i64::MAX), None);
}

#[test]
fn stored_instants_read_back_to_the_millisecond() {
    let instant = Timestamp {
        seconds: now().seconds,
        nanos: 123_456_789,
    };
    let text = to_iso8601(instant);
    assert_eq!(text, "2026-02-19T00:00:00.123Z");
    assert_eq!(
        parse_iso8601("next_run", &text).expect("instant"),
        Timestamp {
            seconds: now().seconds,
            nanos: 123_000_000,
        }
    );
    assert_eq!(
        parse_iso8601("next_run", "soon").map(|_| ()).expect_err("bad").message(),
        "invalid timestamp value for next_run: soon"
    );
}
