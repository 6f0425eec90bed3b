//! Cron expressions.

use vstd::prelude::*;
use vstd::string::*;

use core::str::FromStr;

use crate::text::{count_words, outcome, trim, trimmed, words_in};
use crate::timestamp::Timestamp;

verus! {

/// A cron expression that was accepted, with its field for seconds.
#[derive(Debug)]
pub struct CronSchedule {
    pub expression: String,
}

impl DeepView for CronSchedule {
    type V = Seq<char>;

    open spec fn deep_view(&self) -> Seq<char> {
        self.expression@
    }
}

/// What `cron::Schedule::from_str` says of an expression: that it is accepted,
/// or the message of its error.
pub uninterp spec fn cron_verdict(expression: Seq<char>) -> Result<(), Seq<char>>;

/// Checks an expression by `cron::Schedule::from_str`. The contract claims that
/// the verdict is a function of the expression.
#[verifier::external_body]
fn check_cron(expression: &str) -> (verdict: Result<(), String>)
    ensures
        outcome(verdict) == cron_verdict(expression@),
{
    cron::Schedule::from_str(expression).map(|_| ()).map_err(|err| err.to_string())
}

/// The expression with a field for seconds: one of five fields runs at second
/// zero.
pub open spec fn with_seconds(value: Seq<char>) -> Seq<char> {
    let expression = trimmed(value);
    if words_in(expression) == 5 {
        "0 "@ + expression
    } else {
        expression
    }
}

/// The schedule of a cron expression of five or more fields.
pub open spec fn cron_schedule(value: Seq<char>) -> Result<Seq<char>, Seq<char>> {
    match cron_verdict(with_seconds(value)) {
        Ok(_) => Ok(with_seconds(value)),
        Err(message) => Err("invalid cron expression: "@ + message),
    }
}

/// The expression with a field for seconds.
pub fn normalize_cron_expression(schedule_value: &str) -> (expression: String)
    ensures
        expression@ == with_seconds(schedule_value@),
{
    let trimmed_value = trim(schedule_value);
    if count_words(trimmed_value.as_str()) == 5 {
        "0 ".to_owned().concat(trimmed_value.as_str())
    } else {
        trimmed_value
    }
}

/// The schedule of a cron expression, given the verdict on
/// [`normalize_cron_expression`].
pub fn accept_cron_schedule(expression: String, verdict: Result<(), String>) -> (schedule: Result<
    CronSchedule,
    String,
>)
    ensures
        match verdict {
            Ok(_) => schedule matches Ok(s) && s.expression@ == expression@,
            Err(message) => schedule matches Err(m) && m@ == "invalid cron expression: "@
                + message@,
        },
{
    match verdict {
        Ok(_) => Ok(CronSchedule { expression }),
        Err(message) => Err("invalid cron expression: ".to_owned().concat(message.as_str())),
    }
}

/// The schedule of a cron expression of five or more fields.
pub fn parse_cron_schedule(schedule_value: &str) -> (schedule: Result<CronSchedule, String>)
    ensures
        outcome(schedule) == cron_schedule(schedule_value@),
{
    let expression = normalize_cron_expression(schedule_value);
    let verdict = check_cron(expression.as_str());
    accept_cron_schedule(expression, verdict)
}

/// When `cron::Schedule` next fires after an instant in a named time zone.
pub uninterp spec fn next_fire_in_zone(
    expression: Seq<char>,
    now: Timestamp,
    zone: Seq<char>,
) -> Option<Timestamp>;

/// The next time of an expression in a named time zone, by
/// `cron::Schedule::after` on the zone that `chrono_tz::Tz` has of that name.
/// The contract claims that it is a function of the arguments. It does not claim
/// that it lies after the given instant: in an hour that clocks repeat, the crate
/// gives the first of the two instants of a local time.
#[verifier::external_body]
pub(crate) fn next_in_zone(expression: &str, now: Timestamp, zone: &str) -> (next: Option<Timestamp>)
    requires
        now.inner(),
    ensures
        next == next_fire_in_zone(expression@, now, zone@),
{
    let schedule = cron::Schedule::from_str(expression).ok()?;
    let zone = chrono_tz::Tz::from_str(zone).ok()?;
    let now = chrono::DateTime::from_timestamp(now.seconds, now.nanos)?.with_timezone(&zone);
    let next = schedule.after(&now).next()?;
    Some(Timestamp { seconds: next.timestamp(), nanos: next.timestamp_subsec_nanos() })
}

/// When `cron::Schedule` next fires after an instant at an offset from UTC.
pub uninterp spec fn next_fire_at_offset(
    expression: Seq<char>,
    now: Timestamp,
    offset: i32,
) -> Option<Timestamp>;

/// The next time of an expression at a fixed offset from UTC, by
/// `cron::Schedule::after`. The contract claims that it is a function of the
/// arguments, and that it lies after the given instant, as the cron crate
/// documents: with a fixed offset every local time stands for one instant.
#[verifier::external_body]
pub(crate) fn next_at_offset(expression: &str, now: Timestamp, offset: i32) -> (next: Option<
    Timestamp,
>)
    requires
        now.inner(),
        -86_400 < offset < 86_400,
    ensures
        next == next_fire_at_offset(expression@, now, offset),
        next matches Some(t) ==> t.plain() && t.total_nanos() > now.total_nanos(),
{
    let schedule = cron::Schedule::from_str(expression).ok()?;
    let offset = chrono::FixedOffset::east_opt(offset)?;
    let now = chrono::DateTime::from_timestamp(now.seconds, now.nanos)?.with_timezone(&offset);
    let next = schedule.after(&now).next()?;
    Some(Timestamp { seconds: next.timestamp(), nanos: next.timestamp_subsec_nanos() })
}

/// An expression of five fields runs at second zero of the times that it names, and one
/// with a field for seconds is taken as it is written.
pub proof fn five_fields_run_at_second_zero(value: Seq<char>)
    ensures
        trimmed(value).is_suffix_of(with_seconds(value)),
        words_in(trimmed(value)) == 5 ==> with_seconds(value) == "0 "@ + trimmed(value),
        words_in(trimmed(value)) != 5 ==> with_seconds(value) == trimmed(value),
        cron_schedule(value) matches Ok(expression) ==> expression == with_seconds(value)
            && cron_verdict(expression) is Ok,
        cron_schedule(value) is Ok <==> cron_verdict(with_seconds(value)) is Ok,
{
    let all = with_seconds(value);
    let part = trimmed(value);
    assert(all.subrange(all.len() - part.len(), all.len() as int) =~= part);
}

} // verus!
