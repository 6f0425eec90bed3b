//! The time zone that schedules are read in.

use vstd::prelude::*;
use vstd::string::*;

use core::str::FromStr;

use chrono::TimeZone;

use crate::cron_schedule::{
    next_at_offset, next_fire_at_offset, next_fire_in_zone, next_in_zone, CronSchedule,
};
use crate::number::{decimal, parse_i32, signed_value, u64_text};
use crate::text::{outcome, piece, to_chars, trim, trimmed};
use crate::timestamp::{
    local_reading, parse_local, parse_rfc3339, rfc3339_instant, Timestamp, MAX_SECONDS,
    MIN_SECONDS,
};

verus! {

/// A time zone: one of the tz database by its name, or an offset from UTC in
/// seconds.
#[derive(Debug, PartialEq, Eq)]
pub enum TaskTimezone {
    Named(String),
    Fixed(i32),
}

/// The content of a time zone.
pub enum Zone {
    Named(Seq<char>),
    Fixed(i32),
}

impl View for TaskTimezone {
    type V = Zone;

    open spec fn view(&self) -> Zone {
        match *self {
            TaskTimezone::Named(name) => Zone::Named(name@),
            TaskTimezone::Fixed(offset) => Zone::Fixed(offset),
        }
    }
}

pub open spec fn valid_offset(offset: i32) -> bool {
    -86_400 < offset < 86_400
}

/// An offset is less than a day.
pub open spec fn zone_ok(zone: Zone) -> bool {
    zone matches Zone::Fixed(offset) ==> valid_offset(offset)
}

/// The name that `chrono_tz::Tz` has for the zone that a text names.
pub uninterp spec fn known_zone(text: Seq<char>) -> Option<Seq<char>>;

/// Looks a time zone up by `chrono_tz::Tz::from_str` and gives its name. The
/// contract claims that the result is a function of the text.
#[verifier::external_body]
fn find_zone(text: &str) -> (name: Option<String>)
    ensures
        name.deep_view() == known_zone(text@),
{
    chrono_tz::Tz::from_str(text).ok().map(|zone| zone.name().to_string())
}

/// The offset that a text such as `+09:00` stands for, in seconds.
pub open spec fn fixed_offset(raw: Seq<char>) -> Option<i32> {
    let text = trimmed(raw);
    if text.len() != 6 || (text[0] != '+' && text[0] != '-') || text[3] != ':' {
        None
    } else {
        match (
            signed_value(text.subrange(1, 3), i32::MAX as nat),
            signed_value(text.subrange(4, 6), i32::MAX as nat),
        ) {
            (Some(hours), Some(minutes)) => if hours > 23 || minutes > 59 {
                None
            } else {
                let total = hours * 3600 + minutes * 60;
                Some(
                    if text[0] == '+' {
                        total as i32
                    } else {
                        (-total) as i32
                    },
                )
            },
            _ => None,
        }
    }
}

proof fn lemma_short_number(s: Seq<char>)
    requires
        s.len() == 2,
        signed_value(s, i32::MAX as nat) is Some,
    ensures
        -99 <= signed_value(s, i32::MAX as nat)->Some_0 <= 99,
{
    reveal_with_fuel(crate::number::digits_value, 3);
    let rest = s.drop_first();
    assert(rest.len() == 1);
    if crate::number::all_digits(rest) {
        assert(crate::text::is_digit(rest[0]));
        assert(rest.drop_last().len() == 0);
    }
    if crate::number::all_digits(s) {
        assert(crate::text::is_digit(s[0]));
        assert(crate::text::is_digit(s[1]));
        assert(s.drop_last().drop_last().len() == 0);
        assert(s.drop_last().last() == s[0]);
    }
}

/// The offset that a text such as `+09:00` stands for, in seconds.
pub fn parse_fixed_offset(raw: &str) -> (offset: Option<i32>)
    ensures
        offset == fixed_offset(raw@),
        offset matches Some(n) ==> valid_offset(n),
{
    let text = to_chars(trim(raw).as_str());
    if text.len() != 6 {
        return None;
    }
    if text[0] != '+' && text[0] != '-' {
        return None;
    }
    if text[3] != ':' {
        return None;
    }
    let hours: i32 = match parse_i32(piece(&text, 1, 3).as_str()) {
        Some(n) => n,
        None => {
            return None;
        },
    };
    let minutes: i32 = match parse_i32(piece(&text, 4, 6).as_str()) {
        Some(n) => n,
        None => {
            return None;
        },
    };
    if hours > 23 || minutes > 59 {
        return None;
    }
    proof {
        lemma_short_number(text@.subrange(1, 3));
        lemma_short_number(text@.subrange(4, 6));
        lemma_negative_digit(text@.subrange(1, 3));
        lemma_negative_digit(text@.subrange(4, 6));
    }
    let total: i32 = hours * 3600 + minutes * 60;
    if text[0] == '+' {
        Some(total)
    } else {
        Some(-total)
    }
}

/// A number of two characters below zero has one digit.
proof fn lemma_negative_digit(s: Seq<char>)
    requires
        s.len() == 2,
        signed_value(s, i32::MAX as nat) is Some,
    ensures
        -9 <= signed_value(s, i32::MAX as nat)->Some_0,
{
    reveal_with_fuel(crate::number::digits_value, 3);
    let rest = s.drop_first();
    if s[0] == '-' {
        assert(crate::text::is_digit(rest[0]));
        assert(rest.drop_last().len() == 0);
    }
}

/// The time zone to use: the configured one where it is a zone's name or an
/// offset, else the system's where its name is known, else the local offset.
pub open spec fn chosen_zone(
    configured: Option<Seq<char>>,
    system: Option<Seq<char>>,
    local_offset: i32,
) -> Zone {
    match configured {
        Some(raw) if known_zone(raw) is Some => Zone::Named(known_zone(raw)->Some_0),
        Some(raw) if fixed_offset(raw) is Some => Zone::Fixed(fixed_offset(raw)->Some_0),
        _ => match system {
            Some(name) if known_zone(name) is Some => Zone::Named(known_zone(name)->Some_0),
            _ => Zone::Fixed(local_offset),
        },
    }
}

/// The same choice, given which zones are known under the two names.
pub open spec fn zone_among(
    configured: Option<Seq<char>>,
    configured_zone: Option<Seq<char>>,
    system_zone: Option<Seq<char>>,
    local_offset: i32,
) -> Zone {
    match configured_zone {
        Some(zone) => Zone::Named(zone),
        None => match configured {
            Some(raw) if fixed_offset(raw) is Some => Zone::Fixed(fixed_offset(raw)->Some_0),
            _ => match system_zone {
                Some(zone) => Zone::Named(zone),
                None => Zone::Fixed(local_offset),
            },
        },
    }
}

/// The time zone to use, given which zones are known under the configured and
/// the system's name.
pub fn choose_timezone(
    configured: Option<&str>,
    configured_zone: Option<String>,
    system_zone: Option<String>,
    local_offset: i32,
) -> (zone: TaskTimezone)
    ensures
        zone@ == zone_among(
            configured.deep_view(),
            configured_zone.deep_view(),
            system_zone.deep_view(),
            local_offset,
        ),
        valid_offset(local_offset) ==> zone_ok(zone@),
{
    if let Some(zone) = configured_zone {
        return TaskTimezone::Named(zone);
    }
    if let Some(raw) = configured {
        if let Some(offset) = parse_fixed_offset(raw) {
            return TaskTimezone::Fixed(offset);
        }
    }
    match system_zone {
        Some(zone) => TaskTimezone::Named(zone),
        None => TaskTimezone::Fixed(local_offset),
    }
}

/// The time zone to use.
pub fn resolve_task_timezone_from_sources(
    raw_timezone: Option<String>,
    system_timezone_name: Option<String>,
    local_offset: i32,
) -> (zone: TaskTimezone)
    ensures
        zone@ == chosen_zone(
            raw_timezone.deep_view(),
            system_timezone_name.deep_view(),
            local_offset,
        ),
        valid_offset(local_offset) ==> zone_ok(zone@),
{
    let configured_zone = match &raw_timezone {
        Some(raw) => find_zone(raw.as_str()),
        None => None,
    };
    let system_zone = match &system_timezone_name {
        Some(name) => find_zone(name.as_str()),
        None => None,
    };
    let configured = match &raw_timezone {
        Some(raw) => Some(raw.as_str()),
        None => None,
    };
    choose_timezone(configured, configured_zone, system_zone, local_offset)
}

// ---------------------------------------------------------------------------
// Schedules in a time zone
// ---------------------------------------------------------------------------

/// When a cron expression next fires in a time zone.
pub open spec fn next_fire(expression: Seq<char>, now: Timestamp, zone: Zone) -> Option<
    Timestamp,
> {
    match zone {
        Zone::Named(name) => next_fire_in_zone(expression, now, name),
        Zone::Fixed(offset) => next_fire_at_offset(expression, now, offset),
    }
}

/// When a cron schedule next fires in a time zone.
pub fn next_cron_run(schedule: &CronSchedule, now: Timestamp, timezone: &TaskTimezone) -> (next:
    Option<Timestamp>)
    requires
        now.inner(),
        zone_ok(timezone@),
    ensures
        next == next_fire(schedule.expression@, now, timezone@),
        timezone@ is Fixed ==> (next matches Some(t) ==> t.plain() && t.total_nanos()
            > now.total_nanos()),
{
    match timezone {
        TaskTimezone::Named(name) => next_in_zone(
            schedule.expression.as_str(),
            now,
            name.as_str(),
        ),
        TaskTimezone::Fixed(offset) => next_at_offset(
            schedule.expression.as_str(),
            now,
            *offset,
        ),
    }
}

/// What a local date and time stand for: nothing in a gap, two instants where
/// clocks were set back.
#[derive(Debug, Clone, Copy, PartialEq, Eq, Structural)]
pub enum LocalInstant {
    Gap,
    Single(Timestamp),
    Ambiguous(Timestamp, Timestamp),
}

/// What `chrono_tz::Tz` makes of a local date and time in a named zone.
pub uninterp spec fn zone_instants(reading: Timestamp, zone: Seq<char>) -> LocalInstant;

/// Maps a local date and time to UTC by `chrono::TimeZone::from_local_datetime`
/// on a zone of `chrono_tz`. The contract claims that the result is a function
/// of the arguments.
#[verifier::external_body]
fn instants_in_zone(reading: Timestamp, zone: &str) -> (instants: LocalInstant)
    requires
        reading.wf(),
    ensures
        instants == zone_instants(reading, zone@),
{
    let at = |t: chrono::DateTime<chrono_tz::Tz>| Timestamp { seconds: t.timestamp(), nanos: t.timestamp_subsec_nanos() };
    let local = chrono::DateTime::from_timestamp(reading.seconds, reading.nanos).unwrap_or_default();
    match chrono_tz::Tz::from_str(zone).map(|zone| zone.from_local_datetime(&local.naive_utc())) {
        Ok(chrono::LocalResult::Single(t)) => LocalInstant::Single(at(t)),
        Ok(chrono::LocalResult::Ambiguous(a, b)) => LocalInstant::Ambiguous(at(a), at(b)),
        Ok(chrono::LocalResult::None) => LocalInstant::Gap,
        Err(_) => LocalInstant::Gap,
    }
}

/// The instant of a local date and time at an offset, where the calendar has
/// it.
pub open spec fn offset_instant(reading: Timestamp, offset: i32) -> Option<Timestamp> {
    let seconds = reading.seconds - offset;
    if MIN_SECONDS <= seconds <= MAX_SECONDS {
        Some(Timestamp { seconds: seconds as i64, nanos: reading.nanos })
    } else {
        None
    }
}

/// The earliest instant of a mapping, where there is one.
pub open spec fn earliest(instants: LocalInstant) -> Option<Timestamp> {
    match instants {
        LocalInstant::Gap => None,
        LocalInstant::Single(t) => Some(t),
        LocalInstant::Ambiguous(first, _) => Some(first),
    }
}

/// The earliest instant of a mapping, where there is one.
pub fn earliest_instant(instants: LocalInstant) -> (instant: Option<Timestamp>)
    ensures
        instant == earliest(instants),
{
    match instants {
        LocalInstant::Gap => None,
        LocalInstant::Single(t) => Some(t),
        LocalInstant::Ambiguous(first, _) => Some(first),
    }
}

/// The instant that a local date and time stand for in a time zone.
pub open spec fn local_instant(reading: Timestamp, zone: Zone) -> Option<Timestamp> {
    match zone {
        Zone::Named(name) => earliest(zone_instants(reading, name)),
        Zone::Fixed(offset) => offset_instant(reading, offset),
    }
}

/// The instant that a local date and time stand for in a time zone.
pub fn local_datetime_to_utc(reading: Timestamp, timezone: &TaskTimezone) -> (instant: Option<
    Timestamp,
>)
    requires
        reading.wf(),
        zone_ok(timezone@),
    ensures
        instant == local_instant(reading, timezone@),
{
    match timezone {
        TaskTimezone::Named(name) => earliest_instant(instants_in_zone(reading, name.as_str())),
        TaskTimezone::Fixed(offset) => {
            let seconds: i64 = reading.seconds - (*offset as i64);
            if MIN_SECONDS <= seconds && seconds <= MAX_SECONDS {
                Some(Timestamp { seconds, nanos: reading.nanos })
            } else {
                None
            }
        },
    }
}

pub open spec fn two_digits(n: int) -> Seq<char> {
    if n < 10 {
        "0"@ + decimal(n as nat)
    } else {
        decimal(n as nat)
    }
}

fn two_digit_text(n: u64) -> (text: String)
    ensures
        text@ == two_digits(n as int),
{
    if n < 10 {
        "0".to_owned().concat(u64_text(n).as_str())
    } else {
        u64_text(n)
    }
}

/// A zone's name, or an offset with its sign, hours and minutes, and seconds
/// where there are any.
pub open spec fn zone_label(zone: Zone) -> Seq<char> {
    match zone {
        Zone::Named(name) => name,
        Zone::Fixed(offset) => {
            let size: int = if offset < 0 {
                -offset
            } else {
                offset as int
            };
            let minutes = (if offset < 0 {
                "-"@
            } else {
                "+"@
            }) + two_digits(size / 3600) + ":"@ + two_digits(size / 60 % 60);
            if size % 60 == 0 {
                minutes
            } else {
                minutes + ":"@ + two_digits(size % 60)
            }
        },
    }
}

/// The text of a time zone.
pub fn timezone_label(timezone: &TaskTimezone) -> (label: String)
    requires
        zone_ok(timezone@),
    ensures
        label@ == zone_label(timezone@),
{
    match timezone {
        TaskTimezone::Named(name) => name.clone(),
        TaskTimezone::Fixed(offset) => {
            let size: u64 = if *offset < 0 {
                (-*offset) as u64
            } else {
                *offset as u64
            };
            let sign = if *offset < 0 {
                "-"
            } else {
                "+"
            };
            let minutes = sign.to_owned().concat(two_digit_text(size / 3600).as_str()).concat(
                ":",
            ).concat(two_digit_text(size / 60 % 60).as_str());
            if size % 60 == 0 {
                minutes
            } else {
                minutes.concat(":").concat(two_digit_text(size % 60).as_str())
            }
        },
    }
}

/// The instant of a text: an RFC 3339 instant, or a local date and time in the
/// given zone.
pub open spec fn once_instant(value: Seq<char>, zone: Zone) -> Result<Timestamp, Seq<char>> {
    match rfc3339_instant(value) {
        Ok(instant) => Ok(instant),
        Err(_) => match local_reading(value, "%Y-%m-%dT%H:%M:%S%.f"@) {
            Err(message) => Err("invalid once timestamp: "@ + message),
            Ok(reading) => match local_instant(reading, zone) {
                Some(instant) => Ok(instant),
                None => Err(
                    "invalid once timestamp for timezone "@ + zone_label(zone) + ": "@ + value,
                ),
            },
        },
    }
}

/// The instant of a text: an RFC 3339 instant, or a local date and time in the
/// given zone.
pub fn parse_once_timestamp(schedule_value: &str, timezone: &TaskTimezone) -> (instant: Result<
    Timestamp,
    String,
>)
    requires
        zone_ok(timezone@),
    ensures
        outcome(instant) == once_instant(schedule_value@, timezone@),
{
    if let Ok(instant) = parse_rfc3339(schedule_value) {
        return Ok(instant);
    }
    match parse_local(schedule_value, "%Y-%m-%dT%H:%M:%S%.f") {
        Err(message) => Err("invalid once timestamp: ".to_owned().concat(message.as_str())),
        Ok(reading) => match local_datetime_to_utc(reading, timezone) {
            Some(instant) => Ok(instant),
            None => Err(
                "invalid once timestamp for timezone ".to_owned().concat(
                    timezone_label(timezone).as_str(),
                ).concat(": ").concat(schedule_value),
            ),
        },
    }
}

/// The configured time zone is used where it is one, by its name or as an offset; else the
/// system's where it is known, else the local offset.
pub proof fn configured_zone_comes_first(
    configured: Seq<char>,
    name: Seq<char>,
    system: Option<Seq<char>>,
    local_offset: i32,
)
    ensures
        known_zone(configured) == Some(name) ==> chosen_zone(Some(configured), system, local_offset)
            == Zone::Named(name),
        known_zone(configured) is None && fixed_offset(configured) is Some ==> chosen_zone(
            Some(configured),
            system,
            local_offset,
        ) == Zone::Fixed(fixed_offset(configured)->Some_0),
        known_zone(configured) is None && fixed_offset(configured) is None ==> chosen_zone(
            Some(configured),
            system,
            local_offset,
        ) == chosen_zone(None, system, local_offset),
        system matches Some(other) ==> (known_zone(other) matches Some(zone) ==> chosen_zone(
            None,
            system,
            local_offset,
        ) == Zone::Named(zone)),
        system is None ==> chosen_zone(None, system, local_offset) == Zone::Fixed(local_offset),
{
}

/// A local time at an offset and the instant that it stands for lie the offset apart.
pub proof fn local_time_is_the_offset_ahead(reading: Timestamp, offset: i32)
    ensures
        local_instant(reading, Zone::Fixed(offset)) matches Some(t) ==> t.total_nanos() + offset
            * 1_000_000_000 == reading.total_nanos(),
{
}

/// An offset is read as it is written: a sign, two digits of hours and two of minutes.
pub proof fn offsets_east_are_positive(text: Seq<char>, other: Seq<char>)
    requires
        trimmed(text).len() == 6,
        trimmed(text)[0] == '+',
        trimmed(other).len() == 6,
        trimmed(other)[0] == '-',
        trimmed(other).skip(1) == trimmed(text).skip(1),
        fixed_offset(text) is Some,
    ensures
        fixed_offset(other) == Some((-fixed_offset(text)->Some_0) as i32),
        ({
            let hours = signed_value(trimmed(text).subrange(1, 3), i32::MAX as nat)->Some_0;
            let minutes = signed_value(trimmed(text).subrange(4, 6), i32::MAX as nat)->Some_0;
            fixed_offset(text)->Some_0 == hours * 3600 + minutes * 60
        }),
{
    let a = trimmed(text);
    let b = trimmed(other);
    assert(b[3] == b.skip(1)[2] && a[3] == a.skip(1)[2]);
    assert(b.subrange(1, 3) =~= b.skip(1).subrange(0, 2));
    assert(a.subrange(1, 3) =~= a.skip(1).subrange(0, 2));
    assert(b.subrange(4, 6) =~= b.skip(1).subrange(3, 5));
    assert(a.subrange(4, 6) =~= a.skip(1).subrange(3, 5));
    lemma_short_number(a.subrange(1, 3));
    lemma_short_number(a.subrange(4, 6));
    lemma_negative_digit(a.subrange(1, 3));
    lemma_negative_digit(a.subrange(4, 6));
}

/// An offset is written with its sign, its hours and its minutes, and with its seconds
/// where it has any; a named zone is written as it is.
pub proof fn zones_are_written_as_they_are(
    offset: i32,
    name: Seq<char>,
    h: int,
    m: int,
    s: int,
)
    requires
        0 <= h,
        0 <= m < 60,
        0 <= s < 60,
    ensures
        zone_label(Zone::Named(name)) == name,
        offset == h * 3600 + m * 60 + s && s == 0 ==> zone_label(Zone::Fixed(offset)) == "+"@
            + two_digits(h) + ":"@ + two_digits(m),
        offset == h * 3600 + m * 60 + s && s > 0 ==> zone_label(Zone::Fixed(offset)) == "+"@
            + two_digits(h) + ":"@ + two_digits(m) + ":"@ + two_digits(s),
        offset < 0 && -offset == h * 3600 + m * 60 && s == 0 ==> zone_label(Zone::Fixed(offset))
            == "-"@ + two_digits(h) + ":"@ + two_digits(m),
{
    let size = h * 3600 + m * 60 + s;
    assert(size / 3600 == h);
    assert(size / 60 == h * 60 + m);
    assert((h * 60 + m) % 60 == m);
    assert(size % 60 == s);
}

/// Of the two instants that a reading of the clock may mean the first one is taken; a
/// reading that the clock leaves out means none.
pub proof fn first_meaning_is_taken(first: Timestamp, second: Timestamp)
    ensures
        earliest(LocalInstant::Ambiguous(first, second)) == Some(first),
        earliest(LocalInstant::Single(first)) == Some(first),
        earliest(LocalInstant::Gap) is None,
{
}

} // verus!
