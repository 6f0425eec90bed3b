//! Instants and time zones.

use vstd::prelude::*;
use vstd::string::*;

use crate::text::outcome;

verus! {

/// An instant in UTC: seconds since the epoch and nanoseconds within the
/// second. Nanoseconds from one billion on are a leap second.
#[derive(Debug, Clone, Copy, PartialEq, Eq, Structural)]
pub struct Timestamp {
    pub seconds: i64,
    pub nanos: u32,
}

/// The first second of the calendar.
pub const MIN_SECONDS: i64 = -8_334_601_228_800;

/// The last second of the calendar.
pub const MAX_SECONDS: i64 = 8_210_266_876_799;

/// Two days, by which an instant stays clear of the ends of the calendar so
/// that it has a local time everywhere.
pub const CALENDAR_MARGIN: i64 = 172_800;

impl DeepView for Timestamp {
    type V = Timestamp;

    open spec fn deep_view(&self) -> Timestamp {
        *self
    }
}

impl Timestamp {
    /// Whether the instant lies in the calendar.
    pub open spec fn wf(self) -> bool {
        &&& MIN_SECONDS <= self.seconds <= MAX_SECONDS
        &&& self.nanos < 1_000_000_000 || (self.nanos < 2_000_000_000 && self.seconds % 60 == 59)
    }

    /// Whether the instant lies in the calendar and is no leap second.
    pub open spec fn plain(self) -> bool {
        &&& MIN_SECONDS <= self.seconds <= MAX_SECONDS
        &&& self.nanos < 1_000_000_000
    }

    /// Whether the instant lies clear of the ends of the calendar.
    pub open spec fn inner(self) -> bool {
        &&& self.plain()
        &&& MIN_SECONDS + CALENDAR_MARGIN <= self.seconds <= MAX_SECONDS - CALENDAR_MARGIN
    }

    /// Whether the instant lies in the years 0 to 9999.
    pub open spec fn four_digit_year(self) -> bool {
        -62_167_219_200 <= self.seconds < 253_402_300_800
    }

    /// Nanoseconds since the epoch.
    pub open spec fn total_nanos(self) -> int {
        self.seconds * 1_000_000_000 + self.nanos
    }

    /// Milliseconds since the epoch, rounded down.
    pub open spec fn total_millis(self) -> int {
        self.seconds * 1000 + self.nanos as int / 1_000_000
    }

    /// Whether the instant lies in the calendar.
    pub fn is_wf(&self) -> (yes: bool)
        ensures
            yes == self.wf(),
    {
        MIN_SECONDS <= self.seconds && self.seconds <= MAX_SECONDS && (self.nanos < 1_000_000_000
            || (self.nanos < 2_000_000_000 && (self.seconds - MIN_SECONDS) % 60 == 59))
    }

    /// Whether the instant lies in the calendar and is no leap second.
    pub fn is_plain(&self) -> (yes: bool)
        ensures
            yes == self.plain(),
    {
        MIN_SECONDS <= self.seconds && self.seconds <= MAX_SECONDS && self.nanos < 1_000_000_000
    }

    /// Whether the instant lies clear of the ends of the calendar.
    pub fn is_inner(&self) -> (yes: bool)
        ensures
            yes == self.inner(),
    {
        self.is_plain() && MIN_SECONDS + CALENDAR_MARGIN <= self.seconds && self.seconds
            <= MAX_SECONDS - CALENDAR_MARGIN
    }

    /// Milliseconds since the epoch, rounded down.
    pub fn millis(&self) -> (ms: i64)
        requires
            self.wf(),
        ensures
            ms == self.total_millis(),
    {
        self.seconds * 1000 + (self.nanos / 1_000_000) as i64
    }
}

/// Whether `a` comes no later than `b`.
pub open spec fn no_later(a: Timestamp, b: Timestamp) -> bool {
    a.seconds < b.seconds || (a.seconds == b.seconds && a.nanos <= b.nanos)
}

/// Whether `a` comes no later than `b`.
pub fn is_no_later(a: &Timestamp, b: &Timestamp) -> (yes: bool)
    ensures
        yes == no_later(*a, *b),
{
    a.seconds < b.seconds || (a.seconds == b.seconds && a.nanos <= b.nanos)
}

/// The instant a number of milliseconds later, where the calendar has it.
pub open spec fn later_by(t: Timestamp, ms: int) -> Option<Timestamp> {
    let total = t.total_nanos() + ms * 1_000_000;
    let seconds = total / 1_000_000_000;
    if MIN_SECONDS <= seconds <= MAX_SECONDS {
        Some(Timestamp { seconds: seconds as i64, nanos: (total % 1_000_000_000) as u32 })
    } else {
        None
    }
}

/// The instant a positive number of milliseconds later, where the calendar has
/// it.
pub fn add_millis(t: Timestamp, ms: i64) -> (later: Option<Timestamp>)
    requires
        t.plain(),
        ms > 0,
    ensures
        later == later_by(t, ms as int),
        later matches Some(l) ==> l.plain() && l.total_nanos() == t.total_nanos() + ms * 1_000_000,
{
    let whole: i64 = ms / 1000;
    let rest: u32 = (ms % 1000) as u32;
    let nanos: u32 = t.nanos + rest * 1_000_000;
    let carry: i64 = if nanos >= 1_000_000_000 {
        1
    } else {
        0
    };
    let nanos: u32 = if nanos >= 1_000_000_000 {
        nanos - 1_000_000_000
    } else {
        nanos
    };
    proof {
        let total = t.total_nanos() + ms * 1_000_000;
        let seconds = t.seconds + whole + carry;
        assert(ms == whole * 1000 + rest);
        assert(total == seconds * 1_000_000_000 + nanos) by (nonlinear_arith)
            requires
                total == t.seconds * 1_000_000_000 + t.nanos + ms * 1_000_000,
                ms == whole * 1000 + rest,
                seconds == t.seconds + whole + carry,
                nanos == t.nanos + rest * 1_000_000 - carry * 1_000_000_000,
        ;
        assert(total / 1_000_000_000 == seconds && total % 1_000_000_000 == nanos) by (
        nonlinear_arith)
            requires
                total == seconds * 1_000_000_000 + nanos,
                0 <= nanos < 1_000_000_000,
        ;
    }
    if whole > MAX_SECONDS - MIN_SECONDS + 1 {
        return None;
    }
    let seconds: i64 = t.seconds + whole + carry;
    if seconds > MAX_SECONDS {
        return None;
    }
    Some(Timestamp { seconds, nanos })
}

// ---------------------------------------------------------------------------
// Reading and writing instants with chrono
// ---------------------------------------------------------------------------

/// The instant that `chrono::DateTime::parse_from_rfc3339` reads from a text,
/// or the message of its error.
pub uninterp spec fn rfc3339_instant(text: Seq<char>) -> Result<Timestamp, Seq<char>>;

/// Reads an RFC 3339 instant by `chrono::DateTime::parse_from_rfc3339`. The
/// contract claims that the result is a function of the text, and that an
/// instant lies in the calendar.
#[verifier::external_body]
pub(crate) fn parse_rfc3339(text: &str) -> (instant: Result<Timestamp, String>)
    ensures
        outcome(instant) == rfc3339_instant(text@),
        instant matches Ok(t) ==> t.wf(),
{
    chrono::DateTime::parse_from_rfc3339(text)
        .map(|t| Timestamp { seconds: t.timestamp(), nanos: t.timestamp_subsec_nanos() })
        .map_err(|err| err.to_string())
}

/// The instant that `chrono::DateTime::parse_from_rfc2822` reads from a text.
pub uninterp spec fn rfc2822_instant(text: Seq<char>) -> Option<Timestamp>;

/// Reads an RFC 2822 instant by `chrono::DateTime::parse_from_rfc2822`. The
/// contract claims that the result is a function of the text, and that an
/// instant lies in the calendar.
#[verifier::external_body]
pub(crate) fn parse_rfc2822(text: &str) -> (instant: Option<Timestamp>)
    ensures
        instant == rfc2822_instant(text@),
        instant matches Some(t) ==> t.wf(),
{
    chrono::DateTime::parse_from_rfc2822(text)
        .map(|t| Timestamp { seconds: t.timestamp(), nanos: t.timestamp_subsec_nanos() })
        .ok()
}

/// The text that `chrono::DateTime::to_rfc3339` writes for an instant in UTC.
pub uninterp spec fn rfc3339_text(t: Timestamp) -> Seq<char>;

/// Writes an instant in RFC 3339 by `chrono::DateTime::to_rfc3339`. The
/// contract claims that the text is a function of the instant.
#[verifier::external_body]
pub(crate) fn to_rfc3339(t: Timestamp) -> (text: String)
    requires
        t.wf(),
    ensures
        text@ == rfc3339_text(t),
{
    chrono::DateTime::from_timestamp(t.seconds, t.nanos).unwrap_or_default().to_rfc3339()
}

/// An instant cut to the millisecond.
pub open spec fn to_the_millisecond(t: Timestamp) -> Timestamp {
    Timestamp { seconds: t.seconds, nanos: (t.nanos as int / 1_000_000 * 1_000_000) as u32 }
}

/// The text that `chrono::DateTime::to_rfc3339_opts` writes for an instant in
/// UTC, to the millisecond.
pub uninterp spec fn rfc3339_millis_text(t: Timestamp) -> Seq<char>;

/// Writes an instant in RFC 3339 to the millisecond by
/// `chrono::DateTime::to_rfc3339_opts`. The contract claims that the text is a
/// function of the instant, and that reading the text of an instant in the
/// years 0 to 9999 gives the instant back, cut to the millisecond.
#[verifier::external_body]
pub(crate) fn to_rfc3339_millis(t: Timestamp) -> (text: String)
    requires
        t.wf(),
    ensures
        text@ == rfc3339_millis_text(t),
        t.four_digit_year() ==> rfc3339_instant(text@) is Ok && rfc3339_instant(text@)->Ok_0
            == to_the_millisecond(t),
{
    chrono::DateTime::from_timestamp(t.seconds, t.nanos).unwrap_or_default()
        .to_rfc3339_opts(chrono::SecondsFormat::Millis, true)
}

/// The date and time that `chrono::NaiveDateTime::parse_from_str` reads from a
/// text in a format, as if in UTC, or the message of its error.
pub uninterp spec fn local_reading(text: Seq<char>, format: Seq<char>) -> Result<
    Timestamp,
    Seq<char>,
>;

/// Reads a date and time without a time zone by
/// `chrono::NaiveDateTime::parse_from_str`. The contract claims that the result
/// is a function of the text and the format, and that a reading lies in the
/// calendar.
#[verifier::external_body]
pub(crate) fn parse_local(text: &str, format: &str) -> (reading: Result<Timestamp, String>)
    ensures
        outcome(reading) == local_reading(text@, format@),
        reading matches Ok(t) ==> t.wf(),
{
    chrono::NaiveDateTime::parse_from_str(text, format)
        .map(|t| t.and_utc())
        .map(|t| Timestamp { seconds: t.timestamp(), nanos: t.timestamp_subsec_nanos() })
        .map_err(|err| err.to_string())
}

/// Milliseconds tell an instant to less than one of them.
pub proof fn milliseconds_tell_the_instant(t: Timestamp)
    ensures
        t.total_millis() * 1_000_000 <= t.total_nanos() < (t.total_millis() + 1) * 1_000_000,
{
}

} // verus!
