//! Rate limits: how long requests wait, and what responses say of it.

use vstd::prelude::*;
use vstd::string::*;

use crate::number::{parse_i64, parse_u64, signed_value, unsigned_value};
use crate::text::{
    alnum, append_char, ascii_lower, contains_text, has_text, is_alnum, same_text, split,
    split_at_char, split_once, split_once_at, to_ascii_lower, to_chars, trim, trimmed,
};
use crate::timestamp::{parse_rfc2822, rfc2822_instant, Timestamp, MIN_SECONDS};

verus! {

/// The last millisecond of the calendar.
pub const CLOCK_MAX_MS: i64 = 8_210_266_876_799_999;

#[derive(Debug, Clone, Copy, PartialEq, Eq, Structural)]
pub struct RateLimitBucket {
    pub sec_remaining: Option<i64>,
    pub updated_at_ms: i64,
    pub blocked_until_ms: i64,
}

/// What is known of the limits, for all requests and for each group.
#[derive(Debug)]
pub struct RateLimitState {
    pub global_blocked_until_ms: i64,
    pub buckets: Vec<(String, RateLimitBucket)>,
}

/// The content of a [`RateLimitState`].
pub struct Limits {
    pub global_blocked_until_ms: i64,
    pub buckets: Map<Seq<char>, RateLimitBucket>,
}

/// The first bucket of a group.
pub open spec fn bucket_in(
    buckets: Seq<(Seq<char>, RateLimitBucket)>,
    group: Seq<char>,
) -> Option<RateLimitBucket>
    decreases buckets.len(),
{
    if buckets.len() == 0 {
        None
    } else if buckets[0].0 == group {
        Some(buckets[0].1)
    } else {
        bucket_in(buckets.drop_first(), group)
    }
}

pub open spec fn bucket_seq(buckets: Seq<(String, RateLimitBucket)>) -> Seq<
    (Seq<char>, RateLimitBucket),
> {
    Seq::new(buckets.len(), |i: int| (buckets[i].0@, buckets[i].1))
}

impl View for RateLimitState {
    type V = Limits;

    open spec fn view(&self) -> Limits {
        let buckets = bucket_seq(self.buckets@);
        Limits {
            global_blocked_until_ms: self.global_blocked_until_ms,
            buckets: Map::new(
                |group: Seq<char>| bucket_in(buckets, group) is Some,
                |group: Seq<char>| bucket_in(buckets, group)->Some_0,
            ),
        }
    }
}

/// A time that a clock can show.
pub open spec fn clock_time(ms: int) -> bool {
    0 <= ms <= CLOCK_MAX_MS
}

/// Buckets were updated at times that a clock can show, and no block ends
/// before the epoch.
pub open spec fn limits_wf(limits: Limits) -> bool {
    &&& limits.global_blocked_until_ms >= 0
    &&& forall|group: Seq<char>| #[trigger]
        limits.buckets.contains_key(group) ==> clock_time(
            limits.buckets[group].updated_at_ms as int,
        ) && limits.buckets[group].blocked_until_ms >= 0
}

/// A bucket of which nothing is known.
pub open spec fn fresh_bucket() -> RateLimitBucket {
    RateLimitBucket { sec_remaining: None, updated_at_ms: 0, blocked_until_ms: 0 }
}

/// The bucket of a group, or a fresh one.
pub open spec fn bucket_or_fresh(limits: Limits, group: Seq<char>) -> RateLimitBucket {
    if limits.buckets.contains_key(group) {
        limits.buckets[group]
    } else {
        fresh_bucket()
    }
}

pub open spec fn later(a: int, b: int) -> int {
    if a < b {
        b
    } else {
        a
    }
}

/// How long requests of a bucket wait at `now`: until its block is over, and
/// while its requests for the second are used up.
pub open spec fn bucket_wait(bucket: RateLimitBucket, now: int) -> int {
    let used_up = bucket.sec_remaining matches Some(n) && n <= 0;
    let elapsed = now - bucket.updated_at_ms;
    later(
        bucket.blocked_until_ms - now,
        if used_up && elapsed < 1000 {
            1050 - elapsed
        } else {
            0
        },
    )
}

/// How long requests of a group wait at `now`; zero where they need not.
pub open spec fn wait_needed(limits: Limits, group: Seq<char>, now: int) -> int {
    later(
        later(0, limits.global_blocked_until_ms - now),
        bucket_wait(bucket_or_fresh(limits, group), now),
    )
}

proof fn lemma_bucket_skip(
    buckets: Seq<(Seq<char>, RateLimitBucket)>,
    group: Seq<char>,
    k: int,
)
    requires
        0 <= k <= buckets.len(),
        forall|i: int| 0 <= i < k ==> (#[trigger] buckets[i]).0 != group,
    ensures
        bucket_in(buckets, group) == bucket_in(buckets.skip(k), group),
    decreases buckets.len(),
{
    if k == 0 {
        assert(buckets.skip(0) =~= buckets);
    } else {
        let rest = buckets.drop_first();
        assert forall|i: int| 0 <= i < k - 1 implies (#[trigger] rest[i]).0 != group by {
            assert(rest[i] == buckets[i + 1]);
        }
        lemma_bucket_skip(rest, group, k - 1);
        assert(rest.skip(k - 1) =~= buckets.skip(k));
        assert(buckets[0].0 != group);
    }
}

/// Changing the first bucket of a group changes that group alone.
proof fn lemma_bucket_update(
    buckets: Seq<(Seq<char>, RateLimitBucket)>,
    k: int,
    bucket: RateLimitBucket,
    other: Seq<char>,
)
    requires
        0 <= k < buckets.len(),
        forall|i: int| 0 <= i < k ==> (#[trigger] buckets[i]).0 != buckets[k].0,
    ensures
        bucket_in(buckets.update(k, (buckets[k].0, bucket)), other) == if other == buckets[k].0 {
            Some(bucket)
        } else {
            bucket_in(buckets, other)
        },
    decreases buckets.len(),
{
    let group = buckets[k].0;
    let changed = buckets.update(k, (group, bucket));
    if k == 0 {
        assert(changed.drop_first() =~= buckets.drop_first());
        assert(changed[0] == (group, bucket));
    } else {
        let rest = buckets.drop_first();
        assert(rest[k - 1] == buckets[k]);
        assert forall|i: int| 0 <= i < k - 1 implies (#[trigger] rest[i]).0 != rest[k - 1].0 by {
            assert(rest[i] == buckets[i + 1]);
        }
        lemma_bucket_update(rest, k - 1, bucket, other);
        assert(changed.drop_first() =~= rest.update(k - 1, (group, bucket)));
        assert(changed[0] == buckets[0]);
        assert(buckets[0].0 != group);
    }
}

/// Adding a bucket for a group that has none adds that group alone.
proof fn lemma_bucket_push(
    buckets: Seq<(Seq<char>, RateLimitBucket)>,
    group: Seq<char>,
    bucket: RateLimitBucket,
    other: Seq<char>,
)
    requires
        bucket_in(buckets, group) is None,
    ensures
        bucket_in(buckets.push((group, bucket)), other) == if other == group {
            Some(bucket)
        } else {
            bucket_in(buckets, other)
        },
    decreases buckets.len(),
{
    let pushed = buckets.push((group, bucket));
    if buckets.len() == 0 {
        assert(pushed[0] == (group, bucket));
        assert(pushed.drop_first() =~= Seq::<(Seq<char>, RateLimitBucket)>::empty());
        assert(bucket_in(pushed.drop_first(), other) is None);
    } else {
        assert(pushed[0] == buckets[0]);
        assert(pushed.drop_first() =~= buckets.drop_first().push((group, bucket)));
        lemma_bucket_push(buckets.drop_first(), group, bucket, other);
    }
}

impl RateLimitState {
    /// Limits of which nothing is known.
    pub fn new() -> (state: RateLimitState)
        ensures
            state@.global_blocked_until_ms == 0,
            state@.buckets == Map::<Seq<char>, RateLimitBucket>::empty(),
            limits_wf(state@),
    {
        let state = RateLimitState { global_blocked_until_ms: 0, buckets: Vec::new() };
        proof {
            assert(state@.buckets =~= Map::<Seq<char>, RateLimitBucket>::empty());
        }
        state
    }

    /// The position of a group's first bucket.
    fn position(&self, group: &str) -> (at: Option<usize>)
        ensures
            match at {
                Some(k) => {
                    &&& k < self.buckets@.len()
                    &&& self.buckets@[k as int].0@ == group@
                    &&& forall|i: int|
                        0 <= i < k ==> (#[trigger] bucket_seq(self.buckets@)[i]).0 != group@
                    &&& bucket_in(bucket_seq(self.buckets@), group@) == Some(
                        self.buckets@[k as int].1,
                    )
                },
                None => bucket_in(bucket_seq(self.buckets@), group@) is None,
            },
    {
        let ghost all = bucket_seq(self.buckets@);
        let mut i: usize = 0;
        while i < self.buckets.len()
            invariant
                i <= self.buckets@.len(),
                all == bucket_seq(self.buckets@),
                forall|k: int| 0 <= k < i ==> (#[trigger] all[k]).0 != group@,
            decreases self.buckets@.len() - i,
        {
            if same_text(self.buckets[i].0.as_str(), group) {
                proof {
                    lemma_bucket_skip(all, group@, i as int);
                    assert(all.skip(i as int)[0] == all[i as int]);
                }
                return Some(i);
            }
            i += 1;
        }
        proof {
            lemma_bucket_skip(all, group@, all.len() as int);
        }
        None
    }

    /// How long requests of a group wait at `now`; zero where they need not.
    pub fn wait_for_group(&self, group: &str, now: i64) -> (wait_ms: i64)
        requires
            limits_wf(self@),
            clock_time(now as int),
        ensures
            wait_ms == wait_needed(self@, group@, now as int),
            wait_ms >= 0,
    {
        let mut wait_ms: i64 = 0;
        if self.global_blocked_until_ms > now {
            wait_ms = self.global_blocked_until_ms - now;
        }
        match self.position(group) {
            None => {},
            Some(k) => {
                let bucket = self.buckets[k].1;
                proof {
                    assert(self@.buckets.contains_key(group@));
                }
                if bucket.blocked_until_ms > now && bucket.blocked_until_ms - now > wait_ms {
                    wait_ms = bucket.blocked_until_ms - now;
                }
                let used_up = match bucket.sec_remaining {
                    Some(n) => n <= 0,
                    None => false,
                };
                if used_up {
                    let elapsed: i64 = now - bucket.updated_at_ms;
                    if elapsed < 1000 && 1050 - elapsed > wait_ms {
                        wait_ms = 1050 - elapsed;
                    }
                }
            },
        }
        wait_ms
    }

    /// Sets the bucket of a group.
    fn set_bucket(&mut self, group: &str, bucket: RateLimitBucket)
        ensures
            final(self)@.global_blocked_until_ms == old(self)@.global_blocked_until_ms,
            final(self)@.buckets == old(self)@.buckets.insert(group@, bucket),
    {
        let ghost before = bucket_seq(self.buckets@);
        let ghost old_map = self@.buckets;
        match self.position(group) {
            Some(k) => {
                let name = self.buckets[k].0.clone();
                self.buckets.set(k, (name, bucket));
                proof {
                    let after = bucket_seq(self.buckets@);
                    assert(after =~= before.update(k as int, (group@, bucket)));
                    assert forall|other: Seq<char>| true implies #[trigger] bucket_in(after, other)
                        == (if other == group@ {
                        Some(bucket)
                    } else {
                        bucket_in(before, other)
                    }) by {
                        lemma_bucket_update(before, k as int, bucket, other);
                    }
                }
            },
            None => {
                self.buckets.push((group.to_owned(), bucket));
                proof {
                    let after = bucket_seq(self.buckets@);
                    assert(after =~= before.push((group@, bucket)));
                    assert forall|other: Seq<char>| true implies #[trigger] bucket_in(after, other)
                        == (if other == group@ {
                        Some(bucket)
                    } else {
                        bucket_in(before, other)
                    }) by {
                        lemma_bucket_push(before, group@, bucket, other);
                    }
                }
            },
        }
        proof {
            assert(self@.buckets =~= old_map.insert(group@, bucket));
        }
    }

    fn bucket(&self, group: &str) -> (bucket: RateLimitBucket)
        ensures
            bucket == bucket_or_fresh(self@, group@),
    {
        match self.position(group) {
            Some(k) => self.buckets[k].1,
            None => RateLimitBucket {
                sec_remaining: None,
                updated_at_ms: 0,
                blocked_until_ms: 0,
            },
        }
    }
}

// ---------------------------------------------------------------------------
// What responses say of the limits
// ---------------------------------------------------------------------------

/// What the sections of a `Remaining-Req` header say: the group, and the
/// requests that are left in the second. A section without an equals sign
/// spoils the header; of two sections with one key the later counts.
pub open spec fn remaining_in(sections: Seq<Seq<char>>) -> Option<(Seq<char>, Option<int>)>
    decreases sections.len(),
{
    if sections.len() == 0 {
        Some(("default"@, None))
    } else {
        match (remaining_in(sections.drop_last()), split_once_at(sections.last(), '=')) {
            (Some((group, left)), Some((key, value))) => {
                let key = ascii_lower(trimmed(key));
                let value = trimmed(value);
                if key == "group"@ {
                    Some((value, left))
                } else if key == "sec"@ {
                    Some((group, signed_value(value, i64::MAX as nat)))
                } else {
                    Some((group, left))
                }
            },
            _ => None,
        }
    }
}

/// What a `Remaining-Req` header says.
pub open spec fn remaining_requests(header: Seq<char>) -> Option<(Seq<char>, Option<int>)> {
    remaining_in(split(header, ';'))
}

pub open spec fn count_content(count: Option<i64>) -> Option<int> {
    match count {
        Some(n) => Some(n as int),
        None => None,
    }
}

/// What a `Remaining-Req` header says.
pub fn parse_remaining_requests(header: &str) -> (said: Option<(String, Option<i64>)>)
    ensures
        match said {
            Some((group, left)) => remaining_requests(header@) == Some(
                (group@, count_content(left)),
            ),
            None => remaining_requests(header@) is None,
        },
{
    let sections = split_at_char(header, ';');
    let ghost all = sections.deep_view();
    let mut group = "default".to_owned();
    let mut left: Option<i64> = None;
    let mut spoiled = false;
    let mut i: usize = 0;
    while i < sections.len()
        invariant
            i <= sections@.len(),
            all == sections.deep_view(),
            remaining_in(all.take(i as int)) == if spoiled {
                None::<(Seq<char>, Option<int>)>
            } else {
                Some((group@, count_content(left)))
            },
        decreases sections@.len() - i,
    {
        proof {
            assert(all.take(i as int + 1).drop_last() =~= all.take(i as int));
            assert(all[i as int] == sections@[i as int]@);
        }
        match split_once(sections[i].as_str(), '=') {
            None => {
                spoiled = true;
            },
            Some((key, value)) => {
                let key = to_ascii_lower(trim(key.as_str()).as_str());
                let value = trim(value.as_str());
                if same_text(key.as_str(), "group") {
                    group = value;
                } else if same_text(key.as_str(), "sec") {
                    left = parse_i64(value.as_str());
                }
            },
        }
        i += 1;
    }
    proof {
        assert(all.take(all.len() as int) =~= all);
    }
    if spoiled {
        None
    } else {
        Some((group, left))
    }
}

/// The limits after a response at `now`.
pub open spec fn limits_after_header(limits: Limits, header: Seq<char>, now: i64) -> Limits {
    match remaining_requests(header) {
        None => limits,
        Some((group, left)) => Limits {
            global_blocked_until_ms: limits.global_blocked_until_ms,
            buckets: limits.buckets.insert(
                group,
                RateLimitBucket {
                    sec_remaining: match left {
                        Some(n) => Some(n as i64),
                        None => None,
                    },
                    updated_at_ms: now,
                    blocked_until_ms: bucket_or_fresh(limits, group).blocked_until_ms,
                },
            ),
        },
    }
}

/// A wait as a signed number, the way a cast wraps it.
pub open spec fn wrapped(wait_ms: u64) -> int {
    if wait_ms > i64::MAX {
        wait_ms - 0x1_0000_0000_0000_0000
    } else {
        wait_ms as int
    }
}

/// The end of a block that begins at `now`, within the range of the clock's
/// type.
pub open spec fn block_end(now: int, wait_ms: u64) -> int {
    let end = now + wrapped(wait_ms);
    if end > i64::MAX {
        i64::MAX as int
    } else {
        end
    }
}

/// The limits after a block was imposed at `now`: no block is shortened.
pub open spec fn limits_after_block(
    limits: Limits,
    group: Seq<char>,
    wait_ms: u64,
    now: i64,
) -> Limits {
    let end = block_end(now as int, wait_ms);
    let bucket = bucket_or_fresh(limits, group);
    Limits {
        global_blocked_until_ms: later(limits.global_blocked_until_ms as int, end) as i64,
        buckets: limits.buckets.insert(
            group,
            RateLimitBucket {
                blocked_until_ms: later(bucket.blocked_until_ms as int, end) as i64,
                ..bucket
            },
        ),
    }
}

fn wrap_wait(wait_ms: u64) -> (out: i64)
    ensures
        out == wrapped(wait_ms),
{
    if wait_ms > i64::MAX as u64 {
        let below: u64 = u64::MAX - wait_ms;
        -1 - (below as i64)
    } else {
        wait_ms as i64
    }
}

impl RateLimitState {
    /// Notes what a response's `Remaining-Req` header says and gives the group
    /// that it names.
    pub fn update_remaining_req(&mut self, header: Option<&str>, now: i64) -> (group: Option<
        String,
    >)
        requires
            limits_wf(old(self)@),
            clock_time(now as int),
        ensures
            header is None ==> final(self)@ == old(self)@ && group is None,
            header matches Some(text) ==> final(self)@ == limits_after_header(
                old(self)@,
                text@,
                now,
            ),
            header matches Some(text) ==> group.deep_view() == match remaining_requests(text@) {
                Some((name, _)) => Some(name),
                None => None,
            },
            limits_wf(final(self)@),
    {
        let text = match header {
            Some(text) => text,
            None => {
                return None;
            },
        };
        match parse_remaining_requests(text) {
            None => None,
            Some((group, left)) => {
                let blocked: i64 = self.bucket(group.as_str()).blocked_until_ms;
                self.set_bucket(
                    group.as_str(),
                    RateLimitBucket {
                        sec_remaining: left,
                        updated_at_ms: now,
                        blocked_until_ms: blocked,
                    },
                );
                Some(group)
            },
        }
    }

    /// Notes that a group was blocked at `now` for a time.
    pub fn remember_temporary_block(&mut self, group: &str, wait_ms: u64, now: i64)
        requires
            limits_wf(old(self)@),
            clock_time(now as int),
        ensures
            final(self)@ == limits_after_block(old(self)@, group@, wait_ms, now),
            limits_wf(final(self)@),
    {
        let wait: i64 = wrap_wait(wait_ms);
        let end: i64 = if wait > 0 && now > i64::MAX - wait {
            i64::MAX
        } else {
            now + wait
        };
        let bucket = self.bucket(group);
        let blocked: i64 = if bucket.blocked_until_ms < end {
            end
        } else {
            bucket.blocked_until_ms
        };
        self.set_bucket(
            group,
            RateLimitBucket {
                sec_remaining: bucket.sec_remaining,
                updated_at_ms: bucket.updated_at_ms,
                blocked_until_ms: blocked,
            },
        );
        if self.global_blocked_until_ms < end {
            self.global_blocked_until_ms = end;
        }
    }
}

/// A block holds every group back: as long as it lasts, the wait is at least
/// what is left of it.
pub proof fn block_holds_every_group(
    limits: Limits,
    blocked: Seq<char>,
    wait_ms: u64,
    imposed: i64,
    other: Seq<char>,
    now: int,
)
    requires
        limits_wf(limits),
        clock_time(imposed as int),
    ensures
        wait_needed(limits_after_block(limits, blocked, wait_ms, imposed), other, now) >= later(
            limits.global_blocked_until_ms as int,
            block_end(imposed as int, wait_ms),
        ) - now,
{
}

/// A header changes nothing for the other groups.
pub proof fn header_concerns_its_group(
    limits: Limits,
    header: Seq<char>,
    seen: i64,
    other: Seq<char>,
    now: int,
)
    requires
        remaining_requests(header) matches Some((group, _)) ==> group != other,
    ensures
        wait_needed(limits_after_header(limits, header, seen), other, now) == wait_needed(
            limits,
            other,
            now,
        ),
{
}

/// A number, scaled, or the largest one where that is too large.
pub open spec fn scaled(n: nat, factor: nat) -> nat {
    if n * factor > u64::MAX {
        u64::MAX as nat
    } else {
        n * factor
    }
}

fn scale(n: u64, factor: u64) -> (out: u64)
    ensures
        out == scaled(n as nat, factor as nat),
{
    match n.checked_mul(factor) {
        Some(product) => product,
        None => u64::MAX,
    }
}

/// The time from `now` to an instant in nanoseconds. A leap second earlier in
/// the day than `now` counts as the second before it.
pub open spec fn nanos_until(date: Timestamp, now: Timestamp) -> int {
    let leap_before: int = if date.nanos >= 1_000_000_000 && date.seconds % 86_400 < now.seconds
        % 86_400 {
        1_000_000_000
    } else {
        0
    };
    date.total_nanos() - now.total_nanos() - leap_before
}

/// The whole milliseconds from `now` to an instant; zero where it has passed.
pub open spec fn millis_until(date: Timestamp, now: Timestamp) -> int {
    if nanos_until(date, now) <= 0 {
        0
    } else {
        nanos_until(date, now) / 1_000_000
    }
}

proof fn lemma_second_of_day(seconds: int)
    ensures
        (seconds - MIN_SECONDS) % 86_400 == seconds % 86_400,
{
    vstd::arithmetic::div_mod::lemma_mod_multiples_vanish(96_465_292, seconds, 86_400);
}

/// The whole milliseconds from `now` to an instant; zero where it has passed.
pub fn retry_delay_ms(date: Timestamp, now: Timestamp) -> (ms: u64)
    requires
        date.wf(),
        now.plain(),
    ensures
        ms == millis_until(date, now),
{
    let mut nanos: i128 = (date.seconds as i128 - now.seconds as i128) * 1_000_000_000i128 + (
    date.nanos as i128) - (now.nanos as i128);
    proof {
        lemma_second_of_day(date.seconds as int);
        lemma_second_of_day(now.seconds as int);
    }
    let date_second: i64 = (date.seconds - MIN_SECONDS) % 86_400;
    let now_second: i64 = (now.seconds - MIN_SECONDS) % 86_400;
    if date.nanos >= 1_000_000_000 && date_second < now_second {
        nanos = nanos - 1_000_000_000i128;
    }
    if nanos <= 0 {
        0
    } else {
        (nanos / 1_000_000) as u64
    }
}

/// How long a `Retry-After` header asks to wait: a number of seconds, or the
/// time until a date.
pub open spec fn retry_after(header: Option<Seq<char>>, now: Timestamp) -> Option<int> {
    match header {
        None => None,
        Some(text) => match unsigned_value(trimmed(text), u64::MAX as nat) {
            Some(seconds) => Some(scaled(seconds, 1000) as int),
            None => match rfc2822_instant(trimmed(text)) {
                Some(date) => Some(millis_until(date, now)),
                None => None,
            },
        },
    }
}

/// How long a `Retry-After` header asks to wait.
pub fn parse_retry_after_ms(header: Option<&str>, now: Timestamp) -> (ms: Option<u64>)
    requires
        now.plain(),
    ensures
        match ms {
            Some(n) => retry_after(header.deep_view(), now) == Some(n as int),
            None => retry_after(header.deep_view(), now) is None,
        },
{
    let text = match header {
        Some(text) => trim(text),
        None => {
            return None;
        },
    };
    if let Some(seconds) = parse_u64(text.as_str()) {
        return Some(scale(seconds, 1000));
    }
    match parse_rfc2822(text.as_str()) {
        Some(date) => Some(retry_delay_ms(date, now)),
        None => None,
    }
}

/// The text with every character that is no ASCII letter or digit as a blank.
pub open spec fn masked(s: Seq<char>) -> Seq<char> {
    Seq::new(
        s.len(),
        |i: int|
            if is_alnum(s[i]) {
                s[i]
            } else {
                ' '
            },
    )
}

fn mask(s: &str) -> (out: String)
    ensures
        out@ == masked(s@),
{
    let chars = to_chars(s);
    let mut out = String::new();
    let mut i: usize = 0;
    while i < chars.len()
        invariant
            i <= chars@.len(),
            chars@ == s@,
            out@ =~= masked(s@).take(i as int),
        decreases chars@.len() - i,
    {
        if alnum(chars[i]) {
            append_char(&mut out, chars[i]);
        } else {
            append_char(&mut out, ' ');
        }
        i += 1;
    }
    proof {
        assert(out@ =~= masked(s@));
    }
    out
}

/// The first of the words that is a number.
pub open spec fn first_number(words: Seq<Seq<char>>) -> Option<nat>
    decreases words.len(),
{
    if words.len() == 0 {
        None
    } else {
        match unsigned_value(words[0], u64::MAX as nat) {
            Some(n) => Some(n),
            None => first_number(words.drop_first()),
        }
    }
}

fn find_number(words: &Vec<String>) -> (number: Option<u64>)
    ensures
        match number {
            Some(n) => first_number(words.deep_view()) == Some(n as nat),
            None => first_number(words.deep_view()) is None,
        },
{
    let ghost all = words.deep_view();
    let mut i: usize = 0;
    proof {
        assert(all.skip(0) =~= all);
    }
    while i < words.len()
        invariant
            i <= words@.len(),
            all == words.deep_view(),
            first_number(all) == first_number(all.skip(i as int)),
        decreases words@.len() - i,
    {
        proof {
            assert(all.skip(i as int)[0] == words@[i as int]@);
            assert(all.skip(i as int).drop_first() =~= all.skip(i as int + 1));
        }
        if let Some(n) = parse_u64(words[i].as_str()) {
            return Some(n);
        }
        i += 1;
    }
    None
}

/// The length of a block that a message speaks of, in milliseconds: its first
/// number, in the unit that it names anywhere.
pub open spec fn block_window(detail: Seq<char>) -> Option<nat> {
    let text = ascii_lower(detail);
    match first_number(split(masked(text), ' ')) {
        None => None,
        Some(n) => if contains_text(text, "ms"@) {
            Some(n)
        } else if contains_text(text, "sec"@) || contains_text(text, "초"@) {
            Some(scaled(n, 1_000))
        } else if contains_text(text, "min"@) || contains_text(text, "분"@) {
            Some(scaled(n, 60_000))
        } else {
            None
        },
    }
}

/// The length of a block that a message speaks of, in milliseconds.
pub fn parse_block_window_from_detail(detail: &str) -> (ms: Option<u64>)
    ensures
        match ms {
            Some(n) => block_window(detail@) == Some(n as nat),
            None => block_window(detail@) is None,
        },
{
    let text = to_ascii_lower(detail);
    let words = split_at_char(mask(text.as_str()).as_str(), ' ');
    match find_number(&words) {
        None => None,
        Some(n) => {
            if has_text(text.as_str(), "ms") {
                Some(n)
            } else if has_text(text.as_str(), "sec") || has_text(text.as_str(), "초") {
                Some(scale(n, 1_000))
            } else if has_text(text.as_str(), "min") || has_text(text.as_str(), "분") {
                Some(scale(n, 60_000))
            } else {
                None
            }
        },
    }
}

} // verus!
