//! Spans of time.

use vstd::prelude::*;

verus! {

/// A span of time: whole seconds and the nanoseconds beyond them.
#[derive(Debug, Clone, Copy, PartialEq, Eq, Structural)]
pub struct Duration {
    pub secs: u64,
    pub nanos: u32,
}

pub open spec fn max_nanos() -> nat {
    u64::MAX as nat * 1_000_000_000 + 999_999_999
}

impl Duration {
    pub open spec fn wf(self) -> bool {
        self.nanos < 1_000_000_000
    }

    /// The span in nanoseconds.
    pub open spec fn total(self) -> nat {
        self.secs as nat * 1_000_000_000 + self.nanos as nat
    }

    /// The span of a number of milliseconds.
    pub fn from_millis(ms: u64) -> (span: Duration)
        ensures
            span.wf(),
            span.total() == ms * 1_000_000,
    {
        Duration { secs: ms / 1000, nanos: (ms % 1000) as u32 * 1_000_000 }
    }

    /// The span of a number of seconds.
    pub fn from_secs(secs: u64) -> (span: Duration)
        ensures
            span.wf(),
            span.total() == secs * 1_000_000_000,
    {
        Duration { secs, nanos: 0 }
    }

    /// The whole milliseconds of the span.
    pub fn as_millis(self) -> (ms: u128)
        requires
            self.wf(),
        ensures
            ms == self.total() / 1_000_000,
    {
        proof {
            let total = self.total();
            assert(total / 1_000_000 == self.secs * 1000 + self.nanos as nat / 1_000_000)
                by (nonlinear_arith)
                requires
                    total == self.secs as nat * 1_000_000_000 + self.nanos as nat,
            ;
        }
        self.secs as u128 * 1000 + (self.nanos / 1_000_000) as u128
    }

    /// The span a number of times, where it can be held.
    pub fn checked_mul(self, times: u32) -> (product: Option<Duration>)
        requires
            self.wf(),
        ensures
            match product {
                Some(span) => span.wf() && span.total() == self.total() * times,
                None => self.total() * times > max_nanos(),
            },
    {
        proof {
            assert(self.nanos as int * times as int <= 999_999_999 * 0xffff_ffff)
                by (nonlinear_arith)
                requires
                    self.nanos <= 999_999_999,
                    times <= 0xffff_ffff,
            ;
        }
        let nanos: u64 = self.nanos as u64 * times as u64;
        let carry: u64 = nanos / 1_000_000_000;
        let rest: u32 = (nanos % 1_000_000_000) as u32;
        let ghost product = self.total() * times;
        proof {
            let secs = self.secs as int * times as int + carry;
            assert(product == secs * 1_000_000_000 + rest) by (nonlinear_arith)
                requires
                    product == (self.secs as int * 1_000_000_000 + self.nanos as int) * times as int,
                    secs == self.secs as int * times as int + carry,
                    self.nanos as int * times as int == carry * 1_000_000_000 + rest,
            ;
        }
        match self.secs.checked_mul(times as u64) {
            None => None,
            Some(secs) => match secs.checked_add(carry) {
                None => None,
                Some(secs) => Some(Duration { secs, nanos: rest }),
            },
        }
    }

    /// The sum of two spans, or the longest span where it cannot be held.
    pub fn saturating_add(self, other: Duration) -> (sum: Duration)
        requires
            self.wf(),
            other.wf(),
        ensures
            sum.wf(),
            sum.total() == if self.total() + other.total() > max_nanos() {
                max_nanos()
            } else {
                self.total() + other.total()
            },
    {
        let nanos: u32 = self.nanos + other.nanos;
        let carry: u64 = if nanos >= 1_000_000_000 {
            1
        } else {
            0
        };
        let rest: u32 = if nanos >= 1_000_000_000 {
            nanos - 1_000_000_000
        } else {
            nanos
        };
        match self.secs.checked_add(other.secs) {
            None => Duration { secs: u64::MAX, nanos: 999_999_999 },
            Some(secs) => match secs.checked_add(carry) {
                None => Duration { secs: u64::MAX, nanos: 999_999_999 },
                Some(secs) => Duration { secs, nanos: rest },
            },
        }
    }

    /// The longer of two spans.
    pub fn longer(self, other: Duration) -> (span: Duration)
        requires
            self.wf(),
            other.wf(),
        ensures
            span.wf(),
            span.total() == if self.total() < other.total() {
                other.total()
            } else {
                self.total()
            },
    {
        if self.secs < other.secs || (self.secs == other.secs && self.nanos < other.nanos) {
            other
        } else {
            self
        }
    }
}

} // verus!
