//! Spans of time and moments on a monotonic clock, counted in nanoseconds.

use std::time::Instant as StdInstant;
use vstd::prelude::*;

verus! {

/// A span of time.
#[derive(Debug, Clone, Copy, PartialEq, Eq, Structural)]
pub struct Duration {
    pub nanos: u128,
}

/// The longest span: `u64::MAX` seconds and 999 999 999 nanoseconds.
pub const MAX_DURATION_NANOS: u128 = 18_446_744_073_709_551_615_999_999_999;

/// The latest moment that a clock can name: `i64::MAX` seconds after its start.
pub const MAX_INSTANT_NANOS: u128 = 9_223_372_036_854_775_807_000_000_000;

/// What std's `Debug` prints for a duration of that many whole seconds and
/// nanoseconds.
pub uninterp spec fn duration_text(secs: u64, nanos: u32) -> Seq<char>;

/// The `Debug` text of `std::time::Duration`, as `duration_text` names it.
#[verifier::external_body]
fn debug_text(secs: u64, nanos: u32) -> (text: String)
    requires
        nanos < 1_000_000_000,
    ensures
        text@ == duration_text(secs, nanos),
{
    format!("{:?}", std::time::Duration::new(secs, nanos))
}

/// A span as std shows it, such as `300ms` or `60s`.
pub open spec fn shown_duration(d: Duration) -> Seq<char> {
    duration_text((d.nanos / 1_000_000_000) as u64, (d.nanos % 1_000_000_000) as u32)
}

impl Duration {
    /// The span as a text, such as `300ms` or `60s`.
    pub fn show(&self) -> (text: String)
        ensures
            text@ == shown_duration(*self),
    {
        debug_text((self.nanos / 1_000_000_000) as u64, (self.nanos % 1_000_000_000) as u32)
    }

    /// No time at all.
    pub fn zero() -> (d: Duration)
        ensures
            d.nanos == 0,
    {
        Duration { nanos: 0 }
    }

    /// The longest span.
    pub fn max() -> (d: Duration)
        ensures
            d.nanos == MAX_DURATION_NANOS,
    {
        Duration { nanos: MAX_DURATION_NANOS }
    }

    /// A span of whole seconds.
    pub fn from_secs(secs: u64) -> (d: Duration)
        ensures
            d.nanos == secs * 1_000_000_000,
    {
        Duration { nanos: secs as u128 * 1_000_000_000 }
    }

    /// A span of whole milliseconds.
    pub fn from_millis(millis: u64) -> (d: Duration)
        ensures
            d.nanos == millis * 1_000_000,
    {
        Duration { nanos: millis as u128 * 1_000_000 }
    }

    /// Whether the span is empty.
    pub fn is_zero(&self) -> (zero: bool)
        ensures
            zero == (self.nanos == 0),
    {
        self.nanos == 0
    }
}

/// A moment on a [`Clock`], counted from the clock's start.
#[derive(Debug, Clone, Copy, PartialEq, Eq, Structural)]
pub struct Instant {
    pub nanos: u128,
}

impl Instant {
    /// The moment `span` later, or `None` where no clock can name it.
    pub fn checked_add(self, span: Duration) -> (later: Option<Instant>)
        ensures
            match later {
                Some(t) => t.nanos == self.nanos + span.nanos && self.nanos + span.nanos
                    <= MAX_INSTANT_NANOS,
                None => self.nanos + span.nanos > MAX_INSTANT_NANOS,
            },
    {
        if self.nanos > MAX_INSTANT_NANOS || span.nanos > MAX_INSTANT_NANOS - self.nanos {
            None
        } else {
            Some(Instant { nanos: self.nanos + span.nanos })
        }
    }

    /// The time that has passed since `earlier`; none if it lies ahead.
    pub fn saturating_duration_since(self, earlier: Instant) -> (span: Duration)
        ensures
            span.nanos == elapsed(earlier.nanos as int, self.nanos as int),
    {
        if self.nanos >= earlier.nanos {
            Duration { nanos: self.nanos - earlier.nanos }
        } else {
            Duration { nanos: 0 }
        }
    }
}

/// The time from one moment to another; none if the second comes first.
pub open spec fn elapsed(from: int, to: int) -> int {
    if to >= from {
        to - from
    } else {
        0
    }
}

/// std's monotonic moment.
#[verifier::external_type_specification]
#[verifier::external_body]
pub struct ExStdInstant(StdInstant);

/// `std::time::Instant::now`: the present moment, of which nothing is claimed.
#[verifier::external_body]
fn present() -> (now: StdInstant) {
    StdInstant::now()
}

/// `std::time::Instant::elapsed`, as whole seconds and the nanoseconds beyond
/// them, of which there are always less than a second's. Nothing else is
/// claimed of the two: they depend on when the call is made.
#[verifier::external_body]
fn time_since(start: &StdInstant) -> (span: (u64, u32))
    ensures
        span.1 < 1_000_000_000,
{
    let span = start.elapsed();
    (span.as_secs(), span.subsec_nanos())
}

/// A monotonic clock that counts from its own start.
#[derive(Debug)]
pub struct Clock {
    start: StdInstant,
}

impl Clock {
    /// A clock that starts now. Nothing can be said of which moment that is.
    pub fn start() -> (clock: Clock) {
        Clock { start: present() }
    }

    /// The present moment on this clock. It lies no further from the clock's
    /// start than the longest span, so the time between any two readings is a
    /// span. Which moment it is depends on when the call is made.
    pub fn now(&self) -> (now: Instant)
        ensures
            now.nanos <= MAX_DURATION_NANOS,
    {
        let (secs, nanos) = time_since(&self.start);
        Instant { nanos: secs as u128 * 1_000_000_000 + nanos as u128 }
    }
}

/// Between a moment and a later one passes the time between them; a moment that
/// lies ahead is no time ago.
pub proof fn law_elapsed(from: int, to: int)
    ensures
        to >= from ==> from + elapsed(from, to) == to,
        to < from ==> elapsed(from, to) == 0,
{
}

/// A span is shown by its whole seconds and the nanoseconds left over.
pub proof fn law_shown_duration(d: Duration, secs: u64, nanos: u32)
    requires
        d.nanos == secs * 1_000_000_000 + nanos,
        nanos < 1_000_000_000,
    ensures
        shown_duration(d) == duration_text(secs, nanos),
{
    assert(d.nanos / 1_000_000_000 == secs);
    assert(d.nanos % 1_000_000_000 == nanos);
}

} // verus!
