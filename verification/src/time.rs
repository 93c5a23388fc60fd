//! Points in time and spans of time, counted in ticks of the board's clock.
//!
//! The clock ticks once per microsecond.
use vstd::prelude::*;

verus! {

/// A point in time: the ticks since the board started.
#[derive(Debug, Copy, Clone, PartialEq, Eq, Structural)]
pub struct Instant {
    pub ticks: u64,
}

/// A span of time, in ticks.
#[derive(Debug, Copy, Clone, PartialEq, Eq, Structural)]
pub struct Duration {
    pub ticks: u64,
}

/// How many ticks `millis` milliseconds are.
pub open spec fn millis_as_ticks(millis: int) -> int {
    millis * 1000
}

/// `embassy_time::Duration::from_millis`, with the span as a tick count.
///
/// The clock runs at one tick per microsecond, so a millisecond is exactly a
/// thousand ticks. The outside function multiplies without a check and then rounds up
/// by adding one before subtracting one; the bound keeps both in range.
#[verifier::external_body]
fn ticks_from_millis(millis: u64) -> (ticks: u64)
    requires
        millis_as_ticks(millis as int) < u64::MAX,
    ensures
        ticks == millis_as_ticks(millis as int),
{
    embassy_time::Duration::from_millis(millis).as_ticks()
}

/// `embassy_time::Instant`'s `+` with an `embassy_time::Duration`, on tick counts.
///
/// The tick counts add up. The outside function panics when the sum does not fit.
#[verifier::external_body]
fn ticks_later(start: u64, span: u64) -> (ticks: u64)
    requires
        start + span <= u64::MAX,
    ensures
        ticks == start + span,
{
    (embassy_time::Instant::from_ticks(start) + embassy_time::Duration::from_ticks(span)).as_ticks()
}

impl Duration {
    /// A span of `millis` milliseconds.
    pub fn from_millis(millis: u64) -> (span: Duration)
        requires
            millis_as_ticks(millis as int) < u64::MAX,
        ensures
            span.ticks == millis_as_ticks(millis as int),
            span.ticks == 1000 * millis,
    {
        Duration { ticks: ticks_from_millis(millis) }
    }
}

impl Instant {
    /// Whether the point `span` after this one can still be counted.
    pub open spec fn can_add(self, span: Duration) -> bool {
        self.ticks + span.ticks <= u64::MAX
    }

    /// The point `span` after this one.
    pub open spec fn plus(self, span: Duration) -> Instant {
        Instant { ticks: (self.ticks + span.ticks) as u64 }
    }

    /// The point `span` after this one.
    pub fn after(self, span: Duration) -> (later: Instant)
        requires
            self.can_add(span),
        ensures
            later == self.plus(span),
            later.ticks == self.ticks + span.ticks,
    {
        Instant { ticks: ticks_later(self.ticks, span.ticks) }
    }
}

/// Spans add up, as whole numbers, in either order, as long as the clock can count that far.
pub proof fn spans_add_up(start: Instant, a: Duration, b: Duration)
    requires
        start.ticks + a.ticks + b.ticks <= u64::MAX,
    ensures
        start.plus(a).ticks == start.ticks + a.ticks,
        start.plus(a).plus(b).ticks == start.ticks + a.ticks + b.ticks,
        start.plus(a).plus(b) == start.plus(b).plus(a),
{
}

/// A span can be added exactly if the clock can count that far.
pub proof fn span_fits_or_not(start: Instant, span: Duration)
    ensures
        start.can_add(span) <==> start.ticks + span.ticks < 0x1_0000_0000_0000_0000,
{
}

/// Every millisecond has a thousand ticks more.
pub proof fn millisecond_has_a_thousand_ticks(millis: int)
    ensures
        millis_as_ticks(0) == 0,
        millis_as_ticks(millis + 1) - millis_as_ticks(millis) == 1000,
        millis_as_ticks(millis) == 1000 * millis,
{
}

} // verus!
