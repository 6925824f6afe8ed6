//! Points in time, as seconds since the Unix epoch.
use vstd::prelude::*;

verus! {

/// A point in time in UTC: whole seconds since the epoch, and nanoseconds.
#[derive(Debug, Clone, Copy, PartialEq, Eq, Structural)]
pub struct Timestamp {
    pub secs: i64,
    pub nanos: u32,
}

/// How a day and a minute are written.
pub const MINUTE_FORMAT: &'static str = "%Y-%m-%d %H:%M UTC";

/// How a time of day is written.
pub const CLOCK_FORMAT: &'static str = "%H:%M:%S UTC";

/// The whole seconds from one moment to another by the rules of `chrono`, where
/// both are moments that it can represent.
pub uninterp spec fn elapsed(
    now_secs: i64,
    now_nanos: u32,
    then_secs: i64,
    then_nanos: u32,
) -> Option<i64>;

/// The text that `chrono` writes for a moment, where it can represent it.
pub uninterp spec fn formatted(secs: i64, nanos: u32, format: Seq<char>) -> Option<Seq<char>>;

/// Within the years that `chrono` represents, and no leap second.
pub open spec fn ordinary(t: Timestamp) -> bool {
    -8_000_000_000_000 <= t.secs <= 8_000_000_000_000 && t.nanos < 1_000_000_000
}

/// The nanoseconds since the epoch.
pub open spec fn total_nanos(t: Timestamp) -> int {
    t.secs * 1_000_000_000 + t.nanos
}

/// `n / 1_000_000_000` rounded towards zero.
pub open spec fn whole_seconds(n: int) -> int {
    if n >= 0 {
        n / 1_000_000_000
    } else {
        -((-n) / 1_000_000_000)
    }
}

/// The difference of two `chrono::DateTime`s, by `chrono::TimeDelta::num_seconds`.
/// Claims for ordinary moments that it is the difference in nanoseconds,
/// rounded to whole seconds towards zero.
#[verifier::external_body]
pub(crate) fn seconds_between(now: Timestamp, then: Timestamp) -> (r: Option<i64>)
    ensures
        r == elapsed(now.secs, now.nanos, then.secs, then.nanos),
        ordinary(now) && ordinary(then) ==> r is Some && r->0 == whole_seconds(
            total_nanos(now) - total_nanos(then),
        ),
{
    let a = chrono::DateTime::from_timestamp(now.secs, now.nanos)?;
    let b = chrono::DateTime::from_timestamp(then.secs, then.nanos)?;
    Some((a - b).num_seconds())
}

/// `chrono::DateTime::format` of a moment, for the two formats in use.
#[verifier::external_body]
fn format_utc(t: Timestamp, format: &str) -> (r: Option<String>)
    requires
        format@ == MINUTE_FORMAT@ || format@ == CLOCK_FORMAT@,
    ensures
        match r {
            Some(s) => formatted(t.secs, t.nanos, format@) == Some(s@),
            None => formatted(t.secs, t.nanos, format@) is None,
        },
{
    chrono::DateTime::from_timestamp(t.secs, t.nanos).map(|d| d.format(format).to_string())
}

impl Timestamp {
    /// The day and minute, e.g. `2024-05-01 09:30 UTC`.
    pub fn minute_label(self) -> (r: Option<String>)
        ensures
            r.deep_view() == formatted(self.secs, self.nanos, MINUTE_FORMAT@),
    {
        format_utc(self, MINUTE_FORMAT)
    }

    /// The time of day, e.g. `09:30:15 UTC`.
    pub fn clock_label(self) -> (r: Option<String>)
        ensures
            r.deep_view() == formatted(self.secs, self.nanos, CLOCK_FORMAT@),
    {
        format_utc(self, CLOCK_FORMAT)
    }
}

} // verus!
