use vstd::prelude::*;

verus! {

/// A moment in UTC: whole seconds since 1970-01-01 00:00:00, and the nanoseconds after them.
#[derive(Clone, Copy, Debug, PartialEq, Eq, Structural)]
pub struct Timestamp {
    pub secs: i64,
    pub nanos: u32,
}

/// How long a snapshot stays fresh: five minutes, in seconds.
pub const TTL_SECS: i64 = 300;

/// The start of history, 2024-10-28 12:00:00 UTC: where the first query begins.
pub const EPOCH_ANCHOR_SECS: i64 = 1_730_116_800;

/// The last second of the year 9999.
pub const LAST_PLAIN_SECOND: i64 = 253_402_300_799;

/// The start of history as a moment.
pub open spec fn epoch_anchor() -> Timestamp {
    Timestamp { secs: EPOCH_ANCHOR_SECS, nanos: 0 }
}

/// `a` lies before `b`.
pub open spec fn is_before(a: Timestamp, b: Timestamp) -> bool {
    a.secs < b.secs || (a.secs == b.secs && a.nanos < b.nanos)
}

/// A snapshot synced at `from` is still fresh at `now`: `now` lies before `from` plus the TTL.
pub open spec fn is_fresh(from: Timestamp, now: Timestamp) -> bool {
    now.secs < from.secs + TTL_SECS || (now.secs == from.secs + TTL_SECS && now.nanos
        < from.nanos)
}

/// A moment from the year 1970 to the year 9999, with less than a second of nanoseconds.
pub open spec fn is_plain(moment: Timestamp) -> bool {
    0 <= moment.secs <= LAST_PLAIN_SECOND && moment.nanos < 1_000_000_000
}

/// The text that `chrono` writes the UTC moment as, such as `2015-05-15 00:00:00 UTC`, or
/// `None` where it has no date for the moment.
pub uninterp spec fn utc_text(secs: int, nanos: int) -> Option<Seq<char>>;

/// Calls `chrono::DateTime::from_timestamp`, which gives `None` where the seconds are out of
/// range or the nanoseconds invalid, and writes the date out with `to_string`. Trusted: that
/// the result depends on the two numbers alone, and that `chrono` has a date for every second
/// from 1970 to the end of 9999 with less than a second of nanoseconds.
#[verifier::external_body]
fn utc_to_string(secs: i64, nanos: u32) -> (text: Option<String>)
    ensures
        text.deep_view() == utc_text(secs as int, nanos as int),
        0 <= secs <= LAST_PLAIN_SECOND && nanos < 1_000_000_000 ==> text is Some,
{
    match chrono::DateTime::from_timestamp(secs, nanos) {
        Some(date) => Some(date.to_string()),
        None => None,
    }
}

impl Timestamp {
    /// The start of history.
    pub fn anchor() -> (moment: Timestamp)
        ensures
            moment == epoch_anchor(),
    {
        Timestamp { secs: EPOCH_ANCHOR_SECS, nanos: 0 }
    }

    /// Whether a snapshot synced at this moment is still fresh at `now`.
    pub fn fresh_at(&self, now: Timestamp) -> (fresh: bool)
        ensures
            fresh == is_fresh(*self, now),
    {
        if self.secs > i64::MAX - TTL_SECS {
            true
        } else {
            let end: i64 = self.secs + TTL_SECS;
            now.secs < end || (now.secs == end && now.nanos < self.nanos)
        }
    }

    /// Whether the moment is plain.
    pub fn is_plain(&self) -> (plain: bool)
        ensures
            plain == is_plain(*self),
    {
        0 <= self.secs && self.secs <= LAST_PLAIN_SECOND && self.nanos < 1_000_000_000
    }

    /// The moment as text, as a query for what was updated after it carries it. A plain
    /// moment has one.
    pub fn to_text(&self) -> (text: Option<String>)
        ensures
            text.deep_view() == utc_text(self.secs as int, self.nanos as int),
            is_plain(*self) ==> text is Some,
    {
        utc_to_string(self.secs, self.nanos)
    }
}

} // verus!
