//! Instants in UTC, held as plain integers; the system clock, read through
//! std; and RFC 3339 text, read through the chrono crate.

use vstd::prelude::*;

verus! {

/// An instant in UTC: whole seconds since the Unix epoch and the
/// nanoseconds past that second (more than a second's worth only on a leap
/// second). Instants are ordered by `secs`, then by `nanos`.
#[derive(Clone, Copy, Debug, PartialEq, Eq, Structural, PartialOrd, Ord, Hash)]
pub struct Timestamp {
    pub secs: i64,
    pub nanos: u32,
}

impl Timestamp {
    /// `self` lies strictly before `other`.
    pub open spec fn before(self, other: Timestamp) -> bool {
        self.secs < other.secs || (self.secs == other.secs && self.nanos < other.nanos)
    }

    /// `self` lies at or before `other`.
    pub open spec fn not_after(self, other: Timestamp) -> bool {
        !other.before(self)
    }

    /// Whether `self` lies strictly before `other`.
    pub fn is_before(&self, other: &Timestamp) -> (r: bool)
        ensures
            r == self.before(*other),
    {
        self.secs < other.secs || (self.secs == other.secs && self.nanos < other.nanos)
    }
}

/// What chrono makes of a text as an RFC 3339 date-and-time: the instant it
/// denotes, as whole seconds and nanoseconds in UTC, or nothing where the
/// text is no such value.
pub uninterp spec fn rfc3339_instant(text: Seq<char>) -> Option<(i64, u32)>;

/// The system clock's reading, as std's `SystemTime`.
#[verifier::external_type_specification]
#[verifier::external_body]
pub struct ExSystemTime(std::time::SystemTime);

/// Relies on std's `SystemTime::now`: the current reading of the system
/// clock. Nothing is known of which reading comes.
#[verifier::external_body]
fn read_clock() -> (r: std::time::SystemTime) {
    std::time::SystemTime::now()
}

/// Relies on std's `SystemTime::duration_since(UNIX_EPOCH)`, which does not
/// panic: how far the reading lies after the Unix epoch (`Ok`) or before it
/// (`Err`, with the distance that the error carries).
#[verifier::external_body]
fn since_epoch(t: &std::time::SystemTime) -> (r: Result<core::time::Duration, core::time::Duration>) {
    match t.duration_since(std::time::UNIX_EPOCH) {
        Ok(d) => Ok(d),
        Err(e) => Err(e.duration()),
    }
}

/// std's `Duration::as_secs`: the whole seconds of a duration.
pub assume_specification[ core::time::Duration::as_secs ](d: &core::time::Duration) -> u64;

/// std's `Duration::subsec_nanos`, documented to be less than one billion.
pub assume_specification[ core::time::Duration::subsec_nanos ](d: &core::time::Duration) -> (r: u32)
    ensures
        r < 1_000_000_000,
;

/// The instant the system clock reads now. A reading beyond what `i64`
/// seconds can hold is clamped to the nearest such instant; reading the
/// clock never panics.
pub(crate) fn now() -> (r: Timestamp)
    ensures
        r.nanos < 1_000_000_000,
{
    let reading = read_clock();
    match since_epoch(&reading) {
        Ok(d) => {
            let s = d.as_secs();
            let secs: i64 = if s > i64::MAX as u64 {
                i64::MAX
            } else {
                s as i64
            };
            Timestamp { secs, nanos: d.subsec_nanos() }
        },
        Err(d) => {
            let s = d.as_secs();
            let n = d.subsec_nanos();
            if s >= i64::MAX as u64 {
                Timestamp { secs: i64::MIN, nanos: 0 }
            } else if n == 0 {
                Timestamp { secs: -(s as i64), nanos: 0 }
            } else {
                Timestamp { secs: -(s as i64) - 1, nanos: 1_000_000_000 - n }
            }
        },
    }
}

/// Relies on chrono's `DateTime::parse_from_rfc3339`, moved to UTC with
/// `with_timezone`: whether a text parses, and to which instant, depends on the
/// text alone.
#[verifier::external_body]
pub(crate) fn parse_rfc3339(text: &str) -> (r: Option<(i64, u32)>)
    ensures
        r == rfc3339_instant(text@),
{
    match chrono::DateTime::parse_from_rfc3339(text) {
        Ok(t) => {
            let t = t.with_timezone(&chrono::Utc);
            Some((t.timestamp(), t.timestamp_subsec_nanos()))
        },
        Err(_) => None,
    }
}

} // verus!
