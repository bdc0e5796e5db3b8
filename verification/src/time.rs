//! Points in time, and their written forms.
use vstd::prelude::*;

use chrono::DateTime;

verus! {

/// The first and the last second that a calendar date is computed for.
pub const MIN_SECS: i64 = -8_334_601_228_800;

pub const MAX_SECS: i64 = 8_210_266_876_799;

/// A point in time: whole seconds since the start of 1970 in UTC, and the
/// nanoseconds after that second.
#[derive(Clone, Copy, Debug, PartialEq, Eq, Structural)]
pub struct Timestamp {
    pub secs: i64,
    pub nanos: u32,
}

impl Timestamp {
    /// Whether there is a calendar date for this point in time.
    pub open spec fn has_date(self) -> bool {
        &&& MIN_SECS <= self.secs <= MAX_SECS
        &&& self.nanos < 1_000_000_000
    }

    /// Whether this point in time is not before `other`.
    pub open spec fn not_before(self, other: Timestamp) -> bool {
        self.secs > other.secs || (self.secs == other.secs && self.nanos >= other.nanos)
    }

    /// A point in time for which there is a calendar date.
    pub fn new(secs: i64, nanos: u32) -> (r: Option<Timestamp>)
        ensures
            match r {
                Some(at) => at == (Timestamp { secs, nanos }) && at.has_date(),
                None => !(Timestamp { secs, nanos }).has_date(),
            },
    {
        if MIN_SECS <= secs && secs <= MAX_SECS && nanos < 1_000_000_000 {
            Some(Timestamp { secs, nanos })
        } else {
            None
        }
    }

    /// Whether this point in time is at or after `other`.
    pub fn is_at_or_after(&self, other: &Timestamp) -> (r: bool)
        ensures
            r == self.not_before(*other),
    {
        self.secs > other.secs || (self.secs == other.secs && self.nanos >= other.nanos)
    }
}

/// The pattern of the `last-modified` header.
pub open spec fn http_pattern() -> Seq<char> {
    "%a, %d %b %Y %H:%M:%S GMT"@
}

/// The pattern of a date in a directory listing.
pub open spec fn listing_pattern() -> Seq<char> {
    "%d-%b-%Y %H:%M"@
}

/// The text that `DateTime::<Utc>::format` gives for a point in time and a
/// pattern.
pub uninterp spec fn utc_text(secs: i64, nanos: u32, pattern: Seq<char>) -> Seq<char>;

/// The text that `DateTime::<Utc>::to_rfc3339` gives for a point in time.
pub uninterp spec fn rfc3339_text(secs: i64, nanos: u32) -> Seq<char>;

/// The point in time that `DateTime::parse_from_rfc2822` reads from a text, if
/// it reads one: seconds and nanoseconds, these at a leap second up to two
/// billion.
pub uninterp spec fn rfc2822_instant(text: Seq<char>) -> Option<(i64, u32)>;

/// `DateTime::<Utc>::format`: the point in time, which has a calendar date,
/// written after one of the two patterns that are used here. The text depends
/// on nothing else.
#[verifier::external_body]
pub(crate) fn format_utc(at: Timestamp, pattern: &str) -> (r: String)
    requires
        at.has_date(),
        pattern@ == http_pattern() || pattern@ == listing_pattern(),
    ensures
        r@ == utc_text(at.secs, at.nanos, pattern@),
{
    DateTime::from_timestamp(at.secs, at.nanos).expect("a calendar date").format(pattern).to_string()
}

/// `DateTime::<Utc>::to_rfc3339`: the precise form of a point in time that has
/// a calendar date. The text depends on nothing else.
#[verifier::external_body]
pub(crate) fn format_rfc3339(at: Timestamp) -> (r: String)
    requires
        at.has_date(),
    ensures
        r@ == rfc3339_text(at.secs, at.nanos),
{
    DateTime::from_timestamp(at.secs, at.nanos).expect("a calendar date").to_rfc3339()
}

/// `DateTime::parse_from_rfc2822`: the point in time that a text stands for,
/// taken as seconds and nanoseconds in UTC. It depends on the text alone. A text
/// that `last-modified` carries, for a year of four digits, is read back as the
/// second that it was written for.
#[verifier::external_body]
pub(crate) fn parse_rfc2822(text: &str) -> (r: Option<(i64, u32)>)
    ensures
        r == rfc2822_instant(text@),
        forall|secs: i64, nanos: u32|
            -62_167_219_200 <= secs <= 253_402_300_799 && nanos < 1_000_000_000 && text@
                == #[trigger] utc_text(secs, nanos, http_pattern()) ==> r == Some((secs, 0u32)),
{
    DateTime::parse_from_rfc2822(text).ok().map(|t| (t.timestamp(), t.timestamp_subsec_nanos()))
}

/// The modification time that the fields `st_mtime` and `st_mtime_nsec` of a
/// `stat` give: none where it lies before 1970 or where the nanoseconds are not
/// below one second.
pub fn openat_modified(st_mtime: i64, st_mtime_nsec: i64) -> (r: Option<Timestamp>)
    ensures
        r == if st_mtime >= 0 && 0 <= st_mtime_nsec < 1_000_000_000 {
            Some(Timestamp { secs: st_mtime, nanos: st_mtime_nsec as u32 })
        } else {
            None
        },
{
    if st_mtime < 0 || st_mtime_nsec < 0 || st_mtime_nsec >= 1_000_000_000 {
        None
    } else {
        Some(Timestamp { secs: st_mtime, nanos: st_mtime_nsec as u32 })
    }
}

} // verus!
