//! Instants with a UTC offset, as RFC 3339 timestamps denote them.

use time::format_description::well_known::Rfc3339;
use time::{OffsetDateTime, UtcOffset};
use vstd::prelude::*;

verus! {

pub const NANOS_PER_SECOND: i128 = 1_000_000_000;

/// An instant (nanoseconds since the Unix epoch) and the UTC offset, in
/// seconds, in which it was written.
#[derive(Debug, Clone, Copy)]
pub struct Timestamp {
    pub unix_nanos: i128,
    pub offset_seconds: i32,
}

/// The earliest local date-time the calendar can hold, -9999-01-01T00:00:00,
/// in nanoseconds from the epoch.
pub open spec fn min_local_nanos() -> int {
    -377_705_203_200_000_000_000
}

/// The latest local date-time the calendar can hold,
/// 9999-12-31T23:59:59.999999999, in nanoseconds from the epoch.
pub open spec fn max_local_nanos() -> int {
    253_402_300_799_999_999_999
}

impl Timestamp {
    /// The local date-time of the instant, in nanoseconds from the epoch.
    pub open spec fn local_nanos(self) -> int {
        self.unix_nanos + self.offset_seconds * NANOS_PER_SECOND
    }

    /// The local date-time stays within the calendar when moved `seconds`
    /// forward.
    pub open spec fn room_after(self, seconds: int) -> bool {
        self.local_nanos() + seconds * NANOS_PER_SECOND <= max_local_nanos()
    }

    /// The local date-time stays within the calendar when moved `seconds`
    /// back.
    pub open spec fn room_before(self, seconds: int) -> bool {
        min_local_nanos() <= self.local_nanos() - seconds * NANOS_PER_SECOND
    }
}

/// The instant and offset that an RFC 3339 timestamp denotes, or `None`
/// where the text is not one.
pub uninterp spec fn rfc3339_instant(text: Seq<char>) -> Option<(i128, i32)>;

/// `time::OffsetDateTime::parse(text, &Rfc3339)`, read as its
/// `unix_timestamp_nanos` and the whole seconds of its offset. The contract
/// claims only that the result is a function of `text`.
#[verifier::external_body]
pub(crate) fn parse_rfc3339(text: &str) -> (r: Option<Timestamp>)
    ensures
        match rfc3339_instant(text@) {
            Some((unix_nanos, offset_seconds)) => r matches Some(t) && t.unix_nanos == unix_nanos
                && t.offset_seconds == offset_seconds,
            None => r is None,
        },
{
    match OffsetDateTime::parse(text, &Rfc3339) {
        Ok(t) => Some(Timestamp { unix_nanos: t.unix_timestamp_nanos(), offset_seconds: t.offset().whole_seconds() }),
        Err(_) => None,
    }
}

/// Whether the local date-time of `now` stays within the calendar when moved
/// `seconds` forward.
pub fn has_room_after(now: &Timestamp, seconds: u32) -> (r: bool)
    ensures
        r == now.room_after(seconds as int),
{
    let latest: i128 = 253_402_300_799_999_999_999;
    let bound = latest - (seconds as i128) * NANOS_PER_SECOND - (now.offset_seconds as i128)
        * NANOS_PER_SECOND;
    now.unix_nanos <= bound
}

/// Whether the local date-time of `now` stays within the calendar when moved
/// `seconds` back.
pub fn has_room_before(now: &Timestamp, seconds: u32) -> (r: bool)
    ensures
        r == now.room_before(seconds as int),
{
    let earliest: i128 = -377_705_203_200_000_000_000;
    let bound = earliest + (seconds as i128) * NANOS_PER_SECOND - (now.offset_seconds as i128)
        * NANOS_PER_SECOND;
    bound <= now.unix_nanos
}

/// Whether `now` leaves room for both windows that admission applies to it:
/// the clock skew forward and the event age back.
pub fn clock_has_room(now: &Timestamp) -> (r: bool)
    ensures
        r == (now.room_after(60) && now.room_before(900)),
{
    has_room_after(now, 60) && has_room_before(now, 900)
}

/// Reads an admission time written in RFC 3339: the instant and the offset
/// it denotes, or `None` where the text is not such a timestamp.
pub fn parse_admission_time(text: &str) -> (r: Option<Timestamp>)
    ensures
        match rfc3339_instant(text@) {
            Some((unix_nanos, offset_seconds)) => r matches Some(t) && t.unix_nanos == unix_nanos
                && t.offset_seconds == offset_seconds,
            None => r is None,
        },
{
    parse_rfc3339(text)
}

/// The RFC 3339 text of the local date-time `local_nanos` (nanoseconds from
/// 1970-01-01T00:00:00, read as a wall-clock time) written with the UTC
/// offset `offset_seconds`, or `None` where it has none.
pub uninterp spec fn rfc3339_local_text(local_nanos: i128, offset_seconds: i32) -> Option<Seq<char>>;

/// `time::OffsetDateTime::format(&Rfc3339)` on the date-time whose local
/// part is `local_nanos` and whose offset is `offset_seconds`
/// (`from_unix_timestamp_nanos` for the wall-clock time,
/// `UtcOffset::from_whole_seconds`, then `replace_offset`, which keeps the
/// date and time). The contract claims only that the result is a function of
/// the two arguments.
#[verifier::external_body]
fn format_local_rfc3339(local_nanos: i128, offset_seconds: i32) -> (r: Option<String>)
    ensures
        match rfc3339_local_text(local_nanos, offset_seconds) {
            Some(text) => r matches Some(s) && s@ == text,
            None => r is None,
        },
{
    let offset = UtcOffset::from_whole_seconds(offset_seconds).ok()?;
    let wall_clock = OffsetDateTime::from_unix_timestamp_nanos(local_nanos).ok()?;
    wall_clock.replace_offset(offset).format(&Rfc3339).ok()
}

/// The RFC 3339 text of a timestamp, written in its own offset: `None` where
/// its local date-time lies outside the calendar or the text cannot be made.
pub open spec fn admission_time_text(t: Timestamp) -> Option<Seq<char>> {
    if min_local_nanos() <= t.local_nanos() <= max_local_nanos() {
        rfc3339_local_text(t.local_nanos() as i128, t.offset_seconds)
    } else {
        None
    }
}

/// Writes a timestamp in RFC 3339, in its own offset, as the admission
/// evidence records it.
pub fn format_admission_time(t: &Timestamp) -> (r: Option<String>)
    ensures
        match admission_time_text(*t) {
            Some(text) => r matches Some(s) && s@ == text,
            None => r is None,
        },
{
    if !has_room_after(t, 0) || !has_room_before(t, 0) {
        return None;
    }
    let local = t.unix_nanos + (t.offset_seconds as i128) * NANOS_PER_SECOND;
    format_local_rfc3339(local, t.offset_seconds)
}

} // verus!
