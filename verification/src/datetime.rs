//! Calendar dates, converted and parsed by the `mail-parser` crate.

use vstd::prelude::*;

verus! {

/// A calendar date and time of day with its offset from GMT, field for
/// field as `mail_parser::DateTime` holds it.
#[derive(Debug, Clone, Copy, PartialEq, Eq, Structural)]
pub struct DateTime {
    pub year: u16,
    pub month: u8,
    pub day: u8,
    pub hour: u8,
    pub minute: u8,
    pub second: u8,
    pub tz_before_gmt: bool,
    pub tz_hour: u8,
    pub tz_minute: u8,
}

/// What `mail_parser::DateTime::parse_rfc3339` reads from a text.
pub uninterp spec fn rfc3339_date(text: Seq<char>) -> Option<DateTime>;

/// What `mail_parser::DateTime::to_timestamp` gives for a date: seconds
/// since the Unix epoch.
pub uninterp spec fn date_timestamp(date: DateTime) -> i64;

/// What `mail_parser::DateTime::from_timestamp` gives for a number of
/// seconds since the Unix epoch.
pub uninterp spec fn timestamp_date(timestamp: i64) -> DateTime;

/// Parses an RFC 3339 date with `mail_parser::DateTime::parse_rfc3339`.
/// That function scans the bytes of the text with fixed-size counters; it
/// neither panics nor reads anything but its argument. The contract only
/// names its result.
#[verifier::external_body]
pub(crate) fn parse_rfc3339(value: &str) -> (r: Option<DateTime>)
    ensures
        r == rfc3339_date(value@),
{
    let d = mail_parser::DateTime::parse_rfc3339(value)?;
    Some(
        DateTime {
            year: d.year, month: d.month, day: d.day,
            hour: d.hour, minute: d.minute, second: d.second,
            tz_before_gmt: d.tz_before_gmt, tz_hour: d.tz_hour, tz_minute: d.tz_minute,
        },
    )
}

/// Seconds since the Unix epoch, by `mail_parser::DateTime::to_timestamp`.
/// That function is plain 64-bit arithmetic on the fields, which cannot
/// overflow for any field values. The contract only names its result.
#[verifier::external_body]
pub(crate) fn to_timestamp(date: &DateTime) -> (r: i64)
    ensures
        r == date_timestamp(*date),
{
    let d = mail_parser::DateTime {
        year: date.year, month: date.month, day: date.day,
        hour: date.hour, minute: date.minute, second: date.second,
        tz_before_gmt: date.tz_before_gmt, tz_hour: date.tz_hour, tz_minute: date.tz_minute,
    };
    d.to_timestamp()
}

/// The date of a number of seconds since the Unix epoch, by
/// `mail_parser::DateTime::from_timestamp`. That function is total: it
/// uses Euclidean division and truncating casts only. The contract only
/// names its result.
#[verifier::external_body]
pub(crate) fn from_timestamp(timestamp: i64) -> (r: DateTime)
    ensures
        r == timestamp_date(timestamp),
{
    let d = mail_parser::DateTime::from_timestamp(timestamp);
    DateTime {
        year: d.year, month: d.month, day: d.day,
        hour: d.hour, minute: d.minute, second: d.second,
        tz_before_gmt: d.tz_before_gmt, tz_hour: d.tz_hour, tz_minute: d.tz_minute,
    }
}

/// A moment given as seconds since the Unix epoch that is not in the
/// past.
#[derive(Debug, Clone, Copy, PartialEq, Eq, Structural)]
pub struct Timestamp(pub u64);

/// An unsigned number of seconds as a signed one, as a two's-complement
/// machine reads the same bits: a number above `i64::MAX` comes out
/// negative.
pub open spec fn signed_seconds(seconds: u64) -> i64 {
    if seconds <= i64::MAX {
        seconds as i64
    } else {
        (seconds - 0x1_0000_0000_0000_0000) as i64
    }
}

/// An unsigned number of seconds as a signed one.
pub fn to_signed(seconds: u64) -> (r: i64)
    ensures
        r == signed_seconds(seconds),
{
    if seconds <= 0x7fff_ffff_ffff_ffff {
        seconds as i64
    } else {
        -((u64::MAX - seconds) as i64) - 1
    }
}

/// The timestamp for the moment `seconds` at time `now`: the moment
/// itself where it is neither before the epoch nor before `now`; any
/// other moment lies in the past and is refused.
pub open spec fn timestamp_at(seconds: i64, now: u64) -> Result<Timestamp, ()> {
    if seconds >= 0 && seconds >= now {
        Ok(Timestamp(seconds as u64))
    } else {
        Err(())
    }
}

impl Timestamp {
    /// The seconds since the Unix epoch.
    pub fn into_inner(self) -> (r: u64)
        ensures
            r == self.0,
    {
        self.0
    }

    /// The timestamp for the moment `seconds` at time `now`; a moment in
    /// the past, and so every moment before the epoch, is refused.
    pub fn at(seconds: i64, now: u64) -> (r: Result<Timestamp, ()>)
        ensures
            r == timestamp_at(seconds, now),
    {
        if seconds < 0 {
            return Err(());
        }
        let instant = seconds as u64;
        if instant >= now {
            Ok(Timestamp(instant))
        } else {
            Err(())
        }
    }

    /// Decides on a parsed date: its moment where that is `now` or later;
    /// refused where it lies in the past or there is no date.
    pub fn from_date(date: Option<DateTime>, now: u64) -> (r: Result<Timestamp, ()>)
        ensures
            r == match date {
                Some(d) => timestamp_at(date_timestamp(d), now),
                None => Err(()),
            },
    {
        match date {
            Some(d) => Timestamp::at(to_timestamp(&d), now),
            None => Err(()),
        }
    }

    /// Reads an RFC 3339 date at time `now`; a text that is no date, or a
    /// date in the past, is refused.
    pub fn from_str(s: &str, now: u64) -> (r: Result<Timestamp, ()>)
        ensures
            r == match rfc3339_date(s@) {
                Some(d) => timestamp_at(date_timestamp(d), now),
                None => Err(()),
            },
    {
        Timestamp::from_date(parse_rfc3339(s), now)
    }
}

} // verus!
