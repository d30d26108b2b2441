//! Points in time, read and written in the notation of RFC 3339 with `chrono`.
use vstd::prelude::*;

use crate::text::{trim, trimmed};

verus! {

/// A point in time: the seconds since 1970 began in UTC, and the nanoseconds after them. During a
/// leap second the nanoseconds go on beyond a thousand million.
#[derive(Debug, Clone, Copy, PartialEq, Eq)]
pub struct UtcDateTime {
    pub seconds: i64,
    pub nanos: u32,
}

/// Whether `chrono` has such a point in time.
pub open spec fn is_instant(seconds: int, nanos: int) -> bool {
    &&& -8_334_601_228_800 <= seconds <= 8_210_266_876_799
    &&& 0 <= nanos < 2_000_000_000
    &&& nanos >= 1_000_000_000 ==> seconds % 60 == 59
}

/// The point in time that a text denotes in the notation of RFC 3339: its seconds and nanoseconds.
pub uninterp spec fn rfc3339_read(text: Seq<char>) -> Option<(i64, u32)>;

/// A point in time in UTC, in the notation of RFC 3339.
pub uninterp spec fn rfc3339_written(seconds: i64, nanos: u32) -> Seq<char>;

/// `chrono::DateTime::parse_from_rfc3339`: the point in time, by its `timestamp` and its
/// `timestamp_subsec_nanos`. It depends on the text alone, and is one that `chrono` has.
#[verifier::external_body]
fn read_rfc3339(text: &str) -> (r: Option<UtcDateTime>)
    ensures
        match r {
            Some(t) => rfc3339_read(text@) == Some((t.seconds, t.nanos)) && is_instant(
                t.seconds as int,
                t.nanos as int,
            ),
            None => rfc3339_read(text@) is None,
        },
{
    chrono::DateTime::parse_from_rfc3339(text).ok().map(|t| UtcDateTime {
        seconds: t.timestamp(),
        nanos: t.timestamp_subsec_nanos(),
    })
}

/// `chrono::DateTime::to_rfc3339` of a point in time in UTC, made from its seconds and nanoseconds.
/// The text depends on those alone. Read again it gives the same point in time, in the years from
/// 0 to 9999.
#[verifier::external_body]
fn write_rfc3339(seconds: i64, nanos: u32) -> (r: String)
    requires
        is_instant(seconds as int, nanos as int),
    ensures
        r@ == rfc3339_written(seconds, nanos),
        -62_167_219_200 <= seconds <= 253_402_300_799 ==> rfc3339_read(r@) == Some((seconds, nanos)),
{
    chrono::DateTime::from_timestamp(seconds, nanos).map(|t| t.to_rfc3339()).unwrap_or_default()
}

/// `chrono::Utc::now`: the time that the machine's clock shows. It is one that `chrono` has and not
/// before 1970: where the clock shows any other time, the call panics. Nothing else is said of it.
#[verifier::external_body]
fn utc_now() -> (r: UtcDateTime)
    ensures
        is_instant(r.seconds as int, r.nanos as int),
        0 <= r.seconds,
{
    let now = chrono::Utc::now();
    UtcDateTime { seconds: now.timestamp(), nanos: now.timestamp_subsec_nanos() }
}

/// The point in time that a text denotes, white space around it left out.
pub open spec fn datetime_of(text: Seq<char>) -> Option<(i64, u32)> {
    if trimmed(text).len() == 0 {
        None
    } else {
        rfc3339_read(trimmed(text))
    }
}

/// The seconds of the point in time that a text denotes.
pub open spec fn timestamp_of(text: Seq<char>) -> Option<i64> {
    match datetime_of(text) {
        Some(t) => Some(t.0),
        None => None,
    }
}

/// A text in UTC where it denotes a point in time; any other text as it is.
pub open spec fn normalized_time(text: Seq<char>) -> Seq<char> {
    match datetime_of(text) {
        Some(t) => rfc3339_written(t.0, t.1),
        None => text,
    }
}

/// The point in time that a text denotes, where there is one.
pub fn parse_rfc3339_to_datetime(value: Option<&str>) -> (r: Option<UtcDateTime>)
    ensures
        match value {
            Some(text) => match r {
                Some(t) => datetime_of(text@) == Some((t.seconds, t.nanos)) && is_instant(
                    t.seconds as int,
                    t.nanos as int,
                ),
                None => datetime_of(text@) is None,
            },
            None => r is None,
        },
{
    match value {
        Some(text) => {
            let raw = trim(text);
            if raw.is_empty() {
                None
            } else {
                read_rfc3339(raw)
            }
        },
        None => None,
    }
}

/// The seconds of the point in time that a text denotes.
pub fn parse_rfc3339_to_timestamp(value: &str) -> (r: Option<i64>)
    ensures
        r == timestamp_of(value@),
{
    match parse_rfc3339_to_datetime(Some(value)) {
        Some(t) => Some(t.seconds),
        None => None,
    }
}

/// A text in UTC where it denotes a point in time; any other text as it is.
pub fn normalize_timestamp_string(value: &str) -> (r: String)
    ensures
        r@ == normalized_time(value@),
{
    match parse_rfc3339_to_datetime(Some(value)) {
        Some(t) => write_rfc3339(t.seconds, t.nanos),
        None => value.to_owned(),
    }
}

/// The seconds of the present time. The latest that can come is the last second of the year 262142.
pub fn now_timestamp() -> (r: i64)
    ensures
        0 <= r <= 8_210_266_876_799,
{
    utc_now().seconds
}

/// The present time in the notation of RFC 3339. Up to the year 9999 it can be read again.
pub fn now_rfc3339() -> (r: String)
    ensures
        exists|t: UtcDateTime|
            {
                &&& is_instant(t.seconds as int, t.nanos as int)
                &&& 0 <= t.seconds
                &&& r@ == #[trigger] rfc3339_written(t.seconds, t.nanos)
                &&& t.seconds <= 253_402_300_799 ==> rfc3339_read(r@) == Some((t.seconds, t.nanos))
            },
{
    let t = utc_now();
    write_rfc3339(t.seconds, t.nanos)
}

/// The number that the 64 bits of an unsigned number denote with a sign.
pub open spec fn with_sign(n: u64) -> int {
    if n <= i64::MAX {
        n as int
    } else {
        n - 0x1_0000_0000_0000_0000
    }
}

/// A file time, given as the whole seconds since 1970 began, as a timestamp. There is none for a
/// time before 1970.
pub fn system_time_to_timestamp(seconds_since_epoch: Option<u64>) -> (r: Option<i64>)
    ensures
        match seconds_since_epoch {
            Some(n) => r == Some(with_sign(n) as i64),
            None => r is None,
        },
{
    match seconds_since_epoch {
        Some(n) => {
            if n <= 9_223_372_036_854_775_807 {
                Some(n as i64)
            } else {
                Some((n - 9_223_372_036_854_775_808) as i64 + i64::MIN)
            }
        },
        None => None,
    }
}

// ---------------------------------------------------------------------------------------------
// Laws
// ---------------------------------------------------------------------------------------------
/// A text denotes the point in time that is read from it without white space at its ends; it is written
/// anew in UTC where it denotes one, and left as it is where it does not.
pub proof fn times_are_read_as_they_stand(text: Seq<char>, seconds: i64, nanos: u32)
    ensures
        trimmed(text).len() > 0 && rfc3339_read(trimmed(text)) == Some((seconds, nanos))
            ==> timestamp_of(text) == Some(seconds) && normalized_time(text) == rfc3339_written(
            seconds,
            nanos,
        ),
        trimmed(text).len() == 0 || rfc3339_read(trimmed(text)) is None ==> timestamp_of(
            text,
        ) is None && normalized_time(text) == text,
{
}

/// Seconds that fit in 64 bits with a sign stand for themselves; any others are those that the same bits
/// denote.
pub proof fn file_times_stand_for_themselves(n: u64)
    ensures
        n < 0x8000_0000_0000_0000 ==> with_sign(n) == n,
        n >= 0x8000_0000_0000_0000 ==> with_sign(n) + 0x1_0000_0000_0000_0000 == n,
        i64::MIN <= with_sign(n) <= i64::MAX,
{
}

} // verus!
