//! Points in time, and their texts.
use vstd::prelude::*;

verus! {

/// The first and the last second that has a date, counted from the start of
/// 1970: the years from -262143 to 262142.
pub const EARLIEST: i64 = -8_334_601_228_800;

pub const LATEST: i64 = 8_210_266_876_799;

/// The text of a point in time: RFC 3339, in UTC.
pub uninterp spec fn rfc3339_text(seconds: int, nanos: int) -> Seq<char>;

/// `DateTime::from_timestamp` and `DateTime::to_rfc3339` of the `chrono` crate:
/// the text of so many seconds and nanoseconds after the start of 1970, which
/// depends on the two numbers alone.
#[verifier::external_body]
pub(crate) fn to_rfc3339(seconds: i64, nanos: u32) -> (r: String)
    requires
        EARLIEST <= seconds <= LATEST,
        nanos < 1_000_000_000,
    ensures
        r@ == rfc3339_text(seconds as int, nanos as int),
{
    chrono::DateTime::<chrono::Utc>::from_timestamp(seconds, nanos).unwrap().to_rfc3339()
}

/// The text of a second, in UTC, by a pattern.
pub uninterp spec fn time_text(seconds: int, pattern: Seq<char>) -> Seq<char>;

/// `DateTime::from_timestamp` and `DateTime::format` of the `chrono` crate: the
/// date and the time of a second in UTC, written by a pattern. Fractions of a
/// second do not show in these patterns.
#[verifier::external_body]
fn format_time(seconds: i64, pattern: &str) -> (r: String)
    requires
        EARLIEST <= seconds <= LATEST,
        pattern@ == "%Y%m%d"@ || pattern@ == "%Y%m%d-%H%M%S"@,
    ensures
        r@ == time_text(seconds as int, pattern@),
{
    chrono::DateTime::<chrono::Utc>::from_timestamp(seconds, 0).unwrap().format(pattern).to_string()
}

/// The day of a point in time, as it stands in the names of files.
pub fn day_stamp(seconds: i64) -> (r: String)
    requires
        EARLIEST <= seconds <= LATEST,
    ensures
        r@ == time_text(seconds as int, "%Y%m%d"@),
{
    format_time(seconds, "%Y%m%d")
}

/// The day and time of a point in time, as they stand in the names of files.
pub fn second_stamp(seconds: i64) -> (r: String)
    requires
        EARLIEST <= seconds <= LATEST,
    ensures
        r@ == time_text(seconds as int, "%Y%m%d-%H%M%S"@),
{
    format_time(seconds, "%Y%m%d-%H%M%S")
}

} // verus!
