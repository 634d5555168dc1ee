//! Time: the clock, and an instant written as a UTC date and time.

use vstd::prelude::*;
use vstd::string::*;

verus! {

#[verifier::external_type_specification]
#[verifier::external_body]
pub struct ExTzError(tz::error::TzError);

/// Why an event could not be rendered.
#[derive(Clone, Copy, Debug, PartialEq, Eq, Structural)]
pub enum RenderError {
    /// The clock gave no time that can be counted in seconds.
    Clock,
    /// The instant cannot be written as a UTC date and time.
    Timestamp,
}

/// How many characters a date and time take up to the seconds:
/// `YYYY-MM-DDTHH:MM:SS`.
pub const TIMESTAMP_LEN: usize = 19;

/// The full text of the UTC date and time that lies `unix_time` seconds from
/// the Unix epoch, as `tz::UtcDateTime` displays it with the nanoseconds at
/// zero; `None` where that crate cannot represent the instant.
pub uninterp spec fn utc_text(unix_time: int) -> Option<Seq<char>>;

/// The date and time of an instant cut off behind the seconds; `None` where
/// the instant has no text, or one too short to hold the seconds.
pub open spec fn timestamp_text(unix_time: int) -> Option<Seq<char>> {
    match utc_text(unix_time) {
        Some(full) => if full.len() >= TIMESTAMP_LEN {
            Some(full.subrange(0, TIMESTAMP_LEN as int))
        } else {
            None
        },
        None => None,
    }
}

/// `tz::UtcDateTime::from_timespec` with the nanoseconds at zero, and the
/// display text of the date and time it returns. Both are computed from the
/// argument alone, so the same instant always has the same text; an instant
/// out of the crate's range gives its error.
#[verifier::external_body]
fn utc_date_time_text(unix_time: i64) -> (r: Result<String, tz::error::TzError>)
    ensures
        r is Ok <==> utc_text(unix_time as int) is Some,
        r is Ok ==> utc_text(unix_time as int) == Some(r->Ok_0@),
{
    match tz::UtcDateTime::from_timespec(unix_time, 0) {
        Ok(t) => Ok(t.to_string()),
        Err(e) => Err(e),
    }
}

/// `tz::UtcDateTime::now`, as seconds from the Unix epoch. Nothing is known
/// of the value: it is whatever the system clock says.
#[verifier::external_body]
fn system_unix_time() -> (r: Result<i64, tz::error::TzError>)
{
    match tz::UtcDateTime::now() {
        Ok(t) => Ok(t.unix_time()),
        Err(e) => Err(e),
    }
}

/// Reads the clock: the seconds from the Unix epoch to now.
pub fn now() -> (r: Result<i64, RenderError>)
    ensures
        r matches Err(e) ==> e == RenderError::Clock,
{
    match system_unix_time() {
        Ok(t) => Ok(t),
        Err(_) => Err(RenderError::Clock),
    }
}

/// Writes the instant `unix_time` as a UTC date and time to the second.
pub fn timestamp(unix_time: i64) -> (r: Result<String, RenderError>)
    ensures
        match r {
            Ok(text) => timestamp_text(unix_time as int) == Some(text@),
            Err(e) => e == RenderError::Timestamp && timestamp_text(unix_time as int) is None,
        },
{
    match utc_date_time_text(unix_time) {
        Ok(full) => {
            if full.as_str().unicode_len() >= TIMESTAMP_LEN {
                Ok(full.as_str().substring_char(0, TIMESTAMP_LEN).to_owned())
            } else {
                Err(RenderError::Timestamp)
            }
        },
        Err(_) => Err(RenderError::Timestamp),
    }
}

} // verus!
