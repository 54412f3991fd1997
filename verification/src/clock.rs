//! The wall clock and calendar rendering, read through chrono and std.
use vstd::prelude::*;

verus! {

/// Wraps `std::time::SystemTime::now` and `duration_since(UNIX_EPOCH)`:
/// the distance of the clock from the Unix epoch in whole milliseconds
/// (`Duration::as_millis`), with `true` when the clock reads at or after the
/// epoch and `false` when it reads before it. Nothing is promised of the
/// value: it is whatever the clock says.
#[verifier::external_body]
fn epoch_distance_millis() -> (r: (bool, u128)) {
    match std::time::SystemTime::now().duration_since(std::time::UNIX_EPOCH) {
        Ok(d) => (true, d.as_millis()),
        Err(e) => (false, e.duration().as_millis()),
    }
}

/// The signed whole seconds of a clock reading `ms` milliseconds after the
/// epoch (`after`) or before it, rounded down as a Unix timestamp is, and
/// held to the `i64` range.
pub open spec fn seconds_of_reading(after: bool, ms: u128) -> int {
    let s: int = if after { (ms / 1000) as int } else { -(((ms + 999) / 1000) as int) };
    if s > i64::MAX { i64::MAX as int } else if s < i64::MIN { i64::MIN as int } else { s }
}

/// The whole seconds of a clock reading `ms` milliseconds after the epoch
/// (`after`) or before it: rounded down, held to the `i64` range.
pub fn seconds_of(after: bool, ms: u128) -> (r: i64)
    ensures
        r == seconds_of_reading(after, ms),
{
    let secs: u128 = if after { ms / 1000 } else { ms / 1000 + if ms % 1000 == 0 { 0 } else { 1 } };
    if after {
        if secs > i64::MAX as u128 { i64::MAX } else { secs as i64 }
    } else {
        if secs > i64::MAX as u128 { i64::MIN } else { -(secs as i64) }
    }
}

/// The current time in whole seconds since the Unix epoch, negative for a
/// clock that reads before it: `seconds_of` of a reading of the clock.
pub(crate) fn now_seconds() -> (r: i64)
    ensures
        exists|after: bool, ms: u128| r == #[trigger] seconds_of_reading(after, ms),
{
    let (after, ms) = epoch_distance_millis();
    seconds_of(after, ms)
}

/// The millisecond count of a clock reading `ms` milliseconds after the
/// epoch (`after`) or before it: 0 before the epoch, else the low 64 bits
/// of the count.
pub fn millis_of(after: bool, ms: u128) -> (r: u64)
    ensures
        r == millis_of_reading(after, ms),
{
    if after { (ms % 0x1_0000_0000_0000_0000) as u64 } else { 0 }
}

/// The current time in milliseconds since the Unix epoch: `millis_of` of a
/// reading of the clock.
pub fn now_millis() -> (r: u64)
    ensures
        exists|after: bool, ms: u128| #[trigger] millis_of_reading(after, ms) == r,
{
    let (after, ms) = epoch_distance_millis();
    millis_of(after, ms)
}

/// The millisecond count of a clock reading, as `now_millis` gives it.
pub open spec fn millis_of_reading(after: bool, ms: u128) -> int {
    if after { (ms % 0x1_0000_0000_0000_0000) as int } else { 0 }
}

/// The instant an RFC 3339 timestamp names, in whole seconds since the
/// Unix epoch, as `chrono` reads it; `None` when it does not parse.
pub uninterp spec fn rfc3339_seconds(s: Seq<char>) -> Option<i64>;

/// Wraps `chrono::DateTime::parse_from_rfc3339` followed by `timestamp`:
/// the contract claims that the result is `rfc3339_seconds` of the text,
/// a function of it alone.
#[verifier::external_body]
pub(crate) fn parse_rfc3339(s: &str) -> (r: Option<i64>)
    ensures
        r == rfc3339_seconds(s@),
{
    chrono::DateTime::parse_from_rfc3339(s).ok().map(|d| d.timestamp())
}

/// The UTC date and time of a Unix time as chrono renders it with the
/// pattern `%Y-%m-%d %H:%M:%S`, or `None` when chrono cannot represent it.
pub uninterp spec fn utc_datetime(secs: i64) -> Option<Seq<char>>;

/// Wraps `chrono::DateTime::from_timestamp(secs, 0)` and `format` with
/// `%Y-%m-%d %H:%M:%S`: the contract claims that the result is
/// `utc_datetime` of the seconds, a function of them alone.
#[verifier::external_body]
pub(crate) fn format_utc(secs: i64) -> (r: Option<String>)
    ensures
        match r {
            Some(s) => utc_datetime(secs) == Some(s@),
            None => utc_datetime(secs) is None,
        },
{
    chrono::DateTime::from_timestamp(secs, 0).map(|d| d.format("%Y-%m-%d %H:%M:%S").to_string())
}

/// The RFC 3339 form chrono gives a Unix time (`to_rfc3339`), or `None`
/// when chrono cannot represent it.
pub uninterp spec fn rfc3339_text(secs: i64) -> Option<Seq<char>>;

/// Wraps `chrono::DateTime::from_timestamp(secs, 0)` and `to_rfc3339`:
/// the contract claims that the result is `rfc3339_text` of the seconds.
#[verifier::external_body]
pub(crate) fn to_rfc3339(secs: i64) -> (r: Option<String>)
    ensures
        match r {
            Some(s) => rfc3339_text(secs) == Some(s@),
            None => rfc3339_text(secs) is None,
        },
{
    chrono::DateTime::from_timestamp(secs, 0).map(|d| d.to_rfc3339())
}

} // verus!
