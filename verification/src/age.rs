//! How long ago something happened, as short text.
use vstd::prelude::*;
use crate::text::{dec_repr, int_repr, string_of, append_i64};

verus! {

/// `Xd Yh`, `Xh Ym` or `Xm` (without spaces) for a non-negative number
/// of seconds, `?` for a negative one.
pub open spec fn age_text(seconds: int) -> Seq<char> {
    if seconds < 0 {
        "?"@
    } else {
        let days = seconds / 86400;
        let hours = (seconds % 86400) / 3600;
        let mins = (seconds % 3600) / 60;
        if days > 0 {
            dec_repr(days as nat) + "d"@ + dec_repr(hours as nat) + "h"@
        } else if hours > 0 {
            dec_repr(hours as nat) + "h"@ + dec_repr(mins as nat) + "m"@
        } else {
            dec_repr(mins as nat) + "m"@
        }
    }
}

/// Renders an age given in seconds, down to the minute.
pub fn format_age(seconds: i64) -> (r: String)
    ensures
        r@ == age_text(seconds as int),
{
    if seconds < 0 {
        return string_of("?");
    }
    let days = seconds / 86400;
    let hours = (seconds % 86400) / 3600;
    let mins = (seconds % 3600) / 60;
    let mut s = String::new();
    if days > 0 {
        append_i64(&mut s, days);
        s.append("d");
        append_i64(&mut s, hours);
        s.append("h");
    } else if hours > 0 {
        append_i64(&mut s, hours);
        s.append("h");
        append_i64(&mut s, mins);
        s.append("m");
    } else {
        append_i64(&mut s, mins);
        s.append("m");
    }
    s
}

/// `Ns` under a minute (negative too), else whole minutes, hours or days
/// with `m`, `h` or `d`.
pub open spec fn since_text(seconds: int) -> Seq<char> {
    if seconds < 60 {
        int_repr(seconds) + "s"@
    } else if seconds < 3600 {
        dec_repr((seconds / 60) as nat) + "m"@
    } else if seconds < 86400 {
        dec_repr((seconds / 3600) as nat) + "h"@
    } else {
        dec_repr((seconds / 86400) as nat) + "d"@
    }
}

/// The age of an object created at `created` (Unix seconds) at `now`.
pub fn format_age_since(created: Option<i64>, now: i64) -> (r: Option<String>)
    requires
        created matches Some(c) ==> i64::MIN <= now - c <= i64::MAX,
    ensures
        match created {
            Some(c) => r matches Some(s) && s@ == since_text(now - c),
            None => r is None,
        },
{
    let c = match created {
        Some(c) => c,
        None => return None,
    };
    let seconds = now - c;
    let mut s = String::new();
    if seconds < 60 {
        append_i64(&mut s, seconds);
        s.append("s");
    } else if seconds < 3600 {
        append_i64(&mut s, seconds / 60);
        s.append("m");
    } else if seconds < 86400 {
        append_i64(&mut s, seconds / 3600);
        s.append("h");
    } else {
        append_i64(&mut s, seconds / 86400);
        s.append("d");
    }
    Some(s)
}

/// `now - created` fits in an `i64`.
pub open spec fn diff_fits(now: i64, created: i64) -> bool {
    i64::MIN <= now - created <= i64::MAX
}

/// The age of an object created at `created`, now: the text for some
/// reading `now` of the clock, absent only when `now - created` would not
/// fit in an `i64`.
pub fn format_age_pub(created: Option<i64>) -> (r: Option<String>)
    ensures
        match created {
            None => r is None,
            Some(c) => match r {
                Some(s) => exists|now: i64| #[trigger] since_text(now - c) == s@,
                None => exists|now: i64| !#[trigger] diff_fits(now, c),
            },
        },
{
    let now = crate::clock::now_seconds();
    match created {
        Some(c) => {
            if (now as i128) - (c as i128) < i64::MIN as i128 || (now as i128) - (c as i128) > i64::MAX as i128 {
                assert(!diff_fits(now, c));
                return None;
            }
            let r = format_age_since(created, now);
            assert(since_text(now - c) == r.unwrap()@);
            r
        },
        None => None,
    }
}

} // verus!
