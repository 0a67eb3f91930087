//! Time formatting: the countdown until a reset instant, and the trusted
//! clock and calendar calls behind it.

use vstd::prelude::*;
use crate::text::{chars_to_string, dec_digits, push_dec};

verus! {

/// The epoch millisecond denoted by an RFC 3339 text, if it parses.  The
/// offset is part of the text, so the result depends on the text alone.
pub uninterp spec fn rfc3339_millis(s: Seq<char>) -> Option<int>;

/// Relies on chrono's `DateTime::parse_from_rfc3339` and
/// `timestamp_millis`: whether the text parses, and the instant it
/// denotes, are functions of the text alone.
#[verifier::external_body]
pub(crate) fn parse_rfc3339_millis(s: &str) -> (r: Option<i64>)
    ensures
        match r {
            Some(v) => rfc3339_millis(s@) == Some(v as int),
            None => rfc3339_millis(s@) is None,
        },
{
    chrono::DateTime::parse_from_rfc3339(s).ok().map(|d| d.timestamp_millis())
}

/// Relies on chrono's `Utc::now` and `timestamp_millis`: the current
/// instant, of which nothing can be promised.
#[verifier::external_body]
pub fn now_millis() -> i64 {
    chrono::Utc::now().timestamp_millis()
}

/// Whether chrono's calendar can represent the instant `ms` milliseconds
/// after the epoch (about 262,000 years either side of the common era);
/// a function of `ms` alone.
pub uninterp spec fn in_calendar_range(ms: u64) -> bool;

/// Relies on chrono's `DateTime::from_timestamp_millis`, `with_timezone`
/// and `format`: whether the instant is representable depends on `ms`
/// alone (named `in_calendar_range`), and the text renders it in the
/// machine's local time zone, so nothing more is stated of the text.
#[verifier::external_body]
pub(crate) fn format_local_millis(ms: u64) -> (r: Option<String>)
    ensures
        r is Some <==> in_calendar_range(ms),
{
    chrono::DateTime::from_timestamp_millis(ms as i64).map(
        |d| d.with_timezone(&chrono::Local).format("%-m/%-d/%Y, %-I:%M:%S %p").to_string(),
    )
}

/// The local-time text, or "never" where there is none.
pub fn timestamp_or_never(t: Option<String>) -> (r: String)
    ensures
        match t {
            Some(s) => r@ == s@,
            None => r@ == "never"@,
        },
{
    match t {
        Some(s) => s,
        None => String::from_str("never"),
    }
}

/// An epoch-millisecond timestamp rendered in the machine's local time
/// zone, or "never" exactly where it lies outside the calendar's range.
pub fn format_timestamp(ms: u64) -> (r: String)
    ensures
        !in_calendar_range(ms) ==> r@ == "never"@,
{
    timestamp_or_never(format_local_millis(ms))
}

/// The countdown text for `delta_secs` seconds: "now" when the instant
/// has passed, otherwise the largest non-zero units among hours, minutes
/// and seconds.
pub open spec fn countdown_chars(delta_secs: int) -> Seq<char> {
    if delta_secs <= 0 {
        "now"@
    } else {
        let h = delta_secs / 3600;
        let m = (delta_secs % 3600) / 60;
        let sec = delta_secs % 60;
        if h > 0 {
            dec_digits(h) + seq!['h'] + dec_digits(m) + seq!['m'] + dec_digits(sec) + seq!['s']
        } else if m > 0 {
            dec_digits(m) + seq!['m'] + dec_digits(sec) + seq!['s']
        } else {
            dec_digits(sec) + seq!['s']
        }
    }
}

/// Renders the countdown for a signed number of seconds.
pub fn format_countdown(delta_secs: i64) -> (r: String)
    ensures
        r@ == countdown_chars(delta_secs as int),
{
    if delta_secs <= 0 {
        return String::from_str("now");
    }
    let h: i64 = delta_secs / 3600;
    let m: i64 = (delta_secs % 3600) / 60;
    let sec: i64 = delta_secs % 60;
    let mut v: Vec<char> = Vec::new();
    if h > 0 {
        push_dec(h as u64, &mut v);
        v.push('h');
        push_dec(m as u64, &mut v);
        v.push('m');
        push_dec(sec as u64, &mut v);
        v.push('s');
        proof {
            assert(v@ =~= countdown_chars(delta_secs as int));
        }
    } else if m > 0 {
        push_dec(m as u64, &mut v);
        v.push('m');
        push_dec(sec as u64, &mut v);
        v.push('s');
        proof {
            assert(v@ =~= countdown_chars(delta_secs as int));
        }
    } else {
        push_dec(sec as u64, &mut v);
        v.push('s');
        proof {
            assert(v@ =~= countdown_chars(delta_secs as int));
        }
    }
    chars_to_string(&v)
}

/// The text shown while waiting for a reset: the countdown to the parsed
/// instant, or the raw text where it is not an RFC 3339 time.
pub open spec fn wait_chars(reset: Seq<char>, now_ms: int) -> Seq<char> {
    match rfc3339_millis(reset) {
        Some(rm) => countdown_chars((rm - now_ms) / 1000),
        None => reset,
    }
}

/// Renders the wait text for a reset-time text against the given current
/// instant.
pub fn format_reset_time(reset: &str, now_ms: i64) -> (r: String)
    ensures
        r@ == wait_chars(reset@, now_ms as int),
{
    match parse_rfc3339_millis(reset) {
        Some(rm) => {
            let delta_ms: i128 = rm as i128 - now_ms as i128;
            let delta_secs_t: i128 = delta_ms / 1000;
            let ghost_delta: Ghost<int> = Ghost((rm - now_ms) / 1000);
            proof {
                if delta_ms >= 0 {
                    assert(delta_secs_t == ghost_delta@);
                } else {
                    assert(delta_secs_t <= 0);
                    assert(ghost_delta@ <= 0);
                }
            }
            let delta_secs: i64 = delta_secs_t as i64;
            let out = format_countdown(delta_secs);
            proof {
                if delta_ms < 0 {
                    assert(countdown_chars(delta_secs as int) == countdown_chars(ghost_delta@));
                }
            }
            out
        },
        None => {
            let mut s = String::new();
            s.append(reset);
            s
        },
    }
}

} // verus!
