//! The update functions of the tasks, as far as they compute: each turns a
//! reading into a display-ready fragment, or fails.
//!
//! Three things are taken on trust from code outside this crate and named
//! here without being defined: what `chrono` writes for an instant under a
//! strftime pattern, and what the standard library makes of a text when it
//! lower-cases or trims it. Nothing here reads a clock, a file or a system
//! counter: the caller makes the reading and hands it in.

use crate::text::{decimal, pad_right, padded, push_decimal};
use crate::values::MetricError;
use vstd::prelude::*;
use vstd::string::*;

verus! {

/// The strftime pattern of the date: month name, day, year, weekday name.
pub const DATE_PATTERN: &'static str = "%b %d %Y (%a)";

/// The strftime pattern of the time of day.
pub const TIME_PATTERN: &'static str = "%H:%M:%S";

/// Width of the date within the clock fragment.
pub const DATE_WIDTH: usize = 17;

/// Width of the time of day within the clock fragment.
pub const TIME_WIDTH: usize = 8;

/// What `chrono` writes for the instant `seconds` seconds after
/// 1970-01-01 00:00:00 under the strftime pattern `pattern`; nothing if
/// `chrono` cannot represent the instant or rejects the pattern.
pub uninterp spec fn chrono_format(seconds: i64, pattern: Seq<char>) -> Option<Seq<char>>;

/// What `str::to_lowercase` makes of `text`.
pub uninterp spec fn lowercased(text: Seq<char>) -> Seq<char>;

/// What `str::trim` leaves of `text`.
pub uninterp spec fn trimmed(text: Seq<char>) -> Seq<char>;

/// A text, or the reason why there is none, with the text as characters.
pub open spec fn outcome_view(outcome: Result<String, MetricError>) -> Result<
    Seq<char>,
    MetricError,
> {
    match outcome {
        Ok(text) => Ok(text@),
        Err(error) => Err(error),
    }
}

/// The clock fragment: the date in a field of 17 characters, two spaces,
/// the time of day in a field of 8.
pub open spec fn clock_text(date: Seq<char>, time: Seq<char>) -> Seq<char> {
    pad_right(date, 17) + seq![' ', ' '] + pad_right(time, 8)
}

/// The clock fragment of the instant `seconds`: its date lower-cased and its
/// time of day; a malformed reading if `chrono` writes no date or no time.
pub open spec fn clock_text_at(seconds: i64) -> Result<Seq<char>, MetricError> {
    match (chrono_format(seconds, DATE_PATTERN@), chrono_format(seconds, TIME_PATTERN@)) {
        (Some(date), Some(time)) => Ok(clock_text(lowercased(date), time)),
        _ => Err(MetricError::Malformed),
    }
}

/// The share of memory in use, in percent, rounded down.
pub open spec fn memory_percent(total: nat, avail: nat) -> nat
    recommends
        0 < total,
        avail <= total,
{
    (100 * (total - avail) / total as int) as nat
}

/// The memory fragment of a reading: the percentage in use and a percent
/// sign; a malformed reading if the total is zero or less than what is
/// available.
pub open spec fn memory_text(total: u64, avail: u64) -> Result<Seq<char>, MetricError> {
    if total == 0 || avail > total {
        Err(MetricError::Malformed)
    } else {
        Ok(decimal(memory_percent(total as nat, avail as nat)).push('%'))
    }
}

/// Calls `chrono::DateTime::from_timestamp` and writes the result with
/// `format(pattern).write_to`. The text is claimed to be a function of the
/// two arguments, named `chrono_format`; it is absent where `chrono` has no
/// such instant or reports a formatting error.
#[verifier::external_body]
fn format_instant(seconds: i64, pattern: &str) -> (text: Option<String>)
    ensures
        chrono_format(seconds, pattern@) == match text {
            Some(written) => Some(written@),
            None => None,
        },
{
    let mut written = String::new();
    match chrono::DateTime::from_timestamp(seconds, 0) {
        Some(instant) => match instant.format(pattern).write_to(&mut written) {
            Ok(_) => Some(written),
            Err(_) => None,
        },
        None => None,
    }
}

/// Calls `str::to_lowercase`; the result is named `lowercased`.
#[verifier::external_body]
fn lowercase(text: &str) -> (lower: String)
    ensures
        lower@ == lowercased(text@),
{
    text.to_lowercase()
}

/// Calls `str::trim`; the result is named `trimmed`.
#[verifier::external_body]
fn trim(text: &str) -> (inner: &str)
    ensures
        inner@ == trimmed(text@),
{
    text.trim()
}

/// `value` followed by a percent sign.
pub fn percent_sign(value: &str) -> (out: String)
    ensures
        out@ == value@.push('%'),
{
    proof {
        reveal_strlit("%");
    }
    let mut out = String::from_str(value);
    out.append("%");
    assert(out@ =~= value@.push('%'));
    out
}

/// A percentage as a fragment: the decimal numeral and a percent sign.
pub fn percent_fragment(value: u64) -> (out: String)
    ensures
        out@ == decimal(value as nat).push('%'),
{
    proof {
        reveal_strlit("%");
    }
    let mut out = String::new();
    push_decimal(&mut out, value);
    out.append("%");
    assert(out@ =~= decimal(value as nat).push('%'));
    out
}

/// The battery fragment of the raw capacity reading: the reading without
/// surrounding white space, and a percent sign.
pub fn battery_fragment(raw: &str) -> (out: String)
    ensures
        out@ == trimmed(raw@).push('%'),
{
    percent_sign(trim(raw))
}

/// The memory fragment of a reading of total and available memory.
pub fn memory_fragment(total: u64, avail: u64) -> (out: Result<String, MetricError>)
    ensures
        outcome_view(out) == memory_text(total, avail),
{
    if total == 0 || avail > total {
        return Err(MetricError::Malformed);
    }
    let used: u128 = (total - avail) as u128;
    let percent: u128 = 100 * used / (total as u128);
    assert(percent <= 100 && percent == memory_percent(total as nat, avail as nat)) by {
        let t = total as int;
        let u = used as int;
        assert(100 * u / t <= 100) by (nonlinear_arith)
            requires
                0 <= u <= t,
                t > 0,
        ;
    }
    Ok(percent_fragment(percent as u64))
}

/// Lays out the clock fragment from a date and a time of day.
pub fn clock_fragment(date: &str, time: &str) -> (out: String)
    ensures
        out@ == clock_text(date@, time@),
{
    proof {
        reveal_strlit("  ");
        assert("  "@ =~= seq![' ', ' ']);
    }
    let mut out = padded(date, DATE_WIDTH);
    out.append("  ");
    let time = padded(time, TIME_WIDTH);
    out.append(time.as_str());
    out
}

/// The clock fragment of the local civil time `seconds` seconds after
/// 1970-01-01 00:00:00, such as `jan 01 2023 (sun)  00:00:00`.
pub fn clock_fragment_at(seconds: i64) -> (out: Result<String, MetricError>)
    ensures
        outcome_view(out) == clock_text_at(seconds),
{
    let date = match format_instant(seconds, DATE_PATTERN) {
        Some(date) => date,
        None => {
            return Err(MetricError::Malformed);
        },
    };
    let time = match format_instant(seconds, TIME_PATTERN) {
        Some(time) => time,
        None => {
            return Err(MetricError::Malformed);
        },
    };
    let date = lowercase(date.as_str());
    Ok(clock_fragment(date.as_str(), time.as_str()))
}

} // verus!
