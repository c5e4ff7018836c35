//! Date literals of the query language.
//!
//! A relative date is `-` followed by a count and a unit (`h`, `d` or `m`):
//! that many hours, days or minutes before the present.  An absolute date is an
//! RFC 3339 timestamp or a `YYYY-MM-DD` day (midnight UTC).  Pattern matching is
//! done by the `regex` crate and calendar arithmetic by `chrono`; their results
//! are named here, and what the library does with them is stated over the names.
use vstd::prelude::*;
use crate::cql::ast::{CqlError, SpecCqlError, SpecValue, decimal_text_as_u64, invalid_value, Value, number_as_u64};
use crate::text::{concat, owned, parse_u64, str_eq, u64_text_value};

verus! {

/// The pattern of a relative date.
pub const RELATIVE_DATE_PATTERN: &'static str = "^-(\\d+)([hdm])$";

/// The `chrono` format of a date-only literal.
pub const DAY_FORMAT: &'static str = "%Y-%m-%d";

pub const MS_PER_MINUTE: u64 = 60000;
pub const MS_PER_HOUR: u64 = 3600000;
pub const MS_PER_DAY: u64 = 86400000;

// ---------------------------------------------------------------------------
// What the outside crates compute, by name
// ---------------------------------------------------------------------------

/// Whether the `regex` crate's regular expression `pattern` matches `text`
/// (`false` when the pattern does not compile).
pub uninterp spec fn regex_matches(pattern: Seq<char>, text: Seq<char>) -> bool;

/// The capture groups (group 0 first) of the first match of the `regex`
/// crate's regular expression `pattern` in `text`; a group that took no part
/// in the match is `None`.  `None` when there is no match or the pattern does
/// not compile.
pub uninterp spec fn regex_capture_groups(pattern: Seq<char>, text: Seq<char>) -> Option<Seq<Option<Seq<char>>>>;

/// The Unix time in milliseconds of an RFC 3339 timestamp, as `chrono` reads
/// it; `None` when `chrono` rejects the text.
pub uninterp spec fn rfc3339_millis(text: Seq<char>) -> Option<i64>;

/// The Unix time in milliseconds of midnight UTC of the day that `chrono`
/// reads from `text` with the format `format`; `None` when it rejects it.
pub uninterp spec fn day_start_millis(text: Seq<char>, format: Seq<char>) -> Option<i64>;

/// Compiles `pattern` with `regex::Regex::new` and tests `text` with
/// `Regex::is_match`.  The contract only names the result; a pattern that does
/// not compile gives `false`.
#[verifier::external_body]
pub fn regex_is_match(pattern: &str, text: &str) -> (r: bool)
    ensures
        r == regex_matches(pattern@, text@),
{
    match regex::Regex::new(pattern) {
        Ok(re) => re.is_match(text),
        Err(_) => false,
    }
}

/// The view of capture groups.
pub open spec fn groups_view(g: Option<Vec<Option<String>>>) -> Option<Seq<Option<Seq<char>>>> {
    match g {
        Some(v) => Some(v@.map_values(|o: Option<String>| match o {
            Some(s) => Some(s@),
            None => None,
        })),
        None => None,
    }
}

/// Compiles `pattern` with `regex::Regex::new` and calls `Regex::captures` on
/// `text`, handing back the text of each group.  The contract only names the
/// result; a pattern that does not compile gives `None`.
#[verifier::external_body]
pub fn regex_captures(pattern: &str, text: &str) -> (r: Option<Vec<Option<String>>>)
    ensures
        groups_view(r) == regex_capture_groups(pattern@, text@),
{
    let re = match regex::Regex::new(pattern) {
        Ok(re) => re,
        Err(_) => return None,
    };
    let caps = re.captures(text)?;
    let mut groups: Vec<Option<String>> = Vec::new();
    for g in caps.iter() {
        groups.push(match g {
            Some(m) => Some(m.as_str().to_string()),
            None => None,
        });
    }
    Some(groups)
}

/// Calls `chrono::DateTime::parse_from_rfc3339` and, on success,
/// `DateTime::timestamp_millis`.  The contract only names the result.
#[verifier::external_body]
pub fn parse_rfc3339_millis(text: &str) -> (r: Option<i64>)
    ensures
        r == rfc3339_millis(text@),
{
    match chrono::DateTime::parse_from_rfc3339(text) {
        Ok(dt) => Some(dt.timestamp_millis()),
        Err(_) => None,
    }
}

/// Calls `chrono::NaiveDate::parse_from_str(text, format)`, then
/// `NaiveDate::and_hms_opt(0, 0, 0)`, reads the result as UTC with
/// `DateTime::<Utc>::from_naive_utc_and_offset` and takes
/// `DateTime::timestamp_millis`.  The contract only names the result.
#[verifier::external_body]
pub fn parse_day_start_millis(text: &str, format: &str) -> (r: Option<i64>)
    ensures
        r == day_start_millis(text@, format@),
{
    match chrono::NaiveDate::parse_from_str(text, format) {
        Ok(day) => match day.and_hms_opt(0, 0, 0) {
            Some(dt) => Some(chrono::DateTime::<chrono::Utc>::from_naive_utc_and_offset(dt, chrono::Utc).timestamp_millis()),
            None => None,
        },
        Err(_) => None,
    }
}

/// Reads the system clock: milliseconds since the Unix epoch (`SystemTime::now`
/// and `SystemTime::duration_since(UNIX_EPOCH)`, then `Duration::as_millis`
/// cut to 64 bits).  Nothing is promised of the value; a clock set before 1970
/// reads as 0.
#[verifier::external_body]
pub fn unix_time_ms() -> (r: u64) {
    match std::time::SystemTime::now().duration_since(std::time::UNIX_EPOCH) {
        Ok(d) => d.as_millis() as u64,
        Err(_) => 0,
    }
}

// ---------------------------------------------------------------------------
// Relative dates
// ---------------------------------------------------------------------------

/// Whether a string literal is a relative date.
pub open spec fn is_relative_date(s: Seq<char>) -> bool {
    regex_matches(RELATIVE_DATE_PATTERN@, s)
}

pub fn relative_date_matches(s: &str) -> (r: bool)
    ensures
        r == is_relative_date(s@),
{
    regex_is_match(RELATIVE_DATE_PATTERN, s)
}

/// Milliseconds in one unit of a relative date.
pub open spec fn unit_millis(unit: Seq<char>) -> Option<u64> {
    if unit == "h"@ {
        Some(MS_PER_HOUR)
    } else if unit == "d"@ {
        Some(MS_PER_DAY)
    } else if unit == "m"@ {
        Some(MS_PER_MINUTE)
    } else {
        None
    }
}

/// The timestamp a relative date `value` denotes at time `now`, given the
/// capture groups of the relative-date pattern in `value`: group 1 is the
/// count and group 2 the unit.  The arithmetic wraps around on overflow.
pub open spec fn relative_date_from_groups(
    value: Seq<char>,
    groups: Option<Seq<Option<Seq<char>>>>,
    now: u64,
) -> Result<u64, SpecCqlError> {
    match groups {
        Some(g) if g.len() >= 3 && g[1] is Some && g[2] is Some => {
            match u64_text_value(g[1]->0) {
                None => Err(invalid_value("Invalid number in relative date: "@ + value)),
                Some(amount) => match unit_millis(g[2]->0) {
                    Some(unit) => Ok(now.wrapping_sub(amount.wrapping_mul(unit))),
                    None => Err(invalid_value("Invalid time unit: "@ + g[2]->0)),
                },
            }
        },
        _ => Err(invalid_value("Invalid relative date format: "@ + value)),
    }
}

/// The timestamp a relative date denotes at time `now`.
pub open spec fn relative_date(value: Seq<char>, now: u64) -> Result<u64, SpecCqlError> {
    relative_date_from_groups(value, regex_capture_groups(RELATIVE_DATE_PATTERN@, value), now)
}

/// The view of a date result.
pub open spec fn date_result_view(r: Result<u64, CqlError>) -> Result<u64, SpecCqlError> {
    match r {
        Ok(t) => Ok(t),
        Err(e) => Err(e@),
    }
}

fn unit_in_millis(unit: &str) -> (r: Option<u64>)
    ensures
        r == unit_millis(unit@),
{
    if str_eq(unit, "h") {
        Some(MS_PER_HOUR)
    } else if str_eq(unit, "d") {
        Some(MS_PER_DAY)
    } else if str_eq(unit, "m") {
        Some(MS_PER_MINUTE)
    } else {
        None
    }
}

/// The timestamp of a relative date at time `now`, from the capture groups of
/// the relative-date pattern in `value`.
pub fn relative_date_with_groups(
    value: &str,
    groups: &Option<Vec<Option<String>>>,
    now: u64,
) -> (r: Result<u64, CqlError>)
    ensures
        date_result_view(r) == relative_date_from_groups(value@, groups_view(*groups), now),
{
    let format_error = || -> (e: CqlError)
        ensures
            e@ == invalid_value("Invalid relative date format: "@ + value@),
    { CqlError::invalid_value(concat("Invalid relative date format: ", value)) };
    match groups {
        Some(g) => {
            if g.len() < 3 {
                return Err(format_error());
            }
            let ghost gv = groups_view(*groups)->0;
            assert(gv[1] == (match g@[1] { Some(s) => Some(s@), None => None }));
            assert(gv[2] == (match g@[2] { Some(s) => Some(s@), None => None }));
            match (&g[1], &g[2]) {
                (Some(count), Some(unit)) => {
                    match parse_u64(count.as_str()) {
                        None => Err(CqlError::invalid_value(concat("Invalid number in relative date: ", value))),
                        Some(amount) => match unit_in_millis(unit.as_str()) {
                            Some(ms) => Ok(now.wrapping_sub(amount.wrapping_mul(ms))),
                            None => Err(CqlError::invalid_value(concat("Invalid time unit: ", unit.as_str()))),
                        },
                    }
                },
                _ => Err(format_error()),
            }
        },
        None => Err(format_error()),
    }
}

/// The timestamp a relative date denotes at time `now`.
pub fn parse_relative_date(value: &str, now: u64) -> (r: Result<u64, CqlError>)
    ensures
        date_result_view(r) == relative_date(value@, now),
{
    let groups = regex_captures(RELATIVE_DATE_PATTERN, value);
    relative_date_with_groups(value, &groups, now)
}

// ---------------------------------------------------------------------------
// Absolute dates
// ---------------------------------------------------------------------------

/// The timestamp of an absolute date, given what `chrono` read from it as an
/// RFC 3339 timestamp (`rfc`) and as a day (`day`); the first reading wins,
/// and a negative time wraps around to a large unsigned one.
pub open spec fn absolute_date_from(value: Seq<char>, rfc: Option<i64>, day: Option<i64>) -> Result<u64, SpecCqlError> {
    match rfc {
        Some(ms) => Ok(ms as u64),
        None => match day {
            Some(ms) => Ok(ms as u64),
            None => Err(invalid_value("Invalid date format: "@ + value)),
        },
    }
}

/// The timestamp of an absolute date.
pub open spec fn absolute_date(value: Seq<char>) -> Result<u64, SpecCqlError> {
    absolute_date_from(value, rfc3339_millis(value), day_start_millis(value, DAY_FORMAT@))
}

/// The timestamp of an absolute date from the two readings of `chrono`.
pub fn absolute_date_with(value: &str, rfc: Option<i64>, day: Option<i64>) -> (r: Result<u64, CqlError>)
    ensures
        date_result_view(r) == absolute_date_from(value@, rfc, day),
{
    match rfc {
        Some(ms) => Ok(ms as u64),
        None => match day {
            Some(ms) => Ok(ms as u64),
            None => Err(CqlError::invalid_value(concat("Invalid date format: ", value))),
        },
    }
}

/// The timestamp of an absolute date: an RFC 3339 timestamp, else a
/// `YYYY-MM-DD` day at midnight UTC.
pub fn parse_absolute_date(value: &str) -> (r: Result<u64, CqlError>)
    ensures
        date_result_view(r) == absolute_date(value@),
{
    let rfc = parse_rfc3339_millis(value);
    if rfc.is_some() {
        return absolute_date_with(value, rfc, None);
    }
    let day = parse_day_start_millis(value, DAY_FORMAT);
    absolute_date_with(value, rfc, day)
}

// ---------------------------------------------------------------------------
// Date values
// ---------------------------------------------------------------------------

/// The timestamp a literal denotes at time `now`: a relative or absolute date,
/// a string read first as a relative date and then as an absolute one, or a
/// number read as an unsigned integer.
pub open spec fn date_value(v: SpecValue, now: u64) -> Result<u64, SpecCqlError> {
    match v {
        SpecValue::Date(s, relative) => if relative {
            relative_date(s, now)
        } else {
            absolute_date(s)
        },
        SpecValue::Str(s) => match relative_date(s, now) {
            Ok(t) => Ok(t),
            Err(_) => absolute_date(s),
        },
        SpecValue::Number(t) => Ok(decimal_text_as_u64(t)),
        SpecValue::List(_) => Err(invalid_value("Expected date value"@)),
    }
}

/// The timestamp a literal denotes at time `now`, as [`date_value`] says.
pub fn parse_date_value(value: &Value, now: u64) -> (r: Result<u64, CqlError>)
    ensures
        date_result_view(r) == date_value(value@, now),
{
    match value {
        Value::Date { value, relative } => {
            if *relative {
                parse_relative_date(value.as_str(), now)
            } else {
                parse_absolute_date(value.as_str())
            }
        },
        Value::String { value } => {
            match parse_relative_date(value.as_str(), now) {
                Ok(ts) => Ok(ts),
                Err(_) => parse_absolute_date(value.as_str()),
            }
        },
        Value::Number { value } => Ok(number_as_u64(value.as_str())),
        Value::List { .. } => Err(CqlError::invalid_value(owned("Expected date value"))),
    }
}

} // verus!
