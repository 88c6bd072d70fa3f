//! Dates as written in front matter, normalized to RFC 3339 for feeds.
use vstd::prelude::*;

use crate::text::{chars_of, push_str, string_of};

verus! {

/// `s` is an RFC 3339 date-time with an offset.
pub uninterp spec fn rfc3339_parses(s: Seq<char>) -> bool;

/// `s` is a date-time without offset in the format `fmt`.
pub uninterp spec fn naive_datetime_parses(s: Seq<char>, fmt: Seq<char>) -> bool;

/// `s` is a calendar date in the format `fmt`.
pub uninterp spec fn naive_date_parses(s: Seq<char>, fmt: Seq<char>) -> bool;

/// Relies on `chrono::DateTime::parse_from_rfc3339`: whether `s` parses.
#[verifier::external_body]
fn is_rfc3339(s: &str) -> (r: bool)
    ensures
        r == rfc3339_parses(s@),
{
    chrono::DateTime::parse_from_rfc3339(s).is_ok()
}

/// Relies on `chrono::NaiveDateTime::parse_from_str`: whether `s` parses with `fmt`.
#[verifier::external_body]
fn is_naive_datetime(s: &str, fmt: &str) -> (r: bool)
    ensures
        r == naive_datetime_parses(s@, fmt@),
{
    chrono::NaiveDateTime::parse_from_str(s, fmt).is_ok()
}

/// Relies on `chrono::NaiveDate::parse_from_str`: whether `s` parses with `fmt`.
#[verifier::external_body]
fn is_naive_date(s: &str, fmt: &str) -> (r: bool)
    ensures
        r == naive_date_parses(s@, fmt@),
{
    chrono::NaiveDate::parse_from_str(s, fmt).is_ok()
}

pub const DATETIME_FORMAT: &'static str = "%Y-%m-%dT%H:%M:%S";

pub const DATE_FORMAT: &'static str = "%Y-%m-%d";

/// A front-matter date as RFC 3339: kept when it already is, `Z` added to a
/// date-time without offset, midnight UTC added to a bare date, anything else kept.
pub open spec fn normalized_date(s: Seq<char>) -> Seq<char> {
    if rfc3339_parses(s) {
        s
    } else if naive_datetime_parses(s, DATETIME_FORMAT@) {
        s + "Z"@
    } else if naive_date_parses(s, DATE_FORMAT@) {
        s + "T00:00:00Z"@
    } else {
        s
    }
}

/// Normalizes a front-matter date to RFC 3339.
pub fn normalize_date(s: &str) -> (r: String)
    ensures
        r@ == normalized_date(s@),
{
    if is_rfc3339(s) {
        return String::from_str(s);
    }
    if is_naive_datetime(s, DATETIME_FORMAT) {
        let mut v = chars_of(s);
        push_str(&mut v, "Z");
        return string_of(&v);
    }
    if is_naive_date(s, DATE_FORMAT) {
        let mut v = chars_of(s);
        push_str(&mut v, "T00:00:00Z");
        return string_of(&v);
    }
    String::from_str(s)
}

} // verus!
