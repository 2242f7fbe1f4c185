//! Posting dates.
//!
//! Postings carry day-precision timestamps in `YYYY-MM-DD` text. The library
//! keeps them as plain year/month/day values with a total order; that order
//! is what the newest-first merge stops on.

use vstd::prelude::*;

verus! {

use crate::digits::{all_digits, digits_val, lemma_digits_val_bound, parse_u64_digits, pow10};
use vstd::string::StringSliceAdditionalSpecFns;

/// A posting date, day precision.
#[derive(Debug, Clone, Copy, PartialEq, Eq, Structural)]
pub struct Date {
    pub year: u32,
    pub month: u32,
    pub day: u32,
}

/// A date read from `YYYY-MM-DD` text: four-digit year, months one to twelve,
/// days one to thirty-one.
pub open spec fn date_wf(d: Date) -> bool {
    d.year <= 9999 && 1 <= d.month <= 12 && 1 <= d.day <= 31
}

/// A date collapsed to one integer that orders well-formed dates
/// chronologically.
pub open spec fn date_key(d: Date) -> int {
    d.year * 10000 + d.month * 100 + d.day
}

/// `a` is on or before `b`.
pub open spec fn date_le(a: Date, b: Date) -> bool {
    date_key(a) <= date_key(b)
}

impl Date {
    /// Whether this date is on or before `other`.
    pub fn le(&self, other: &Date) -> (r: bool)
        requires
            date_wf(*self),
            date_wf(*other),
        ensures
            r == date_le(*self, *other),
    {
        let a: u64 = (self.year as u64) * 10000 + (self.month as u64) * 100 + (self.day as u64);
        let b: u64 = (other.year as u64) * 10000 + (other.month as u64) * 100 + (other.day as u64);
        a <= b
    }
}

/// Posting dates order totally: any two compare, the order carries over, and
/// two well-formed dates that compare equal are the same date. This is the
/// order previews sort by, newest first.
pub proof fn lemma_date_order_total(a: Date, b: Date, c: Date)
    ensures
        date_le(a, b) || date_le(b, a),
        date_le(a, b) && date_le(b, c) ==> date_le(a, c),
        date_wf(a) && date_wf(b) && date_le(a, b) && date_le(b, a) ==> a == b,
{
}

/// Exactly the shape `YYYY-MM-DD` with months one to twelve and days one to
/// thirty-one.
pub open spec fn valid_date_bytes(s: Seq<u8>) -> bool {
    &&& s.len() == 10
    &&& s[4] == 45
    &&& s[7] == 45
    &&& all_digits(s.subrange(0, 4))
    &&& all_digits(s.subrange(5, 7))
    &&& all_digits(s.subrange(8, 10))
    &&& 1 <= digits_val(s.subrange(5, 7)) <= 12
    &&& 1 <= digits_val(s.subrange(8, 10)) <= 31
}

/// The date that `YYYY-MM-DD` text spells.
pub open spec fn date_of_bytes(s: Seq<u8>) -> Date {
    Date {
        year: digits_val(s.subrange(0, 4)) as u32,
        month: digits_val(s.subrange(5, 7)) as u32,
        day: digits_val(s.subrange(8, 10)) as u32,
    }
}

/// Reads a posting date out of `YYYY-MM-DD` text; any other shape is
/// rejected.
pub fn parse_date(s: &str) -> (r: Option<Date>)
    ensures
        r is Some <==> valid_date_bytes(s.spec_bytes()),
        r matches Some(d) ==> d == date_of_bytes(s.spec_bytes()) && date_wf(d),
{
    let b = s.as_bytes();
    if b.len() != 10 {
        return None;
    }
    if b[4] != 45 || b[7] != 45 {
        return None;
    }
    let year = match parse_u64_digits(b, 0, 4) {
        Some(v) => v,
        None => {
            return None;
        },
    };
    let month = match parse_u64_digits(b, 5, 7) {
        Some(v) => v,
        None => {
            return None;
        },
    };
    let day = match parse_u64_digits(b, 8, 10) {
        Some(v) => v,
        None => {
            return None;
        },
    };
    if month < 1 || month > 12 || day < 1 || day > 31 {
        return None;
    }
    proof {
        lemma_digits_val_bound(b@.subrange(0, 4));
        reveal_with_fuel(pow10, 5);
    }
    Some(Date { year: year as u32, month: month as u32, day: day as u32 })
}

} // verus!
