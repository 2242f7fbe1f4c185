//! Preview records.
//!
//! A preview is the cheap part of a posting fragment: its stable key and its
//! posting date, with the raw fragment kept alongside for the full parse.
//! Previews order by posting date; pages arrive newest first, which is what
//! lets the merge stop at the first stale record.

use vstd::prelude::*;

verus! {

use crate::dates::{
    date_le, date_of_bytes, date_wf, parse_date, valid_date_bytes, Date,
};
use crate::json::{json_str_field_of, json_string_field};
use vstd::utf8::encode_utf8;

/// Why one fragment could not be parsed. A bad fragment is skipped; it never
/// fails the page or the run.
#[derive(Debug, Clone, Copy, PartialEq, Eq, Structural)]
pub enum ParseError {
    /// The fragment has no `job_url` string field.
    MissingJobUrl,
    /// The fragment has no `firstdate` string field.
    MissingDate,
    /// A date field is not `YYYY-MM-DD` text.
    BadDate,
    /// The fragment has no `html` string field.
    MissingHtml,
    /// The description sentinels do not bracket any text.
    BadDescription,
    /// The fragment has no `company` object with name and logo.
    MissingCompany,
    /// The fragment has no `title` string field.
    MissingTitle,
    /// The fragment has no `addresses` array.
    MissingLocations,
    /// An address entry lacks its text fields.
    BadLocation,
    /// An address entry's coordinates are not plain decimal numbers.
    BadCoordinates,
    /// The fragment has no `lastdate` string field.
    MissingLastDate,
}

/// The cheap facts about one posting, plus the fragment they came from.
#[derive(Debug, Clone)]
pub struct JobPreview {
    pub job_url: String,
    pub date: Date,
    pub full_post: String,
}

/// What the cheap parse of a fragment yields, phrased over the fragment text:
/// the `job_url` string field and the `firstdate` field read as a date, or
/// the error naming the first thing missing.
pub open spec fn preview_spec(fragment: Seq<char>) -> Result<(Seq<char>, Date), ParseError> {
    match json_str_field_of(fragment, "job_url"@) {
        Option::None => Result::Err(ParseError::MissingJobUrl),
        Option::Some(url) => match json_str_field_of(fragment, "firstdate"@) {
            Option::None => Result::Err(ParseError::MissingDate),
            Option::Some(ds) => if valid_date_bytes(encode_utf8(ds)) {
                Result::Ok((url, date_of_bytes(encode_utf8(ds))))
            } else {
                Result::Err(ParseError::BadDate)
            },
        },
    }
}

/// Reads the preview facts out of one fragment: its `job_url` and its
/// `firstdate`, keeping the fragment for the full parse.
pub fn parse_preview(fragment: &str) -> (r: Result<JobPreview, ParseError>)
    ensures
        match preview_spec(fragment@) {
            Result::Ok(facts) => r matches Ok(p) && p.job_url@ == facts.0 && p.date == facts.1
                && p.full_post@ == fragment@ && date_wf(p.date),
            Result::Err(e) => r == Err::<JobPreview, ParseError>(e),
        },
{
    let job_url = match json_string_field(fragment, "job_url") {
        Some(u) => u,
        None => {
            return Err(ParseError::MissingJobUrl);
        },
    };
    let date_text = match json_string_field(fragment, "firstdate") {
        Some(d) => d,
        None => {
            return Err(ParseError::MissingDate);
        },
    };
    let date = match parse_date(date_text.as_str()) {
        Some(d) => d,
        None => {
            return Err(ParseError::BadDate);
        },
    };
    Ok(JobPreview { job_url, date, full_post: fragment.to_owned() })
}

impl JobPreview {
    /// Whether this preview is already covered by the watermark: posted on or
    /// before it. Records at or past the watermark stop the merge.
    pub fn is_stale(&self, watermark: &Date) -> (r: bool)
        requires
            date_wf(self.date),
            date_wf(*watermark),
        ensures
            r == date_le(self.date, *watermark),
    {
        self.date.le(watermark)
    }
}

/// Previews in newest-first order: each record's date is on or before the one
/// before it.
pub open spec fn sorted_newest_first(dates: Seq<Date>) -> bool {
    forall|i: int, j: int| 0 <= i <= j < dates.len() ==> date_le(#[trigger] dates[j], #[trigger] dates[i])
}

} // verus!
