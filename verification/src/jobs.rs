//! The structured job record and its parts.

use vstd::prelude::*;

verus! {

use crate::dates::{date_wf, Date};
use crate::digits::valid_decimal;
use vstd::utf8::encode_utf8;

/// The posting's stable key: the URL it was found under.
#[derive(Debug, Clone)]
pub struct JobUrl(pub String);

/// The posting's headline.
#[derive(Debug, Clone)]
pub struct Title(pub String);

/// The posting's description text, extracted from embedded HTML.
#[derive(Debug, Clone)]
pub struct Description(pub String);

/// One tag from the static keyword dictionary that the description matched.
#[derive(Debug, Clone)]
pub struct JobTag {
    pub name: String,
}

/// The textual facts about one posting.
#[derive(Debug, Clone)]
pub struct JobInfo {
    pub job_url: JobUrl,
    pub title: Title,
    pub description: Description,
    pub job_tags: Vec<JobTag>,
}

/// The company behind a posting.
#[derive(Debug, Clone)]
pub struct CompanyInfo {
    pub name: String,
    pub logo_url: String,
}

/// One work location: an address and its coordinates. The coordinates are
/// kept as the validated decimal text of the fragment; the library never
/// computes on them.
#[derive(Debug, Clone)]
pub struct Location {
    pub address: String,
    pub latitude: String,
    pub longitude: String,
}

/// A contact phone number.
#[derive(Debug, Clone)]
pub struct PhoneNumber(pub String);

/// Contact facts for a posting.
#[derive(Debug, Clone)]
pub struct ContactInfo {
    pub name: String,
    pub phone_number: PhoneNumber,
    pub email: String,
}

/// A row key handed back by the store.
#[derive(Debug, Clone, Copy, PartialEq, Eq, Structural)]
pub struct JobId(pub u64);

/// A fully parsed posting.
#[derive(Debug, Clone)]
pub struct Job {
    pub job_info: JobInfo,
    pub created_at: Date,
    pub last_date: Option<Date>,
    pub company_info: CompanyInfo,
    pub locations: Vec<Location>,
    pub contact_info: Option<ContactInfo>,
}

/// A posting a user applied to.
#[derive(Debug, Clone)]
pub struct JobApplication {
    pub job: Job,
}

/// The applications a user holds.
#[derive(Debug, Clone)]
pub struct JobApplications {
    pub applications: Vec<JobApplication>,
}

/// A location parsed from a fragment: its coordinate texts are plain decimal
/// numbers.
pub open spec fn location_wf(l: Location) -> bool {
    valid_decimal(encode_utf8(l.latitude@)) && valid_decimal(encode_utf8(l.longitude@))
}

/// A job the parser hands out: its dates are well-formed and its locations
/// carry plain decimal coordinates.
pub open spec fn job_wf(job: Job) -> bool {
    &&& date_wf(job.created_at)
    &&& (job.last_date matches Some(d) ==> date_wf(d))
    &&& forall|i: int| 0 <= i < job.locations@.len() ==> location_wf(#[trigger] job.locations@[i])
}

} // verus!
