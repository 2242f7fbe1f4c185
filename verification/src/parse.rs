//! The full parse of a posting fragment.
//!
//! A fragment's `html` field embeds the description between fixed sentinel
//! substrings, with paragraph tags sprinkled through it; the fragment further
//! carries the company, the title, the posting URL, the work addresses and
//! the last application date. The full parse pulls all of that into a `Job`.

use vstd::prelude::*;

verus! {

use crate::dates::{date_of_bytes, date_wf, parse_date, valid_date_bytes, Date};
use crate::digits::{is_valid_decimal, valid_decimal};
use crate::find::{find_first, find_sub, lemma_find_sub};
use crate::jobs::{
    job_wf, CompanyInfo, Description, Job, JobInfo, JobTag, JobUrl, Location, Title,
};
use crate::json::{
    json_array_fragments, json_fragments_of, json_raw_field, json_raw_field_of, json_str_field_of,
    json_string_field,
};
use crate::preview::{JobPreview, ParseError};
use crate::tags::{dict_view, extract_jobs_tags, spec_tags};
use vstd::string::StringSliceAdditionalSpecFns;
use vstd::utf8::{encode_utf8, valid_utf8};

/// The bytes of `<p>`.
pub open spec fn p_open() -> Seq<u8> {
    seq![60u8, 112u8, 62u8]
}

/// The bytes of `</p>`.
pub open spec fn p_close() -> Seq<u8> {
    seq![60u8, 47u8, 112u8, 62u8]
}

/// The text with every `<p>` and `</p>` deleted, scanning left to right.
pub open spec fn strip_tags(s: Seq<u8>) -> Seq<u8>
    decreases s.len(),
{
    if s.len() == 0 {
        Seq::empty()
    } else if s.len() >= 3 && s.subrange(0, 3) == p_open() {
        strip_tags(s.skip(3))
    } else if s.len() >= 4 && s.subrange(0, 4) == p_close() {
        strip_tags(s.skip(4))
    } else {
        seq![s[0]] + strip_tags(s.skip(1))
    }
}

/// The description bytes of an `html` field: the text between the first
/// occurrence of each sentinel, paragraph tags deleted. Nothing if a sentinel
/// is missing or they do not bracket any range.
pub open spec fn description_of_html(html: Seq<u8>, start_sent: Seq<u8>, end_sent: Seq<u8>) -> Option<
    Seq<u8>,
> {
    if start_sent.len() == 0 || end_sent.len() == 0 {
        None
    } else {
        let si = find_sub(html, start_sent);
        let ei = find_sub(html, end_sent);
        if si < 0 || ei < 0 {
            None
        } else {
            let from = si + start_sent.len();
            if from > ei {
                None
            } else {
                Some(strip_tags(html.subrange(from, ei)))
            }
        }
    }
}

/// The sentinel that opens the description inside the `html` field.
pub open spec fn start_sentinel() -> Seq<u8> {
    encode_utf8("</div>\\n\\n<p>"@)
}

/// The sentinel that closes the description inside the `html` field.
pub open spec fn end_sentinel() -> Seq<u8> {
    encode_utf8("</p>\\n"@)
}

/// Deletes every `<p>` and `</p>` from `bytes[from..to]`.
fn strip_paragraph_tags(bytes: &[u8], from: usize, to: usize) -> (r: Vec<u8>)
    requires
        from <= to <= bytes@.len(),
    ensures
        r@ == strip_tags(bytes@.subrange(from as int, to as int)),
{
    let mut out: Vec<u8> = Vec::new();
    let mut i: usize = from;
    proof {
        assert(out@ + strip_tags(bytes@.subrange(from as int, to as int)) =~= strip_tags(
            bytes@.subrange(from as int, to as int),
        ));
    }
    while i < to
        invariant
            from <= i <= to <= bytes@.len(),
            out@ + strip_tags(bytes@.subrange(i as int, to as int)) == strip_tags(
                bytes@.subrange(from as int, to as int),
            ),
        decreases to - i,
    {
        let ghost rest = bytes@.subrange(i as int, to as int);
        if to - i >= 3 && bytes[i] == 60 && bytes[i + 1] == 112 && bytes[i + 2] == 62 {
            proof {
                assert(rest.subrange(0, 3) =~= p_open());
                assert(rest.skip(3) =~= bytes@.subrange(i + 3, to as int));
            }
            i = i + 3;
        } else if to - i >= 4 && bytes[i] == 60 && bytes[i + 1] == 47 && bytes[i + 2] == 112
            && bytes[i + 3] == 62 {
            proof {
                if rest.len() >= 3 && rest.subrange(0, 3) == p_open() {
                    assert(rest.subrange(0, 3)[1] == 112);
                }
                assert(rest.subrange(0, 4) =~= p_close());
                assert(rest.skip(4) =~= bytes@.subrange(i + 4, to as int));
            }
            i = i + 4;
        } else {
            proof {
                if rest.len() >= 3 && rest.subrange(0, 3) == p_open() {
                    assert(rest.subrange(0, 3)[0] == 60);
                    assert(rest.subrange(0, 3)[1] == 112);
                    assert(rest.subrange(0, 3)[2] == 62);
                }
                if rest.len() >= 4 && rest.subrange(0, 4) == p_close() {
                    assert(rest.subrange(0, 4)[0] == 60);
                    assert(rest.subrange(0, 4)[1] == 47);
                    assert(rest.subrange(0, 4)[2] == 112);
                    assert(rest.subrange(0, 4)[3] == 62);
                }
                assert(rest.skip(1) =~= bytes@.subrange(i + 1, to as int));
                assert(out@.push(bytes@[i as int]) + strip_tags(bytes@.subrange(i + 1, to as int))
                    =~= out@ + (seq![rest[0]] + strip_tags(rest.skip(1))));
            }
            out.push(bytes[i]);
            i = i + 1;
        }
    }
    proof {
        assert(bytes@.subrange(i as int, to as int) =~= Seq::<u8>::empty());
        assert(out@ + strip_tags(bytes@.subrange(i as int, to as int)) =~= out@);
    }
    out
}

/// Extracts the description bytes of an `html` field, as
/// `description_of_html` names them with the two fixed sentinels.
fn extract_description(html: &str) -> (r: Option<Vec<u8>>)
    ensures
        match description_of_html(html.spec_bytes(), start_sentinel(), end_sentinel()) {
            Some(d) => r matches Some(v) && v@ == d,
            None => r is None,
        },
{
    let bytes = html.as_bytes();
    let n = bytes.len();
    let start_sent = "</div>\\n\\n<p>".as_bytes();
    let end_sent = "</p>\\n".as_bytes();
    if start_sent.len() == 0 || end_sent.len() == 0 {
        return None;
    }
    let si = match find_first(bytes, start_sent) {
        Some(i) => i,
        None => {
            return None;
        },
    };
    let ei = match find_first(bytes, end_sent) {
        Some(i) => i,
        None => {
            return None;
        },
    };
    proof {
        lemma_find_sub(bytes@, start_sent@);
        lemma_find_sub(bytes@, end_sent@);
        assert(bytes@.len() == n);
    }
    let from = si + start_sent.len();
    if from > ei {
        return None;
    }
    Some(strip_paragraph_tags(bytes, from, ei))
}

/// The description and the tags it earns, as pulled out of one `html` field.
pub struct JobIndexHtmlInfo(pub (Vec<JobTag>, Description));

impl JobIndexHtmlInfo {
    /// Tags a description against the dictionary.
    pub fn extract_jobs_tags(description: &str, dict: &Vec<(String, Vec<String>)>) -> (r: Vec<
        JobTag,
    >)
        ensures
            r@.map_values(|t: JobTag| t.name@) == spec_tags(
                description.spec_bytes(),
                dict_view(dict@),
            ),
    {
        extract_jobs_tags(description, dict)
    }

    /// Pulls the description out of an `html` field and tags it.
    pub fn parse(html: &str, dict: &Vec<(String, Vec<String>)>) -> (r: Option<JobIndexHtmlInfo>)
        ensures
            match description_of_html(html.spec_bytes(), start_sentinel(), end_sentinel()) {
                Option::Some(d) => if valid_utf8(d) {
                    r matches Some(info) && encode_utf8(info.0.1.0@) == d && info.0.0@.map_values(
                        |t: JobTag| t.name@,
                    ) == spec_tags(d, dict_view(dict@))
                } else {
                    r is None
                },
                Option::None => r is None,
            },
    {
        let bytes = match extract_description(html) {
            Some(b) => b,
            None => {
                return None;
            },
        };
        let text = match crate::scanner::bytes_to_string(bytes) {
            Some(t) => t,
            None => {
                return None;
            },
        };
        let tags = extract_jobs_tags(text.as_str(), dict);
        Some(JobIndexHtmlInfo((tags, Description(text))))
    }
}

/// The textual facts of one parsed location./// The textual facts of one parsed location.
#[verifier::ext_equal]
pub struct LocationFacts {
    pub address: Seq<char>,
    pub latitude: Seq<char>,
    pub longitude: Seq<char>,
}

/// A location as its text.
pub open spec fn loc_view(l: Location) -> LocationFacts {
    LocationFacts { address: l.address@, latitude: l.latitude@, longitude: l.longitude@ }
}

/// What parsing one address entry yields: its city, address text and zip code
/// must be present, its coordinates must be plain decimal numbers; the
/// address and the coordinate texts are kept.
pub open spec fn location_spec(fragment: Seq<char>) -> Result<LocationFacts, ParseError> {
    match json_str_field_of(fragment, "city"@) {
        Option::None => Result::Err(ParseError::BadLocation),
        Option::Some(_) => match json_str_field_of(fragment, "simple_string"@) {
            Option::None => Result::Err(ParseError::BadLocation),
            Option::Some(addr) => match json_str_field_of(fragment, "zipcode"@) {
                Option::None => Result::Err(ParseError::BadLocation),
                Option::Some(_) => match json_raw_field_of(fragment, "coordinates"@) {
                    Option::None => Result::Err(ParseError::BadCoordinates),
                    Option::Some(coords) => match json_raw_field_of(coords, "latitude"@) {
                        Option::None => Result::Err(ParseError::BadCoordinates),
                        Option::Some(lat) => match json_raw_field_of(coords, "longitude"@) {
                            Option::None => Result::Err(ParseError::BadCoordinates),
                            Option::Some(lon) => if valid_decimal(encode_utf8(lat))
                                && valid_decimal(encode_utf8(lon)) {
                                Result::Ok(
                                    LocationFacts { address: addr, latitude: lat, longitude: lon },
                                )
                            } else {
                                Result::Err(ParseError::BadCoordinates)
                            },
                        },
                    },
                },
            },
        },
    }
}

/// What parsing a whole address array yields: every entry must parse; the
/// first bad one names the error.
pub open spec fn locations_spec(frags: Seq<Seq<char>>) -> Result<Seq<LocationFacts>, ParseError>
    decreases frags.len(),
{
    if frags.len() == 0 {
        Result::Ok(Seq::empty())
    } else {
        match location_spec(frags[0]) {
            Result::Err(e) => Result::Err(e),
            Result::Ok(l) => match locations_spec(frags.drop_first()) {
                Result::Err(e) => Result::Err(e),
                Result::Ok(rest) => Result::Ok(seq![l] + rest),
            },
        }
    }
}

/// Parses one address entry.
fn parse_location(fragment: &str) -> (r: Result<Location, ParseError>)
    ensures
        match location_spec(fragment@) {
            Result::Ok(f) => r matches Ok(l) && loc_view(l) == f && crate::jobs::location_wf(l),
            Result::Err(e) => r == Err::<Location, ParseError>(e),
        },
{
    if json_string_field(fragment, "city").is_none() {
        return Err(ParseError::BadLocation);
    }
    let address = match json_string_field(fragment, "simple_string") {
        Some(a) => a,
        None => {
            return Err(ParseError::BadLocation);
        },
    };
    if json_string_field(fragment, "zipcode").is_none() {
        return Err(ParseError::BadLocation);
    }
    let coords = match json_raw_field(fragment, "coordinates") {
        Some(c) => c,
        None => {
            return Err(ParseError::BadCoordinates);
        },
    };
    let latitude = match json_raw_field(coords.as_str(), "latitude") {
        Some(v) => v,
        None => {
            return Err(ParseError::BadCoordinates);
        },
    };
    let longitude = match json_raw_field(coords.as_str(), "longitude") {
        Some(v) => v,
        None => {
            return Err(ParseError::BadCoordinates);
        },
    };
    if !is_valid_decimal(latitude.as_str().as_bytes()) {
        return Err(ParseError::BadCoordinates);
    }
    if !is_valid_decimal(longitude.as_str().as_bytes()) {
        return Err(ParseError::BadCoordinates);
    }
    Ok(Location { address, latitude, longitude })
}

/// Parses the whole address array; every entry must parse.
fn parse_locations(fragments: &Vec<String>) -> (r: Result<Vec<Location>, ParseError>)
    ensures
        match locations_spec(fragments@.map_values(|s: String| s@)) {
            Result::Ok(fs) => r matches Ok(v) && v@.map_values(|l: Location| loc_view(l)) == fs && (
            forall|i: int| 0 <= i < v@.len() ==> crate::jobs::location_wf(#[trigger] v@[i])),
            Result::Err(e) => r == Err::<Vec<Location>, ParseError>(e),
        },
{
    let ghost fview = fragments@.map_values(|s: String| s@);
    let mut out: Vec<Location> = Vec::new();
    let mut i: usize = 0;
    proof {
        assert(fview.skip(0) =~= fview);
    }
    while i < fragments.len()
        invariant
            i <= fragments@.len(),
            fview == fragments@.map_values(|s: String| s@),
            forall|k: int| 0 <= k < out@.len() ==> crate::jobs::location_wf(#[trigger] out@[k]),
            match locations_spec(fview.skip(i as int)) {
                Result::Ok(rest) => locations_spec(fview) == Result::Ok::<
                    Seq<LocationFacts>,
                    ParseError,
                >(out@.map_values(|l: Location| loc_view(l)) + rest),
                Result::Err(e) => locations_spec(fview) == Result::Err::<
                    Seq<LocationFacts>,
                    ParseError,
                >(e),
            },
        decreases fragments@.len() - i,
    {
        proof {
            assert(fview.skip(i as int)[0] == fview[i as int]);
            assert(fview.skip(i as int).drop_first() =~= fview.skip(i + 1));
        }
        match parse_location(fragments[i].as_str()) {
            Ok(loc) => {
                proof {
                    let prev = out@.map_values(|l: Location| loc_view(l));
                    assert(out@.push(loc).map_values(|l: Location| loc_view(l)) =~= prev.push(
                        loc_view(loc),
                    ));
                    match locations_spec(fview.skip(i + 1)) {
                        Result::Ok(rest) => {
                            assert(prev.push(loc_view(loc)) + rest =~= prev + (seq![loc_view(loc)]
                                + rest));
                        },
                        Result::Err(_) => {},
                    }
                }
                out.push(loc);
            },
            Err(e) => {
                return Err(e);
            },
        }
        i = i + 1;
    }
    proof {
        assert(fview.skip(i as int) =~= Seq::<Seq<char>>::empty());
        assert(out@.map_values(|l: Location| loc_view(l)) + Seq::<LocationFacts>::empty() =~= out@
            .map_values(|l: Location| loc_view(l)));
    }
    Ok(out)
}

/// The textual facts of one fully parsed posting, short of its creation date,
/// which the preview already carries.
#[verifier::ext_equal]
pub struct JobFacts {
    pub job_url: Seq<char>,
    pub title: Seq<char>,
    pub description_bytes: Seq<u8>,
    pub tags: Seq<Seq<char>>,
    pub company_name: Seq<char>,
    pub company_logo: Seq<char>,
    pub locations: Seq<LocationFacts>,
    pub last_date: Date,
}

/// What the full parse of a fragment yields, phrased over the fragment text:
/// the description between the sentinels of its `html` field with the tags it
/// earns from the dictionary, the company, the title, the posting URL, the
/// parsed addresses and the last application date — or the first error met,
/// checked in that order.
pub open spec fn full_spec(fragment: Seq<char>, dict: Seq<(Seq<char>, Seq<Seq<char>>)>) -> Result<
    JobFacts,
    ParseError,
> {
    match json_str_field_of(fragment, "html"@) {
        Option::None => Result::Err(ParseError::MissingHtml),
        Option::Some(html) => match description_of_html(
            encode_utf8(html),
            start_sentinel(),
            end_sentinel(),
        ) {
            Option::None => Result::Err(ParseError::BadDescription),
            Option::Some(d) => if !valid_utf8(d) {
                Result::Err(ParseError::BadDescription)
            } else {
                match json_raw_field_of(fragment, "company"@) {
                    Option::None => Result::Err(ParseError::MissingCompany),
                    Option::Some(c) => match json_str_field_of(c, "name"@) {
                        Option::None => Result::Err(ParseError::MissingCompany),
                        Option::Some(cname) => match json_str_field_of(c, "get_logo_company"@) {
                            Option::None => Result::Err(ParseError::MissingCompany),
                            Option::Some(clogo) => match json_str_field_of(fragment, "title"@) {
                                Option::None => Result::Err(ParseError::MissingTitle),
                                Option::Some(title) => match json_str_field_of(
                                    fragment,
                                    "job_url"@,
                                ) {
                                    Option::None => Result::Err(ParseError::MissingJobUrl),
                                    Option::Some(url) => match json_raw_field_of(
                                        fragment,
                                        "addresses"@,
                                    ) {
                                        Option::None => Result::Err(ParseError::MissingLocations),
                                        Option::Some(adr) => match json_fragments_of(adr) {
                                            Option::None => Result::Err(
                                                ParseError::MissingLocations,
                                            ),
                                            Option::Some(frags) => match locations_spec(frags) {
                                                Result::Err(e) => Result::Err(e),
                                                Result::Ok(locs) => match json_str_field_of(
                                                    fragment,
                                                    "lastdate"@,
                                                ) {
                                                    Option::None => Result::Err(
                                                        ParseError::MissingLastDate,
                                                    ),
                                                    Option::Some(ld) => if valid_date_bytes(
                                                        encode_utf8(ld),
                                                    ) {
                                                        Result::Ok(
                                                            JobFacts {
                                                                job_url: url,
                                                                title: title,
                                                                description_bytes: d,
                                                                tags: spec_tags(d, dict),
                                                                company_name: cname,
                                                                company_logo: clogo,
                                                                locations: locs,
                                                                last_date: date_of_bytes(
                                                                    encode_utf8(ld),
                                                                ),
                                                            },
                                                        )
                                                    } else {
                                                        Result::Err(ParseError::BadDate)
                                                    },
                                                },
                                            },
                                        },
                                    },
                                },
                            },
                        },
                    },
                }
            },
        },
    }
}

/// The job a full parse hands out matches the facts of its fragment.
pub open spec fn job_matches(job: Job, f: JobFacts, created: Date) -> bool {
    &&& job.job_info.job_url.0@ == f.job_url
    &&& job.job_info.title.0@ == f.title
    &&& encode_utf8(job.job_info.description.0@) == f.description_bytes
    &&& job.job_info.job_tags@.map_values(|t: JobTag| t.name@) == f.tags
    &&& job.company_info.name@ == f.company_name
    &&& job.company_info.logo_url@ == f.company_logo
    &&& job.locations@.map_values(|l: Location| loc_view(l)) == f.locations
    &&& job.created_at == created
    &&& job.last_date == Some(f.last_date)
    &&& job.contact_info is None
    &&& job_wf(job)
}

/// The full parse: turns a preview's fragment into a structured `Job`, tagged
/// against the dictionary, with the preview's date as the creation date.
pub fn parse_full(preview: &JobPreview, dict: &Vec<(String, Vec<String>)>) -> (r: Result<
    Job,
    ParseError,
>)
    requires
        date_wf(preview.date),
    ensures
        match full_spec(preview.full_post@, dict_view(dict@)) {
            Result::Ok(f) => r matches Ok(job) && job_matches(job, f, preview.date),
            Result::Err(e) => r == Err::<Job, ParseError>(e),
        },
{
    let fragment = preview.full_post.as_str();
    let html = match json_string_field(fragment, "html") {
        Some(h) => h,
        None => {
            return Err(ParseError::MissingHtml);
        },
    };
    let description_bytes = match extract_description(html.as_str()) {
        Some(d) => d,
        None => {
            return Err(ParseError::BadDescription);
        },
    };
    let description = match crate::scanner::bytes_to_string(description_bytes) {
        Some(d) => d,
        None => {
            return Err(ParseError::BadDescription);
        },
    };
    let company = match json_raw_field(fragment, "company") {
        Some(c) => c,
        None => {
            return Err(ParseError::MissingCompany);
        },
    };
    let company_name = match json_string_field(company.as_str(), "name") {
        Some(n) => n,
        None => {
            return Err(ParseError::MissingCompany);
        },
    };
    let company_logo = match json_string_field(company.as_str(), "get_logo_company") {
        Some(l) => l,
        None => {
            return Err(ParseError::MissingCompany);
        },
    };
    let title = match json_string_field(fragment, "title") {
        Some(t) => t,
        None => {
            return Err(ParseError::MissingTitle);
        },
    };
    let job_url = match json_string_field(fragment, "job_url") {
        Some(u) => u,
        None => {
            return Err(ParseError::MissingJobUrl);
        },
    };
    let addresses = match json_raw_field(fragment, "addresses") {
        Some(a) => a,
        None => {
            return Err(ParseError::MissingLocations);
        },
    };
    let address_fragments = match json_array_fragments(addresses.as_str()) {
        Some(f) => f,
        None => {
            return Err(ParseError::MissingLocations);
        },
    };
    let locations = match parse_locations(&address_fragments) {
        Ok(l) => l,
        Err(e) => {
            return Err(e);
        },
    };
    let last_date_text = match json_string_field(fragment, "lastdate") {
        Some(d) => d,
        None => {
            return Err(ParseError::MissingLastDate);
        },
    };
    let last_date = match parse_date(last_date_text.as_str()) {
        Some(d) => d,
        None => {
            return Err(ParseError::BadDate);
        },
    };
    let job_tags = extract_jobs_tags(description.as_str(), dict);
    Ok(
        Job {
            job_info: JobInfo {
                job_url: JobUrl(job_url),
                title: Title(title),
                description: Description(description),
                job_tags,
            },
            created_at: preview.date,
            last_date: Some(last_date),
            company_info: CompanyInfo { name: company_name, logo_url: company_logo },
            locations,
            contact_info: None,
        },
    )
}

} // verus!
