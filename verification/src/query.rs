//! Query building for the job sites.
//!
//! Everything here computes request parameters and parses response bodies;
//! issuing the requests is the caller's business. Region names resolve to
//! geo-ids through a per-region lookup whose response body is parsed here;
//! failures are skipped, order is kept.

use vstd::prelude::*;

verus! {

use crate::digits::{all_digits, dec_digits, digits_val, parse_u64, u64_to_string};
use crate::json::{
    json_array_fragments, json_fragments_of, json_raw_field, json_raw_field_of, json_str_field_of,
    json_string_field,
};
use crate::options::{spec_plan, QueryOptions, SizeOptions};
use vstd::string::StringExecFns;
use vstd::utf8::encode_utf8;

/// The provider page size of the job-index site: fixed by the site, not
/// controllable by callers.
pub const PAGE_SIZE: usize = 20;

/// How many provider pages the site numbers from: its first page is page one.
pub const FIRST_PAGE: usize = 1;

/// The job-index site adapter: query building and response parsing for one
/// job board whose pages embed a JSON results array.
pub struct JobIndex;

/// Whether text is a well-formed URL, as the url crate's parser decides it.
pub uninterp spec fn is_valid_url(s: Seq<char>) -> bool;

/// Decides whether text is a well-formed URL.
///
/// Relies on `url::Url::parse`: it accepts or rejects on the text alone.
#[verifier::external_body]
fn url_parses(s: &str) -> (r: bool)
    ensures
        r == is_valid_url(s@),
{
    url::Url::parse(s).is_ok()
}

/// String pairs as their text.
pub open spec fn pairs_view(s: Seq<(String, String)>) -> Seq<(Seq<char>, Seq<char>)> {
    s.map_values(|p: (String, String)| (p.0@, p.1@))
}

/// The resolved region pairs as text, failures skipped, order kept.
pub open spec fn keep_resolved(s: Seq<Option<(String, String)>>) -> Seq<(Seq<char>, Seq<char>)>
    decreases s.len(),
{
    if s.len() == 0 {
        Seq::empty()
    } else {
        match s[0] {
            Option::Some(p) => seq![(p.0@, p.1@)] + keep_resolved(s.drop_first()),
            Option::None => keep_resolved(s.drop_first()),
        }
    }
}

impl JobIndex {
    /// Reads the first resolvable geo-id out of a region-autocomplete
    /// response body: the first entry of `geoareaid.completions` whose `id`
    /// is a plain number, as a query pair.
    pub fn take_first_region(body: &str) -> (r: Option<(String, String)>)
        ensures
            match region_id_spec(body@) {
                Option::Some(id) => r matches Some(p) && p.0@ == "geoareaid"@ && p.1@ == dec_digits(
                    id as int,
                ),
                Option::None => r is None,
            },
    {
        let geo = match json_raw_field(body, "geoareaid") {
            Some(g) => g,
            None => {
                return None;
            },
        };
        let completions = match json_raw_field(geo.as_str(), "completions") {
            Some(c) => c,
            None => {
                return None;
            },
        };
        let entries = match json_array_fragments(completions.as_str()) {
            Some(e) => e,
            None => {
                return None;
            },
        };
        let ghost eview = entries@.map_values(|s: String| s@);
        let mut i: usize = 0;
        proof {
            assert(eview.skip(0) =~= eview);
            let frs = json_fragments_of(completions@).unwrap();
            assert(frs =~= eview);
            assert(region_id_spec(body@) == first_entry_id(eview));
        }
        while i < entries.len()
            invariant
                i <= entries@.len(),
                eview == entries@.map_values(|s: String| s@),
                region_id_spec(body@) == first_entry_id(eview),
                first_entry_id(eview) == first_entry_id(eview.skip(i as int)),
            decreases entries@.len() - i,
        {
            proof {
                assert(eview.skip(i as int)[0] == eview[i as int]);
                assert(eview.skip(i as int).drop_first() =~= eview.skip(i + 1));
                assert(eview[i as int] == entries@[i as int]@);
            }
            match Self::entry_id(entries[i].as_str()) {
                Some(id) => {
                    proof {
                        assert(entry_id_spec(entries@[i as int]@) == Option::Some(id));
                        assert(entry_id_spec(eview.skip(i as int)[0]) == Option::Some(id));
                        assert(eview.skip(i as int).len() > 0);
                        assert(first_entry_id(eview.skip(i as int)) == Option::Some(id));
                        assert(region_id_spec(body@) == Option::Some(id));
                    }
                    return Some(("geoareaid".to_owned(), u64_to_string(id)));
                },
                None => {},
            }
            i = i + 1;
        }
        proof {
            assert(eview.skip(i as int) =~= Seq::<Seq<char>>::empty());
        }
        None
    }

    /// Reads one completion entry's `id` as a plain number.
    fn entry_id(entry: &str) -> (r: Option<u64>)
        ensures
            r == entry_id_spec(entry@),
    {
        let text = match json_raw_field(entry, "id") {
            Some(t) => t,
            None => {
                return None;
            },
        };
        parse_u64(text.as_str().as_bytes())
    }
}

/// The `id` of one completion entry, when it is one to eighteen digits.
pub open spec fn entry_id_spec(entry: Seq<char>) -> Option<u64> {
    match json_raw_field_of(entry, "id"@) {
        Option::None => Option::None,
        Option::Some(t) => {
            let bytes = encode_utf8(t);
            if 1 <= bytes.len() <= 18 && all_digits(bytes) {
                Option::Some(digits_val(bytes) as u64)
            } else {
                Option::None
            }
        },
    }
}

/// The first completion entry with a readable `id`.
pub open spec fn first_entry_id(entries: Seq<Seq<char>>) -> Option<u64>
    decreases entries.len(),
{
    if entries.len() == 0 {
        Option::None
    } else {
        match entry_id_spec(entries[0]) {
            Option::Some(id) => Option::Some(id),
            Option::None => first_entry_id(entries.drop_first()),
        }
    }
}

/// The geo-id a region-autocomplete response resolves to.
pub open spec fn region_id_spec(body: Seq<char>) -> Option<u64> {
    match json_raw_field_of(body, "geoareaid"@) {
        Option::None => Option::None,
        Option::Some(geo) => match json_raw_field_of(geo, "completions"@) {
            Option::None => Option::None,
            Option::Some(c) => match json_fragments_of(c) {
                Option::None => Option::None,
                Option::Some(entries) => first_entry_id(entries),
            },
        },
    }
}

impl JobIndex {
    /// Builds the search-query pairs for a filter, from the regions as they
    /// resolved: the resolved region pairs in order, then the keyword, if
    /// any, as a `q` pair. An unfiltered request has no query.
    pub fn build_query_pairs(
        options: &QueryOptions,
        resolved_regions: Vec<Option<(String, String)>>,
    ) -> (r: Option<Vec<(String, String)>>)
        ensures
            match *options {
                QueryOptions::All => r is None,
                QueryOptions::Query { ref job_name, .. } => r matches Some(v) && pairs_view(v@)
                    == keep_resolved(resolved_regions@) + (match *job_name {
                    Option::Some(ref n) => seq![("q"@, n@)],
                    Option::None => Seq::<(Seq<char>, Seq<char>)>::empty(),
                }),
            },
    {
        match options {
            QueryOptions::All => None,
            QueryOptions::Query { job_name, .. } => {
                let mut pairs: Vec<(String, String)> = Vec::new();
                let ghost rview = resolved_regions@;
                let mut i: usize = 0;
                proof {
                    assert(rview.skip(0) =~= rview);
                    assert(pairs_view(pairs@) + keep_resolved(rview) =~= keep_resolved(rview));
                }
                let resolved = resolved_regions;
                while i < resolved.len()
                    invariant
                        i <= resolved@.len(),
                        rview == resolved@,
                        pairs_view(pairs@) + keep_resolved(rview.skip(i as int)) == keep_resolved(
                            rview,
                        ),
                    decreases resolved@.len() - i,
                {
                    proof {
                        assert(rview.skip(i as int)[0] == rview[i as int]);
                        assert(rview.skip(i as int).drop_first() =~= rview.skip(i + 1));
                    }
                    match &resolved[i] {
                        Some(p) => {
                            let pair = (p.0.clone(), p.1.clone());
                            proof {
                                assert(pairs_view(pairs@.push(pair)) =~= pairs_view(pairs@).push(
                                    (pair.0@, pair.1@),
                                ));
                                assert(pairs_view(pairs@).push((pair.0@, pair.1@)) + keep_resolved(
                                    rview.skip(i + 1),
                                ) =~= pairs_view(pairs@) + (seq![(pair.0@, pair.1@)]
                                    + keep_resolved(rview.skip(i + 1))));
                            }
                            pairs.push(pair);
                        },
                        None => {},
                    }
                    i = i + 1;
                }
                proof {
                    assert(rview.skip(i as int) =~= Seq::<Option<(String, String)>>::empty());
                    assert(pairs_view(pairs@) + Seq::<(Seq<char>, Seq<char>)>::empty()
                        =~= pairs_view(pairs@));
                }
                match job_name {
                    Some(n) => {
                        let ghost before = pairs@;
                        let pair = ("q".to_owned(), n.clone());
                        proof {
                            assert(pair.0@ =~= "q"@);
                            assert(pairs_view(before.push(pair)) =~= pairs_view(before).push(
                                (pair.0@, pair.1@),
                            ));
                            assert(pairs_view(before).push(("q"@, n@)) =~= pairs_view(before)
                                + seq![("q"@, n@)]);
                        }
                        pairs.push(pair);
                        Some(pairs)
                    },
                    None => {
                        proof {
                            assert(pairs_view(pairs@) + Seq::<(
                                Seq<char>,
                                Seq<char>,
                            )>::empty() =~= pairs_view(pairs@));
                        }
                        Some(pairs)
                    },
                }
            },
        }
    }

    /// Reads the total hit count out of a count-endpoint response body.
    pub fn total_jobs(body: &str) -> (r: Option<usize>)
        ensures
            match total_jobs_spec(body@) {
                Option::Some(n) => r == Some(n),
                Option::None => r is None,
            },
    {
        let text = match json_raw_field(body, "hitcount") {
            Some(t) => t,
            None => {
                return None;
            },
        };
        let v = match parse_u64(text.as_str().as_bytes()) {
            Some(v) => v,
            None => {
                return None;
            },
        };
        if v > (usize::MAX as u64) {
            return None;
        }
        Some(v as usize)
    }
}

/// The hit count a count-endpoint response carries, when it is a plain number
/// that fits the machine.
pub open spec fn total_jobs_spec(body: Seq<char>) -> Option<usize> {
    match json_raw_field_of(body, "hitcount"@) {
        Option::None => Option::None,
        Option::Some(t) => {
            let bytes = encode_utf8(t);
            if 1 <= bytes.len() <= 18 && all_digits(bytes) && digits_val(bytes) <= usize::MAX {
                Option::Some(digits_val(bytes) as usize)
            } else {
                Option::None
            }
        },
    }
}

/// The search URL for one provider page: the fixed base, the query with its
/// date-sort suffix, and the page number.
pub open spec fn page_url(query: Seq<char>, page: int) -> Seq<char> {
    "https://www.jobindex.dk/jobsoegning?"@ + query + "&sort=date"@ + "&page="@ + dec_digits(page)
}

impl JobIndex {
    /// Plans the page fetches for a size request: the within-first-page
    /// offset and, for each planned provider page, how many postings to take
    /// and the URL to fetch it under, sorted by date, newest first.
    pub fn get_query_pages(total_jobs: usize, size_options: &SizeOptions, query: &Option<String>) -> (r: (
        usize,
        Vec<(usize, String)>,
    ))
        requires
            (total_jobs as int) / 20int + 3 <= usize::MAX,
            (*size_options matches SizeOptions::Page { page_size, page } ==> page_size * (page + 1)
                <= usize::MAX),
        ensures
            ({
                let p = spec_plan(*size_options, total_jobs as int, PAGE_SIZE as int,
                    FIRST_PAGE as int);
                let q = match *query {
                    Option::Some(ref s) => s@,
                    Option::None => Seq::<char>::empty(),
                };
                &&& r.0 == p.0
                &&& r.1@.len() == p.2.len()
                &&& forall|j: int|
                    0 <= j < p.2.len() ==> (#[trigger] r.1@[j]).0 == p.2[j].0 && r.1@[j].1@
                        == page_url(q, p.2[j].1 as int)
            }),
    {
        let (offset, _count, takes) = size_options.job_num_to_query(total_jobs, PAGE_SIZE,
            FIRST_PAGE);
        let ghost q = match *query {
            Option::Some(ref s) => s@,
            Option::None => Seq::<char>::empty(),
        };
        let mut sorted_query = String::new();
        match query {
            Some(s) => {
                sorted_query.append(s.as_str());
            },
            None => {},
        }
        sorted_query.append("&sort=date");
        let mut pages: Vec<(usize, String)> = Vec::new();
        let mut i: usize = 0;
        while i < takes.len()
            invariant
                i <= takes@.len(),
                sorted_query@ == q + "&sort=date"@,
                pages@.len() == i,
                forall|j: int|
                    0 <= j < i ==> (#[trigger] pages@[j]).0 == takes@[j].0 && pages@[j].1@
                        == page_url(q, takes@[j].1 as int),
            decreases takes@.len() - i,
        {
            let take = takes[i].0;
            let page_index = takes[i].1;
            let mut url = String::new();
            url.append("https://www.jobindex.dk/jobsoegning?");
            url.append(sorted_query.as_str());
            url.append("&page=");
            let page_text = u64_to_string(page_index as u64);
            url.append(page_text.as_str());
            proof {
                assert(url@ =~= page_url(q, page_index as int));
            }
            pages.push((take, url));
            i = i + 1;
        }
        (offset, pages)
    }
}

/// A query against the jobnet board: a page number, a search string and a
/// region.
pub struct JobNet {
    pub page: usize,
    pub query: String,
    pub region: String,
}

impl JobNet {
    /// Builds the search request body the jobnet board expects: its fixed
    /// JSON template with the page offset, the search string and the region
    /// filled in.
    pub fn get_query(&self) -> (r: String)
        requires
            self.page >= 1,
            (self.page - 1) * 20 <= usize::MAX,
        ensures
            r@ == jobnet_body((self.page - 1) * 20, self.query@, self.region@),
    {
        proof {
            assert((self.page - 1) * 20 >= 0) by (nonlinear_arith)
                requires
                    self.page >= 1,
            ;
        }
        let offset = (self.page - 1) * 20;
        let offset_text = u64_to_string(offset as u64);
        let mut r = String::new();
        r.append("{\"model\":{\"Offset\":\"");
        r.append(offset_text.as_str());
        r.append("\",\"Count\":20,\"SearchString\":\"");
        r.append(self.query.as_str());
        r.append(
            "\",\"SortValue\":\"BestMatch\",\"Ids\":[],\"EarliestPublicationDate\":null,\"HotJob\":null,\"Abroad\":null,\"NearBy\":\"\",\"OnlyGeoPoints\":false,\"WorkPlaceNotStatic\":null,\"WorkHourMin\":null,\"WorkHourMax\":null,\"Facets\":{\"Region\":[{\"Id\":0,\"Value\":\"",
        );
        r.append(self.region.as_str());
        r.append(
            "\",\"Count\":0}],\"Country\":null,\"Municipality\":null,\"PostalCode\":null,\"OccupationAreas\":null,\"OccupationGroups\":null,\"Occupations\":null,\"EmploymentType\":null,\"WorkHours\":null,\"WorkHourPartTime\":null,\"JobAnnouncementType\":null,\"WorkPlaceNotStatic\":null},\"LocatedIn\":null,\"LocationZip\":null,\"Location\":null,\"SearchInGeoDistance\":0,\"SimilarOccupations\":null,\"SearchWithSimilarOccupations\":false},\"url\":\"/CV/FindWork?SearchString=",
        );
        r.append(self.query.as_str());
        r.append("&Offset=");
        r.append(offset_text.as_str());
        r.append("&Region=");
        r.append(self.region.as_str());
        r.append("&SortValue=BestMatch\"}");
        proof {
            assert(r@ =~= jobnet_body((self.page - 1) * 20, self.query@, self.region@));
        }
        r
    }

    /// Reads the posting URLs out of a jobnet search response: the `Url`
    /// field of each entry of `JobPositionPostings` that is a well-formed
    /// URL, in order.
    pub fn get_urls(body: &str) -> (r: Vec<String>)
        ensures
            match json_raw_field_of(body@, "JobPositionPostings"@) {
                Option::None => r@.len() == 0,
                Option::Some(p) => match json_fragments_of(p) {
                    Option::None => r@.len() == 0,
                    Option::Some(frags) => r@.map_values(|s: String| s@) == posting_urls(frags),
                },
            },
    {
        let postings = match json_raw_field(body, "JobPositionPostings") {
            Some(p) => p,
            None => {
                return Vec::new();
            },
        };
        let entries = match json_array_fragments(postings.as_str()) {
            Some(e) => e,
            None => {
                return Vec::new();
            },
        };
        let ghost eview = entries@.map_values(|s: String| s@);
        let mut urls: Vec<String> = Vec::new();
        let mut i: usize = 0;
        proof {
            assert(eview.skip(0) =~= eview);
            assert(urls@.map_values(|s: String| s@) + posting_urls(eview) =~= posting_urls(eview));
        }
        while i < entries.len()
            invariant
                i <= entries@.len(),
                eview == entries@.map_values(|s: String| s@),
                urls@.map_values(|s: String| s@) + posting_urls(eview.skip(i as int))
                    == posting_urls(eview),
            decreases entries@.len() - i,
        {
            proof {
                assert(eview.skip(i as int)[0] == eview[i as int]);
                assert(eview.skip(i as int).drop_first() =~= eview.skip(i + 1));
            }
            match json_string_field(entries[i].as_str(), "Url") {
                Some(url) => {
                    if url_parses(url.as_str()) {
                        proof {
                            assert(urls@.push(url).map_values(|s: String| s@) =~= urls@.map_values(
                                |s: String| s@,
                            ).push(url@));
                            assert(urls@.map_values(|s: String| s@).push(url@) + posting_urls(
                                eview.skip(i + 1),
                            ) =~= urls@.map_values(|s: String| s@) + (seq![url@] + posting_urls(
                                eview.skip(i + 1),
                            )));
                        }
                        urls.push(url);
                    }
                },
                None => {},
            }
            i = i + 1;
        }
        proof {
            assert(eview.skip(i as int) =~= Seq::<Seq<char>>::empty());
            assert(urls@.map_values(|s: String| s@) + Seq::<Seq<char>>::empty() =~= urls@
                .map_values(|s: String| s@));
        }
        urls
    }
}

/// The posting URLs of a jobnet response's entries: each entry's `Url` string
/// field, kept when it is a well-formed URL.
pub open spec fn posting_urls(entries: Seq<Seq<char>>) -> Seq<Seq<char>>
    decreases entries.len(),
{
    if entries.len() == 0 {
        Seq::empty()
    } else {
        let rest = posting_urls(entries.drop_first());
        match json_str_field_of(entries[0], "Url"@) {
            Option::Some(url) => if is_valid_url(url) {
                seq![url] + rest
            } else {
                rest
            },
            Option::None => rest,
        }
    }
}

/// The jobnet request body: the fixed JSON template with the offset, the
/// search string and the region filled in.
pub open spec fn jobnet_body(offset: int, query: Seq<char>, region: Seq<char>) -> Seq<char> {
    "{\"model\":{\"Offset\":\""@ + dec_digits(offset) + "\",\"Count\":20,\"SearchString\":\""@
        + query
        + "\",\"SortValue\":\"BestMatch\",\"Ids\":[],\"EarliestPublicationDate\":null,\"HotJob\":null,\"Abroad\":null,\"NearBy\":\"\",\"OnlyGeoPoints\":false,\"WorkPlaceNotStatic\":null,\"WorkHourMin\":null,\"WorkHourMax\":null,\"Facets\":{\"Region\":[{\"Id\":0,\"Value\":\""@
        + region
        + "\",\"Count\":0}],\"Country\":null,\"Municipality\":null,\"PostalCode\":null,\"OccupationAreas\":null,\"OccupationGroups\":null,\"Occupations\":null,\"EmploymentType\":null,\"WorkHours\":null,\"WorkHourPartTime\":null,\"JobAnnouncementType\":null,\"WorkPlaceNotStatic\":null},\"LocatedIn\":null,\"LocationZip\":null,\"Location\":null,\"SearchInGeoDistance\":0,\"SimilarOccupations\":null,\"SearchWithSimilarOccupations\":false},\"url\":\"/CV/FindWork?SearchString="@
        + query + "&Offset="@ + dec_digits(offset) + "&Region="@ + region
        + "&SortValue=BestMatch\"}"@
}

} // verus!
