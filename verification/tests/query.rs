use job_ingest::options::QueryOptions;
use job_ingest::options::SizeOptions;
use job_ingest::query::{JobIndex, JobNet};

const AUTOCOMPLETE_BODY: &str = r#"{"geoareaid": {"completions": [{"id":3000,"abc":1000}]}}"#;

#[test]
fn test_query_options() {
    let options = QueryOptions::Query {
        job_name: None,
        job_regions: vec!["abc".to_string()],
        job_tags: vec![],
    };
    let resolved = JobIndex::take_first_region(AUTOCOMPLETE_BODY).expect("should unwrap");
    assert_eq!(resolved.0, "geoareaid");
    assert_eq!(resolved.1, "3000");

    let query: Vec<(String, String)> = JobIndex::build_query_pairs(&options, vec![Some(resolved)])
        .expect("should unwrap");
    assert_eq!(query, [("geoareaid".to_string(), "3000".to_string())]);
}

#[test]
fn test_size_options() {
    let options = QueryOptions::Query {
        job_name: None,
        job_regions: vec!["abc".to_string()],
        job_tags: vec![],
    };
    let resolved = JobIndex::take_first_region(AUTOCOMPLETE_BODY).expect("should unwrap");
    let query: Vec<(String, String)> = JobIndex::build_query_pairs(&options, vec![Some(resolved)])
        .expect("should unwrap");
    assert_eq!(query, [("geoareaid".to_string(), "3000".to_string())]);
}

#[test]
fn region_lookup_skips_unresolvable_regions() {
    let options = QueryOptions::Query {
        job_name: Some("rust".to_string()),
        job_regions: vec!["abc".to_string(), "nowhere".to_string()],
        job_tags: vec![],
    };
    let first = JobIndex::take_first_region(AUTOCOMPLETE_BODY);
    let second = JobIndex::take_first_region(r#"{"geoareaid": {"completions": []}}"#);
    assert!(second.is_none());
    let query = JobIndex::build_query_pairs(&options, vec![first, second]).expect("should unwrap");
    assert_eq!(
        query,
        [
            ("geoareaid".to_string(), "3000".to_string()),
            ("q".to_string(), "rust".to_string()),
        ]
    );
}

#[test]
fn unfiltered_request_builds_no_query() {
    assert!(JobIndex::build_query_pairs(&QueryOptions::All, vec![]).is_none());
}

#[test]
fn total_jobs_reads_hitcount() {
    assert_eq!(JobIndex::total_jobs(r#"{"hitcount":1234}"#), Some(1234));
    assert_eq!(JobIndex::total_jobs(r#"{"hitcount":"many"}"#), None);
    assert_eq!(JobIndex::total_jobs(r#"{"count":7}"#), None);
}

#[test]
fn page_urls_follow_the_plan() {
    let size_options = SizeOptions::Page { page_size: 50, page: 1 };
    let query = Some("&geoareaid=3000".to_string());
    let (offset, pages) = JobIndex::get_query_pages(300, &size_options, &query);
    assert_eq!(offset, 10);
    let expected: Vec<(usize, String)> = vec![
        (10, "https://www.jobindex.dk/jobsoegning?&geoareaid=3000&sort=date&page=3".to_string()),
        (20, "https://www.jobindex.dk/jobsoegning?&geoareaid=3000&sort=date&page=4".to_string()),
        (20, "https://www.jobindex.dk/jobsoegning?&geoareaid=3000&sort=date&page=5".to_string()),
    ];
    assert_eq!(pages, expected);
}

#[test]
fn jobnet_body_fills_the_template() {
    let net = JobNet { page: 2, query: "rust".to_string(), region: "Storkoebenhavn".to_string() };
    let body = net.get_query();
    assert!(body.starts_with(r#"{"model":{"Offset":"20","Count":20,"SearchString":"rust","#));
    assert!(body.ends_with(
        r#""url":"/CV/FindWork?SearchString=rust&Offset=20&Region=Storkoebenhavn&SortValue=BestMatch"}"#
    ));
    assert_eq!(serde_json::from_str::<serde_json::Value>(&body).unwrap()["model"]["Offset"], "20");
}

#[test]
fn jobnet_urls_keep_only_wellformed_urls() {
    let body = r#"{"JobPositionPostings":[{"Url":"https://job.test/1"},{"Url":"::not a url::"},{"NoUrl":1},{"Url":"https://job.test/2"}]}"#;
    let urls = JobNet::get_urls(body);
    assert_eq!(
        urls,
        ["https://job.test/1".to_string(), "https://job.test/2".to_string()]
    );
}
