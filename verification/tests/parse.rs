use job_ingest::preview::{parse_preview, ParseError};
use job_ingest::parse::{parse_full, JobIndexHtmlInfo};
use job_ingest::tags::{extract_jobs_tags, job_tags_dictionary};

fn fixture_fragment() -> &'static str {
    r#"{"job_url":"https://example.test/job/1","firstdate":"2024-05-07","lastdate":"2024-06-01","title":"Rust developer","company":{"name":"Acme","get_logo_company":"https://example.test/logo.png"},"addresses":[{"city":"Copenhagen","zipcode":"2100","simple_string":"Some Street 1","coordinates":{"latitude":55.6761,"longitude":12.5683}}],"html":"intro</div>\\n\\n<p>We use rust and docker daily</p>\\n tail"}"#
}

#[test]
fn preview_reads_url_and_date() {
    let preview = parse_preview(fixture_fragment()).expect("should parse");
    assert_eq!(preview.job_url, "https://example.test/job/1");
    assert_eq!(preview.date.year, 2024);
    assert_eq!(preview.date.month, 5);
    assert_eq!(preview.date.day, 7);
    assert_eq!(preview.full_post, fixture_fragment());
}

#[test]
fn full_parse_round_trip() {
    let dict = job_tags_dictionary();
    let preview = parse_preview(fixture_fragment()).expect("should parse");
    let job = parse_full(&preview, &dict).expect("should parse");

    assert_eq!(job.job_info.job_url.0, "https://example.test/job/1");
    assert_eq!(job.job_info.title.0, "Rust developer");
    assert_eq!(job.job_info.description.0, "We use rust and docker daily");
    let tags: Vec<&str> = job.job_info.job_tags.iter().map(|t| t.name.as_str()).collect();
    assert_eq!(tags, ["Rust", "C", "Docker", "AI"]);
    assert_eq!(job.company_info.name, "Acme");
    assert_eq!(job.company_info.logo_url, "https://example.test/logo.png");
    assert_eq!(job.locations.len(), 1);
    assert_eq!(job.locations[0].address, "Some Street 1");
    assert_eq!(job.locations[0].latitude, "55.6761");
    assert_eq!(job.locations[0].longitude, "12.5683");
    assert_eq!(job.created_at.year, 2024);
    assert_eq!(job.created_at.month, 5);
    assert_eq!(job.created_at.day, 7);
    let last = job.last_date.expect("should have a last date");
    assert_eq!((last.year, last.month, last.day), (2024, 6, 1));
    assert!(job.contact_info.is_none());
}

#[test]
fn html_info_extracts_description_and_tags() {
    let dict = job_tags_dictionary();
    let html = r#"x</div>\n\n<p>frontend and <p>backend</p> work</p>\n y"#;
    let info = JobIndexHtmlInfo::parse(html, &dict).expect("should parse");
    assert_eq!((info.0).1 .0, "frontend and backend work");
    let tags: Vec<&str> = (info.0).0.iter().map(|t| t.name.as_str()).collect();
    assert_eq!(tags, ["C", "Frontend", "Backend"]);
}

#[test]
fn tags_match_in_dictionary_order() {
    let dict = job_tags_dictionary();
    let tags = extract_jobs_tags("python, rust and postgresql", &dict);
    let names: Vec<&str> = tags.iter().map(|t| t.name.as_str()).collect();
    assert_eq!(names, ["Python", "Rust", "Sql"]);
}

#[test]
fn preview_error_variants() {
    assert_eq!(parse_preview(r#"{}"#).err(), Some(ParseError::MissingJobUrl));
    assert_eq!(
        parse_preview(r#"{"job_url":"u"}"#).err(),
        Some(ParseError::MissingDate)
    );
    assert_eq!(
        parse_preview(r#"{"job_url":"u","firstdate":"07-05-2024"}"#).err(),
        Some(ParseError::BadDate)
    );
}

fn with_field_removed(name: &str) -> String {
    let v: serde_json::Value = serde_json::from_str(fixture_fragment()).unwrap();
    let mut map = v.as_object().unwrap().clone();
    map.remove(name);
    serde_json::Value::Object(map).to_string()
}

fn parse_without(name: &str) -> Option<ParseError> {
    let dict = job_tags_dictionary();
    let fragment = with_field_removed(name);
    let mut preview = parse_preview(fixture_fragment()).expect("should parse");
    preview.full_post = fragment;
    parse_full(&preview, &dict).map(|_| ()).err()
}

#[test]
fn full_parse_error_variants() {
    assert_eq!(parse_without("html"), Some(ParseError::MissingHtml));
    assert_eq!(parse_without("company"), Some(ParseError::MissingCompany));
    assert_eq!(parse_without("title"), Some(ParseError::MissingTitle));
    assert_eq!(parse_without("job_url"), Some(ParseError::MissingJobUrl));
    assert_eq!(parse_without("addresses"), Some(ParseError::MissingLocations));
    assert_eq!(parse_without("lastdate"), Some(ParseError::MissingLastDate));
}

#[test]
fn bad_description_when_sentinels_missing() {
    let dict = job_tags_dictionary();
    let mut preview = parse_preview(fixture_fragment()).expect("should parse");
    preview.full_post =
        r#"{"job_url":"u","html":"no sentinels here","company":{"name":"A","get_logo_company":"l"},"title":"t","addresses":[],"lastdate":"2024-06-01"}"#
        .to_string();
    assert_eq!(parse_full(&preview, &dict).map(|_| ()).err(), Some(ParseError::BadDescription));
}

#[test]
fn bad_location_and_coordinates() {
    let dict = job_tags_dictionary();
    let base = fixture_fragment();
    let mut preview = parse_preview(base).expect("should parse");

    preview.full_post = base.replace(r#""simple_string":"Some Street 1","#, "");
    assert_eq!(parse_full(&preview, &dict).map(|_| ()).err(), Some(ParseError::BadLocation));

    preview.full_post = base.replace(r#""latitude":55.6761"#, r#""latitude":"north""#);
    assert_eq!(parse_full(&preview, &dict).map(|_| ()).err(), Some(ParseError::BadCoordinates));
}
