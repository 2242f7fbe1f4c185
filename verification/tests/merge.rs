use job_ingest::dates::Date;
use job_ingest::orchestrate::aggregate_jobs;
use job_ingest::merge::merge_pages;
use job_ingest::tags::job_tags_dictionary;

fn fragment(url: &str, date: &str) -> String {
    format!(
        r#"{{"job_url":"{url}","firstdate":"{date}","lastdate":"2024-12-31","title":"t {url}","company":{{"name":"Acme","get_logo_company":"l"}},"addresses":[],"html":"</div>\\n\\n<p>rust</p>\\n"}}"#
    )
}

fn page(fragments: &[String]) -> String {
    format!("[{}]", fragments.join(","))
}

#[test]
fn merge_stops_at_first_stale_record() {
    let dict = job_tags_dictionary();
    let page1 = page(&[fragment("u1", "2024-05-07"), fragment("u2", "2024-05-06")]);
    let page2 = page(&[fragment("u3", "2024-05-05"), fragment("u4", "2024-05-04")]);
    let pages = vec![(2usize, page1), (2usize, page2)];
    let watermark = Some(Date { year: 2024, month: 5, day: 5 });

    let jobs = merge_pages(&pages, 0, watermark, &dict);
    let urls: Vec<&str> = jobs.iter().map(|j| j.job_info.job_url.0.as_str()).collect();
    assert_eq!(urls, ["u1", "u2"]);
}

#[test]
fn merge_without_watermark_takes_the_whole_plan() {
    let dict = job_tags_dictionary();
    let page1 = page(&[fragment("u1", "2024-05-07"), fragment("u2", "2024-05-06")]);
    let page2 = page(&[fragment("u3", "2024-05-05")]);
    let pages = vec![(2usize, page1), (1usize, page2)];

    let jobs = merge_pages(&pages, 0, None, &dict);
    let urls: Vec<&str> = jobs.iter().map(|j| j.job_info.job_url.0.as_str()).collect();
    assert_eq!(urls, ["u1", "u2", "u3"]);
}

#[test]
fn merge_applies_offset_to_first_page_only() {
    let dict = job_tags_dictionary();
    let page1 = page(&[
        fragment("skipped", "2024-05-09"),
        fragment("u1", "2024-05-08"),
        fragment("u2", "2024-05-07"),
    ]);
    let page2 = page(&[fragment("u3", "2024-05-06")]);
    let pages = vec![(2usize, page1), (1usize, page2)];

    let jobs = merge_pages(&pages, 1, None, &dict);
    let urls: Vec<&str> = jobs.iter().map(|j| j.job_info.job_url.0.as_str()).collect();
    assert_eq!(urls, ["u1", "u2", "u3"]);
}

#[test]
fn merge_skips_fragments_that_do_not_parse() {
    let dict = job_tags_dictionary();
    let page1 = format!(
        "[{},{},{}]",
        fragment("u1", "2024-05-07"),
        r#"{"no_url_here":1}"#,
        fragment("u2", "2024-05-06")
    );
    let pages = vec![(3usize, page1)];

    let jobs = merge_pages(&pages, 0, None, &dict);
    let urls: Vec<&str> = jobs.iter().map(|j| j.job_info.job_url.0.as_str()).collect();
    assert_eq!(urls, ["u1", "u2"]);
}

#[test]
fn merge_treats_a_broken_page_as_empty() {
    let dict = job_tags_dictionary();
    let page2 = page(&[fragment("u1", "2024-05-07")]);
    let pages = vec![(2usize, "not json at all".to_string()), (1usize, page2)];

    let jobs = merge_pages(&pages, 0, None, &dict);
    let urls: Vec<&str> = jobs.iter().map(|j| j.job_info.job_url.0.as_str()).collect();
    assert_eq!(urls, ["u1"]);
}

#[test]
fn merge_honours_the_take_counts() {
    let dict = job_tags_dictionary();
    let page1 = page(&[
        fragment("u1", "2024-05-07"),
        fragment("beyond_take", "2024-05-06"),
    ]);
    let pages = vec![(1usize, page1)];

    let jobs = merge_pages(&pages, 0, None, &dict);
    let urls: Vec<&str> = jobs.iter().map(|j| j.job_info.job_url.0.as_str()).collect();
    assert_eq!(urls, ["u1"]);
}

#[test]
fn merged_records_are_strictly_newer_than_the_watermark() {
    let dict = job_tags_dictionary();
    let page1 = page(&[
        fragment("u1", "2024-05-07"),
        fragment("u2", "2024-05-05"),
        fragment("u3", "2024-05-06"),
    ]);
    let pages = vec![(3usize, page1)];
    let watermark = Date { year: 2024, month: 5, day: 5 };

    let jobs = merge_pages(&pages, 0, Some(watermark), &dict);
    for job in &jobs {
        let d = &job.created_at;
        assert!((d.year, d.month, d.day) > (2024, 5, 5));
    }
    let urls: Vec<&str> = jobs.iter().map(|j| j.job_info.job_url.0.as_str()).collect();
    assert_eq!(urls, ["u1"]);
}

#[test]
fn aggregation_skips_failed_sites() {
    let dict = job_tags_dictionary();
    let site1 = merge_pages(&vec![(1usize, page(&[fragment("a1", "2024-05-07")]))], 0, None, &dict);
    let site3 = merge_pages(&vec![(1usize, page(&[fragment("c1", "2024-05-06")]))], 0, None, &dict);
    let combined = aggregate_jobs(vec![Some(site1), None, Some(site3)]);
    let urls: Vec<&str> = combined.iter().map(|j| j.job_info.job_url.0.as_str()).collect();
    assert_eq!(urls, ["a1", "c1"]);
}
