use job_ingest::dates::Date;
use job_ingest::jobs::{CompanyInfo, Description, Job, JobInfo, JobUrl, Title};
use job_ingest::store::MemStore;

fn job(url: &str, date: Date) -> Job {
    Job {
        job_info: JobInfo {
            job_url: JobUrl(url.to_string()),
            title: Title("t".to_string()),
            description: Description("d".to_string()),
            job_tags: vec![],
        },
        created_at: date,
        last_date: None,
        company_info: CompanyInfo { name: "Acme".to_string(), logo_url: "l".to_string() },
        locations: vec![],
        contact_info: None,
    }
}

fn may(day: u32) -> Date {
    Date { year: 2024, month: 5, day }
}

#[test]
fn inserting_the_same_job_twice_leaves_one_row() {
    let mut store = MemStore::new();
    assert!(store.insert_job(job("u1", may(7))).is_ok());
    assert!(store.insert_job(job("u1", may(7))).is_err());
    assert_eq!(store.len(), 1);
}

#[test]
fn batch_insert_stops_at_the_first_conflict() {
    let mut store = MemStore::new();
    assert!(store.insert_job(job("known", may(5))).is_ok());

    let batch = vec![job("new1", may(8)), job("known", may(5)), job("new2", may(7))];
    let ids = store.insert_jobs(batch);
    assert_eq!(ids.len(), 1);
    assert_eq!(store.len(), 2);
    assert!(store.has_url(&"new1".to_string()));
    assert!(!store.has_url(&"new2".to_string()));
}

#[test]
fn newest_job_is_the_watermark() {
    let mut store = MemStore::new();
    assert!(store.get_newest_job().is_none());
    assert!(store.insert_job(job("u1", may(3))).is_ok());
    assert!(store.insert_job(job("u2", may(9))).is_ok());
    assert!(store.insert_job(job("u3", may(6))).is_ok());
    let newest = store.get_newest_job().expect("store is not empty");
    assert_eq!(newest.job_info.job_url.0, "u2");
    assert_eq!(newest.created_at.day, 9);
}

#[test]
fn delete_removes_exactly_the_listed_urls() {
    let mut store = MemStore::new();
    assert!(store.insert_job(job("u1", may(1))).is_ok());
    assert!(store.insert_job(job("u2", may(2))).is_ok());
    assert!(store.insert_job(job("u3", may(3))).is_ok());

    store.delete_jobs(&vec!["u1".to_string(), "u3".to_string(), "absent".to_string()]);
    assert_eq!(store.len(), 1);
    assert!(store.has_url(&"u2".to_string()));
    assert!(!store.has_url(&"u1".to_string()));
}
