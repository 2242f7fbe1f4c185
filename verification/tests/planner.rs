use job_ingest::options::SizeOptions;
use job_ingest::query::PAGE_SIZE;

#[test]
fn first_page() {
    let size_options: SizeOptions = SizeOptions::Page { page_size: 3, page: 3 };
    let page_size = PAGE_SIZE;
    let total_jobs = 100;
    let start_offset = 1;
    let (offset, jobs, pages) = size_options.job_num_to_query(total_jobs, page_size, start_offset);

    assert_eq!(offset, 9);
    assert_eq!(jobs, 3);
    let iter = [(3, 1)];
    assert_eq!(pages.as_slice(), iter.as_slice());
}

#[test]
fn between_two_pages() {
    let size_options: SizeOptions = SizeOptions::Page { page_size: 24, page: 3 };
    let page_size = PAGE_SIZE;
    let total_jobs = 200;
    let start_offset = 1;
    let (offset, jobs, pages) = size_options.job_num_to_query(total_jobs, page_size, start_offset);

    assert_eq!(offset, 12);
    assert_eq!(jobs, 24);
    let iter = [(8, 4), (16, 5)];
    assert_eq!(pages.as_slice(), iter.as_slice());
}

#[test]
fn between_two_pages_less_than() {
    let size_options: SizeOptions = SizeOptions::Page { page_size: 24, page: 3 };
    let page_size = PAGE_SIZE;
    let total_jobs = 92;
    let start_offset = 1;
    let (offset, jobs, pages) = size_options.job_num_to_query(total_jobs, page_size, start_offset);

    assert_eq!(offset, 12);
    assert_eq!(jobs, 20);
    let iter = [(8, 4), (12, 5)];
    assert_eq!(pages.as_slice(), iter.as_slice());
}

#[test]
fn between_two_pages_one_element_from_page() {
    let size_options: SizeOptions = SizeOptions::Page { page_size: 19, page: 1 };
    let page_size = PAGE_SIZE;
    let total_jobs = 72;
    let start_offset = 1;
    let (offset, jobs, pages) = size_options.job_num_to_query(total_jobs, page_size, start_offset);

    assert_eq!(offset, 19);
    assert_eq!(jobs, 19);
    let iter = [(1, 1), (18, 2)];
    assert_eq!(pages.as_slice(), iter.as_slice());
}

#[test]
fn between_three_pages_uneven() {
    let size_options: SizeOptions = SizeOptions::Page { page_size: 50, page: 1 };
    let page_size = PAGE_SIZE;
    let total_jobs = 300;
    let start_offset = 1;
    let (offset, jobs, pages) = size_options.job_num_to_query(total_jobs, page_size, start_offset);

    assert_eq!(offset, 10);
    assert_eq!(jobs, 50);
    let iter = [(10, 3), (20, 4), (20, 5)];
    assert_eq!(pages.as_slice(), iter.as_slice());
}

#[test]
fn between_three_pages_even() {
    let size_options: SizeOptions = SizeOptions::Page { page_size: 50, page: 2 };
    let page_size = PAGE_SIZE;
    let total_jobs = 300;
    let start_offset = 1;
    let (offset, jobs, pages) = size_options.job_num_to_query(total_jobs, page_size, start_offset);

    assert_eq!(offset, 0);
    assert_eq!(jobs, 50);
    let iter = [(20, 6), (20, 7), (10, 8)];
    assert_eq!(pages.as_slice(), iter.as_slice());
}

#[test]
fn out_of_bounds_start() {
    let size_options: SizeOptions = SizeOptions::Page { page_size: 23, page: 2 };
    let page_size = PAGE_SIZE;
    let total_jobs = 25;
    let start_offset = 1;
    let (offset, jobs, pages) = size_options.job_num_to_query(total_jobs, page_size, start_offset);

    assert_eq!(offset, 0);
    assert_eq!(jobs, 0);
    let iter: [(usize, usize); 0] = [];
    assert_eq!(pages.as_slice(), iter.as_slice());
}

#[test]
fn one_element_second_page_from_index() {
    let size_options: SizeOptions = SizeOptions::Page { page_size: 1, page: 20 };
    let page_size = PAGE_SIZE;
    let total_jobs = 21;
    let start_offset = 1;
    let (offset, jobs, pages) = size_options.job_num_to_query(total_jobs, page_size, start_offset);

    assert_eq!(offset, 0);
    assert_eq!(jobs, 1);
    let iter = [(1, 2)];
    assert_eq!(pages.as_slice(), iter.as_slice());
}

#[test]
fn not_paged_takes_from_the_front() {
    let size_options: SizeOptions = SizeOptions::NotPaged { jobs: 45 };
    let (offset, jobs, pages) = size_options.job_num_to_query(100, 20, 1);

    assert_eq!(offset, 0);
    assert_eq!(jobs, 45);
    let iter = [(20, 1), (20, 2), (5, 3)];
    assert_eq!(pages.as_slice(), iter.as_slice());
}

#[test]
fn all_covers_everything() {
    let size_options: SizeOptions = SizeOptions::All;
    let (offset, jobs, pages) = size_options.job_num_to_query(41, 20, 1);

    assert_eq!(offset, 0);
    assert_eq!(jobs, 41);
    let iter = [(20, 1), (20, 2), (1, 3)];
    assert_eq!(pages.as_slice(), iter.as_slice());
}
