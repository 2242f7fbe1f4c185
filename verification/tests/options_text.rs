use job_ingest::dates::parse_date;
use job_ingest::digits::{is_valid_decimal, parse_u64, u64_to_string};
use job_ingest::options::{FetchOptions, QueryOptions, SizeOptions, ValidationError};

#[test]
fn full_request_selects_everything() {
    let full = FetchOptions::full();
    assert!(matches!(full.query_options, QueryOptions::All));
    assert!(matches!(full.size_options, SizeOptions::All));
}

#[test]
fn params_pick_exactly_one_size_selection() {
    let paged = FetchOptions::from_params(None, vec![], vec![], Some(10), Some(2), None)
        .expect("page_size with page is valid");
    assert_eq!(paged.size_options, SizeOptions::Page { page_size: 10, page: 2 });

    let counted = FetchOptions::from_params(None, vec![], vec![], None, None, Some(7))
        .expect("jobs alone is valid");
    assert_eq!(counted.size_options, SizeOptions::NotPaged { jobs: 7 });

    let all = FetchOptions::from_params(None, vec![], vec![], None, None, None)
        .expect("no size selection means all");
    assert_eq!(all.size_options, SizeOptions::All);

    let both = FetchOptions::from_params(None, vec![], vec![], Some(10), Some(2), Some(7));
    assert_eq!(both.err(), Some(ValidationError::ConflictingSizeOptions));

    let half = FetchOptions::from_params(None, vec![], vec![], Some(10), None, None);
    assert_eq!(half.err(), Some(ValidationError::ConflictingSizeOptions));
}

#[test]
fn filter_params_follow_the_original_rule() {
    let filtered = FetchOptions::from_params(
        Some("rust".to_string()),
        vec!["copenhagen".to_string()],
        vec![],
        None,
        None,
        None,
    )
    .expect("valid");
    assert!(matches!(filtered.query_options, QueryOptions::Query { .. }));

    let unfiltered = FetchOptions::from_params(
        None,
        vec!["copenhagen".to_string()],
        vec![],
        None,
        None,
        None,
    )
    .expect("valid");
    assert!(matches!(unfiltered.query_options, QueryOptions::All));
}

#[test]
fn dates_parse_only_iso_shaped_text() {
    let d = parse_date("2024-05-07").expect("well formed");
    assert_eq!((d.year, d.month, d.day), (2024, 5, 7));
    assert!(parse_date("2024-5-7").is_none());
    assert!(parse_date("2024-13-07").is_none());
    assert!(parse_date("2024-00-07").is_none());
    assert!(parse_date("2024-05-32").is_none());
    assert!(parse_date("07-05-2024").is_none());
    assert!(parse_date("2024-05-07T00:00").is_none());
}

#[test]
fn numbers_read_and_print_in_decimal() {
    assert_eq!(parse_u64(b"0"), Some(0));
    assert_eq!(parse_u64(b"1234"), Some(1234));
    assert_eq!(parse_u64(b""), None);
    assert_eq!(parse_u64(b"12x4"), None);
    assert_eq!(parse_u64(b"1234567890123456789"), None);
    assert_eq!(u64_to_string(0), "0");
    assert_eq!(u64_to_string(907), "907");
    assert_eq!(u64_to_string(18446744073709551615), "18446744073709551615");
}

#[test]
fn coordinate_text_must_be_a_plain_decimal() {
    assert!(is_valid_decimal(b"55.6761"));
    assert!(is_valid_decimal(b"-12.5"));
    assert!(is_valid_decimal(b"42"));
    assert!(!is_valid_decimal(b""));
    assert!(!is_valid_decimal(b"-"));
    assert!(!is_valid_decimal(b"5."));
    assert!(!is_valid_decimal(b".5"));
    assert!(!is_valid_decimal(b"5.5.5"));
    assert!(!is_valid_decimal(b"5e10"));
}
