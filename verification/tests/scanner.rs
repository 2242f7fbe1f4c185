use job_ingest::scanner::{scan, Scanner};

const EMOJI: &str = "\u{1F624}\u{1F47F}\u{1F633}\u{1F600}\u{1F621}\u{1F600}\u{1F4A9}\u{1F970}\u{1F60B}\u{1F633}\u{1F923}";

fn page_body() -> String {
    format!(
        r#"{{"sus":{{}},"haha":{{"{e}":"hah","results":[{{"abc":1}},{{"{e}":"hah"}},{{"gg":"c"}}],"skyscraper":{{"default_height":600,"default_width":160,"fallbackUrl":"\/iframe\/skyscraper\/3984","url":"\/iframe\/skyscraper\/3984?catid=-2&cattype=p"}},"suggestedChanges":{{"category":{{"suggestions":null,"suggestionsAllParams":null,"suggestionsAllUrl":null}},"company":"","jobsForUkraine":0,"query":{{"suggestion":null,"suggestionParams":null,"suggestionUrl":null}}}},"title":"Ledigejob-Software"}}}}"#,
        e = EMOJI
    )
}

fn page_body_with_decoy() -> String {
    format!(
        r#"{{"sus":{{}},"haha":{{"{e}":"hah","results":[{{"abc":1}},{{"{e}":"hah"}},{{"gg":"c"}},"skyscrape": {{}}],"skyscraper":{{"default_height":600}},"title":"Ledigejob-Software"}}}}"#,
        e = EMOJI
    )
}

fn expected_payload() -> String {
    format!(r#"[{{"abc":1}},{{"{e}":"hah"}},{{"gg":"c"}}]"#, e = EMOJI)
}

fn expected_payload_with_decoy() -> String {
    format!(
        r#"[{{"abc":1}},{{"{e}":"hah"}},{{"gg":"c"}},"skyscrape": {{}}]"#,
        e = EMOJI
    )
}

const START_SEQ: &[u8] = br#""results":"#;
const END_SEQ: &[u8] = br#","skyscraper":"#;

fn chunks_at(bytes: &[u8], splits: &[usize]) -> Vec<Vec<u8>> {
    let mut chunks = Vec::new();
    let mut prev = 0;
    for &s in splits {
        chunks.push(bytes[prev..s].to_vec());
        prev = s;
    }
    chunks.push(bytes[prev..].to_vec());
    chunks
}

#[test]
fn works_on_not_split_stream() {
    let body = page_body();
    let chunks = vec![body.as_bytes().to_vec()];
    let result = scan(&chunks, START_SEQ, END_SEQ).unwrap();
    assert_eq!(result, expected_payload());
}

#[test]
fn works_on_split_stream() {
    let body = page_body();
    let chunks = chunks_at(body.as_bytes(), &[40]);
    let result = scan(&chunks, START_SEQ, END_SEQ).unwrap();
    assert_eq!(result, expected_payload());
}

#[test]
fn works_on_split_on_startseq_one_stream() {
    let body = page_body();
    let p = body.find(r#""results":"#).unwrap();
    let chunks = chunks_at(body.as_bytes(), &[p + 4]);
    let result = scan(&chunks, START_SEQ, END_SEQ).unwrap();
    assert_eq!(result, expected_payload());
}

#[test]
fn works_on_split_on_startseq_two_stream() {
    let body = page_body();
    let p = body.find(r#""results":"#).unwrap();
    let chunks = chunks_at(body.as_bytes(), &[p + 2, p + 6]);
    let result = scan(&chunks, START_SEQ, END_SEQ).unwrap();
    assert_eq!(result, expected_payload());
}

#[test]
fn works_on_split_on_endseq_multiple_matches_stream() {
    let body = page_body_with_decoy();
    let q = body.find(r#","skyscraper":"#).unwrap();
    let chunks = chunks_at(body.as_bytes(), &[q + 5]);
    let result = scan(&chunks, START_SEQ, END_SEQ).unwrap();
    assert_eq!(result, expected_payload_with_decoy());
}

#[test]
fn works_on_split_on_endseq_one_stream() {
    let body = page_body();
    let q = body.find(r#","skyscraper":"#).unwrap();
    let chunks = chunks_at(body.as_bytes(), &[q + 5]);
    let result = scan(&chunks, START_SEQ, END_SEQ).unwrap();
    assert_eq!(result, expected_payload());
}

#[test]
fn works_on_split_at_colon() {
    let body = page_body();
    let chunks: Vec<Vec<u8>> = body
        .as_bytes()
        .split_inclusive(|b| *b == b':')
        .map(|part| part.to_vec())
        .collect();
    let result = scan(&chunks, START_SEQ, END_SEQ).unwrap();
    assert_eq!(result, expected_payload());
}

#[test]
fn works_on_split_at_s() {
    let body = page_body();
    let chunks: Vec<Vec<u8>> = body
        .as_bytes()
        .split_inclusive(|b| *b == b's')
        .map(|part| part.to_vec())
        .collect();
    let result = scan(&chunks, START_SEQ, END_SEQ).unwrap();
    assert_eq!(result, expected_payload());
}

#[test]
fn every_split_point_agrees() {
    let body = page_body();
    let bytes = body.as_bytes();
    let whole = scan(&vec![bytes.to_vec()], START_SEQ, END_SEQ);
    for split in 0..=bytes.len() {
        let chunks = chunks_at(bytes, &[split]);
        assert_eq!(scan(&chunks, START_SEQ, END_SEQ), whole);
    }
}

#[test]
fn none_when_start_marker_absent() {
    let chunks = vec![br#"{"nothing":"here"},"skyscraper":{}"#.to_vec()];
    assert_eq!(scan(&chunks, START_SEQ, END_SEQ), None);
}

#[test]
fn none_when_end_marker_never_follows() {
    let chunks = vec![br#"{"results":[{"abc":1}]}"#.to_vec()];
    assert_eq!(scan(&chunks, START_SEQ, END_SEQ), None);
}

#[test]
fn none_on_empty_markers() {
    let body = page_body();
    let chunks = vec![body.as_bytes().to_vec()];
    assert_eq!(scan(&chunks, b"", END_SEQ), None);
    assert_eq!(scan(&chunks, START_SEQ, b""), None);
}

#[test]
fn none_on_empty_stream() {
    let chunks: Vec<Vec<u8>> = Vec::new();
    assert_eq!(scan(&chunks, START_SEQ, END_SEQ), None);
}

#[test]
fn incremental_scanner_matches_whole_scan() {
    let body = page_body();
    let mut scanner = Scanner::new(START_SEQ, END_SEQ);
    for chunk in body.as_bytes().chunks(7) {
        scanner.feed(chunk);
    }
    let payload = scanner.into_payload().expect("markers are present");
    assert_eq!(String::from_utf8(payload).unwrap(), expected_payload());
}
