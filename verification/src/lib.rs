//! Verified core of a job-posting ingestion pipeline.
//!
//! The library scans byte streams for marker-delimited JSON fragments,
//! plans which provider pages to fetch for a requested slice of results,
//! parses posting fragments into structured records, and merges paginated
//! results against a newest-known watermark, stopping at the first stale
//! record. All network and database traffic stays outside the library;
//! callers hand in plain values and get plain values back.

pub mod dates;
pub mod digits;
pub mod find;
pub mod jobs;
pub mod json;
pub mod merge;
pub mod options;
pub mod orchestrate;
pub mod parse;
pub mod preview;
pub mod query;
pub mod scanner;
pub mod store;
pub mod tags;
