//! Fetch options and the page planner.
//!
//! A caller asks for a slice of the result set (`SizeOptions`), and the
//! planner translates that request into provider pages: an offset to skip on
//! the first page, the total number of postings covered, and for each
//! provider page the number of postings to take from it.

use vstd::prelude::*;

verus! {

use vstd::arithmetic::div_mod::{
    lemma_basic_div, lemma_div_is_ordered, lemma_div_plus_one, lemma_fundamental_div_mod,
    lemma_hoist_over_denominator, lemma_mod_division_less_than_divisor,
};

/// How much of the result set a caller asks for: one logical page of a chosen
/// size, a fixed number of postings from the front, or everything.
#[derive(Debug, Clone, Copy, PartialEq, Eq, Structural)]
pub enum SizeOptions {
    All,
    Page { page_size: usize, page: usize },
    NotPaged { jobs: usize },
}

/// Which postings a caller asks for: a keyword, region names and tags, or no
/// filter at all.
#[derive(Debug, Clone)]
pub enum QueryOptions {
    All,
    Query { job_name: Option<String>, job_regions: Vec<String>, job_tags: Vec<String> },
}

/// A full fetch request: a filter and a size selection.
#[derive(Debug, Clone)]
pub struct FetchOptions {
    pub query_options: QueryOptions,
    pub size_options: SizeOptions,
}

/// A malformed combination of size parameters, rejected before any network
/// activity.
#[derive(Debug, Clone, Copy, PartialEq, Eq, Structural)]
pub enum ValidationError {
    ConflictingSizeOptions,
}

impl FetchOptions {
    /// The request for the whole result set, unfiltered.
    pub fn full() -> (r: FetchOptions)
        ensures
            r.query_options is All,
            r.size_options is All,
    {
        FetchOptions { query_options: QueryOptions::All, size_options: SizeOptions::All }
    }

    /// Builds a request from the raw query parameters of the web surface.
    /// Exactly one of `{page_size, page}` / `{jobs}` / neither may be given;
    /// any other combination is a validation error.
    pub fn from_params(
        job_name: Option<String>,
        job_regions: Vec<String>,
        job_tags: Vec<String>,
        page_size: Option<usize>,
        page: Option<usize>,
        jobs: Option<usize>,
    ) -> (r: Result<FetchOptions, ValidationError>)
        ensures
            match (page_size, page, jobs) {
                (Some(ps), Some(p), None) => r matches Ok(f)
                    && f.size_options == (SizeOptions::Page { page_size: ps, page: p }),
                (None, None, Some(j)) => r matches Ok(f)
                    && f.size_options == (SizeOptions::NotPaged { jobs: j }),
                (None, None, None) => r matches Ok(f) && f.size_options is All,
                _ => r == Err::<FetchOptions, ValidationError>(
                    ValidationError::ConflictingSizeOptions,
                ),
            },
            r matches Ok(f) ==> (if job_name is Some || job_regions@.len() == 0
                || job_tags@.len() > 0 {
                f.query_options == (QueryOptions::Query { job_name, job_regions, job_tags })
            } else {
                f.query_options is All
            }),
    {
        let size_options = match (page_size, page, jobs) {
            (Some(ps), Some(p), None) => SizeOptions::Page { page_size: ps, page: p },
            (None, None, Some(j)) => SizeOptions::NotPaged { jobs: j },
            (None, None, None) => SizeOptions::All,
            _ => {
                return Err(ValidationError::ConflictingSizeOptions);
            },
        };
        let query_options = Self::query_options_from_params(job_name, job_regions, job_tags);
        Ok(FetchOptions { query_options, size_options })
    }

    /// Keeps the filter parameters as a `Query` filter whenever a keyword is
    /// given, the region list is empty, or tags are given; otherwise the
    /// request is unfiltered.
    pub fn query_options_from_params(
        job_name: Option<String>,
        job_regions: Vec<String>,
        job_tags: Vec<String>,
    ) -> (r: QueryOptions)
        ensures
            (job_name is Some || job_regions@.len() == 0 || job_tags@.len() > 0) ==> r
                == (QueryOptions::Query { job_name, job_regions, job_tags }),
            !(job_name is Some || job_regions@.len() == 0 || job_tags@.len() > 0) ==> r is All,
    {
        if job_name.is_some() || job_regions.is_empty() || !job_tags.is_empty() {
            QueryOptions::Query { job_name, job_regions, job_tags }
        } else {
            QueryOptions::All
        }
    }
}

/// The smaller of two integers.
pub open spec fn min_int(a: int, b: int) -> int {
    if a < b {
        a
    } else {
        b
    }
}

/// The planned takes: the first page yields at most `first_cap` postings,
/// every later page at most `cap`, until `jobs` postings are covered. Page
/// indices count up from `idx`.
pub open spec fn spec_takes(jobs: int, first_cap: int, cap: int, idx: int) -> Seq<(usize, usize)>
    decreases jobs,
{
    if jobs <= 0 || first_cap <= 0 || cap <= 0 {
        Seq::empty()
    } else {
        let t = min_int(jobs, first_cap);
        seq![(t as usize, idx as usize)] + spec_takes(jobs - t, cap, cap, idx + 1)
    }
}

/// How many pages the plan spans.
pub open spec fn pages_count(jobs: int, first_cap: int, cap: int) -> int
    decreases jobs,
{
    if jobs <= 0 || first_cap <= 0 || cap <= 0 {
        0
    } else {
        1 + pages_count(jobs - min_int(jobs, first_cap), cap, cap)
    }
}

/// The sum of the take counts of a plan.
pub open spec fn sum_takes(s: Seq<(usize, usize)>) -> int
    decreases s.len(),
{
    if s.len() == 0 {
        0
    } else {
        s[0].0 + sum_takes(s.drop_first())
    }
}

/// The size of the result slice a request covers, clamped to what is
/// available.
pub open spec fn requested_count(opts: SizeOptions, total: int) -> int {
    match opts {
        SizeOptions::All => total,
        SizeOptions::Page { page_size, page } => min_int(page_size * (page + 1), total) - min_int(
            page_size * page,
            total,
        ),
        SizeOptions::NotPaged { jobs } => min_int(jobs as int, total),
    }
}

/// The planner's whole answer: the within-first-page offset, the job count,
/// and the per-page takes.
pub open spec fn spec_plan(opts: SizeOptions, total: int, mps: int, so: int) -> (
    int,
    int,
    Seq<(usize, usize)>,
) {
    match opts {
        SizeOptions::Page { page_size, page } => {
            let start = min_int(page_size * page, total);
            let end = min_int(page_size * (page + 1), total);
            let jobs = end - start;
            if jobs == 0 {
                (0int, 0int, Seq::<(usize, usize)>::empty())
            } else {
                let start_page = start / mps;
                let off = start - mps * start_page;
                (off, jobs, spec_takes(jobs, mps - off, mps, start_page + so))
            }
        },
        SizeOptions::NotPaged { jobs } => {
            let j = min_int(jobs as int, total);
            (0int, j, spec_takes(j, mps, mps, so))
        },
        SizeOptions::All => (0int, total, spec_takes(total, mps, mps, so)),
    }
}

/// The takes of a plan sum to exactly the planned job count.
pub proof fn lemma_takes_cover(jobs: int, first_cap: int, cap: int, idx: int)
    requires
        0 <= jobs <= usize::MAX,
        first_cap >= 1,
        cap >= 1,
    ensures
        sum_takes(spec_takes(jobs, first_cap, cap, idx)) == jobs,
    decreases jobs,
{
    if jobs > 0 {
        let t = min_int(jobs, first_cap);
        let head = seq![(t as usize, idx as usize)];
        let rest = spec_takes(jobs - t, cap, cap, idx + 1);
        assert((head + rest).drop_first() =~= rest);
        lemma_takes_cover(jobs - t, cap, cap, idx + 1);
    }
}

/// The plan spans exactly `pages_count` pages, whatever the first index.
pub proof fn lemma_takes_len(jobs: int, first_cap: int, cap: int, idx: int)
    ensures
        spec_takes(jobs, first_cap, cap, idx).len() == pages_count(jobs, first_cap, cap),
    decreases jobs,
{
    if !(jobs <= 0 || first_cap <= 0 || cap <= 0) {
        let t = min_int(jobs, first_cap);
        lemma_takes_len(jobs - t, cap, cap, idx + 1);
    }
}

/// With a uniform cap, the page count is the ceiling of `jobs / cap`.
pub proof fn lemma_pages_count_ceil(jobs: int, cap: int)
    requires
        0 <= jobs,
        cap >= 1,
    ensures
        pages_count(jobs, cap, cap) == if jobs == 0 {
            0int
        } else {
            1 + (jobs - 1) / cap
        },
    decreases jobs,
{
    if jobs == 0 {
    } else if jobs <= cap {
        lemma_basic_div(jobs - 1, cap);
        assert(pages_count(jobs - min_int(jobs, cap), cap, cap) == 0);
    } else {
        lemma_pages_count_ceil(jobs - cap, cap);
        lemma_div_plus_one(jobs - cap - 1, cap);
    }
}

impl SizeOptions {
    /// Plans which provider pages to fetch for this size request.
    ///
    /// Returns `(offset, job_count, takes)`: skip `offset` postings on the
    /// first planned page, then take from each planned page the paired count;
    /// page indices start at `start_offset` past the first provider page that
    /// holds the requested range.
    pub fn job_num_to_query(&self, total_jobs: usize, max_page_size: usize, start_offset: usize) -> (r: (
        usize,
        usize,
        Vec<(usize, usize)>,
    ))
        requires
            max_page_size >= 1,
            (total_jobs as int) / (max_page_size as int) + start_offset + 2 <= usize::MAX,
            (*self matches SizeOptions::Page { page_size, page } ==> page_size * (page + 1)
                <= usize::MAX),
        ensures
            ({
                let p = spec_plan(*self, total_jobs as int, max_page_size as int,
                    start_offset as int);
                r.0 == p.0 && r.1 == p.1 && r.2@ == p.2
            }),
    {
        match *self {
            SizeOptions::Page { page_size, page } => {
                if page_size == 0 {
                    proof {
                        assert(page_size * page == 0) by (nonlinear_arith)
                            requires
                                page_size == 0,
                        ;
                        assert(page_size * (page + 1) == 0) by (nonlinear_arith)
                            requires
                                page_size == 0,
                        ;
                    }
                    return (0, 0, Vec::new());
                }
                assert(page + 1 <= page_size * (page + 1)) by (nonlinear_arith)
                    requires
                        page_size >= 1,
                        page >= 0,
                ;
                assert(page_size * page <= page_size * (page + 1)) by (nonlinear_arith)
                    requires
                        page_size >= 0,
                        page >= 0,
                ;
                let start_raw = page_size * page;
                let start = if start_raw < total_jobs {
                    start_raw
                } else {
                    total_jobs
                };
                let end_raw = page_size * (page + 1);
                let end = if end_raw < total_jobs {
                    end_raw
                } else {
                    total_jobs
                };
                let jobs = end - start;
                if jobs == 0 {
                    return (0, 0, Vec::new());
                }
                let start_page = start / max_page_size;
                let off = start % max_page_size;
                proof {
                    lemma_fundamental_div_mod(start as int, max_page_size as int);
                    lemma_mod_division_less_than_divisor(start as int, max_page_size as int);
                    lemma_div_is_ordered(start as int, total_jobs as int, max_page_size as int);
                    lemma_page_arm_fits(jobs as int, off as int, start_page as int,
                        max_page_size as int, start_offset as int, total_jobs as int);
                }
                let takes = build_takes(jobs, max_page_size - off, max_page_size,
                    start_page + start_offset);
                (off, jobs, takes)
            },
            SizeOptions::NotPaged { jobs } => {
                let j = if jobs < total_jobs {
                    jobs
                } else {
                    total_jobs
                };
                proof {
                    lemma_uniform_arm_fits(j as int, max_page_size as int, start_offset as int,
                        total_jobs as int);
                }
                let takes = build_takes(j, max_page_size, max_page_size, start_offset);
                (0, j, takes)
            },
            SizeOptions::All => {
                proof {
                    lemma_uniform_arm_fits(total_jobs as int, max_page_size as int,
                        start_offset as int, total_jobs as int);
                }
                let takes = build_takes(total_jobs, max_page_size, max_page_size, start_offset);
                (0, total_jobs, takes)
            },
        }
    }
}

/// A plan never spans a negative number of pages.
proof fn lemma_pages_count_nonneg(jobs: int, first_cap: int, cap: int)
    ensures
        pages_count(jobs, first_cap, cap) >= 0,
    decreases jobs,
{
    if !(jobs <= 0 || first_cap <= 0 || cap <= 0) {
        lemma_pages_count_nonneg(jobs - min_int(jobs, first_cap), cap, cap);
    }
}

/// The page-index bound needed by `build_takes` holds in the logical-page arm.
proof fn lemma_page_arm_fits(jobs: int, off: int, start_page: int, mps: int, so: int, total: int)
    requires
        mps >= 1,
        1 <= jobs,
        0 <= off < mps,
        0 <= start_page,
        0 <= so,
        mps * start_page + off + jobs <= total,
        total / mps + so + 2 <= usize::MAX,
        start_page <= total / mps,
    ensures
        start_page + so + pages_count(jobs, mps - off, mps) <= usize::MAX,
{
    if jobs <= mps - off {
        assert(pages_count(jobs - min_int(jobs, mps - off), mps, mps) == 0);
        assert(pages_count(jobs, mps - off, mps) == 1);
    } else {
        let rest = jobs - (mps - off);
        assert(pages_count(jobs, mps - off, mps) == 1 + pages_count(rest, mps, mps));
        lemma_pages_count_ceil(rest, mps);
        lemma_div_plus_one(jobs + off - mps - 1, mps);
        assert(pages_count(jobs, mps - off, mps) == 1 + (jobs + off - 1) / mps);
        lemma_hoist_over_denominator(jobs + off - 1, start_page, mps as nat);
        assert((jobs + off - 1) / mps + start_page == (jobs + off - 1 + start_page * mps) / mps);
        assert(jobs + off - 1 + start_page * mps <= total - 1) by (nonlinear_arith)
            requires
                mps * start_page + off + jobs <= total,
        ;
        lemma_div_is_ordered(jobs + off - 1 + start_page * mps, total, mps);
    }
}

/// The page-index bound needed by `build_takes` holds in the uniform arms.
proof fn lemma_uniform_arm_fits(jobs: int, mps: int, so: int, total: int)
    requires
        mps >= 1,
        0 <= jobs <= total,
        0 <= so,
        total / mps + so + 2 <= usize::MAX,
    ensures
        so + pages_count(jobs, mps, mps) <= usize::MAX,
{
    lemma_pages_count_ceil(jobs, mps);
    if jobs > 0 {
        lemma_div_is_ordered(jobs - 1, total, mps);
    }
}

/// Emits the per-page takes: `first_cap` caps the first page, `cap` every
/// later one, page indices counting up from `first_idx`.
fn build_takes(jobs: usize, first_cap: usize, cap: usize, first_idx: usize) -> (r: Vec<
    (usize, usize),
>)
    requires
        first_cap >= 1,
        cap >= 1,
        first_idx + pages_count(jobs as int, first_cap as int, cap as int) <= usize::MAX,
    ensures
        r@ == spec_takes(jobs as int, first_cap as int, cap as int, first_idx as int),
{
    let mut takes: Vec<(usize, usize)> = Vec::new();
    let mut remaining: usize = jobs;
    let mut idx: usize = first_idx;
    let mut cap_now: usize = first_cap;
    while remaining > 0
        invariant
            cap >= 1,
            cap_now >= 1,
            idx + pages_count(remaining as int, cap_now as int, cap as int) <= usize::MAX,
            takes@ + spec_takes(remaining as int, cap_now as int, cap as int, idx as int)
                == spec_takes(jobs as int, first_cap as int, cap as int, first_idx as int),
        decreases remaining,
    {
        let take = if remaining < cap_now {
            remaining
        } else {
            cap_now
        };
        proof {
            lemma_pages_count_nonneg(remaining - take, cap as int, cap as int);
            assert(pages_count(remaining as int, cap_now as int, cap as int) == 1 + pages_count(
                remaining - take,
                cap as int,
                cap as int,
            ));
            assert(spec_takes(remaining as int, cap_now as int, cap as int, idx as int) == seq![
                (take, idx),
            ] + spec_takes(remaining - take, cap as int, cap as int, idx + 1));
            assert(takes@.push((take, idx)) + spec_takes(remaining - take, cap as int, cap as int,
                idx + 1) =~= takes@ + spec_takes(remaining as int, cap_now as int, cap as int,
                idx as int));
        }
        takes.push((take, idx));
        remaining = remaining - take;
        idx = idx + 1;
        cap_now = cap;
    }
    proof {
        assert(takes@ + spec_takes(0int, cap_now as int, cap as int, idx as int) =~= takes@);
    }
    takes
}

/// Coverage law: for every size request, the planned takes sum to exactly the
/// planned job count, and that count is the requested size clamped to what is
/// available.
pub proof fn lemma_planner_coverage(opts: SizeOptions, total: int, mps: int, so: int)
    requires
        0 <= total <= usize::MAX,
        mps >= 1,
        0 <= so,
    ensures
        spec_plan(opts, total, mps, so).1 == requested_count(opts, total),
        sum_takes(spec_plan(opts, total, mps, so).2) == spec_plan(opts, total, mps, so).1,
{
    match opts {
        SizeOptions::Page { page_size, page } => {
            let start = min_int(page_size * page, total);
            let end = min_int(page_size * (page + 1), total);
            let jobs = end - start;
            assert(page_size * page <= page_size * (page + 1)) by (nonlinear_arith)
                requires
                    page_size >= 0,
                    page >= 0,
            ;
            if jobs != 0 {
                let start_page = start / mps;
                let off = start - mps * start_page;
                lemma_fundamental_div_mod(start, mps);
                lemma_mod_division_less_than_divisor(start, mps);
                lemma_takes_cover(jobs, mps - off, mps, start_page + so);
            }
        },
        SizeOptions::NotPaged { jobs } => {
            lemma_takes_cover(min_int(jobs as int, total), mps, mps, so);
        },
        SizeOptions::All => {
            lemma_takes_cover(total, mps, mps, so);
        },
    }
}

/// Boundary law: a logical page lying entirely beyond the available results
/// plans zero jobs and no page fetches.
pub proof fn lemma_planner_boundary(page_size: usize, page: usize, total: int, mps: int, so: int)
    requires
        mps >= 1,
        0 <= total <= page_size * page,
    ensures
        spec_plan(SizeOptions::Page { page_size, page }, total, mps, so) == (
            0int,
            0int,
            Seq::<(usize, usize)>::empty(),
        ),
{
    assert(page_size * page <= page_size * (page + 1)) by (nonlinear_arith)
        requires
            page_size >= 0,
            page >= 0,
    ;
}

} // verus!
