//! Newest-wins deduplication merge.
//!
//! Pages arrive newest first, in page-index order. The merge walks their
//! fragments as one concatenated sequence: the planner's offset is skipped on
//! the first page only, each page contributes at most its planned take, and
//! the walk stops for good at the first preview posted on or before the
//! newest record the store already holds. A fragment that fails to parse is
//! skipped; it stops nothing.

use vstd::prelude::*;

verus! {

use crate::dates::{date_le, date_wf, Date};
use crate::jobs::{Job, JobTag, Location};
use crate::json::{json_array_fragments, json_fragments_of};
use crate::parse::{full_spec, loc_view, parse_full, JobFacts};
use crate::preview::{parse_preview, preview_spec, sorted_newest_first};
use crate::tags::dict_view;
use vstd::utf8::encode_utf8;

/// A preview date is covered by the watermark: posted on or before it. With
/// no watermark nothing is covered.
pub open spec fn stale(date: Date, watermark: Option<Date>) -> bool {
    watermark matches Some(w) && date_le(date, w)
}

/// The slice of a page the plan asks for: skip `skip_n` fragments, then take
/// at most `take_n`.
pub open spec fn page_window(frags: Seq<Seq<char>>, skip_n: int, take_n: int) -> Seq<Seq<char>> {
    let s = if skip_n <= frags.len() {
        skip_n
    } else {
        frags.len() as int
    };
    let rest = frags.skip(s);
    if take_n <= rest.len() {
        rest.take(take_n)
    } else {
        rest
    }
}

/// The walk over one window of fragments: each fragment previews, then fully
/// parses; a fragment that fails either parse is skipped; the first stale
/// preview stops the walk for good (the flag says so). Yields the parsed
/// facts with each record's posting date.
pub open spec fn merge_frags(
    frags: Seq<Seq<char>>,
    watermark: Option<Date>,
    dict: Seq<(Seq<char>, Seq<Seq<char>>)>,
) -> (Seq<(JobFacts, Date)>, bool)
    decreases frags.len(),
{
    if frags.len() == 0 {
        (Seq::empty(), false)
    } else {
        match preview_spec(frags[0]) {
            Result::Err(_) => merge_frags(frags.drop_first(), watermark, dict),
            Result::Ok(facts) => if stale(facts.1, watermark) {
                (Seq::empty(), true)
            } else {
                let rest = merge_frags(frags.drop_first(), watermark, dict);
                match full_spec(frags[0], dict) {
                    Result::Err(_) => rest,
                    Result::Ok(f) => (seq![(f, facts.1)] + rest.0, rest.1),
                }
            },
        }
    }
}

/// The whole merge over the planned pages: the offset applies to the first
/// page only, each page contributes its window, a page that is not a JSON
/// array contributes nothing, and a stop on one page ends the merge.
pub open spec fn merge_pages_spec(
    pages: Seq<(usize, Seq<char>)>,
    offset: int,
    watermark: Option<Date>,
    dict: Seq<(Seq<char>, Seq<Seq<char>>)>,
) -> Seq<(JobFacts, Date)>
    decreases pages.len(),
{
    if pages.len() == 0 {
        Seq::empty()
    } else {
        let page_part = match json_fragments_of(pages[0].1) {
            Option::None => (Seq::<(JobFacts, Date)>::empty(), false),
            Option::Some(frags) => merge_frags(
                page_window(frags, offset, pages[0].0 as int),
                watermark,
                dict,
            ),
        };
        if page_part.1 {
            page_part.0
        } else {
            page_part.0 + merge_pages_spec(pages.drop_first(), 0, watermark, dict)
        }
    }
}

/// The facts a parsed job stands for.
pub open spec fn facts_of_job(job: Job) -> (JobFacts, Date) {
    (
        JobFacts {
            job_url: job.job_info.job_url.0@,
            title: job.job_info.title.0@,
            description_bytes: encode_utf8(job.job_info.description.0@),
            tags: job.job_info.job_tags@.map_values(|t: JobTag| t.name@),
            company_name: job.company_info.name@,
            company_logo: job.company_info.logo_url@,
            locations: job.locations@.map_values(|l: Location| loc_view(l)),
            last_date: job.last_date.unwrap(),
        },
        job.created_at,
    )
}

/// The pages as their text.
pub open spec fn pages_view(pages: Seq<(usize, String)>) -> Seq<(usize, Seq<char>)> {
    pages.map_values(|p: (usize, String)| (p.0, p.1@))
}

/// The fragments as their text.
pub open spec fn strings_view(ss: Seq<String>) -> Seq<Seq<char>> {
    ss.map_values(|s: String| s@)
}

/// The facts a sequence of parsed jobs stands for.
pub open spec fn jobs_facts(jobs: Seq<Job>) -> Seq<(JobFacts, Date)> {
    jobs.map_values(|job: Job| facts_of_job(job))
}

/// Walks one window of fragments, appending the new postings to `jobs`;
/// reports whether a stale record stopped the walk.
fn merge_window(
    fragments: &Vec<String>,
    start: usize,
    upto: usize,
    watermark: Option<Date>,
    dict: &Vec<(String, Vec<String>)>,
    jobs: &mut Vec<Job>,
) -> (stopped: bool)
    requires
        start <= upto <= fragments@.len(),
        watermark matches Some(w) ==> date_wf(w),
    ensures
        ({
            let w = merge_frags(
                strings_view(fragments@).subrange(start as int, upto as int),
                watermark,
                dict_view(dict@),
            );
            &&& jobs_facts(final(jobs)@) == jobs_facts(old(jobs)@) + w.0
            &&& stopped == w.1
        }),
        final(jobs)@.len() >= old(jobs)@.len(),
        final(jobs)@.subrange(0, old(jobs)@.len() as int) == old(jobs)@,
        forall|i: int|
            old(jobs)@.len() <= i < final(jobs)@.len() ==> crate::jobs::job_wf(
                #[trigger] final(jobs)@[i],
            ),
{
    let ghost frags = strings_view(fragments@);
    let ghost window = frags.subrange(start as int, upto as int);
    let ghost dv = dict_view(dict@);
    let ghost jobs0 = jobs@;
    let mut fi: usize = start;
    proof {
        assert(window.skip(0) =~= window);
        assert(jobs@.subrange(0, jobs0.len() as int) =~= jobs0);
    }
    while fi < upto
        invariant
            jobs0 == old(jobs)@,
            start <= fi <= upto <= fragments@.len(),
            frags == strings_view(fragments@),
            window == frags.subrange(start as int, upto as int),
            dv == dict_view(dict@),
            watermark matches Some(w) ==> date_wf(w),
            jobs@.len() >= jobs0.len(),
            jobs@.subrange(0, jobs0.len() as int) == jobs0,
            forall|i: int|
                jobs0.len() <= i < jobs@.len() ==> crate::jobs::job_wf(#[trigger] jobs@[i]),
            ({
                let walked = merge_frags(window.skip(fi - start), watermark, dv);
                let whole = merge_frags(window, watermark, dv);
                jobs_facts(jobs@) + walked.0 == jobs_facts(jobs0) + whole.0 && walked.1 == whole.1
            }),
        decreases upto - fi,
    {
        proof {
            assert(window.skip(fi - start)[0] == frags[fi as int]);
            assert(window.skip(fi - start).drop_first() =~= window.skip(fi + 1 - start));
            assert(frags[fi as int] == fragments@[fi as int]@);
        }
        match parse_preview(fragments[fi].as_str()) {
            Err(_) => {
                // A fragment whose preview fails is skipped.
            },
            Ok(preview) => {
                let is_old = match &watermark {
                    Some(w) => preview.is_stale(w),
                    None => false,
                };
                if is_old {
                    proof {
                        let walked = merge_frags(window.skip(fi - start), watermark, dv);
                        assert(walked == (Seq::<(JobFacts, Date)>::empty(), true));
                        assert(jobs_facts(jobs@) + walked.0 =~= jobs_facts(jobs@));
                    }
                    // The point of staleness: everything after is already
                    // known.
                    return true;
                }
                match parse_full(&preview, dict) {
                    Err(_) => {
                        // A fragment whose full parse fails is skipped.
                    },
                    Ok(job) => {
                        proof {
                            match full_spec(frags[fi as int], dv) {
                                Result::Ok(f_spec) => {
                                    assert(facts_of_job(job).0 =~= f_spec);
                                },
                                Result::Err(_) => {},
                            }
                            assert(jobs_facts(jobs@.push(job)) =~= jobs_facts(jobs@).push(
                                facts_of_job(job),
                            ));
                            assert(jobs@.push(job).subrange(0, jobs0.len() as int) =~= jobs@
                                .subrange(0, jobs0.len() as int));
                        }
                        jobs.push(job);
                    },
                }
            },
        }
        fi = fi + 1;
        proof {
            let walked = merge_frags(window.skip(fi - start), watermark, dv);
            let whole = merge_frags(window, watermark, dv);
            assert(jobs_facts(jobs@) + walked.0 =~= jobs_facts(jobs0) + whole.0);
        }
    }
    proof {
        assert(window.skip(upto - start) =~= Seq::<Seq<char>>::empty());
        assert(jobs_facts(jobs@) + Seq::<(JobFacts, Date)>::empty() =~= jobs_facts(jobs@));
    }
    false
}

/// Walks the planned pages and yields the new postings, newest first: exactly
/// the records `merge_pages_spec` names, fully parsed.
pub fn merge_pages(
    pages: &Vec<(usize, String)>,
    offset: usize,
    watermark: Option<Date>,
    dict: &Vec<(String, Vec<String>)>,
) -> (r: Vec<Job>)
    requires
        watermark matches Some(w) ==> date_wf(w),
    ensures
        jobs_facts(r@) == merge_pages_spec(
            pages_view(pages@),
            offset as int,
            watermark,
            dict_view(dict@),
        ),
        forall|i: int| 0 <= i < r@.len() ==> crate::jobs::job_wf(#[trigger] r@[i]),
{
    let ghost pview = pages_view(pages@);
    let ghost dv = dict_view(dict@);
    let mut jobs: Vec<Job> = Vec::new();
    let mut pi: usize = 0;
    proof {
        assert(pview.skip(0) =~= pview);
        assert(jobs_facts(jobs@) + merge_pages_spec(pview, offset as int, watermark, dv)
            =~= merge_pages_spec(pview, offset as int, watermark, dv));
    }
    while pi < pages.len()
        invariant
            pi <= pages@.len(),
            pview == pages_view(pages@),
            dv == dict_view(dict@),
            watermark matches Some(w) ==> date_wf(w),
            forall|i: int| 0 <= i < jobs@.len() ==> crate::jobs::job_wf(#[trigger] jobs@[i]),
            jobs_facts(jobs@) + merge_pages_spec(
                pview.skip(pi as int),
                if pi == 0 {
                    offset as int
                } else {
                    0
                },
                watermark,
                dv,
            ) == merge_pages_spec(pview, offset as int, watermark, dv),
        decreases pages@.len() - pi,
    {
        let ghost cur_off: int = if pi == 0 {
            offset as int
        } else {
            0
        };
        proof {
            assert(pview.skip(pi as int)[0] == pview[pi as int]);
            assert(pview.skip(pi as int).drop_first() =~= pview.skip(pi + 1));
        }
        let page_take = pages[pi].0;
        let page_offset: usize = if pi == 0 {
            offset
        } else {
            0
        };
        match json_array_fragments(pages[pi].1.as_str()) {
            None => {
                proof {
                    assert(merge_pages_spec(pview.skip(pi as int), cur_off, watermark, dv)
                        =~= Seq::<(JobFacts, Date)>::empty() + merge_pages_spec(
                        pview.skip(pi + 1),
                        0,
                        watermark,
                        dv,
                    ));
                    assert(Seq::<(JobFacts, Date)>::empty() + merge_pages_spec(
                        pview.skip(pi + 1),
                        0,
                        watermark,
                        dv,
                    ) =~= merge_pages_spec(pview.skip(pi + 1), 0, watermark, dv));
                }
                // Not a results array: this page contributes nothing.
            },
            Some(fragments) => {
                let ghost frags = strings_view(fragments@);
                // The window the plan asks of this page.
                let start: usize = if page_offset <= fragments.len() {
                    page_offset
                } else {
                    fragments.len()
                };
                let upto: usize = if page_take <= fragments.len() - start {
                    start + page_take
                } else {
                    fragments.len()
                };
                proof {
                    assert(page_window(frags, cur_off, page_take as int) =~= frags.subrange(
                        start as int,
                        upto as int,
                    ));
                }
                let ghost jobs_before = jobs@;
                let stopped = merge_window(&fragments, start, upto, watermark, dict, &mut jobs);
                let ghost w = merge_frags(
                    frags.subrange(start as int, upto as int),
                    watermark,
                    dv,
                );
                proof {
                    assert forall|i: int| 0 <= i < jobs@.len() implies crate::jobs::job_wf(
                        #[trigger] jobs@[i],
                    ) by {
                        if i < jobs_before.len() {
                            assert(jobs@.subrange(0, jobs_before.len() as int)[i] == jobs@[i]);
                        }
                    }
                    if w.1 {
                        assert(merge_pages_spec(pview.skip(pi as int), cur_off, watermark, dv)
                            == w.0);
                        assert(jobs_facts(jobs@) =~= jobs_facts(jobs_before) + w.0);
                    } else {
                        assert(merge_pages_spec(pview.skip(pi as int), cur_off, watermark, dv)
                            == w.0 + merge_pages_spec(pview.skip(pi + 1), 0, watermark, dv));
                        assert(jobs_facts(jobs_before) + (w.0 + merge_pages_spec(
                            pview.skip(pi + 1),
                            0,
                            watermark,
                            dv,
                        )) =~= jobs_facts(jobs@) + merge_pages_spec(
                            pview.skip(pi + 1),
                            0,
                            watermark,
                            dv,
                        ));
                    }
                }
                if stopped {
                    return jobs;
                }
            },
        }
        pi = pi + 1;
    }
    proof {
        assert(pview.skip(pi as int) =~= Seq::<(usize, Seq<char>)>::empty());
        assert(jobs_facts(jobs@) + Seq::<(JobFacts, Date)>::empty() =~= jobs_facts(jobs@));
    }
    jobs
}

/// The index of the first fragment whose preview parses and is posted on or
/// before the watermark; the length if there is none.
pub open spec fn first_stale(frags: Seq<Seq<char>>, w: Date) -> int
    decreases frags.len(),
{
    if frags.len() == 0 {
        0
    } else {
        let head_stale = match preview_spec(frags[0]) {
            Result::Ok(facts) => date_le(facts.1, w),
            Result::Err(_) => false,
        };
        if head_stale {
            0
        } else {
            1 + first_stale(frags.drop_first(), w)
        }
    }
}

/// Early-stop law, first half: merging against a watermark yields exactly
/// what merging the records before the first stale one yields — the records
/// from the point of staleness on contribute nothing, and no full parse of
/// theirs is consulted.
pub proof fn lemma_merge_early_stop(frags: Seq<Seq<char>>, w: Date, dict: Seq<(Seq<char>, Seq<Seq<char>>)>)
    ensures
        merge_frags(frags, Some(w), dict).0 == merge_frags(
            frags.take(first_stale(frags, w)),
            Option::<Date>::None,
            dict,
        ).0,
    decreases frags.len(),
{
    let k = first_stale(frags, w);
    if frags.len() == 0 {
        assert(frags.take(0) =~= frags);
    } else {
        let head_stale = match preview_spec(frags[0]) {
            Result::Ok(facts) => date_le(facts.1, w),
            Result::Err(_) => false,
        };
        if head_stale {
            assert(frags.take(0) =~= Seq::<Seq<char>>::empty());
        } else {
            lemma_merge_early_stop(frags.drop_first(), w, dict);
            lemma_first_stale_bounds(frags.drop_first(), w);
            assert(frags.take(k)[0] == frags[0]);
            assert(frags.take(k).drop_first() =~= frags.drop_first().take(k - 1));
        }
    }
}

/// `first_stale` points inside the sequence or just past its end.
pub proof fn lemma_first_stale_bounds(frags: Seq<Seq<char>>, w: Date)
    ensures
        0 <= first_stale(frags, w) <= frags.len(),
    decreases frags.len(),
{
    if frags.len() > 0 {
        lemma_first_stale_bounds(frags.drop_first(), w);
    }
}

/// Early-stop law, second half: every record the merge yields is strictly
/// newer than the watermark.
pub proof fn lemma_merge_yields_new_only(frags: Seq<Seq<char>>, w: Date, dict: Seq<(Seq<char>, Seq<Seq<char>>)>)
    ensures
        forall|i: int|
            0 <= i < merge_frags(frags, Some(w), dict).0.len() ==> !date_le(
                #[trigger] merge_frags(frags, Some(w), dict).0[i].1,
                w,
            ),
    decreases frags.len(),
{
    if frags.len() > 0 {
        lemma_merge_yields_new_only(frags.drop_first(), w, dict);
        let whole = merge_frags(frags, Some(w), dict);
        let rest = merge_frags(frags.drop_first(), Some(w), dict);
        match preview_spec(frags[0]) {
            Result::Err(_) => {},
            Result::Ok(facts) => {
                if !stale(facts.1, Some(w)) {
                    match full_spec(frags[0], dict) {
                        Result::Err(_) => {},
                        Result::Ok(f) => {
                            assert forall|i: int| 0 <= i < whole.0.len() implies !date_le(
                                #[trigger] whole.0[i].1,
                                w,
                            ) by {
                                if i > 0 {
                                    assert(whole.0[i] == rest.0[i - 1]);
                                }
                            }
                        },
                    }
                }
            },
        }
    }
}

/// Early-stop law, third half: on fragments that arrive newest first with
/// parsing previews, every record from the first stale one on is itself
/// stale, so stopping there skips only records the store already covers.
pub proof fn lemma_first_stale_covers_rest(frags: Seq<Seq<char>>, w: Date)
    requires
        forall|i: int| 0 <= i < frags.len() ==> preview_spec(#[trigger] frags[i]) is Ok,
        sorted_newest_first(
            Seq::new(frags.len(), |i: int| preview_spec(frags[i])->Ok_0.1),
        ),
    ensures
        forall|i: int|
            first_stale(frags, w) <= i < frags.len() ==> date_le(
                preview_spec(#[trigger] frags[i])->Ok_0.1,
                w,
            ),
{
    let k = first_stale(frags, w);
    lemma_first_stale_bounds(frags, w);
    let dates = Seq::new(frags.len(), |i: int| preview_spec(frags[i])->Ok_0.1);
    if k < frags.len() {
        lemma_first_stale_hits(frags, w);
        assert forall|i: int| k <= i < frags.len() implies date_le(
            preview_spec(#[trigger] frags[i])->Ok_0.1,
            w,
        ) by {
            assert(date_le(dates[i], dates[k]));
        }
    }
}

/// When `first_stale` lands inside the sequence, the record there is stale.
proof fn lemma_first_stale_hits(frags: Seq<Seq<char>>, w: Date)
    requires
        first_stale(frags, w) < frags.len(),
    ensures
        match preview_spec(frags[first_stale(frags, w)]) {
            Result::Ok(facts) => date_le(facts.1, w),
            Result::Err(_) => false,
        },
    decreases frags.len(),
{
    if frags.len() > 0 {
        let head_stale = match preview_spec(frags[0]) {
            Result::Ok(facts) => date_le(facts.1, w),
            Result::Err(_) => false,
        };
        if !head_stale {
            lemma_first_stale_bounds(frags.drop_first(), w);
            lemma_first_stale_hits(frags.drop_first(), w);
            assert(frags.drop_first()[first_stale(frags.drop_first(), w)] == frags[first_stale(
                frags,
                w,
            )]);
        }
    }
}

} // verus!
