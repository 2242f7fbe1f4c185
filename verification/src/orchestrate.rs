//! Fan-in over the per-site fetches.
//!
//! Sites are fetched independently; a site whose fetch failed contributes an
//! empty result rather than aborting the run. The aggregation concatenates
//! what succeeded, in site order.

use vstd::prelude::*;

verus! {

use crate::jobs::Job;

/// The aggregated postings: each successful site's postings in order, failed
/// sites skipped.
pub open spec fn spec_aggregate(results: Seq<Option<Vec<Job>>>) -> Seq<Job>
    decreases results.len(),
{
    if results.len() == 0 {
        Seq::empty()
    } else {
        let rest = spec_aggregate(results.drop_first());
        match results[0] {
            Option::Some(jobs) => jobs@ + rest,
            Option::None => rest,
        }
    }
}

/// Concatenates the per-site results, skipping the sites that failed.
pub fn aggregate_jobs(results: Vec<Option<Vec<Job>>>) -> (r: Vec<Job>)
    ensures
        r@ == spec_aggregate(results@),
{
    let ghost rview = results@;
    let mut out: Vec<Job> = Vec::new();
    let mut rest = results;
    proof {
        assert(out@ + spec_aggregate(rview) =~= spec_aggregate(rview));
    }
    while rest.len() > 0
        invariant
            out@ + spec_aggregate(rest@) == spec_aggregate(rview),
        decreases rest@.len(),
    {
        let ghost before = rest@;
        let head = rest.remove(0);
        proof {
            assert(rest@ =~= before.drop_first());
        }
        match head {
            Some(mut jobs) => {
                let ghost jview = jobs@;
                proof {
                    assert((out@ + jview) + spec_aggregate(rest@) =~= out@ + (jview
                        + spec_aggregate(rest@)));
                }
                out.append(&mut jobs);
            },
            None => {},
        }
    }
    proof {
        assert(spec_aggregate(rest@) =~= Seq::<Job>::empty());
        assert(out@ + Seq::<Job>::empty() =~= out@);
    }
    out
}

} // verus!
