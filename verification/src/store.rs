//! An in-memory store with the persistent store's visible behaviour: one row
//! per posting URL, a conflicting insert changes nothing and fails, and an
//! ordered batch insert stops at the first failure — the batch arrives newest
//! first, so a conflict is taken to mean everything older is already stored.

use vstd::prelude::*;

verus! {

use crate::dates::date_le;
use crate::jobs::{job_wf, Job};

/// Why a store call failed.
#[derive(Debug, Clone, Copy, PartialEq, Eq, Structural)]
pub enum StoreError {
    /// The row is already there; nothing was changed.
    Conflict,
}

/// The URL key of a stored job.
pub open spec fn job_key(job: Job) -> Seq<char> {
    job.job_info.job_url.0@
}

/// Some row carries this URL.
pub open spec fn contains_url(rows: Seq<Job>, url: Seq<char>) -> bool {
    exists|i: int| 0 <= i < rows.len() && job_key(#[trigger] rows[i]) == url
}

/// How many rows carry this URL.
pub open spec fn count_url(rows: Seq<Job>, url: Seq<char>) -> int
    decreases rows.len(),
{
    if rows.len() == 0 {
        0
    } else {
        count_url(rows.drop_last(), url) + if job_key(rows.last()) == url {
            1int
        } else {
            0int
        }
    }
}

/// The store's rows key distinct URLs, and every row is a well-formed job.
pub open spec fn store_wf(rows: Seq<Job>) -> bool {
    &&& forall|i: int, j: int|
        0 <= i < j < rows.len() ==> job_key(#[trigger] rows[i]) != job_key(#[trigger] rows[j])
    &&& forall|i: int| 0 <= i < rows.len() ==> job_wf(#[trigger] rows[i])
}

/// What one insert leaves: the rows unchanged on a key conflict, the row
/// appended otherwise.
pub open spec fn spec_insert(rows: Seq<Job>, job: Job) -> Seq<Job> {
    if contains_url(rows, job_key(job)) {
        rows
    } else {
        rows.push(job)
    }
}

/// What an ordered batch insert leaves, with how many rows went in: inserts
/// stop for good at the first conflict.
pub open spec fn spec_insert_batch(rows: Seq<Job>, jobs: Seq<Job>) -> (Seq<Job>, int)
    decreases jobs.len(),
{
    if jobs.len() == 0 {
        (rows, 0int)
    } else if contains_url(rows, job_key(jobs[0])) {
        (rows, 0int)
    } else {
        let rest = spec_insert_batch(rows.push(jobs[0]), jobs.drop_first());
        (rest.0, 1 + rest.1)
    }
}

/// This URL stands in the list.
pub open spec fn url_listed(urls: Seq<Seq<char>>, url: Seq<char>) -> bool {
    exists|i: int| 0 <= i < urls.len() && urls[i] == url
}

/// What deleting a list of URLs leaves: the rows whose key is not listed, in
/// order.
pub open spec fn spec_delete(rows: Seq<Job>, urls: Seq<Seq<char>>) -> Seq<Job>
    decreases rows.len(),
{
    if rows.len() == 0 {
        Seq::empty()
    } else {
        let rest = spec_delete(rows.drop_first(), urls);
        if url_listed(urls, job_key(rows[0])) {
            rest
        } else {
            seq![rows[0]] + rest
        }
    }
}

/// In-memory store.
pub struct MemStore {
    rows: Vec<Job>,
}

impl MemStore {
    /// The rows the store holds, in insertion order.
    pub closed spec fn rows_view(self) -> Seq<Job> {
        self.rows@
    }

    /// The store keys distinct URLs and holds well-formed jobs.
    pub closed spec fn wf(self) -> bool {
        store_wf(self.rows@)
    }

    /// An empty store.
    pub fn new() -> (r: MemStore)
        ensures
            r.wf(),
            r.rows_view() == Seq::<Job>::empty(),
    {
        MemStore { rows: Vec::new() }
    }

    /// How many rows the store holds.
    pub fn len(&self) -> (r: usize)
        ensures
            r == self.rows_view().len(),
    {
        self.rows.len()
    }

    /// The row at one position.
    pub fn row(&self, i: usize) -> (r: &Job)
        requires
            i < self.rows_view().len(),
        ensures
            *r == self.rows_view()[i as int],
    {
        &self.rows[i]
    }

    /// Whether some row keys this URL.
    pub fn has_url(&self, url: &String) -> (r: bool)
        ensures
            r == contains_url(self.rows_view(), url@),
    {
        let mut i: usize = 0;
        while i < self.rows.len()
            invariant
                i <= self.rows@.len(),
                forall|k: int| 0 <= k < i ==> job_key(#[trigger] self.rows@[k]) != url@,
            decreases self.rows@.len() - i,
        {
            if self.rows[i].job_info.job_url.0 == *url {
                return true;
            }
            i = i + 1;
        }
        false
    }

    /// Inserts one job: on a URL conflict nothing changes and the insert
    /// fails, otherwise the row is appended and its position handed back.
    pub fn insert_job(&mut self, job: Job) -> (r: Result<u64, StoreError>)
        requires
            old(self).wf(),
            job_wf(job),
            old(self).rows_view().len() < u64::MAX,
        ensures
            final(self).wf(),
            final(self).rows_view() == spec_insert(old(self).rows_view(), job),
            r is Ok <==> !contains_url(old(self).rows_view(), job_key(job)),
    {
        if self.has_url(&job.job_info.job_url.0) {
            return Err(StoreError::Conflict);
        }
        let id = self.rows.len() as u64;
        proof {
            let rows = self.rows@;
            assert forall|i: int, j: int| 0 <= i < j < rows.push(job).len() implies job_key(
                #[trigger] rows.push(job)[i],
            ) != job_key(#[trigger] rows.push(job)[j]) by {
                if j == rows.len() {
                    assert(job_key(rows[i]) != job_key(job)) by {
                        if job_key(rows[i]) == job_key(job) {
                            assert(contains_url(rows, job_key(job)));
                        }
                    }
                }
            }
        }
        self.rows.push(job);
        Ok(id)
    }

    /// Inserts an ordered batch, newest first, stopping at the first
    /// conflict: the positions of the rows that went in come back, in order.
    pub fn insert_jobs(&mut self, jobs: Vec<Job>) -> (r: Vec<u64>)
        requires
            old(self).wf(),
            forall|i: int| 0 <= i < jobs@.len() ==> job_wf(#[trigger] jobs@[i]),
            old(self).rows_view().len() + jobs@.len() < u64::MAX,
        ensures
            final(self).wf(),
            final(self).rows_view() == spec_insert_batch(old(self).rows_view(), jobs@).0,
            r@.len() == spec_insert_batch(old(self).rows_view(), jobs@).1,
    {
        let ghost rows0 = self.rows@;
        let ghost orig = jobs@;
        let mut ids: Vec<u64> = Vec::new();
        let mut rest = jobs;
        while rest.len() > 0
            invariant
                rows0 == old(self).rows_view(),
                orig == jobs@,
                self.wf(),
                forall|i: int| 0 <= i < rest@.len() ==> job_wf(#[trigger] rest@[i]),
                self.rows_view().len() + rest@.len() < u64::MAX,
                spec_insert_batch(rows0, orig).0 == spec_insert_batch(
                    self.rows_view(),
                    rest@,
                ).0,
                spec_insert_batch(rows0, orig).1 == ids@.len() + spec_insert_batch(
                    self.rows_view(),
                    rest@,
                ).1,
            decreases rest@.len(),
        {
            let ghost rest_before = rest@;
            let job = rest.remove(0);
            proof {
                assert(rest@ =~= rest_before.drop_first());
            }
            match self.insert_job(job) {
                Ok(id) => {
                    ids.push(id);
                },
                Err(_) => {
                    return ids;
                },
            }
        }
        ids
    }

    /// The newest row by posting date, if the store holds any.
    pub fn get_newest_job(&self) -> (r: Option<&Job>)
        requires
            self.wf(),
        ensures
            match r {
                Some(j) => contains_url(self.rows_view(), job_key(*j)) && job_wf(*j) && (forall|
                    k: int,
                |
                    0 <= k < self.rows_view().len() ==> date_le(
                        (#[trigger] self.rows_view()[k]).created_at,
                        j.created_at,
                    )),
                None => self.rows_view().len() == 0,
            },
    {
        if self.rows.len() == 0 {
            return None;
        }
        let mut best: usize = 0;
        let mut i: usize = 1;
        while i < self.rows.len()
            invariant
                self.wf(),
                best < i <= self.rows@.len(),
                forall|k: int|
                    0 <= k < i ==> date_le(
                        (#[trigger] self.rows@[k]).created_at,
                        self.rows@[best as int].created_at,
                    ),
            decreases self.rows@.len() - i,
        {
            if self.rows[best].created_at.le(&self.rows[i].created_at) {
                proof {
                    assert forall|k: int|
                        0 <= k < i + 1 implies date_le(
                        (#[trigger] self.rows@[k]).created_at,
                        self.rows@[i as int].created_at,
                    ) by {}
                }
                best = i;
            }
            i = i + 1;
        }
        let j = &self.rows[best];
        proof {
            assert(job_key(self.rows@[best as int]) == job_key(self.rows@[best as int]));
            assert(contains_url(self.rows@, job_key(self.rows@[best as int])));
        }
        Some(j)
    }

    /// Deletes every row whose URL stands in the list, keeping the rest in
    /// order.
    pub fn delete_jobs(&mut self, urls: &Vec<String>)
        requires
            old(self).wf(),
        ensures
            final(self).wf(),
            final(self).rows_view() == spec_delete(
                old(self).rows_view(),
                urls@.map_values(|s: String| s@),
            ),
    {
        let ghost rows0 = self.rows@;
        let ghost ulist = urls@.map_values(|s: String| s@);
        let mut kept: Vec<Job> = Vec::new();
        let mut rest: Vec<Job> = Vec::new();
        core::mem::swap(&mut rest, &mut self.rows);
        proof {
            lemma_delete_wf(rows0, ulist);
            assert(kept@ + spec_delete(rest@, ulist) =~= spec_delete(rows0, ulist));
        }
        while rest.len() > 0
            invariant
                ulist == urls@.map_values(|s: String| s@),
                kept@ + spec_delete(rest@, ulist) == spec_delete(rows0, ulist),
                store_wf(rows0),
                store_wf(kept@ + spec_delete(rest@, ulist)),
                forall|i: int| 0 <= i < rest@.len() ==> job_wf(#[trigger] rest@[i]),
            decreases rest@.len(),
        {
            let ghost rest_before = rest@;
            let job = rest.remove(0);
            proof {
                assert(rest@ =~= rest_before.drop_first());
            }
            let listed = url_in_list(&job.job_info.job_url.0, urls);
            if !listed {
                proof {
                    assert(kept@.push(job) + spec_delete(rest@, ulist) =~= kept@ + (seq![job]
                        + spec_delete(rest@, ulist)));
                }
                kept.push(job);
            }
        }
        proof {
            assert(spec_delete(rest@, ulist) =~= Seq::<Job>::empty());
            assert(kept@ + Seq::<Job>::empty() =~= kept@);
        }
        self.rows = kept;
    }
}

/// Whether this URL stands in the list.
fn url_in_list(url: &String, urls: &Vec<String>) -> (r: bool)
    ensures
        r == url_listed(urls@.map_values(|s: String| s@), url@),
{
    let ghost ulist = urls@.map_values(|s: String| s@);
    let mut i: usize = 0;
    while i < urls.len()
        invariant
            i <= urls@.len(),
            ulist == urls@.map_values(|s: String| s@),
            forall|k: int| 0 <= k < i ==> ulist[k] != url@,
        decreases urls@.len() - i,
    {
        if urls[i] == *url {
            proof {
                assert(ulist[i as int] == urls@[i as int]@);
            }
            return true;
        }
        i = i + 1;
    }
    false
}

/// Deleting keeps the store well-formed, and introduces no URL that was not
/// already there.
proof fn lemma_delete_wf(rows: Seq<Job>, urls: Seq<Seq<char>>)
    requires
        store_wf(rows),
    ensures
        store_wf(spec_delete(rows, urls)),
        forall|u: Seq<char>|
            contains_url(spec_delete(rows, urls), u) ==> #[trigger] contains_url(rows, u),
    decreases rows.len(),
{
    if rows.len() > 0 {
        let t = rows.drop_first();
        assert(store_wf(t)) by {
            assert forall|i: int, j: int| 0 <= i < j < t.len() implies job_key(#[trigger] t[i])
                != job_key(#[trigger] t[j]) by {
                assert(t[i] == rows[i + 1]);
                assert(t[j] == rows[j + 1]);
            }
            assert forall|i: int| 0 <= i < t.len() implies job_wf(#[trigger] t[i]) by {
                assert(t[i] == rows[i + 1]);
            }
        }
        lemma_delete_wf(t, urls);
        let rest = spec_delete(t, urls);
        assert forall|u: Seq<char>|
            contains_url(spec_delete(rows, urls), u) implies #[trigger] contains_url(rows, u) by {
            let d = spec_delete(rows, urls);
            let w = choose|i: int| 0 <= i < d.len() && job_key(d[i]) == u;
            if url_listed(urls, job_key(rows[0])) {
                assert(contains_url(rest, u));
                assert(contains_url(t, u));
                let v = choose|i: int| 0 <= i < t.len() && job_key(t[i]) == u;
                assert(t[v] == rows[v + 1]);
            } else {
                if w == 0 {
                    assert(job_key(rows[0]) == u);
                } else {
                    assert(d[w] == rest[w - 1]);
                    assert(contains_url(rest, u));
                    assert(contains_url(t, u));
                    let v = choose|i: int| 0 <= i < t.len() && job_key(t[i]) == u;
                    assert(t[v] == rows[v + 1]);
                }
            }
        }
        if !url_listed(urls, job_key(rows[0])) {
            let d = seq![rows[0]] + rest;
            assert forall|i: int, j: int| 0 <= i < j < d.len() implies job_key(#[trigger] d[i])
                != job_key(#[trigger] d[j]) by {
                if i == 0 {
                    assert(d[j] == rest[j - 1]);
                    if job_key(rest[j - 1]) == job_key(rows[0]) {
                        assert(contains_url(rest, job_key(rows[0])));
                        assert(contains_url(t, job_key(rows[0])));
                        let v = choose|k: int|
                            0 <= k < t.len() && job_key(t[k]) == job_key(rows[0]);
                        assert(t[v] == rows[v + 1]);
                    }
                } else {
                    assert(d[i] == rest[i - 1]);
                    assert(d[j] == rest[j - 1]);
                }
            }
            assert forall|i: int| 0 <= i < d.len() implies job_wf(#[trigger] d[i]) by {
                if i > 0 {
                    assert(d[i] == rest[i - 1]);
                }
            }
        }
    }
}

/// The store never holds two rows under one URL: if it is well formed, a URL
/// it contains keys exactly one row, and one it lacks keys none.
pub proof fn lemma_unique_count(rows: Seq<Job>, url: Seq<char>)
    requires
        store_wf(rows),
    ensures
        count_url(rows, url) == if contains_url(rows, url) {
            1int
        } else {
            0int
        },
    decreases rows.len(),
{
    if rows.len() > 0 {
        let t = rows.drop_last();
        assert(store_wf(t)) by {
            assert forall|i: int, j: int| 0 <= i < j < t.len() implies job_key(#[trigger] t[i])
                != job_key(#[trigger] t[j]) by {
                assert(t[i] == rows[i]);
                assert(t[j] == rows[j]);
            }
            assert forall|i: int| 0 <= i < t.len() implies job_wf(#[trigger] t[i]) by {
                assert(t[i] == rows[i]);
            }
        }
        lemma_unique_count(t, url);
        if job_key(rows.last()) == url {
            assert(contains_url(rows, url));
            if contains_url(t, url) {
                let v = choose|i: int| 0 <= i < t.len() && job_key(t[i]) == url;
                assert(t[v] == rows[v]);
                assert(job_key(rows[v]) == job_key(rows[rows.len() - 1]));
            }
            assert(!contains_url(t, url));
        } else {
            if contains_url(rows, url) {
                let v = choose|i: int| 0 <= i < rows.len() && job_key(rows[i]) == url;
                assert(t[v] == rows[v]);
                assert(contains_url(t, url));
            }
            if contains_url(t, url) {
                let v = choose|i: int| 0 <= i < t.len() && job_key(t[i]) == url;
                assert(rows[v] == t[v]);
                assert(contains_url(rows, url));
            }
        }
    }
}

/// Idempotent-insert law: inserting the same job twice is inserting it once,
/// and a well-formed store then holds exactly one row under its URL.
pub proof fn lemma_insert_idempotent(rows: Seq<Job>, job: Job)
    requires
        store_wf(rows),
    ensures
        spec_insert(spec_insert(rows, job), job) == spec_insert(rows, job),
        count_url(spec_insert(spec_insert(rows, job), job), job_key(job)) == 1,
{
    let key = job_key(job);
    if contains_url(rows, key) {
        lemma_unique_count(rows, key);
    } else {
        let pushed = rows.push(job);
        assert(pushed[pushed.len() - 1] == job);
        assert(contains_url(pushed, key));
        lemma_unique_count(rows, key);
        assert(pushed.drop_last() =~= rows);
        assert(pushed.last() == job);
        assert(count_url(pushed, key) == 1);
    }
}

} // verus!
