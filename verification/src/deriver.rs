//! Lesson derivation jobs: one per finalized pair, picked up in the
//! background, retried on failure up to three attempts in all.
use vstd::prelude::*;

use crate::seqs::{count_where, first_index, lemma_first_index_prefix, lemma_take_all, lemma_take_succ, select_asc};
use crate::store::{
    ids_ok, job_v, jobs_v, lemma_ids_len, lemma_ids_push, lemma_select_ids, now_iso, DerivationJob, JobV,
    LearnError, LessonV, PatternV, Store, StoreV,
};
use crate::feedback::{add_feedback_at, with_feedback};
use crate::pairs::{add_lesson_at, pair_id_is, with_lesson};
use crate::patterns::{add_pattern_at, with_pattern};
use crate::tags::strs_v;
use crate::text::{clone_opt, decimal, i64_to_string, opt_chars, owned, push_str, str_eq};

verus! {

/// Whether a job is for pair `pair_id`.
pub open spec fn job_for_pair(pair_id: i64) -> spec_fn(JobV) -> bool {
    |j: JobV| j.pair_id == pair_id
}

/// What enqueueing a job for `pair_id` at `now` returns and leaves: nothing
/// changes when the pair already has a job; otherwise a pending job with no
/// attempts is added.
pub open spec fn enqueue_spec(s: StoreV, pair_id: i64, now: Seq<char>) -> (
    Result<(), LearnError>,
    StoreV,
) {
    if first_index(s.jobs, job_for_pair(pair_id)) is Some {
        (Ok(()), s)
    } else if s.next_job == i64::MAX {
        (Err(LearnError::Full), s)
    } else {
        (
            Ok(()),
            StoreV {
                jobs: s.jobs.push(
                    JobV {
                        id: s.next_job,
                        pair_id,
                        status: "pending"@,
                        attempts: 0,
                        error: None,
                        created_at: now,
                        updated_at: now,
                    },
                ),
                next_job: (s.next_job + 1) as i64,
                ..s
            },
        )
    }
}

/// Enqueues a derivation job for a finalized pair, stamped `now`. Does
/// nothing when the pair already has one.
pub fn enqueue_at(store: &mut Store, pair_id: i64, now: &str) -> (r: Result<(), LearnError>)
    requires
        old(store)@.wf(),
    ensures
        final(store)@.wf(),
        (r, final(store)@) == enqueue_spec(old(store)@, pair_id, now@),
{
    let ghost js = store@.jobs;
    let mut i: usize = 0;
    while i < store.jobs.len()
        invariant
            js == store@.jobs,
            store@ == old(store)@,
            store@.wf(),
            js.len() == store.jobs@.len(),
            i <= js.len(),
            first_index(js.take(i as int), job_for_pair(pair_id)) is None,
        decreases js.len() - i,
    {
        proof {
            lemma_take_succ(js, i as int);
            assert(js[i as int] == job_v(store.jobs@[i as int]));
        }
        if store.jobs[i].pair_id == pair_id {
            proof {
                lemma_first_index_prefix(js, job_for_pair(pair_id), i + 1);
            }
            return Ok(());
        }
        i = i + 1;
    }
    proof {
        lemma_take_all(js);
    }
    if store.next_job == i64::MAX {
        return Err(LearnError::Full);
    }
    let id = store.next_job;
    let rec = DerivationJob {
        id,
        pair_id,
        status: owned("pending"),
        attempts: 0,
        error: None,
        created_at: owned(now),
        updated_at: owned(now),
    };
    let ghost before = store@;
    store.jobs.push(rec);
    store.next_job = id + 1;
    proof {
        assert(store@.jobs =~= before.jobs.push(job_v(rec)));
        assert(store@.jobs.map_values(|x: JobV| x.id) =~= before.jobs.map_values(|x: JobV| x.id).push(
            id,
        ));
        lemma_ids_push(before.jobs.map_values(|x: JobV| x.id), id);
    }
    Ok(())
}

/// Enqueues a derivation job for a finalized pair, stamped with the current
/// time. Idempotent: a pair that already has a job keeps it.
pub fn enqueue(store: &mut Store, pair_id: i64) -> (r: Result<(), LearnError>)
    requires
        old(store)@.wf(),
    ensures
        final(store)@.wf(),
        exists|now: Seq<char>| (r, final(store)@) == enqueue_spec(old(store)@, pair_id, now),
{
    let now = now_iso();
    enqueue_at(store, pair_id, now.as_str())
}

/// Whether a job is still to be run: pending, or failed with fewer than
/// three attempts.
pub open spec fn job_pending(j: JobV) -> bool {
    j.status == "pending"@ || (j.status == "failed"@ && j.attempts < 3)
}

/// The jobs still to be run, oldest first.
pub open spec fn pending_jobs_spec(s: StoreV) -> Seq<JobV> {
    select_asc(s.jobs, |j: JobV| job_pending(j))
}

/// A copy of a job.
pub fn clone_job(j: &DerivationJob) -> (r: DerivationJob)
    ensures
        job_v(r) == job_v(*j),
{
    DerivationJob {
        id: j.id,
        pair_id: j.pair_id,
        status: j.status.clone(),
        attempts: j.attempts,
        error: clone_opt(&j.error),
        created_at: j.created_at.clone(),
        updated_at: j.updated_at.clone(),
    }
}

/// The jobs still to be run (pending, or failed with fewer than three
/// attempts), oldest first: ids strictly ascending.
pub fn pending_jobs(store: &Store) -> (r: Vec<DerivationJob>)
    ensures
        jobs_v(r@) == pending_jobs_spec(store@),
        store@.wf() ==> forall|a: int, b: int|
            0 <= a < b < r@.len() ==> r@[a].id < r@[b].id,
{
    let ghost js = store@.jobs;
    let mut out: Vec<DerivationJob> = Vec::new();
    let mut i: usize = 0;
    while i < store.jobs.len()
        invariant
            js == store@.jobs,
            js.len() == store.jobs@.len(),
            i <= js.len(),
            jobs_v(out@) == select_asc(js.take(i as int), |j: JobV| job_pending(j)),
        decreases js.len() - i,
    {
        proof {
            lemma_take_succ(js, i as int);
            assert(js[i as int] == job_v(store.jobs@[i as int]));
        }
        let j = &store.jobs[i];
        let keep = str_eq(j.status.as_str(), "pending") || (str_eq(j.status.as_str(), "failed")
            && j.attempts < 3);
        if keep {
            let ghost before = out@;
            out.push(clone_job(j));
            proof {
                assert(jobs_v(out@) =~= jobs_v(before).push(js[i as int]));
            }
        }
        i = i + 1;
    }
    proof {
        lemma_take_all(js);
        if store@.wf() {
            let keep = |j: JobV| job_pending(j);
            let idf = |x: JobV| x.id;
            lemma_select_ids(js, keep, idf, store@.next_job);
            let f = select_asc(js, keep);
            assert(js.map_values(idf) =~= js.map_values(|r: JobV| r.id));
            assert forall|a: int, b: int| 0 <= a < b < out@.len() implies out@[a].id < out@[b].id by {
                assert(jobs_v(out@)[a] == job_v(out@[a]));
                assert(jobs_v(out@)[b] == job_v(out@[b]));
                assert(f.map_values(idf)[a] == f[a].id);
                assert(f.map_values(idf)[b] == f[b].id);
            }
        }
    }
    out
}

/// How many jobs are still to be run: as many as `pending_jobs` lists.
pub fn pending_count(store: &Store) -> (r: i64)
    requires
        store@.wf(),
    ensures
        r == pending_jobs_spec(store@).len(),
{
    let ghost js = store@.jobs;
    proof {
        lemma_ids_len(js.map_values(|x: JobV| x.id), store@.next_job);
    }
    let mut n: i64 = 0;
    let mut i: usize = 0;
    while i < store.jobs.len()
        invariant
            js == store@.jobs,
            js.len() == store.jobs@.len(),
            js.len() < i64::MAX,
            i <= js.len(),
            n == select_asc(js.take(i as int), |j: JobV| job_pending(j)).len(),
            n <= i,
        decreases js.len() - i,
    {
        proof {
            lemma_take_succ(js, i as int);
            assert(js[i as int] == job_v(store.jobs@[i as int]));
        }
        let j = &store.jobs[i];
        if str_eq(j.status.as_str(), "pending") || (str_eq(j.status.as_str(), "failed")
            && j.attempts < 3) {
            n = n + 1;
        }
        i = i + 1;
    }
    proof {
        lemma_take_all(js);
    }
    n
}

/// `s` with job `job_id` changed by `f`.
pub open spec fn update_job(s: StoreV, job_id: i64, f: spec_fn(JobV) -> JobV) -> StoreV {
    StoreV {
        jobs: s.jobs.map_values(
            |j: JobV|
                if j.id == job_id {
                    f(j)
                } else {
                    j
                },
        ),
        ..s
    }
}

/// A job marked with `status` at `now`.
pub open spec fn job_marked(status: Seq<char>, now: Seq<char>) -> spec_fn(JobV) -> JobV {
    |j: JobV| JobV { status, updated_at: now, ..j }
}

/// A job after a failed attempt with error `err` at `now`: back to pending
/// while fewer than three attempts are used, failed at the third.
pub open spec fn job_failed(err: Seq<char>, now: Seq<char>) -> spec_fn(JobV) -> JobV {
    |j: JobV|
        JobV {
            status: if j.attempts >= 2 {
                "failed"@
            } else {
                "pending"@
            },
            attempts: (j.attempts + 1) as i64,
            error: Some(err),
            updated_at: now,
            ..j
        }
}

/// Sets the status of job `job_id` at `now`.
fn set_job_status(store: &mut Store, job_id: i64, status: &str, now: &str)
    requires
        old(store)@.wf(),
    ensures
        final(store)@.wf(),
        final(store)@ == update_job(old(store)@, job_id, job_marked(status@, now@)),
{
    let ghost orig = store@;
    let mut k: usize = 0;
    while k < store.jobs.len()
        invariant
            orig.wf(),
            k <= store.jobs@.len(),
            store.jobs@.len() == orig.jobs.len(),
            forall|q: int|
                0 <= q < k ==> #[trigger] job_v(store.jobs@[q]) == (if orig.jobs[q].id == job_id {
                    job_marked(status@, now@)(orig.jobs[q])
                } else {
                    orig.jobs[q]
                }),
            forall|q: int| k <= q < orig.jobs.len() ==> #[trigger] job_v(store.jobs@[q]) == orig.jobs[q],
            store@.pairs == orig.pairs,
            store@.lessons == orig.lessons,
            store@.drafts == orig.drafts,
            store@.revisions == orig.revisions,
            store@.patterns == orig.patterns,
            store@.feedback == orig.feedback,
            store@.next_pair == orig.next_pair,
            store@.next_lesson == orig.next_lesson,
            store@.next_draft == orig.next_draft,
            store@.next_revision == orig.next_revision,
            store@.next_pattern == orig.next_pattern,
            store@.next_feedback == orig.next_feedback,
            store@.next_job == orig.next_job,
        decreases store.jobs@.len() - k,
    {
        assert(job_v(store.jobs@[k as int]) == orig.jobs[k as int]);
        if store.jobs[k].id == job_id {
            store.jobs[k].status = owned(status);
            store.jobs[k].updated_at = owned(now);
        }
        k = k + 1;
    }
    proof {
        assert(store@.jobs =~= update_job(orig, job_id, job_marked(status@, now@)).jobs);
        assert(store@.jobs.map_values(|x: JobV| x.id) =~= orig.jobs.map_values(|x: JobV| x.id));
    }
}

/// Marks job `job_id` as being processed, at `now`.
pub fn mark_processing_at(store: &mut Store, job_id: i64, now: &str)
    requires
        old(store)@.wf(),
    ensures
        final(store)@.wf(),
        final(store)@ == update_job(old(store)@, job_id, job_marked("processing"@, now@)),
{
    set_job_status(store, job_id, "processing", now);
}

/// Marks job `job_id` as done, at `now`.
pub fn mark_done_at(store: &mut Store, job_id: i64, now: &str)
    requires
        old(store)@.wf(),
    ensures
        final(store)@.wf(),
        final(store)@ == update_job(old(store)@, job_id, job_marked("done"@, now@)),
{
    set_job_status(store, job_id, "done", now);
}

/// Marks job `job_id` as being processed, at the current time.
pub fn mark_processing(store: &mut Store, job_id: i64)
    requires
        old(store)@.wf(),
    ensures
        final(store)@.wf(),
        exists|now: Seq<char>|
            final(store)@ == update_job(old(store)@, job_id, job_marked("processing"@, now)),
{
    let now = now_iso();
    mark_processing_at(store, job_id, now.as_str());
}

/// Marks job `job_id` as done, at the current time.
pub fn mark_done(store: &mut Store, job_id: i64)
    requires
        old(store)@.wf(),
    ensures
        final(store)@.wf(),
        exists|now: Seq<char>| final(store)@ == update_job(old(store)@, job_id, job_marked("done"@, now)),
{
    let now = now_iso();
    mark_done_at(store, job_id, now.as_str());
}

/// Whether every job `job_id` can count one more attempt.
pub open spec fn attempts_fit(s: StoreV, job_id: i64) -> bool {
    forall|q: int| 0 <= q < s.jobs.len() && #[trigger] s.jobs[q].id == job_id ==> s.jobs[q].attempts < i64::MAX
}

/// Records a failed attempt of job `job_id` with error `err`, at `now`: the
/// job goes back to pending, or to failed once this is its third attempt.
pub fn mark_failed_at(store: &mut Store, job_id: i64, err: &str, now: &str)
    requires
        old(store)@.wf(),
        attempts_fit(old(store)@, job_id),
    ensures
        final(store)@.wf(),
        final(store)@ == update_job(old(store)@, job_id, job_failed(err@, now@)),
{
    let ghost orig = store@;
    let mut k: usize = 0;
    while k < store.jobs.len()
        invariant
            orig.wf(),
            attempts_fit(orig, job_id),
            k <= store.jobs@.len(),
            store.jobs@.len() == orig.jobs.len(),
            forall|q: int|
                0 <= q < k ==> #[trigger] job_v(store.jobs@[q]) == (if orig.jobs[q].id == job_id {
                    job_failed(err@, now@)(orig.jobs[q])
                } else {
                    orig.jobs[q]
                }),
            forall|q: int| k <= q < orig.jobs.len() ==> #[trigger] job_v(store.jobs@[q]) == orig.jobs[q],
            store@.pairs == orig.pairs,
            store@.lessons == orig.lessons,
            store@.drafts == orig.drafts,
            store@.revisions == orig.revisions,
            store@.patterns == orig.patterns,
            store@.feedback == orig.feedback,
            store@.next_pair == orig.next_pair,
            store@.next_lesson == orig.next_lesson,
            store@.next_draft == orig.next_draft,
            store@.next_revision == orig.next_revision,
            store@.next_pattern == orig.next_pattern,
            store@.next_feedback == orig.next_feedback,
            store@.next_job == orig.next_job,
        decreases store.jobs@.len() - k,
    {
        assert(job_v(store.jobs@[k as int]) == orig.jobs[k as int]);
        if store.jobs[k].id == job_id {
            let a = store.jobs[k].attempts;
            proof {
                assert(orig.jobs[k as int].id == job_id);
            }
            store.jobs[k].status = if a >= 2 {
                owned("failed")
            } else {
                owned("pending")
            };
            store.jobs[k].attempts = a + 1;
            store.jobs[k].error = Some(owned(err));
            store.jobs[k].updated_at = owned(now);
        }
        k = k + 1;
    }
    proof {
        assert(store@.jobs =~= update_job(orig, job_id, job_failed(err@, now@)).jobs);
        assert(store@.jobs.map_values(|x: JobV| x.id) =~= orig.jobs.map_values(|x: JobV| x.id));
    }
}

/// Records a failed attempt of job `job_id` with error `err`, at the current
/// time.
pub fn mark_failed(store: &mut Store, job_id: i64, err: &str)
    requires
        old(store)@.wf(),
        attempts_fit(old(store)@, job_id),
    ensures
        final(store)@.wf(),
        exists|now: Seq<char>|
            final(store)@ == update_job(old(store)@, job_id, job_failed(err@, now)),
{
    let now = now_iso();
    mark_failed_at(store, job_id, err, now.as_str());
}

/// Whether job `job_id` can count one more attempt.
pub fn can_count_attempt(store: &Store, job_id: i64) -> (r: bool)
    ensures
        r == attempts_fit(store@, job_id),
{
    let ghost js = store@.jobs;
    let mut q: usize = 0;
    while q < store.jobs.len()
        invariant
            js == store@.jobs,
            js.len() == store.jobs@.len(),
            q <= js.len(),
            forall|k: int| 0 <= k < q && #[trigger] js[k].id == job_id ==> js[k].attempts < i64::MAX,
        decreases js.len() - q,
    {
        proof {
            assert(js[q as int] == job_v(store.jobs@[q as int]));
        }
        if store.jobs[q].id == job_id && store.jobs[q].attempts == i64::MAX {
            proof {
                assert(js[q as int].id == job_id && !(js[q as int].attempts < i64::MAX));
            }
            return false;
        }
        q = q + 1;
    }
    true
}

/// How running one derivation job turned out, as the driver reports it.
pub enum JobOutcome {
    /// The job could not be marked as processing, so it was not run.
    NotStarted,
    /// The model answered and its tool calls were applied.
    Succeeded,
    /// The attempt failed with this error.
    Failed(String),
}

/// How many jobs a run has taken up, and how many of them succeeded and
/// failed.
pub struct DeriveTally {
    pub processed: usize,
    pub succeeded: usize,
    pub failed: usize,
}

/// A tally with nothing counted yet.
pub fn empty_tally() -> (r: DeriveTally)
    ensures
        r.processed == 0 && r.succeeded == 0 && r.failed == 0,
{
    DeriveTally { processed: 0, succeeded: 0, failed: 0 }
}

/// The tally after one more job: it counts as processed whatever happened;
/// a success and a failure are counted as such, a job not started as
/// neither.
pub fn count_outcome(t: DeriveTally, o: &JobOutcome) -> (r: DeriveTally)
    requires
        t.processed < usize::MAX,
        t.succeeded < usize::MAX,
        t.failed < usize::MAX,
    ensures
        r.processed == t.processed + 1,
        r.succeeded == t.succeeded + if o is Succeeded {
            1int
        } else {
            0int
        },
        r.failed == t.failed + if o is Failed {
            1int
        } else {
            0int
        },
{
    match o {
        JobOutcome::NotStarted => DeriveTally {
            processed: t.processed + 1,
            succeeded: t.succeeded,
            failed: t.failed,
        },
        JobOutcome::Succeeded => DeriveTally {
            processed: t.processed + 1,
            succeeded: t.succeeded + 1,
            failed: t.failed,
        },
        JobOutcome::Failed(_) => DeriveTally {
            processed: t.processed + 1,
            succeeded: t.succeeded,
            failed: t.failed + 1,
        },
    }
}

/// Records how job `job_id` turned out: a success marks it done; a failure
/// records the attempt and its error (pending again, or failed at the
/// third), or changes nothing where the attempt count is exhausted; a job
/// not started is left as it is.
pub fn settle_job(store: &mut Store, job_id: i64, o: &JobOutcome)
    requires
        old(store)@.wf(),
    ensures
        final(store)@.wf(),
        match o {
            JobOutcome::NotStarted => final(store)@ == old(store)@,
            JobOutcome::Succeeded => exists|now: Seq<char>|
                final(store)@ == update_job(old(store)@, job_id, job_marked("done"@, now)),
            JobOutcome::Failed(e) => if attempts_fit(old(store)@, job_id) {
                exists|now: Seq<char>|
                    final(store)@ == update_job(old(store)@, job_id, job_failed(e@, now))
            } else {
                final(store)@ == old(store)@
            },
        },
{
    match o {
        JobOutcome::NotStarted => {},
        JobOutcome::Succeeded => {
            mark_done(store, job_id);
        },
        JobOutcome::Failed(e) => {
            if can_count_attempt(store, job_id) {
                mark_failed(store, job_id, e.as_str());
            }
        },
    }
}

/// Whether a lesson was derived from pair `pair_id`.
pub open spec fn lesson_of_pair(pair_id: i64) -> spec_fn(LessonV) -> bool {
    |l: LessonV| l.pair_id == Some(pair_id)
}

/// How many lessons were derived from pair `pair_id`.
pub fn count_lessons_for_pair(store: &Store, pair_id: i64) -> (r: i64)
    requires
        store@.wf(),
    ensures
        r == count_where(store@.lessons, lesson_of_pair(pair_id)),
{
    let ghost ls = store@.lessons;
    proof {
        lemma_ids_len(ls.map_values(|x: LessonV| x.id), store@.next_lesson);
    }
    let mut n: i64 = 0;
    let mut i: usize = 0;
    while i < store.lessons.len()
        invariant
            ls == store@.lessons,
            ls.len() == store.lessons@.len(),
            ls.len() < i64::MAX,
            i <= ls.len(),
            n == count_where(ls.take(i as int), lesson_of_pair(pair_id)),
            n <= i,
        decreases ls.len() - i,
    {
        proof {
            lemma_take_succ(ls, i as int);
            assert(ls[i as int] == crate::store::lesson_v(store.lessons@[i as int]));
        }
        if store.lessons[i].pair_id == Some(pair_id) {
            n = n + 1;
        }
        i = i + 1;
    }
    proof {
        lemma_take_all(ls);
    }
    n
}

/// Whether a pattern is linked to a lesson derived from pair `pair_id`.
pub open spec fn pattern_of_pair(s: StoreV, pair_id: i64) -> spec_fn(PatternV) -> bool {
    |p: PatternV|
        match p.lesson_id {
            Some(l) => match crate::seqs::first_match(s.lessons, crate::patterns::lesson_id_is(l)) {
                Some(les) => les.pair_id == Some(pair_id),
                None => false,
            },
            None => false,
        }
}

/// The pair that lesson `lesson_id` was derived from, if any; `None` also
/// when there is no such lesson.
fn lesson_pair(store: &Store, lesson_id: i64) -> (r: Option<i64>)
    ensures
        r == match crate::seqs::first_match(store@.lessons, crate::patterns::lesson_id_is(lesson_id)) {
            Some(les) => les.pair_id,
            None => None,
        },
{
    let ghost ls = store@.lessons;
    let mut i: usize = 0;
    while i < store.lessons.len()
        invariant
            ls == store@.lessons,
            ls.len() == store.lessons@.len(),
            i <= ls.len(),
            first_index(ls.take(i as int), crate::patterns::lesson_id_is(lesson_id)) is None,
        decreases ls.len() - i,
    {
        proof {
            lemma_take_succ(ls, i as int);
            assert(ls[i as int] == crate::store::lesson_v(store.lessons@[i as int]));
        }
        if store.lessons[i].id == lesson_id {
            proof {
                lemma_first_index_prefix(ls, crate::patterns::lesson_id_is(lesson_id), i + 1);
            }
            return store.lessons[i].pair_id;
        }
        i = i + 1;
    }
    proof {
        lemma_take_all(ls);
    }
    None
}

/// How many patterns are linked to lessons derived from pair `pair_id`.
pub fn count_patterns_for_pair(store: &Store, pair_id: i64) -> (r: i64)
    requires
        store@.wf(),
    ensures
        r == count_where(store@.patterns, pattern_of_pair(store@, pair_id)),
{
    let ghost ps = store@.patterns;
    proof {
        lemma_ids_len(ps.map_values(|x: PatternV| x.id), store@.next_pattern);
    }
    let mut n: i64 = 0;
    let mut i: usize = 0;
    while i < store.patterns.len()
        invariant
            ps == store@.patterns,
            ps.len() == store.patterns@.len(),
            ps.len() < i64::MAX,
            i <= ps.len(),
            n == count_where(ps.take(i as int), pattern_of_pair(store@, pair_id)),
            n <= i,
        decreases ps.len() - i,
    {
        proof {
            lemma_take_succ(ps, i as int);
            assert(ps[i as int] == crate::store::pattern_v(store.patterns@[i as int]));
        }
        let hit = match store.patterns[i].lesson_id {
            Some(l) => lesson_pair(store, l) == Some(pair_id),
            None => false,
        };
        if hit {
            n = n + 1;
        }
        i = i + 1;
    }
    proof {
        lemma_take_all(ps);
    }
    n
}

} // verus!

verus! {

// ---------- applying the deriving model's tool calls ----------
/// One tool call of the deriving model, its arguments read as strings
/// (`None` where an argument is absent or not a string).
pub struct ToolCall {
    pub name: String,
    pub lesson: Option<String>,
    pub tags: Vec<String>,
    pub rule: Option<String>,
    pub pattern: Option<String>,
    pub pattern_type: Option<String>,
    pub direction: Option<String>,
    pub category: Option<String>,
    pub message: Option<String>,
    pub severity: Option<String>,
}

pub struct ToolCallV {
    pub name: Seq<char>,
    pub lesson: Option<Seq<char>>,
    pub tags: Seq<Seq<char>>,
    pub rule: Option<Seq<char>>,
    pub pattern: Option<Seq<char>>,
    pub pattern_type: Option<Seq<char>>,
    pub direction: Option<Seq<char>>,
    pub category: Option<Seq<char>>,
    pub message: Option<Seq<char>>,
    pub severity: Option<Seq<char>>,
}

pub open spec fn tool_call_v(c: ToolCall) -> ToolCallV {
    ToolCallV {
        name: c.name@,
        lesson: opt_chars(c.lesson),
        tags: strs_v(c.tags@),
        rule: opt_chars(c.rule),
        pattern: opt_chars(c.pattern),
        pattern_type: opt_chars(c.pattern_type),
        direction: opt_chars(c.direction),
        category: opt_chars(c.category),
        message: opt_chars(c.message),
        severity: opt_chars(c.severity),
    }
}

pub open spec fn tool_calls_v(s: Seq<ToolCall>) -> Seq<ToolCallV> {
    s.map_values(|c: ToolCall| tool_call_v(c))
}

/// An argument, or `d` where it is missing.
pub open spec fn or_default(o: Option<Seq<char>>, d: Seq<char>) -> Seq<char> {
    match o {
        Some(x) => x,
        None => d,
    }
}

/// What one tool call does to `s` for pair `pair_id` at `now`, and whether
/// it counts as executed: "add_lesson" with a lesson stores it; "add_pattern"
/// with a rule and a pattern stores an unlinked pattern (defaults: literal,
/// avoid, style); "add_feedback" always counts and stores the message when
/// there is one; anything else is ignored.
pub open spec fn apply_call(s: StoreV, pair_id: i64, c: ToolCallV, now: Seq<char>) -> (
    Result<nat, LearnError>,
    StoreV,
) {
    if c.name == "add_lesson"@ {
        let lesson = or_default(c.lesson, seq![]);
        if lesson.len() == 0 {
            (Ok(0), s)
        } else if s.next_lesson == i64::MAX {
            (Err(LearnError::Full), s)
        } else if first_index(s.pairs, pair_id_is(pair_id)) is None {
            (Err(LearnError::ForeignKey), s)
        } else {
            (Ok(1), with_lesson(s, pair_id, lesson, c.tags, now))
        }
    } else if c.name == "add_pattern"@ {
        let rule = or_default(c.rule, seq![]);
        let pattern = or_default(c.pattern, seq![]);
        if rule.len() == 0 || pattern.len() == 0 {
            (Ok(0), s)
        } else if s.next_pattern == i64::MAX {
            (Err(LearnError::Full), s)
        } else {
            (
                Ok(1),
                with_pattern(
                    s,
                    None,
                    rule,
                    pattern,
                    or_default(c.pattern_type, "literal"@),
                    or_default(c.direction, "avoid"@),
                    or_default(c.category, "style"@),
                    None,
                    None,
                    now,
                ),
            )
        }
    } else if c.name == "add_feedback"@ {
        let msg = or_default(c.message, seq![]);
        if msg.len() == 0 {
            (Ok(1), s)
        } else if s.next_feedback == i64::MAX {
            (Err(LearnError::Full), s)
        } else {
            (
                Ok(1),
                with_feedback(
                    s,
                    Some("deriver"@),
                    msg,
                    or_default(c.severity, "info"@),
                    None,
                    Some("auto-deriver"@),
                    now,
                ),
            )
        }
    } else {
        (Ok(0), s)
    }
}

/// The calls applied in order; the first error stops the rest.
pub open spec fn apply_calls(s: StoreV, pair_id: i64, calls: Seq<ToolCallV>, now: Seq<char>) -> (
    Result<nat, LearnError>,
    StoreV,
)
    decreases calls.len(),
{
    if calls.len() == 0 {
        (Ok(0), s)
    } else {
        let (r, s1) = apply_calls(s, pair_id, calls.drop_last(), now);
        match r {
            Err(e) => (Err(e), s1),
            Ok(n) => {
                let (r2, s2) = apply_call(s1, pair_id, calls.last(), now);
                match r2 {
                    Err(e) => (Err(e), s2),
                    Ok(k) => (Ok(n + k), s2),
                }
            },
        }
    }
}

/// The warning recorded when a pair got lessons but no patterns.
pub open spec fn no_pattern_warning(pair_id: i64, lessons: int) -> Seq<char> {
    "Pair "@ + decimal(pair_id as int) + " has "@ + decimal(lessons)
        + " lessons but 0 patterns \u{2014} lessons without patterns won't lint"@
}

/// What processing the tool calls for pair `pair_id` at `now` returns and
/// leaves: the calls applied, then, when the pair has lessons but no
/// pattern (none linked to its lessons and none stored by these calls), a
/// warning recorded as feedback.
pub open spec fn tool_calls_spec(s: StoreV, pair_id: i64, calls: Seq<ToolCallV>, now: Seq<char>) -> (
    Result<nat, LearnError>,
    StoreV,
) {
    let (r, s1) = apply_calls(s, pair_id, calls, now);
    match r {
        Err(e) => (Err(e), s1),
        Ok(n) => {
            let lc = count_where(s1.lessons, lesson_of_pair(pair_id));
            let pc = count_where(s1.patterns, pattern_of_pair(s1, pair_id));
            let stored = s1.patterns.len() - s.patterns.len();
            if lc > 0 && pc == 0 && stored == 0 {
                if s1.next_feedback == i64::MAX {
                    (Err(LearnError::Full), s1)
                } else {
                    (
                        Ok(n),
                        with_feedback(
                            s1,
                            Some("deriver"@),
                            no_pattern_warning(pair_id, lc as int),
                            "warning"@,
                            None,
                            Some("auto-deriver"@),
                            now,
                        ),
                    )
                }
            } else {
                (Ok(n), s1)
            }
        },
    }
}

/// An argument, or `d` where it is missing.
fn arg_or<'a>(o: &'a Option<String>, d: &'a str) -> (r: &'a str)
    ensures
        r@ == or_default(opt_chars(*o), d@),
{
    match o {
        Some(x) => x.as_str(),
        None => d,
    }
}

/// Applies one tool call; `Ok(true)` when it counts as executed.
fn apply_one(store: &mut Store, pair_id: i64, c: &ToolCall, now: &str) -> (r: Result<bool, LearnError>)
    requires
        old(store)@.wf(),
    ensures
        final(store)@.wf(),
        final(store)@ == apply_call(old(store)@, pair_id, tool_call_v(*c), now@).1,
        match apply_call(old(store)@, pair_id, tool_call_v(*c), now@).0 {
            Ok(k) => r == Ok::<bool, LearnError>(k == 1),
            Err(e) => r == Err::<bool, LearnError>(e),
        },
{
    let name = c.name.as_str();
    if str_eq(name, "add_lesson") {
        let lesson = arg_or(&c.lesson, "");
        proof {
            reveal_strlit("");
        }
        if lesson.is_empty() {
            return Ok(false);
        }
        match add_lesson_at(store, pair_id, lesson, c.tags.as_slice(), now) {
            Ok(_) => Ok(true),
            Err(e) => Err(e),
        }
    } else if str_eq(name, "add_pattern") {
        let rule = arg_or(&c.rule, "");
        let pattern = arg_or(&c.pattern, "");
        proof {
            reveal_strlit("");
        }
        if rule.is_empty() || pattern.is_empty() {
            return Ok(false);
        }
        let pt = arg_or(&c.pattern_type, "literal");
        let dir = arg_or(&c.direction, "avoid");
        let cat = arg_or(&c.category, "style");
        match add_pattern_at(store, None, rule, pattern, pt, dir, cat, None, None, now) {
            Ok(_) => Ok(true),
            Err(e) => Err(e),
        }
    } else if str_eq(name, "add_feedback") {
        let msg = arg_or(&c.message, "");
        proof {
            reveal_strlit("");
        }
        if msg.is_empty() {
            return Ok(true);
        }
        let sev = arg_or(&c.severity, "info");
        match add_feedback_at(store, Some("deriver"), msg, sev, None, Some("auto-deriver"), now) {
            Ok(_) => Ok(true),
            Err(e) => Err(e),
        }
    } else {
        Ok(false)
    }
}

/// Once applying some calls fails, applying more leaves the same error and
/// store.
proof fn lemma_apply_err_extends(s: StoreV, pair_id: i64, calls: Seq<ToolCallV>, now: Seq<char>, j: int)
    requires
        0 <= j <= calls.len(),
        apply_calls(s, pair_id, calls.take(j), now).0 is Err,
    ensures
        apply_calls(s, pair_id, calls, now) == apply_calls(s, pair_id, calls.take(j), now),
    decreases calls.len(),
{
    if j == calls.len() {
        assert(calls.take(j) =~= calls);
    } else {
        assert(calls.drop_last().take(j) =~= calls.take(j));
        lemma_apply_err_extends(s, pair_id, calls.drop_last(), now, j);
    }
}

/// Applies the deriving model's tool calls for pair `pair_id` at `now`, in
/// order, then records a warning when the pair has lessons but no patterns
/// (none linked to its lessons and none stored by these calls). Returns how
/// many calls counted as executed.
pub fn apply_tool_calls_at(store: &mut Store, pair_id: i64, calls: &Vec<ToolCall>, now: &str) -> (r:
    Result<usize, LearnError>)
    requires
        old(store)@.wf(),
    ensures
        final(store)@.wf(),
        final(store)@ == tool_calls_spec(old(store)@, pair_id, tool_calls_v(calls@), now@).1,
        match tool_calls_spec(old(store)@, pair_id, tool_calls_v(calls@), now@).0 {
            Ok(n) => r == Ok::<usize, LearnError>(n as usize),
            Err(e) => r == Err::<usize, LearnError>(e),
        },
{
    let ghost s0 = store@;
    let ghost cv = tool_calls_v(calls@);
    let patterns_before = store.patterns.len();
    let mut executed: usize = 0;
    let mut i: usize = 0;
    proof {
        assert(cv.take(0) =~= Seq::<ToolCallV>::empty());
    }
    while i < calls.len()
        invariant
            s0 == old(store)@,
            patterns_before == s0.patterns.len(),
            cv == tool_calls_v(calls@),
            cv.len() == calls@.len(),
            i <= calls@.len(),
            executed <= i,
            store@.wf(),
            apply_calls(s0, pair_id, cv.take(i as int), now@) == (
                Ok::<nat, LearnError>(executed as nat),
                store@,
            ),
        decreases calls@.len() - i,
    {
        proof {
            assert(cv.take(i + 1).drop_last() =~= cv.take(i as int));
            assert(cv.take(i + 1).last() == cv[i as int]);
            assert(cv[i as int] == tool_call_v(calls@[i as int]));
        }
        match apply_one(store, pair_id, &calls[i], now) {
            Err(e) => {
                proof {
                    lemma_apply_err_extends(s0, pair_id, cv, now@, i + 1);
                    assert(cv =~= cv.take(cv.len() as int));
                }
                return Err(e);
            },
            Ok(counted) => {
                if counted {
                    executed = executed + 1;
                }
            },
        }
        i = i + 1;
    }
    proof {
        assert(cv.take(i as int) =~= cv);
    }
    let lc = count_lessons_for_pair(store, pair_id);
    let pc = count_patterns_for_pair(store, pair_id);
    if lc > 0 && pc == 0 && store.patterns.len() == patterns_before {
        let mut msg = owned("Pair ");
        push_str(&mut msg, i64_to_string(pair_id).as_str());
        push_str(&mut msg, " has ");
        push_str(&mut msg, i64_to_string(lc).as_str());
        push_str(&mut msg, " lessons but 0 patterns \u{2014} lessons without patterns won't lint");
        proof {
            assert(msg@ =~= no_pattern_warning(pair_id, lc as int));
        }
        match add_feedback_at(
            store,
            Some("deriver"),
            msg.as_str(),
            "warning",
            None,
            Some("auto-deriver"),
            now,
        ) {
            Ok(_) => {},
            Err(e) => {
                return Err(e);
            },
        }
    }
    Ok(executed)
}

} // verus!
