//! The periodic checks of running jobs: timeouts, stalls and
//! dependencies.
use vstd::prelude::*;
use crate::job::{Job, JobView, MAX_TIME};
use crate::manager::QueueManager;

verus! {

broadcast use vstd::std_specs::hash::group_hash_axioms;

/// The progress message of a job that ran past its timeout.
pub open spec fn timed_out_msg() -> Seq<char> {
    "Job timed out"@
}

/// Where the timeout check sends the processing jobs, in their order: the
/// jobs kept, the jobs given another attempt, the jobs moved to the dead
/// letter queue, and the queues whose concurrency slots are given back.
pub struct TimeoutOut {
    pub keep: Seq<Job>,
    pub retried: Seq<JobView>,
    pub dead: Seq<JobView>,
    pub queues: Seq<Seq<char>>,
}

/// `j` with one more attempt counted.
pub open spec fn counted(j: Job) -> Job {
    Job { attempts: (j.attempts + 1) as u32, ..j }
}

/// A timed-out job given another attempt: it runs again after its backoff
/// (at its old time without one), is no longer started, and says why.
pub open spec fn timed_out_retry(j: Job, now: u64) -> JobView {
    let j1 = counted(j);
    let delay = crate::job::backoff_delay(j.backoff, j1.attempts);
    JobView {
        run_at: if delay > 0 { (now + delay) as u64 } else { j.run_at },
        started_at: 0,
        progress_msg: Some(timed_out_msg()),
        ..j1@
    }
}

/// The timeout check over the processing list `p` at `now`: a job that ran
/// past its timeout counts an attempt, gives back its concurrency slot and
/// goes to the dead letter queue when out of attempts, else back to the
/// queue (see [`timed_out_retry`]); other jobs stay.
pub open spec fn timeout_run(p: Seq<Job>, now: u64) -> TimeoutOut
    decreases p.len(),
{
    if p.len() == 0 {
        TimeoutOut { keep: Seq::empty(), retried: Seq::empty(), dead: Seq::empty(), queues: Seq::empty() }
    } else {
        let t = timeout_run(p.drop_last(), now);
        let j = p.last();
        if j.spec_is_timed_out(now) {
            if counted(j).spec_should_go_to_dlq() {
                TimeoutOut { dead: t.dead.push(counted(j)@), queues: t.queues.push(j.queue@), ..t }
            } else {
                TimeoutOut { retried: t.retried.push(timed_out_retry(j, now)), queues: t.queues.push(j.queue@), ..t }
            }
        } else {
            TimeoutOut { keep: t.keep.push(j), ..t }
        }
    }
}

/// The concurrency table after one slot of each queue of `qs` is given back.
pub open spec fn release_slots(m: Map<Seq<char>, crate::manager::ConcurrencySlot>, qs: Seq<Seq<char>>) -> Map<Seq<char>, crate::manager::ConcurrencySlot>
    decreases qs.len(),
{
    if qs.len() == 0 {
        m
    } else {
        crate::manager::release_slot(release_slots(m, qs.drop_last()), qs.last())
    }
}

/// Every processing job that ran past its timeout at `now` can count one
/// more attempt and is retried on the clock (see
/// [`crate::job::retry_fits`]).
pub open spec fn attempts_room(p: Seq<Job>, now: u64) -> bool {
    forall|i: int| 0 <= i < p.len() && p[i].spec_is_timed_out(now) ==> p[i].attempts < u32::MAX
        && crate::job::retry_fits(p[i], now)
}

/// Moving the first job of `rest` out of the processing list `keep + rest`.
proof fn lemma_split_first(keep: Seq<Job>, rest: Seq<Job>)
    requires
        rest.len() > 0,
    ensures
        (keep + rest)[keep.len() as int] == rest[0],
        (keep + rest).remove(keep.len() as int) == keep + rest.skip(1),
        keep.push(rest[0]) + rest.skip(1) == keep + rest,
{
    assert((keep + rest).remove(keep.len() as int) =~= keep + rest.skip(1));
    assert(keep.push(rest[0]) + rest.skip(1) =~= keep + rest);
}

impl QueueManager {
    /// Handles the processing jobs that ran past their timeout at `now`, as
    /// [`timeout_run`] states: retried jobs go after the waiting ones, dead
    /// jobs after the dead letter ones, and each dead job counts as timed
    /// out.
    pub fn check_timed_out_jobs(&mut self, now: u64)
        requires
            old(self).wf(),
            old(self).clock <= now <= MAX_TIME,
            attempts_room(old(self).processing@, now),
        ensures
            final(self).wf(),
            ({
                let t = timeout_run(old(self).processing@, now);
                &&& final(self).processing@ == t.keep
                &&& crate::job::jobs_view(final(self).waiting@) == crate::job::jobs_view(old(self).waiting@) + t.retried
                &&& crate::job::jobs_view(final(self).dlq@) == crate::job::jobs_view(old(self).dlq@) + t.dead
                &&& final(self).concurrency@ == release_slots(old(self).concurrency@, t.queues)
                &&& final(self).metrics == (crate::manager::Metrics {
                    total_timed_out: old(self).metrics.total_timed_out.wrapping_add(t.dead.len() as u64),
                    ..old(self).metrics
                })
            }),
            final(self).clock == now,
            final(self).waiting_deps == old(self).waiting_deps,
            final(self).active_groups == old(self).active_groups,
            final(self).unique_keys == old(self).unique_keys,
            final(self).next_id == old(self).next_id,
            final(self).debounce == old(self).debounce,
            final(self).custom_ids == old(self).custom_ids,
            final(self).stalled_counts == old(self).stalled_counts,
            final(self).completed == old(self).completed,
            final(self).completed_data == old(self).completed_data,
            final(self).job_results == old(self).job_results,
            final(self).completed_retention == old(self).completed_retention,
            final(self).same_settings(old(self)),
    {
        let ghost pre = *self;
        let ghost orig = self.processing@;
        let total = self.processing.len();
        let mut rest: Vec<Job> = Vec::new();
        std::mem::swap(&mut rest, &mut self.processing);
        let mut keep: Vec<Job> = Vec::new();
        let mut dead: u64 = 0;
        let ghost mut retried: Seq<JobView> = Seq::empty();
        let ghost mut gone: Seq<JobView> = Seq::empty();
        let ghost mut done: int = 0;
        proof {
            crate::manager::lemma_created_by(pre.waiting@, pre.clock, now);
            crate::manager::lemma_created_by(pre.waiting_deps@, pre.clock, now);
            crate::manager::lemma_created_by(pre.processing@, pre.clock, now);
            crate::manager::lemma_created_by(pre.dlq@, pre.clock, now);
            assert(keep@ + rest@ =~= orig);
            assert(orig.take(0) =~= Seq::<Job>::empty());
            assert(crate::job::jobs_view(self.waiting@) =~= crate::job::jobs_view(pre.waiting@) + retried);
            assert(crate::job::jobs_view(self.dlq@) =~= crate::job::jobs_view(pre.dlq@) + gone);
        }
        self.clock = now;
        while rest.len() > 0
            invariant
                0 <= done <= orig.len(),
                orig.len() == total,
                dead as int <= done,
                rest@ == orig.skip(done),
                attempts_room(orig, now),
                now <= MAX_TIME,
                self.clock == now,
                self.processing@.len() == 0,
                crate::manager::jobs_wf(self.waiting@, self.waiting_deps@, keep@ + rest@, self.dlq@, self.next_id, now),
                crate::tables::debounce_unique(self.debounce@),
                vstd::std_specs::hash::obeys_key_model::<u64>(),
                ({
                    let t = timeout_run(orig.take(done), now);
                    &&& keep@ == t.keep
                    &&& retried == t.retried
                    &&& gone == t.dead
                    &&& dead as int == t.dead.len()
                    &&& self.concurrency@ == release_slots(pre.concurrency@, t.queues)
                }),
                crate::job::jobs_view(self.waiting@) == crate::job::jobs_view(pre.waiting@) + retried,
                crate::job::jobs_view(self.dlq@) == crate::job::jobs_view(pre.dlq@) + gone,
                self.metrics == pre.metrics,
                self.waiting_deps == pre.waiting_deps,
                self.active_groups == pre.active_groups,
                self.unique_keys == pre.unique_keys,
                self.next_id == pre.next_id,
                self.debounce == pre.debounce,
                self.custom_ids == pre.custom_ids,
                self.stalled_counts == pre.stalled_counts,
                self.completed == pre.completed,
                self.completed_data == pre.completed_data,
                self.job_results == pre.job_results,
                self.completed_retention == pre.completed_retention,
                self.same_settings(&pre),
            decreases rest.len(),
        {
            let ghost k = keep@;
            let ghost r = rest@;
            let ghost w0 = self.waiting@;
            let ghost x0 = self.dlq@;
            let ghost t0 = timeout_run(orig.take(done), now);
            proof {
                lemma_split_first(k, r);
                assert(orig.take(done + 1).drop_last() =~= orig.take(done));
                assert(orig.take(done + 1).last() == r[0]);
                assert(r.skip(1) =~= orig.skip(done + 1));
                assert(crate::job::jobs_view(w0).len() == w0.len());
            }
            let mut job = rest.remove(0);
            assert(job == r[0]);
            if job.is_timed_out(now) {
                job.attempts = job.attempts + 1;
                self.release_concurrency(&job.queue);
                if job.should_go_to_dlq() {
                    proof {
                        crate::manager::lemma_processing_to_dlq(w0, self.waiting_deps@, k + r, x0, self.next_id, now, now, k.len() as int, job);
                    }
                    dead = dead + 1;
                    proof {
                        assert(t0.queues.push(r[0].queue@).drop_last() =~= t0.queues);
                        gone = gone.push(job@);
                        assert(crate::job::jobs_view(x0.push(job)) =~= crate::job::jobs_view(x0).push(job@));
                    }
                    self.dlq.push(job);
                } else {
                    assert(crate::job::retry_fits(r[0], now)) by {
                        assert(r[0] == orig[done]);
                    }
                    let backoff = job.next_backoff();
                    let new_run_at = if backoff > 0 { now + backoff } else { job.run_at };
                    job.run_at = new_run_at;
                    job.started_at = 0;
                    job.progress_msg = Some(String::from_str("Job timed out"));
                    proof {
                        crate::manager::lemma_processing_to_waiting(w0, self.waiting_deps@, k + r, x0, self.next_id, now, now, k.len() as int, job);
                        assert(t0.queues.push(r[0].queue@).drop_last() =~= t0.queues);
                        retried = retried.push(job@);
                        assert(crate::job::jobs_view(w0.push(job)) =~= crate::job::jobs_view(w0).push(job@));
                        assert(job@ == timed_out_retry(r[0], now));
                    }
                    self.waiting.push(job);
                }
            } else {
                keep.push(job);
            }
            proof {
                done = done + 1;
            }
        }
        proof {
            assert(orig.take(done) =~= orig);
            assert(keep@ + rest@ =~= keep@);
        }
        self.processing = keep;
        self.metrics.total_timed_out = self.metrics.total_timed_out.wrapping_add(dead);
    }
}

/// A job of the dependency-waiting list whose dependencies have all
/// completed.
pub open spec fn deps_met(j: Job, completed: Seq<u64>) -> bool {
    !crate::push::deps_pending(j.depends_on@, completed)
}

/// The jobs of `d` a dependency check releases, in order.
pub open spec fn released_jobs(d: Seq<Job>, completed: Seq<u64>) -> Seq<Job> {
    d.filter(|j: Job| deps_met(j, completed))
}

/// The jobs of `d` a dependency check keeps waiting, in order.
pub open spec fn held_jobs(d: Seq<Job>, completed: Seq<u64>) -> Seq<Job> {
    d.filter(|j: Job| !deps_met(j, completed))
}

/// Moving dependency-waiting job `i` to the waiting list keeps the
/// bookkeeping.
pub proof fn lemma_deps_to_waiting(w: Seq<Job>, d: Seq<Job>, p: Seq<Job>, x: Seq<Job>, n: u64, c: u64, i: int)
    requires
        crate::manager::jobs_wf(w, d, p, x, n, c),
        0 <= i < d.len(),
    ensures
        crate::manager::jobs_wf(w.push(d[i]), d.remove(i), p, x, n, c),
{
    let j = d[i];
    crate::jobs_seq::lemma_remove_keeps(d, i, n);
    crate::jobs_seq::lemma_push_keeps(w, j, n);
    crate::manager::lemma_created_by(w, c, c);
    crate::manager::lemma_created_by(d, c, c);
    assert(!crate::jobs_seq::has_id(w, j.id));
    assert(!crate::jobs_seq::has_id(p, j.id)) by {
        if crate::jobs_seq::has_id(p, j.id) {
            let k = choose|k: int| 0 <= k < p.len() && p[k].id == j.id;
        }
    }
    assert(!crate::jobs_seq::has_id(x, j.id)) by {
        if crate::jobs_seq::has_id(x, j.id) {
            let k = choose|k: int| 0 <= k < x.len() && x[k].id == j.id;
        }
    }
    assert(!crate::jobs_seq::has_id(d.remove(i), j.id)) by {
        if crate::jobs_seq::has_id(d.remove(i), j.id) {
            let k = choose|k: int| 0 <= k < d.remove(i).len() && d.remove(i)[k].id == j.id;
            let k2 = if k < i { k } else { k + 1 };
            assert(d.remove(i)[k] == d[k2]);
        }
    }
    assert(crate::jobs_seq::ids_disjoint(w.push(j), d.remove(i)));
    assert(crate::jobs_seq::ids_disjoint(w.push(j), p));
    assert(crate::jobs_seq::ids_disjoint(w.push(j), x));
}

impl QueueManager {
    /// Moves every dependency-waiting job whose dependencies have all
    /// completed to the end of the waiting list, in order; the others stay
    /// in order. Nothing moves while no job has completed.
    pub fn check_dependencies(&mut self)
        requires
            old(self).wf(),
        ensures
            final(self).wf(),
            old(self).completed@.len() == 0 ==> *final(self) == *old(self),
            old(self).completed@.len() > 0 ==> {
                &&& final(self).waiting_deps@ == held_jobs(old(self).waiting_deps@, old(self).completed@)
                &&& final(self).waiting@ == old(self).waiting@ + released_jobs(old(self).waiting_deps@, old(self).completed@)
            },
            final(self).processing == old(self).processing,
            final(self).dlq == old(self).dlq,
            final(self).concurrency == old(self).concurrency,
            final(self).active_groups == old(self).active_groups,
            final(self).unique_keys == old(self).unique_keys,
            final(self).next_id == old(self).next_id,
            final(self).clock == old(self).clock,
            final(self).debounce == old(self).debounce,
            final(self).custom_ids == old(self).custom_ids,
            final(self).stalled_counts == old(self).stalled_counts,
            final(self).completed == old(self).completed,
            final(self).completed_data == old(self).completed_data,
            final(self).job_results == old(self).job_results,
            final(self).completed_retention == old(self).completed_retention,
            final(self).metrics == old(self).metrics,
            final(self).same_settings(old(self)),
    {
        let ghost pre = *self;
        let ghost c = self.completed@;
        let ghost orig = self.waiting_deps@;
        let ghost met = |j: Job| deps_met(j, c);
        let ghost unmet = |j: Job| !deps_met(j, c);
        if self.completed.len() == 0 {
            return;
        }
        let mut rest: Vec<Job> = Vec::new();
        std::mem::swap(&mut rest, &mut self.waiting_deps);
        let mut stay: Vec<Job> = Vec::new();
        let ghost mut done: int = 0;
        proof {
            reveal(Seq::filter);
            assert(stay@ + rest@ =~= orig);
            assert(orig.take(0) =~= Seq::<Job>::empty());
            assert(self.waiting@ =~= pre.waiting@ + orig.take(0).filter(met));
        }
        while rest.len() > 0
            invariant
                0 <= done <= orig.len(),
                rest@ == orig.skip(done),
                c == self.completed@,
                self.waiting_deps@.len() == 0,
                crate::manager::jobs_wf(self.waiting@, stay@ + rest@, self.processing@, self.dlq@, self.next_id, self.clock),
                stay@ == orig.take(done).filter(unmet),
                self.waiting@ == pre.waiting@ + orig.take(done).filter(met),
                met == (|j: Job| deps_met(j, c)),
                unmet == (|j: Job| !deps_met(j, c)),
                self.processing == pre.processing,
                self.dlq == pre.dlq,
                self.concurrency == pre.concurrency,
                self.active_groups == pre.active_groups,
                self.unique_keys == pre.unique_keys,
                self.next_id == pre.next_id,
                self.clock == pre.clock,
                self.debounce == pre.debounce,
                self.custom_ids == pre.custom_ids,
                self.stalled_counts == pre.stalled_counts,
                self.completed == pre.completed,
                self.completed_data == pre.completed_data,
                self.job_results == pre.job_results,
                self.completed_retention == pre.completed_retention,
                self.metrics == pre.metrics,
                self.same_settings(&pre),
            decreases rest.len(),
        {
            let ghost k = stay@;
            let ghost r = rest@;
            let ghost w0 = self.waiting@;
            proof {
                reveal(Seq::filter);
                lemma_split_first(k, r);
                assert(orig.take(done + 1).drop_last() =~= orig.take(done));
                assert(orig.take(done + 1).last() == r[0]);
                assert(r.skip(1) =~= orig.skip(done + 1));
            }
            let job = rest.remove(0);
            assert(job == r[0]);
            let pending = crate::push::has_pending_dep(&job.depends_on, &self.completed);
            if pending {
                stay.push(job);
            } else {
                proof {
                    lemma_deps_to_waiting(w0, k + r, self.processing@, self.dlq@, self.next_id, self.clock, k.len() as int);
                    assert(w0.push(job) =~= pre.waiting@ + orig.take(done + 1).filter(met));
                }
                self.waiting.push(job);
            }
            proof {
                done = done + 1;
            }
        }
        proof {
            assert(orig.take(done) =~= orig);
            assert(stay@ + rest@ =~= stay@);
        }
        self.waiting_deps = stay;
    }
}


/// The default stall timeout, in ms.
pub const DEFAULT_STALL_TIMEOUT: u64 = 30000;

/// How many stall detections move a job to the dead letter queue.
pub const MAX_STALLS: u32 = 3;

/// `j` has shown no sign of life for longer than its stall timeout (the
/// default when it has none) at `now`; its last sign of life is its last
/// heartbeat, or its start without one.
pub open spec fn is_stalled(j: Job, now: u64) -> bool {
    let timeout = if j.stall_timeout > 0 { j.stall_timeout } else { DEFAULT_STALL_TIMEOUT };
    let last = if j.last_heartbeat > 0 { j.last_heartbeat } else { j.started_at };
    now > last + timeout
}

/// Where the stall check sends the processing jobs: the jobs kept (the
/// stalled ones among them with a fresh heartbeat and one more stall
/// counted), the jobs moved to the dead letter queue, and the stall counts.
pub struct StallOut {
    pub keep: Seq<Job>,
    pub dead: Seq<Job>,
    pub counts: Map<u64, u32>,
}

/// The stall count of `id` in `m` (0 when absent).
pub open spec fn stall_count_of(m: Map<u64, u32>, id: u64) -> u32 {
    if m.contains_key(id) { m[id] } else { 0 }
}

/// The stall check over the processing list `p` at `now`, with stall
/// counts `counts`: each stalled job counts one more stall; at
/// [`MAX_STALLS`] it goes to the dead letter queue, else it stays with its
/// heartbeat set to `now` and its own stall count raised.
pub open spec fn stall_run(p: Seq<Job>, counts: Map<u64, u32>, now: u64) -> StallOut
    decreases p.len(),
{
    if p.len() == 0 {
        StallOut { keep: Seq::empty(), dead: Seq::empty(), counts }
    } else {
        let t = stall_run(p.drop_last(), counts, now);
        let j = p.last();
        if is_stalled(j, now) {
            let c = (stall_count_of(t.counts, j.id) + 1) as u32;
            let counts2 = t.counts.insert(j.id, c);
            if c >= MAX_STALLS {
                StallOut { keep: t.keep, dead: t.dead.push(j), counts: counts2 }
            } else {
                StallOut {
                    keep: t.keep.push(Job { last_heartbeat: now, stall_count: (j.stall_count + 1) as u32, ..j }),
                    dead: t.dead,
                    counts: counts2,
                }
            }
        } else {
            StallOut { keep: t.keep.push(j), ..t }
        }
    }
}

/// The stall counters of the processing jobs `p`, on the jobs and in
/// `counts`, can grow by one.
pub open spec fn stalls_room(p: Seq<Job>, counts: Map<u64, u32>) -> bool {
    forall|i: int| 0 <= i < p.len() ==> p[i].stall_count < u32::MAX && stall_count_of(counts, #[trigger] p[i].id) < u32::MAX
}

/// Two lists whose jobs agree pairwise on ID, backoff and creation time.
pub open spec fn same_idents(a: Seq<Job>, b: Seq<Job>) -> bool {
    a.len() == b.len() && forall|i: int| 0 <= i < a.len() ==> crate::manager::same_identity(a[i], b[i])
}

pub proof fn lemma_same_idents(a: Seq<Job>, b: Seq<Job>, w: Seq<Job>, d: Seq<Job>, x: Seq<Job>, n: u64, c: u64)
    requires
        same_idents(a, b),
        crate::manager::jobs_wf(w, d, a, x, n, c),
    ensures
        crate::manager::jobs_wf(w, d, b, x, n, c),
{
    assert(crate::jobs_seq::ids_unique(b)) by {
        assert forall|i: int, k: int| 0 <= i < b.len() && 0 <= k < b.len() && i != k implies b[i].id != b[k].id by {
            assert(a[i].id != a[k].id);
        }
    }
    assert forall|i: int, k: int| 0 <= i < w.len() && 0 <= k < b.len() implies w[i].id != b[k].id by {
        assert(w[i].id != a[k].id);
    }
    assert forall|i: int, k: int| 0 <= i < d.len() && 0 <= k < b.len() implies d[i].id != b[k].id by {
        assert(d[i].id != a[k].id);
    }
    assert forall|i: int, k: int| 0 <= i < b.len() && 0 <= k < x.len() implies b[i].id != x[k].id by {
        assert(a[i].id != x[k].id);
    }
    assert forall|i: int| 0 <= i < b.len() implies b[i].id < n && b[i].created_at <= c by {
        assert(a[i].id < n && a[i].created_at <= c);
    }
}

/// "Job {id} not in processing".
pub fn not_processing_error(id: u64) -> (r: String)
    ensures
        r@ == "Job "@ + crate::text::decimal(id as nat) + " not in processing"@,
{
    let mut s = String::from_str("Job ");
    let d = crate::text::u64_to_decimal(id);
    s.append(d.as_str());
    s.append(" not in processing");
    s
}

impl QueueManager {
    /// Records a heartbeat of processing job `id` at `now` and clears its
    /// stall count; a job that is not processing gives
    /// "Job {id} not in processing" and changes nothing.
    pub fn heartbeat(&mut self, id: u64, now: u64) -> (r: Result<(), String>)
        requires
            old(self).wf(),
        ensures
            final(self).wf(),
            match r {
                Ok(()) => {
                    let i = crate::manager::index_of(old(self).processing@, id);
                    &&& crate::jobs_seq::has_id(old(self).processing@, id)
                    &&& final(self).processing@ == old(self).processing@.update(i, Job { last_heartbeat: now, ..old(self).processing@[i] })
                    &&& final(self).stalled_counts@ == old(self).stalled_counts@.remove(id)
                    &&& final(self).waiting == old(self).waiting
                    &&& final(self).waiting_deps == old(self).waiting_deps
                    &&& final(self).dlq == old(self).dlq
                    &&& final(self).concurrency == old(self).concurrency
                    &&& final(self).active_groups == old(self).active_groups
                    &&& final(self).unique_keys == old(self).unique_keys
                    &&& final(self).next_id == old(self).next_id
                    &&& final(self).clock == old(self).clock
                    &&& final(self).debounce == old(self).debounce
                    &&& final(self).custom_ids == old(self).custom_ids
                    &&& final(self).completed == old(self).completed
                    &&& final(self).completed_data == old(self).completed_data
                    &&& final(self).job_results == old(self).job_results
                    &&& final(self).completed_retention == old(self).completed_retention
                    &&& final(self).metrics == old(self).metrics
                    &&& final(self).same_settings(old(self))
                },
                Err(e) => {
                    &&& !crate::jobs_seq::has_id(old(self).processing@, id)
                    &&& e@ == "Job "@ + crate::text::decimal(id as nat) + " not in processing"@
                    &&& *final(self) == *old(self)
                },
            },
    {
        match self.find_processing(id) {
            Some(i) => {
                let ghost pre = self.processing@;
                let mut job = self.processing.remove(i);
                job.last_heartbeat = now;
                self.processing.insert(i, job);
                proof {
                    assert(self.processing@ =~= pre.update(i as int, Job { last_heartbeat: now, ..pre[i as int] }));
                    lemma_same_idents(pre, self.processing@, self.waiting@, self.waiting_deps@, self.dlq@, self.next_id, self.clock);
                }
                self.stalled_counts.remove(&id);
                Ok(())
            },
            None => Err(not_processing_error(id)),
        }
    }

    /// Handles the processing jobs that stalled at `now`, as [`stall_run`]
    /// states; each job moved to the dead letter queue counts as failed.
    pub fn check_stalled_jobs(&mut self, now: u64)
        requires
            old(self).wf(),
            stalls_room(old(self).processing@, old(self).stalled_counts@),
        ensures
            final(self).wf(),
            ({
                let t = stall_run(old(self).processing@, old(self).stalled_counts@, now);
                &&& final(self).processing@ == t.keep
                &&& final(self).dlq@ == old(self).dlq@ + t.dead
                &&& final(self).stalled_counts@ == t.counts
                &&& final(self).metrics == (crate::manager::Metrics {
                    total_failed: old(self).metrics.total_failed.wrapping_add(t.dead.len() as u64),
                    ..old(self).metrics
                })
            }),
            final(self).waiting == old(self).waiting,
            final(self).waiting_deps == old(self).waiting_deps,
            final(self).concurrency == old(self).concurrency,
            final(self).active_groups == old(self).active_groups,
            final(self).unique_keys == old(self).unique_keys,
            final(self).next_id == old(self).next_id,
            final(self).clock == old(self).clock,
            final(self).debounce == old(self).debounce,
            final(self).custom_ids == old(self).custom_ids,
            final(self).completed == old(self).completed,
            final(self).completed_data == old(self).completed_data,
            final(self).job_results == old(self).job_results,
            final(self).completed_retention == old(self).completed_retention,
            final(self).same_settings(old(self)),
    {
        let ghost pre = *self;
        let ghost orig = self.processing@;
        let total = self.processing.len();
        let mut rest: Vec<Job> = Vec::new();
        std::mem::swap(&mut rest, &mut self.processing);
        let mut keep: Vec<Job> = Vec::new();
        let mut dead: u64 = 0;
        let ghost mut done: int = 0;
        proof {
            assert(keep@ + rest@ =~= orig);
            assert(orig.take(0) =~= Seq::<Job>::empty());
            assert(self.dlq@ =~= pre.dlq@ + Seq::<Job>::empty());
        }
        while rest.len() > 0
            invariant
                0 <= done <= orig.len(),
                orig.len() == total,
                dead as int <= done,
                rest@ == orig.skip(done),
                crate::jobs_seq::ids_unique(orig),
                stalls_room(orig, pre.stalled_counts@),
                self.processing@.len() == 0,
                crate::manager::jobs_wf(self.waiting@, self.waiting_deps@, keep@ + rest@, self.dlq@, self.next_id, self.clock),
                ({
                    let t = stall_run(orig.take(done), pre.stalled_counts@, now);
                    &&& keep@ == t.keep
                    &&& self.dlq@ == pre.dlq@ + t.dead
                    &&& dead as int == t.dead.len()
                    &&& self.stalled_counts@ == t.counts
                    &&& forall|id: u64| t.counts.contains_key(id) && !pre.stalled_counts@.contains_key(id) ==> t.counts[id] < MAX_STALLS
                    &&& forall|id: u64| t.counts.contains_key(id) && pre.stalled_counts@.contains_key(id) ==> t.counts[id] <= pre.stalled_counts@[id] + 1
                    &&& forall|id: u64| t.counts.contains_key(id) ==> pre.stalled_counts@.contains_key(id) || crate::jobs_seq::has_id(orig.take(done), id)
                    &&& forall|id: u64| crate::jobs_seq::has_id(rest@, id) ==> (t.counts.contains_key(id) <==> pre.stalled_counts@.contains_key(id))
                    &&& forall|id: u64| crate::jobs_seq::has_id(rest@, id) && t.counts.contains_key(id) ==> t.counts[id] == pre.stalled_counts@[id]
                }),
                crate::tables::debounce_unique(self.debounce@),
                self.clock <= MAX_TIME,
                vstd::std_specs::hash::obeys_key_model::<u64>(),
                self.metrics == pre.metrics,
                self.waiting == pre.waiting,
                self.waiting_deps == pre.waiting_deps,
                self.concurrency == pre.concurrency,
                self.active_groups == pre.active_groups,
                self.unique_keys == pre.unique_keys,
                self.next_id == pre.next_id,
                self.clock == pre.clock,
                self.debounce == pre.debounce,
                self.custom_ids == pre.custom_ids,
                self.completed == pre.completed,
                self.completed_data == pre.completed_data,
                self.job_results == pre.job_results,
                self.completed_retention == pre.completed_retention,
                self.same_settings(&pre),
            decreases rest.len(),
        {
            let ghost k = keep@;
            let ghost r = rest@;
            let ghost x0 = self.dlq@;
            let ghost t0 = stall_run(orig.take(done), pre.stalled_counts@, now);
            proof {
                lemma_split_first(k, r);
                assert(orig.take(done + 1).drop_last() =~= orig.take(done));
                assert(orig.take(done + 1).last() == r[0]);
                assert(r.skip(1) =~= orig.skip(done + 1));
                assert(orig[done] == r[0]);
            }
            let mut job = rest.remove(0);
            assert(job == r[0]);
            let timeout = if job.stall_timeout > 0 { job.stall_timeout } else { DEFAULT_STALL_TIMEOUT };
            let last = if job.last_heartbeat > 0 { job.last_heartbeat } else { job.started_at };
            let stalled = match last.checked_add(timeout) {
                Some(limit) => now > limit,
                None => false,
            };
            if stalled {
                let id = job.id;
                let before = match self.stalled_counts.get(&id) {
                    Some(c) => *c,
                    None => 0,
                };
                proof {
                    assert(crate::jobs_seq::has_id(r, id)) by {
                        assert(r[0].id == id);
                    }
                    if pre.stalled_counts@.contains_key(id) {
                        assert(pre.stalled_counts@[id] < u32::MAX);
                    }
                }
                let count = before + 1;
                self.stalled_counts.insert(id, count);
                if count >= MAX_STALLS {
                    proof {
                        crate::manager::lemma_processing_to_dlq(self.waiting@, self.waiting_deps@, k + r, x0, self.next_id, self.clock, self.clock, k.len() as int, job);
                    }
                    dead = dead + 1;
                    self.dlq.push(job);
                } else {
                    assert(job.stall_count < u32::MAX) by {
                        assert(orig[done].stall_count < u32::MAX);
                    }
                    job.last_heartbeat = now;
                    job.stall_count = job.stall_count + 1;
                    proof {
                        assert(same_idents(k + r, k.push(job) + r.skip(1))) by {
                            assert forall|i: int| 0 <= i < (k + r).len() implies crate::manager::same_identity((k + r)[i], (k.push(job) + r.skip(1))[i]) by {
                                if i < k.len() {
                                } else if i == k.len() {
                                } else {
                                    assert((k + r)[i] == r[i - k.len()]);
                                    assert((k.push(job) + r.skip(1))[i] == r.skip(1)[i - k.len() - 1]);
                                }
                            }
                        }
                        lemma_same_idents(k + r, k.push(job) + r.skip(1), self.waiting@, self.waiting_deps@, x0, self.next_id, self.clock);
                    }
                    keep.push(job);
                }
            } else {
                keep.push(job);
            }
            proof {
                let t1 = stall_run(orig.take(done + 1), pre.stalled_counts@, now);
                assert forall|id: u64| crate::jobs_seq::has_id(rest@, id) implies (t1.counts.contains_key(id) <==> pre.stalled_counts@.contains_key(id)) by {
                    let m = choose|m: int| 0 <= m < rest@.len() && rest@[m].id == id;
                    assert(rest@[m] == r[m + 1]);
                    assert(r[0].id != r[m + 1].id) by {
                        assert(orig[done] == r[0] && orig[done + m + 1] == r[m + 1]);
                    }
                    assert(crate::jobs_seq::has_id(r, id)) by {
                        assert(r[m + 1].id == id);
                    }
                }
                assert forall|id: u64| crate::jobs_seq::has_id(rest@, id) && t1.counts.contains_key(id) implies t1.counts[id] == pre.stalled_counts@[id] by {
                    let m = choose|m: int| 0 <= m < rest@.len() && rest@[m].id == id;
                    assert(rest@[m] == r[m + 1]);
                    assert(r[0].id != r[m + 1].id) by {
                        assert(orig[done] == r[0] && orig[done + m + 1] == r[m + 1]);
                    }
                    assert(crate::jobs_seq::has_id(r, id)) by {
                        assert(r[m + 1].id == id);
                    }
                }
                assert forall|id: u64| t1.counts.contains_key(id) implies pre.stalled_counts@.contains_key(id) || crate::jobs_seq::has_id(orig.take(done + 1), id) by {
                    if id == r[0].id {
                        assert(orig.take(done + 1)[done] == r[0]);
                    } else if t0.counts.contains_key(id) && !pre.stalled_counts@.contains_key(id) {
                        let m = choose|m: int| 0 <= m < orig.take(done).len() && orig.take(done)[m].id == id;
                        assert(orig.take(done + 1)[m] == orig.take(done)[m]);
                    }
                }
                done = done + 1;
            }
        }
        proof {
            assert(orig.take(done) =~= orig);
            assert(keep@ + rest@ =~= keep@);
        }
        self.processing = keep;
        self.metrics.total_failed = self.metrics.total_failed.wrapping_add(dead);
    }
}

/// A timed-out job that is retried counts one more attempt, is no longer
/// started, and goes back to wait: with a backoff base `b > 0` it runs
/// `b * 2^min(attempts, 10)` ms after `now` (attempts counted with this
/// one), so strictly later than `now`; without one it keeps its run time.
pub proof fn law_timeout_retry_waits(p: Seq<Job>, now: u64)
    requires
        attempts_room(p, now),
    ensures
        ({
            let r = timeout_run(p, now).retried;
            forall|k: int| #![trigger r[k]] 0 <= k < r.len() ==> exists|i: int| 0 <= i < p.len() && {
                let j = #[trigger] p[i];
                let a = j.attempts + 1;
                &&& j.spec_is_timed_out(now)
                &&& r[k].id == j.id
                &&& r[k].attempts == a
                &&& r[k].started_at == 0
                &&& (j.backoff > 0 ==> r[k].run_at == now + j.backoff * crate::job::pow2((if a < 10 { a } else { 10 }) as nat)
                    && r[k].run_at > now)
                &&& (j.backoff == 0 ==> r[k].run_at == j.run_at)
            }
        }),
    decreases p.len(),
{
    if p.len() > 0 {
        let q = p.drop_last();
        assert forall|i: int| 0 <= i < q.len() && q[i].spec_is_timed_out(now) implies q[i].attempts < u32::MAX
            && crate::job::retry_fits(q[i], now) by {
            assert(q[i] == p[i]);
        }
        law_timeout_retry_waits(q, now);
        let t0 = timeout_run(q, now);
        let r = timeout_run(p, now).retried;
        let j = p.last();
        let n = (p.len() - 1) as int;
        assert(p[n] == j);
        assert forall|k: int| #![trigger r[k]] 0 <= k < r.len() implies exists|i: int| 0 <= i < p.len() && {
            let jj = #[trigger] p[i];
            let a = jj.attempts + 1;
            &&& jj.spec_is_timed_out(now)
            &&& r[k].id == jj.id
            &&& r[k].attempts == a
            &&& r[k].started_at == 0
            &&& (jj.backoff > 0 ==> r[k].run_at == now + jj.backoff * crate::job::pow2((if a < 10 { a } else { 10 }) as nat)
                && r[k].run_at > now)
            &&& (jj.backoff == 0 ==> r[k].run_at == jj.run_at)
        } by {
            if k < t0.retried.len() {
                assert(r[k] == t0.retried[k]);
                let i = choose|i: int| 0 <= i < q.len() && {
                    let jj = #[trigger] q[i];
                    let a = jj.attempts + 1;
                    &&& jj.spec_is_timed_out(now)
                    &&& t0.retried[k].id == jj.id
                    &&& t0.retried[k].attempts == a
                    &&& t0.retried[k].started_at == 0
                    &&& (jj.backoff > 0 ==> t0.retried[k].run_at == now + jj.backoff * crate::job::pow2((if a < 10 { a } else { 10 }) as nat)
                        && t0.retried[k].run_at > now)
                    &&& (jj.backoff == 0 ==> t0.retried[k].run_at == jj.run_at)
                };
                assert(q[i] == p[i]);
            } else {
                assert(j.spec_is_timed_out(now));
                assert(r[k] == timed_out_retry(j, now));
                let a = (j.attempts + 1) as u32;
                crate::job::lemma_pow2_bounds(crate::job::min_u32(a, 10) as nat);
                assert(crate::job::retry_fits(j, now));
                if j.backoff > 0 {
                    assert(j.backoff * crate::job::pow2(crate::job::min_u32(a, 10) as nat) >= j.backoff) by (nonlinear_arith)
                        requires
                            crate::job::pow2(crate::job::min_u32(a, 10) as nat) >= 1,
                    ;
                }
            }
        }
    }
}

/// With `p` the jobs of `q` whose IDs do not include `id`, a stall check
/// over them leaves the stall count of `id` alone.
proof fn lemma_stall_count_other(p: Seq<Job>, counts: Map<u64, u32>, now: u64, id: u64)
    requires
        !crate::jobs_seq::has_id(p, id),
    ensures
        stall_count_of(stall_run(p, counts, now).counts, id) == stall_count_of(counts, id),
    decreases p.len(),
{
    if p.len() > 0 {
        let q = p.drop_last();
        assert(!crate::jobs_seq::has_id(q, id)) by {
            if crate::jobs_seq::has_id(q, id) {
                let k = choose|k: int| 0 <= k < q.len() && q[k].id == id;
                assert(p[k] == q[k]);
            }
        }
        lemma_stall_count_other(q, counts, now, id);
        assert(p[p.len() - 1].id != id);
    }
}

/// The stall check, for each processing job (IDs unique): its last sign of
/// life is its last heartbeat, or its start without one, and it may be
/// silent for its stall timeout, or 30 s when it has none. A job within
/// that time stays processing as it is, with its stall count unchanged; a
/// job past it counts exactly one more stall, and goes to the dead letter
/// queue at its third, else stays with a fresh heartbeat.
pub proof fn law_stall_detection(p: Seq<Job>, counts: Map<u64, u32>, now: u64)
    requires
        crate::jobs_seq::ids_unique(p),
        stalls_room(p, counts),
    ensures
        ({
            let t = stall_run(p, counts, now);
            forall|i: int| 0 <= i < p.len() ==> {
                let j = #[trigger] p[i];
                let last: int = if j.last_heartbeat > 0 { j.last_heartbeat as int } else { j.started_at as int };
                let limit: int = if j.stall_timeout > 0 { j.stall_timeout as int } else { 30000 };
                &&& now <= last + limit ==> t.keep.contains(j) && stall_count_of(t.counts, j.id) == stall_count_of(counts, j.id)
                &&& now > last + limit ==> stall_count_of(t.counts, j.id) == stall_count_of(counts, j.id) + 1
                &&& now > last + limit && stall_count_of(counts, j.id) + 1 >= 3 ==> t.dead.contains(j)
                &&& now > last + limit && stall_count_of(counts, j.id) + 1 < 3 ==> t.keep.contains(
                    Job { last_heartbeat: now, stall_count: (j.stall_count + 1) as u32, ..j })
            }
        }),
    decreases p.len(),
{
    if p.len() > 0 {
        let q = p.drop_last();
        let n = (p.len() - 1) as int;
        let j = p[n];
        assert forall|i: int, k: int| 0 <= i < q.len() && 0 <= k < q.len() && i != k implies q[i].id != q[k].id by {
            assert(q[i] == p[i] && q[k] == p[k]);
        }
        assert forall|i: int| 0 <= i < q.len() implies q[i].stall_count < u32::MAX && stall_count_of(counts, #[trigger] q[i].id) < u32::MAX by {
            assert(q[i] == p[i]);
        }
        law_stall_detection(q, counts, now);
        assert(!crate::jobs_seq::has_id(q, j.id)) by {
            if crate::jobs_seq::has_id(q, j.id) {
                let k = choose|k: int| 0 <= k < q.len() && q[k].id == j.id;
                assert(p[k] == q[k]);
            }
        }
        lemma_stall_count_other(q, counts, now, j.id);
        let t0 = stall_run(q, counts, now);
        let t = stall_run(p, counts, now);
        assert(p.last() == j);
        assert(j.stall_count < u32::MAX && stall_count_of(counts, j.id) < u32::MAX);
        assert forall|x: Job| t0.keep.contains(x) implies t.keep.contains(x) by {
            let k = choose|k: int| 0 <= k < t0.keep.len() && t0.keep[k] == x;
            if t.keep != t0.keep {
                assert(t.keep[k] == t0.keep[k]);
            }
        }
        assert forall|x: Job| t0.dead.contains(x) implies t.dead.contains(x) by {
            let k = choose|k: int| 0 <= k < t0.dead.len() && t0.dead[k] == x;
            if t.dead != t0.dead {
                assert(t.dead[k] == t0.dead[k]);
            }
        }
        assert forall|i: int| 0 <= i < p.len() implies ({
            let jj = #[trigger] p[i];
            let last: int = if jj.last_heartbeat > 0 { jj.last_heartbeat as int } else { jj.started_at as int };
            let limit: int = if jj.stall_timeout > 0 { jj.stall_timeout as int } else { 30000 };
            &&& now <= last + limit ==> t.keep.contains(jj) && stall_count_of(t.counts, jj.id) == stall_count_of(counts, jj.id)
            &&& now > last + limit ==> stall_count_of(t.counts, jj.id) == stall_count_of(counts, jj.id) + 1
            &&& now > last + limit && stall_count_of(counts, jj.id) + 1 >= 3 ==> t.dead.contains(jj)
            &&& now > last + limit && stall_count_of(counts, jj.id) + 1 < 3 ==> t.keep.contains(
                Job { last_heartbeat: now, stall_count: (jj.stall_count + 1) as u32, ..jj })
        }) by {
            if i < n {
                assert(p[i] == q[i]);
                assert(p[i].id != j.id);
            } else {
                assert(p[i] == j);
                if !is_stalled(j, now) {
                    assert(t.keep == t0.keep.push(j));
                    assert(t.keep[t0.keep.len() as int] == j);
                } else if stall_count_of(counts, j.id) + 1 >= 3 {
                    assert(t.dead[t0.dead.len() as int] == j);
                } else {
                    assert(t.keep[t0.keep.len() as int] == Job { last_heartbeat: now, stall_count: (j.stall_count + 1) as u32, ..j });
                }
            }
        }
    }
}

/// A dependency check moves a job to the waiting list only when every job
/// it depends on has completed, and leaves it waiting for its dependencies
/// while one has not; every job ends up in one of the two.
pub proof fn law_dependencies_release(d: Seq<Job>, completed: Seq<u64>)
    ensures
        forall|j: Job| #[trigger] released_jobs(d, completed).contains(j)
            ==> forall|k: int| 0 <= k < j.depends_on@.len() ==> completed.contains(j.depends_on@[k]),
        forall|j: Job| #[trigger] held_jobs(d, completed).contains(j)
            ==> exists|k: int| 0 <= k < j.depends_on@.len() && !completed.contains(j.depends_on@[k]),
        forall|i: int| 0 <= i < d.len() ==> released_jobs(d, completed).contains(#[trigger] d[i])
            || held_jobs(d, completed).contains(d[i]),
{
    let met = |x: Job| deps_met(x, completed);
    let unmet = |x: Job| !deps_met(x, completed);
    assert forall|j: Job| #[trigger] d.filter(met).contains(j) implies forall|k: int| 0 <= k < j.depends_on@.len()
        ==> completed.contains(j.depends_on@[k]) by {
        let i = choose|i: int| 0 <= i < d.filter(met).len() && d.filter(met)[i] == j;
        d.lemma_filter_pred(met, i);
    }
    assert forall|j: Job| #[trigger] d.filter(unmet).contains(j) implies exists|k: int| 0 <= k < j.depends_on@.len()
        && !completed.contains(j.depends_on@[k]) by {
        let i = choose|i: int| 0 <= i < d.filter(unmet).len() && d.filter(unmet)[i] == j;
        d.lemma_filter_pred(unmet, i);
    }
    assert forall|i: int| 0 <= i < d.len() implies d.filter(met).contains(#[trigger] d[i]) || d.filter(unmet).contains(d[i]) by {
        if met(d[i]) {
            d.lemma_filter_contains(met, i);
        } else {
            d.lemma_filter_contains(unmet, i);
        }
    }
}

/// Where the timeout check sends each processing job: one still within its
/// timeout stays as it is; one past it with its attempts used up (counting
/// this one, when it has a limit) goes to the dead letter queue with that
/// attempt counted; any other one past it is retried.
pub proof fn law_timeout_sorts_jobs(p: Seq<Job>, now: u64)
    requires
        attempts_room(p, now),
    ensures
        ({
            let t = timeout_run(p, now);
            forall|i: int| 0 <= i < p.len() ==> {
                let j = #[trigger] p[i];
                let spent = j.max_attempts > 0 && j.attempts + 1 >= j.max_attempts;
                &&& !j.spec_is_timed_out(now) ==> t.keep.contains(j)
                &&& j.spec_is_timed_out(now) && spent ==> exists|k: int| 0 <= k < t.dead.len()
                    && t.dead[k].id == j.id && t.dead[k].attempts == j.attempts + 1
                &&& j.spec_is_timed_out(now) && !spent ==> exists|k: int| 0 <= k < t.retried.len()
                    && t.retried[k].id == j.id
            }
        }),
    decreases p.len(),
{
    if p.len() > 0 {
        let q = p.drop_last();
        let n = (p.len() - 1) as int;
        let j = p[n];
        assert forall|i: int| 0 <= i < q.len() && q[i].spec_is_timed_out(now) implies q[i].attempts < u32::MAX
            && crate::job::retry_fits(q[i], now) by {
            assert(q[i] == p[i]);
        }
        law_timeout_sorts_jobs(q, now);
        let t0 = timeout_run(q, now);
        let t = timeout_run(p, now);
        assert(p.last() == j);
        assert forall|x: Job| t0.keep.contains(x) implies t.keep.contains(x) by {
            let k = choose|k: int| 0 <= k < t0.keep.len() && t0.keep[k] == x;
            if t.keep != t0.keep {
                assert(t.keep[k] == t0.keep[k]);
            }
        }
        assert(t.dead == t0.dead || t.dead == t0.dead.push(t.dead.last()));
        assert(t.retried == t0.retried || t.retried == t0.retried.push(t.retried.last()));
        assert forall|i: int| 0 <= i < p.len() implies ({
            let jj = #[trigger] p[i];
            let spent = jj.max_attempts > 0 && jj.attempts + 1 >= jj.max_attempts;
            &&& !jj.spec_is_timed_out(now) ==> t.keep.contains(jj)
            &&& jj.spec_is_timed_out(now) && spent ==> exists|k: int| 0 <= k < t.dead.len()
                && t.dead[k].id == jj.id && t.dead[k].attempts == jj.attempts + 1
            &&& jj.spec_is_timed_out(now) && !spent ==> exists|k: int| 0 <= k < t.retried.len()
                && t.retried[k].id == jj.id
        }) by {
            if i < n {
                assert(p[i] == q[i]);
                if q[i].spec_is_timed_out(now) {
                    if q[i].max_attempts > 0 && q[i].attempts + 1 >= q[i].max_attempts {
                        let k = choose|k: int| 0 <= k < t0.dead.len() && t0.dead[k].id == q[i].id
                            && t0.dead[k].attempts == q[i].attempts + 1;
                        assert(t.dead[k] == t0.dead[k]);
                    } else {
                        let k = choose|k: int| 0 <= k < t0.retried.len() && t0.retried[k].id == q[i].id;
                        assert(t.retried[k] == t0.retried[k]);
                    }
                }
            } else {
                assert(p[i] == j);
                if !j.spec_is_timed_out(now) {
                    assert(t.keep[t0.keep.len() as int] == j);
                } else if j.max_attempts > 0 && j.attempts + 1 >= j.max_attempts {
                    assert(t.dead[t0.dead.len() as int] == counted(j)@);
                } else {
                    assert(t.retried[t0.retried.len() as int] == timed_out_retry(j, now));
                }
            }
        }
    }
}

} // verus!
