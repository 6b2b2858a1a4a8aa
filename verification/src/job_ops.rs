//! Operations on single jobs that clients ask for by ID: state and
//! progress queries, progress reports, and cancelling, promoting,
//! rescheduling, reprioritising and discarding jobs.
use vstd::prelude::*;
use crate::job::{Job, JobState, MAX_TIME};
use crate::jobs_seq::has_id;
use crate::manager::{index_of, jobs_wf, CompletedJob, QueueManager};

verus! {

broadcast use vstd::std_specs::hash::group_hash_axioms;

/// The bookkeeping does not depend on which list is named first: the
/// waiting and processing lists, the dependency-waiting and processing
/// lists, and the processing and dead letter lists may trade places.
pub proof fn lemma_wf_swap(w: Seq<Job>, d: Seq<Job>, p: Seq<Job>, x: Seq<Job>, n: u64, c: u64)
    requires
        jobs_wf(w, d, p, x, n, c),
    ensures
        jobs_wf(p, d, w, x, n, c),
        jobs_wf(w, p, d, x, n, c),
        jobs_wf(w, d, x, p, n, c),
{
    crate::jobs_seq::lemma_disjoint_sym(w, d);
    crate::jobs_seq::lemma_disjoint_sym(w, p);
    crate::jobs_seq::lemma_disjoint_sym(w, x);
    crate::jobs_seq::lemma_disjoint_sym(d, p);
    crate::jobs_seq::lemma_disjoint_sym(d, x);
    crate::jobs_seq::lemma_disjoint_sym(p, x);
}

/// Dropping the processing job at `i` keeps the bookkeeping.
pub proof fn lemma_wf_remove_p(w: Seq<Job>, d: Seq<Job>, p: Seq<Job>, x: Seq<Job>, n: u64, c: u64, i: int)
    requires
        jobs_wf(w, d, p, x, n, c),
        0 <= i < p.len(),
    ensures
        jobs_wf(w, d, p.remove(i), x, n, c),
{
    crate::jobs_seq::lemma_remove_keeps(p, i, n);
    crate::manager::lemma_created_by(p, c, c);
}

/// Dropping the waiting job at `i` keeps the bookkeeping.
pub proof fn lemma_wf_remove_w(w: Seq<Job>, d: Seq<Job>, p: Seq<Job>, x: Seq<Job>, n: u64, c: u64, i: int)
    requires
        jobs_wf(w, d, p, x, n, c),
        0 <= i < w.len(),
    ensures
        jobs_wf(w.remove(i), d, p, x, n, c),
{
    lemma_wf_swap(w, d, p, x, n, c);
    lemma_wf_remove_p(p, d, w, x, n, c, i);
    lemma_wf_swap(p, d, w.remove(i), x, n, c);
}

/// Dropping the dependency-waiting job at `i` keeps the bookkeeping.
pub proof fn lemma_wf_remove_d(w: Seq<Job>, d: Seq<Job>, p: Seq<Job>, x: Seq<Job>, n: u64, c: u64, i: int)
    requires
        jobs_wf(w, d, p, x, n, c),
        0 <= i < d.len(),
    ensures
        jobs_wf(w, d.remove(i), p, x, n, c),
{
    lemma_wf_swap(w, d, p, x, n, c);
    lemma_wf_remove_p(w, p, d, x, n, c, i);
    lemma_wf_swap(w, p, d.remove(i), x, n, c);
}

/// Changing waiting jobs in place, keeping their identities, keeps the
/// bookkeeping.
pub proof fn lemma_wf_update_w(w: Seq<Job>, w2: Seq<Job>, d: Seq<Job>, p: Seq<Job>, x: Seq<Job>, n: u64, c: u64)
    requires
        jobs_wf(w, d, p, x, n, c),
        crate::maintenance::same_idents(w, w2),
    ensures
        jobs_wf(w2, d, p, x, n, c),
{
    lemma_wf_swap(w, d, p, x, n, c);
    crate::maintenance::lemma_same_idents(w, w2, p, d, x, n, c);
    lemma_wf_swap(p, d, w2, x, n, c);
}

/// After a job is replaced in place by one with its ID, the ID is found at
/// the same place.
pub proof fn lemma_index_after_update(s: Seq<Job>, i: int, j: Job)
    requires
        crate::jobs_seq::ids_unique(s),
        0 <= i < s.len(),
        j.id == s[i].id,
    ensures
        has_id(s.update(i, j), j.id),
        index_of(s.update(i, j), j.id) == i,
{
    let t = s.update(i, j);
    assert(t[i].id == j.id);
    let k = index_of(t, j.id);
    if k != i {
        assert(t[k] == s[k]);
        assert(s[k].id != s[i].id);
    }
}

/// After the job at `i` is dropped, its ID is gone.
pub proof fn lemma_gone_after_remove(s: Seq<Job>, i: int)
    requires
        crate::jobs_seq::ids_unique(s),
        0 <= i < s.len(),
    ensures
        !has_id(s.remove(i), s[i].id),
{
    let t = s.remove(i);
    if has_id(t, s[i].id) {
        let k = choose|k: int| 0 <= k < t.len() && t[k].id == s[i].id;
        let k2 = if k < i { k } else { k + 1 };
        assert(t[k] == s[k2]);
    }
}

/// A job added at the end of a list without its ID is found there.
pub proof fn lemma_index_after_push(s: Seq<Job>, j: Job)
    requires
        crate::jobs_seq::ids_unique(s),
        !has_id(s, j.id),
    ensures
        has_id(s.push(j), j.id),
        index_of(s.push(j), j.id) == s.len(),
{
    let t = s.push(j);
    assert(t[s.len() as int] == j);
    let k = index_of(t, j.id);
    if k != s.len() {
        assert(t[k] == s[k]);
    }
}

/// The first stored record of a completed job with ID `id`.
pub open spec fn completed_record(s: Seq<CompletedJob>, id: u64) -> Option<crate::job::JobView>
    decreases s.len(),
{
    if s.len() == 0 {
        None
    } else {
        match completed_record(s.drop_last(), id) {
            Some(v) => Some(v),
            None => if s.last().job.id == id {
                Some(s.last().job@)
            } else {
                None
            },
        }
    }
}

/// The state of the job with ID `id` at `now`: waiting jobs are waiting or
/// delayed by their run time; then dependency-waiting, active, failed (dead
/// letter) and completed jobs; any other ID is unknown.
pub open spec fn state_of(m: QueueManager, id: u64, now: u64) -> JobState {
    if has_id(m.waiting@, id) {
        if m.waiting@[index_of(m.waiting@, id)].run_at <= now {
            JobState::Waiting
        } else {
            JobState::Delayed
        }
    } else if has_id(m.waiting_deps@, id) {
        JobState::WaitingChildren
    } else if has_id(m.processing@, id) {
        JobState::Active
    } else if has_id(m.dlq@, id) {
        JobState::Failed
    } else if m.completed@.contains(id) {
        JobState::Completed
    } else {
        JobState::Unknown
    }
}

/// The job with ID `id` as a client sees it: from the four job lists, else
/// the kept record of it as completed.
pub open spec fn job_seen(m: QueueManager, id: u64) -> Option<crate::job::JobView> {
    match crate::push::lookup(m, id) {
        Some(v) => Some(v),
        None => completed_record(m.completed_data@, id),
    }
}

/// Whether `id` is in `v`.
fn ids_contain(v: &Vec<u64>, id: u64) -> (r: bool)
    ensures
        r == v@.contains(id),
{
    let mut i: usize = 0;
    while i < v.len()
        invariant
            i <= v@.len(),
            forall|k: int| 0 <= k < i ==> v@[k] != id,
        decreases v.len() - i,
    {
        if v[i] == id {
            assert(v@[i as int] == id);
            return true;
        }
        i = i + 1;
    }
    false
}

/// A copy of the first kept record of completed job `id`.
fn find_completed(v: &Vec<CompletedJob>, id: u64) -> (r: Option<Job>)
    ensures
        match r {
            Some(j) => completed_record(v@, id) == Some(j@),
            None => completed_record(v@, id) is None,
        },
{
    let mut i: usize = 0;
    while i < v.len()
        invariant
            i <= v@.len(),
            completed_record(v@.take(i as int), id) is None,
        decreases v.len() - i,
    {
        proof {
            assert(v@.take(i + 1).drop_last() =~= v@.take(i as int));
        }
        if v[i].job.id == id {
            let j = v[i].job.duplicate();
            proof {
                lemma_record_prefix(v@, id, i + 1);
            }
            return Some(j);
        }
        i = i + 1;
    }
    assert(v@.take(i as int) =~= v@);
    None
}

/// A record found in a prefix is the record of the whole list.
proof fn lemma_record_prefix(s: Seq<CompletedJob>, id: u64, k: int)
    requires
        0 <= k <= s.len(),
        completed_record(s.take(k), id) is Some,
    ensures
        completed_record(s, id) == completed_record(s.take(k), id),
    decreases s.len() - k,
{
    if k < s.len() {
        assert(s.take(k + 1).drop_last() =~= s.take(k));
        lemma_record_prefix(s, id, k + 1);
    } else {
        assert(s.take(k) =~= s);
    }
}

/// The parts of the manager that a job operation leaves alone.
pub open spec fn ops_frame(pre: QueueManager, post: QueueManager) -> bool {
    &&& post.debounce == pre.debounce
    &&& post.custom_ids == pre.custom_ids
    &&& post.next_id == pre.next_id
    &&& post.completed == pre.completed
    &&& post.completed_data == pre.completed_data
    &&& post.job_results == pre.job_results
    &&& post.completed_retention == pre.completed_retention
    &&& post.metrics == pre.metrics
    &&& post.same_settings(&pre)
}

/// The highest progress value: 100%.
pub const MAX_PROGRESS: u8 = 100;

/// "Job {id} is not delayed".
pub open spec fn not_delayed_msg(id: u64) -> Seq<char> {
    "Job "@ + crate::text::decimal(id as nat) + " is not delayed"@
}

fn not_delayed_error(id: u64) -> (r: String)
    ensures
        r@ == not_delayed_msg(id),
{
    let mut s = String::from_str("Job ");
    let d = crate::text::u64_to_decimal(id);
    s.append(d.as_str());
    s.append(" is not delayed");
    s
}

impl QueueManager {
    /// The state of job `id` at `now` (see [`state_of`]).
    pub fn get_state(&self, id: u64, now: u64) -> (r: JobState)
        requires
            self.wf(),
        ensures
            r == state_of(*self, id, now),
    {
        match crate::manager::find_job(&self.waiting, id) {
            Some(i) => {
                return if self.waiting[i].run_at <= now {
                    JobState::Waiting
                } else {
                    JobState::Delayed
                };
            },
            None => {},
        }
        if crate::manager::find_job(&self.waiting_deps, id).is_some() {
            return JobState::WaitingChildren;
        }
        if crate::manager::find_job(&self.processing, id).is_some() {
            return JobState::Active;
        }
        if crate::manager::find_job(&self.dlq, id).is_some() {
            return JobState::Failed;
        }
        if ids_contain(&self.completed, id) {
            JobState::Completed
        } else {
            JobState::Unknown
        }
    }

    /// Job `id` with its state at `now`: the job as [`job_seen`] finds it
    /// (none for an unknown ID) and [`state_of`].
    pub fn get_job(&self, id: u64, now: u64) -> (r: (Option<Job>, JobState))
        requires
            self.wf(),
        ensures
            r.1 == state_of(*self, id, now),
            match r.0 {
                Some(j) => job_seen(*self, id) == Some(j@),
                None => job_seen(*self, id) is None,
            },
    {
        let state = self.get_state(id, now);
        let job = match self.get_job_by_internal_id(id) {
            Some(j) => Some(j),
            None => find_completed(&self.completed_data, id),
        };
        (job, state)
    }

    /// The progress of job `id` and its message; an unknown job gives
    /// "Job {id} not found".
    pub fn get_progress(&self, id: u64) -> (r: Result<(u8, Option<String>), String>)
        requires
            self.wf(),
        ensures
            match crate::push::lookup(*self, id) {
                Some(v) => r matches Ok(p) && p.0 == v.progress && crate::job::opt_view(p.1) == v.progress_msg,
                None => r matches Err(e) && e@ == crate::ack::not_found_msg(id),
            },
    {
        match self.get_job_by_internal_id(id) {
            Some(j) => Ok((j.progress, j.progress_msg)),
            None => Err(crate::ack::job_not_found(id)),
        }
    }

    /// Reports the progress of processing job `id` at `now`: the progress
    /// (capped at [`MAX_PROGRESS`]) and message are stored, and the report
    /// counts as a heartbeat (its time is kept and the stall count
    /// cleared). A job that is not processing gives "Job {id} not found"
    /// and changes nothing.
    pub fn update_progress(&mut self, id: u64, progress: u8, message: Option<String>, now: u64) -> (r: Result<(), String>)
        requires
            old(self).wf(),
        ensures
            final(self).wf(),
            has_id(old(self).processing@, id) ==> {
                let i = index_of(old(self).processing@, id);
                &&& r is Ok
                &&& final(self).processing@ == old(self).processing@.update(i, Job {
                    progress: if progress <= MAX_PROGRESS { progress } else { MAX_PROGRESS },
                    progress_msg: message,
                    last_heartbeat: now,
                    ..old(self).processing@[i]
                })
                &&& final(self).stalled_counts@ == old(self).stalled_counts@.remove(id)
                &&& final(self).waiting == old(self).waiting
                &&& final(self).waiting_deps == old(self).waiting_deps
                &&& final(self).dlq == old(self).dlq
                &&& final(self).concurrency == old(self).concurrency
                &&& final(self).active_groups == old(self).active_groups
                &&& final(self).unique_keys == old(self).unique_keys
                &&& final(self).clock == old(self).clock
                &&& ops_frame(*old(self), *final(self))
            },
            !has_id(old(self).processing@, id) ==> {
                &&& r matches Err(e) && e@ == crate::ack::not_found_msg(id)
                &&& *final(self) == *old(self)
            },
            r is Ok ==> ({
                let v = crate::push::lookup(*final(self), id);
                &&& v is Some
                &&& v.unwrap().progress == (if progress <= MAX_PROGRESS { progress } else { MAX_PROGRESS })
                &&& v.unwrap().progress_msg == crate::job::opt_view(message)
            }),
    {
        match crate::manager::find_job(&self.processing, id) {
            Some(i) => {
                let ghost pre = self.processing@;
                let mut job = self.processing.remove(i);
                job.progress = if progress <= MAX_PROGRESS { progress } else { MAX_PROGRESS };
                job.progress_msg = message;
                job.last_heartbeat = now;
                self.processing.insert(i, job);
                proof {
                    assert(self.processing@ =~= pre.update(i as int, Job {
                        progress: if progress <= MAX_PROGRESS { progress } else { MAX_PROGRESS },
                        progress_msg: message,
                        last_heartbeat: now,
                        ..pre[i as int]
                    }));
                    crate::maintenance::lemma_same_idents(pre, self.processing@, self.waiting@, self.waiting_deps@, self.dlq@, self.next_id, self.clock);
                    lemma_index_after_update(pre, i as int, self.processing@[i as int]);
                    crate::jobs_seq::lemma_disjoint_not_has(pre, self.waiting@, i as int);
                    crate::jobs_seq::lemma_disjoint_sym(self.waiting@, pre);
                    crate::jobs_seq::lemma_disjoint_sym(self.waiting_deps@, pre);
                    crate::jobs_seq::lemma_disjoint_not_has(pre, self.waiting@, i as int);
                    crate::jobs_seq::lemma_disjoint_not_has(pre, self.waiting_deps@, i as int);
                }
                self.stalled_counts.remove(&id);
                Ok(())
            },
            None => Err(crate::ack::job_not_found(id)),
        }
    }

    /// Sets the priority of waiting (or delayed) job `id`; any other job
    /// gives "Job {id} not found" and changes nothing.
    pub fn change_priority(&mut self, id: u64, priority: i32) -> (r: Result<(), String>)
        requires
            old(self).wf(),
        ensures
            final(self).wf(),
            has_id(old(self).waiting@, id) ==> {
                let i = index_of(old(self).waiting@, id);
                &&& r is Ok
                &&& final(self).waiting@ == old(self).waiting@.update(i, Job { priority, ..old(self).waiting@[i] })
                &&& final(self).waiting_deps == old(self).waiting_deps
                &&& final(self).processing == old(self).processing
                &&& final(self).dlq == old(self).dlq
                &&& final(self).concurrency == old(self).concurrency
                &&& final(self).active_groups == old(self).active_groups
                &&& final(self).unique_keys == old(self).unique_keys
                &&& final(self).stalled_counts == old(self).stalled_counts
                &&& final(self).clock == old(self).clock
                &&& ops_frame(*old(self), *final(self))
            },
            !has_id(old(self).waiting@, id) ==> {
                &&& r matches Err(e) && e@ == crate::ack::not_found_msg(id)
                &&& *final(self) == *old(self)
            },
    {
        match crate::manager::find_job(&self.waiting, id) {
            Some(i) => {
                let ghost pre = self.waiting@;
                let mut job = self.waiting.remove(i);
                job.priority = priority;
                self.waiting.insert(i, job);
                proof {
                    assert(self.waiting@ =~= pre.update(i as int, Job { priority, ..pre[i as int] }));
                    lemma_wf_update_w(pre, self.waiting@, self.waiting_deps@, self.processing@, self.dlq@, self.next_id, self.clock);
                }
                Ok(())
            },
            None => Err(crate::ack::job_not_found(id)),
        }
    }

    /// Makes delayed job `id` runnable at `now`. A waiting job that is
    /// already runnable gives "Job {id} is not delayed", a job that is not
    /// waiting "Job {id} not found"; both change nothing.
    pub fn promote(&mut self, id: u64, now: u64) -> (r: Result<(), String>)
        requires
            old(self).wf(),
        ensures
            final(self).wf(),
            ({
                let i = index_of(old(self).waiting@, id);
                has_id(old(self).waiting@, id) && old(self).waiting@[i].run_at > now ==> {
                    &&& r is Ok
                    &&& final(self).waiting@ == old(self).waiting@.update(i, Job { run_at: now, ..old(self).waiting@[i] })
                    &&& final(self).waiting_deps == old(self).waiting_deps
                    &&& final(self).processing == old(self).processing
                    &&& final(self).dlq == old(self).dlq
                    &&& final(self).concurrency == old(self).concurrency
                    &&& final(self).active_groups == old(self).active_groups
                    &&& final(self).unique_keys == old(self).unique_keys
                    &&& final(self).stalled_counts == old(self).stalled_counts
                    &&& final(self).clock == old(self).clock
                    &&& ops_frame(*old(self), *final(self))
                }
            }),
            has_id(old(self).waiting@, id) && old(self).waiting@[index_of(old(self).waiting@, id)].run_at <= now ==> {
                &&& r matches Err(e) && e@ == not_delayed_msg(id)
                &&& *final(self) == *old(self)
            },
            !has_id(old(self).waiting@, id) ==> {
                &&& r matches Err(e) && e@ == crate::ack::not_found_msg(id)
                &&& *final(self) == *old(self)
            },
            r is Ok ==> state_of(*final(self), id, now) == JobState::Waiting,
    {
        match crate::manager::find_job(&self.waiting, id) {
            Some(i) => {
                if self.waiting[i].run_at <= now {
                    return Err(not_delayed_error(id));
                }
                let ghost pre = self.waiting@;
                let mut job = self.waiting.remove(i);
                job.run_at = now;
                self.waiting.insert(i, job);
                proof {
                    assert(self.waiting@ =~= pre.update(i as int, Job { run_at: now, ..pre[i as int] }));
                    lemma_wf_update_w(pre, self.waiting@, self.waiting_deps@, self.processing@, self.dlq@, self.next_id, self.clock);
                    lemma_index_after_update(pre, i as int, self.waiting@[i as int]);
                }
                Ok(())
            },
            None => Err(crate::ack::job_not_found(id)),
        }
    }

    /// Cancels job `id` while it waits (for its turn or for its
    /// dependencies): it is dropped and its unique key is freed. A job in
    /// any other state gives "Job {id} not found" and changes nothing.
    pub fn cancel(&mut self, id: u64) -> (r: Result<(), String>)
        requires
            old(self).wf(),
        ensures
            final(self).wf(),
            has_id(old(self).waiting@, id) ==> {
                let i = index_of(old(self).waiting@, id);
                let j = old(self).waiting@[i];
                &&& r is Ok
                &&& final(self).waiting@ == old(self).waiting@.remove(i)
                &&& final(self).waiting_deps == old(self).waiting_deps
                &&& crate::tables::pairs_view(final(self).unique_keys@) == crate::manager::without_item(
                    crate::tables::pairs_view(old(self).unique_keys@), j.queue@, j.unique_key)
            },
            !has_id(old(self).waiting@, id) && has_id(old(self).waiting_deps@, id) ==> {
                let i = index_of(old(self).waiting_deps@, id);
                let j = old(self).waiting_deps@[i];
                &&& r is Ok
                &&& final(self).waiting == old(self).waiting
                &&& final(self).waiting_deps@ == old(self).waiting_deps@.remove(i)
                &&& crate::tables::pairs_view(final(self).unique_keys@) == crate::manager::without_item(
                    crate::tables::pairs_view(old(self).unique_keys@), j.queue@, j.unique_key)
            },
            has_id(old(self).waiting@, id) || has_id(old(self).waiting_deps@, id) ==> {
                &&& final(self).processing == old(self).processing
                &&& final(self).dlq == old(self).dlq
                &&& final(self).concurrency == old(self).concurrency
                &&& final(self).active_groups == old(self).active_groups
                &&& final(self).stalled_counts == old(self).stalled_counts
                &&& final(self).clock == old(self).clock
                &&& ops_frame(*old(self), *final(self))
            },
            !has_id(old(self).waiting@, id) && !has_id(old(self).waiting_deps@, id) ==> {
                &&& r matches Err(e) && e@ == crate::ack::not_found_msg(id)
                &&& *final(self) == *old(self)
            },
            r is Ok ==> crate::push::lookup(*final(self), id) is None,
    {
        let ghost (w, d, p, x) = (self.waiting@, self.waiting_deps@, self.processing@, self.dlq@);
        match crate::manager::find_job(&self.waiting, id) {
            Some(i) => {
                proof {
                    lemma_wf_remove_w(self.waiting@, self.waiting_deps@, self.processing@, self.dlq@, self.next_id, self.clock, i as int);
                    lemma_gone_after_remove(w, i as int);
                    crate::jobs_seq::lemma_disjoint_not_has(w, d, i as int);
                    crate::jobs_seq::lemma_disjoint_not_has(w, p, i as int);
                    crate::jobs_seq::lemma_disjoint_not_has(w, x, i as int);
                }
                let job = self.waiting.remove(i);
                self.release_unique_key(&job.queue, &job.unique_key);
                return Ok(());
            },
            None => {},
        }
        match crate::manager::find_job(&self.waiting_deps, id) {
            Some(i) => {
                proof {
                    lemma_wf_remove_d(self.waiting@, self.waiting_deps@, self.processing@, self.dlq@, self.next_id, self.clock, i as int);
                    lemma_gone_after_remove(d, i as int);
                    crate::jobs_seq::lemma_disjoint_not_has(d, p, i as int);
                    crate::jobs_seq::lemma_disjoint_not_has(d, x, i as int);
                }
                let job = self.waiting_deps.remove(i);
                self.release_unique_key(&job.queue, &job.unique_key);
                Ok(())
            },
            None => Err(crate::ack::job_not_found(id)),
        }
    }

    /// Moves job `id` to the dead letter queue as it is, from any live
    /// state: waiting, waiting for dependencies, or processing (which also
    /// gives back its concurrency slot and group). An unknown job gives
    /// "Job {id} not found" and changes nothing.
    pub fn discard(&mut self, id: u64) -> (r: Result<(), String>)
        requires
            old(self).wf(),
        ensures
            final(self).wf(),
            has_id(old(self).waiting@, id) ==> {
                let i = index_of(old(self).waiting@, id);
                &&& final(self).waiting@ == old(self).waiting@.remove(i)
                &&& final(self).dlq@ == old(self).dlq@.push(old(self).waiting@[i])
                &&& final(self).waiting_deps == old(self).waiting_deps
                &&& final(self).processing == old(self).processing
                &&& final(self).concurrency == old(self).concurrency
                &&& final(self).active_groups == old(self).active_groups
            },
            !has_id(old(self).waiting@, id) && has_id(old(self).waiting_deps@, id) ==> {
                let i = index_of(old(self).waiting_deps@, id);
                &&& final(self).waiting_deps@ == old(self).waiting_deps@.remove(i)
                &&& final(self).dlq@ == old(self).dlq@.push(old(self).waiting_deps@[i])
                &&& final(self).waiting == old(self).waiting
                &&& final(self).processing == old(self).processing
                &&& final(self).concurrency == old(self).concurrency
                &&& final(self).active_groups == old(self).active_groups
            },
            !has_id(old(self).waiting@, id) && !has_id(old(self).waiting_deps@, id) && has_id(old(self).processing@, id) ==> {
                let i = index_of(old(self).processing@, id);
                let j = old(self).processing@[i];
                &&& final(self).processing@ == old(self).processing@.remove(i)
                &&& final(self).dlq@ == old(self).dlq@.push(j)
                &&& final(self).waiting == old(self).waiting
                &&& final(self).waiting_deps == old(self).waiting_deps
                &&& final(self).concurrency@ == crate::manager::release_slot(old(self).concurrency@, j.queue@)
                &&& crate::tables::pairs_view(final(self).active_groups@) == crate::manager::without_item(
                    crate::tables::pairs_view(old(self).active_groups@), j.queue@, j.group_id)
            },
            has_id(old(self).waiting@, id) || has_id(old(self).waiting_deps@, id) || has_id(old(self).processing@, id) ==> {
                &&& r is Ok
                &&& final(self).unique_keys == old(self).unique_keys
                &&& final(self).stalled_counts == old(self).stalled_counts
                &&& final(self).clock == old(self).clock
                &&& ops_frame(*old(self), *final(self))
            },
            !has_id(old(self).waiting@, id) && !has_id(old(self).waiting_deps@, id) && !has_id(old(self).processing@, id) ==> {
                &&& r matches Err(e) && e@ == crate::ack::not_found_msg(id)
                &&& *final(self) == *old(self)
            },
            r is Ok ==> forall|t: u64| #[trigger] state_of(*final(self), id, t) == JobState::Failed,
    {
        let ghost (w, d, p, x, n, c) = (self.waiting@, self.waiting_deps@, self.processing@, self.dlq@, self.next_id, self.clock);
        match crate::manager::find_job(&self.waiting, id) {
            Some(i) => {
                proof {
                    lemma_wf_swap(w, d, p, x, n, c);
                    crate::manager::lemma_processing_to_dlq(p, d, w, x, n, c, c, i as int, w[i as int]);
                    lemma_wf_swap(p, d, w.remove(i as int), x.push(w[i as int]), n, c);
                    lemma_gone_after_remove(w, i as int);
                    crate::jobs_seq::lemma_disjoint_not_has(w, d, i as int);
                    crate::jobs_seq::lemma_disjoint_not_has(w, p, i as int);
                    crate::jobs_seq::lemma_has_id_index(x.push(w[i as int]), x.len() as int);
                }
                let job = self.waiting.remove(i);
                self.dlq.push(job);
                return Ok(());
            },
            None => {},
        }
        match crate::manager::find_job(&self.waiting_deps, id) {
            Some(i) => {
                proof {
                    lemma_wf_swap(w, d, p, x, n, c);
                    crate::manager::lemma_processing_to_dlq(w, p, d, x, n, c, c, i as int, d[i as int]);
                    lemma_wf_swap(w, p, d.remove(i as int), x.push(d[i as int]), n, c);
                    lemma_gone_after_remove(d, i as int);
                    crate::jobs_seq::lemma_disjoint_not_has(d, p, i as int);
                    crate::jobs_seq::lemma_has_id_index(x.push(d[i as int]), x.len() as int);
                }
                let job = self.waiting_deps.remove(i);
                self.dlq.push(job);
                return Ok(());
            },
            None => {},
        }
        match crate::manager::find_job(&self.processing, id) {
            Some(i) => {
                proof {
                    crate::manager::lemma_processing_to_dlq(w, d, p, x, n, c, c, i as int, p[i as int]);
                    lemma_gone_after_remove(p, i as int);
                    crate::jobs_seq::lemma_has_id_index(x.push(p[i as int]), x.len() as int);
                }
                let job = self.processing.remove(i);
                self.release_concurrency(&job.queue);
                self.release_group(&job.queue, &job.group_id);
                self.dlq.push(job);
                Ok(())
            },
            None => Err(crate::ack::job_not_found(id)),
        }
    }

    /// Sends processing job `id` back to wait until `now + delay`, without
    /// counting an attempt: it is no longer started, and its concurrency
    /// slot and group are given back. A job that is not processing gives
    /// "Job {id} not found" and changes nothing.
    pub fn move_to_delayed(&mut self, id: u64, delay: u64, now: u64) -> (r: Result<(), String>)
        requires
            old(self).wf(),
            old(self).clock <= now <= MAX_TIME,
            delay <= MAX_TIME,
        ensures
            final(self).wf(),
            has_id(old(self).processing@, id) ==> {
                let i = index_of(old(self).processing@, id);
                let j = old(self).processing@[i];
                &&& r is Ok
                &&& final(self).processing@ == old(self).processing@.remove(i)
                &&& final(self).waiting@ == old(self).waiting@.push(Job { run_at: (now + delay) as u64, started_at: 0, ..j })
                &&& final(self).waiting_deps == old(self).waiting_deps
                &&& final(self).dlq == old(self).dlq
                &&& final(self).concurrency@ == crate::manager::release_slot(old(self).concurrency@, j.queue@)
                &&& crate::tables::pairs_view(final(self).active_groups@) == crate::manager::without_item(
                    crate::tables::pairs_view(old(self).active_groups@), j.queue@, j.group_id)
                &&& final(self).unique_keys == old(self).unique_keys
                &&& final(self).stalled_counts == old(self).stalled_counts
                &&& final(self).clock == now
                &&& ops_frame(*old(self), *final(self))
            },
            !has_id(old(self).processing@, id) ==> {
                &&& r matches Err(e) && e@ == crate::ack::not_found_msg(id)
                &&& *final(self) == *old(self)
            },
            r is Ok ==> state_of(*final(self), id, now) == (if delay > 0 { JobState::Delayed } else { JobState::Waiting }),
    {
        match crate::manager::find_job(&self.processing, id) {
            Some(i) => {
                let mut job = self.processing.remove(i);
                self.release_concurrency(&job.queue);
                self.release_group(&job.queue, &job.group_id);
                job.run_at = now + delay;
                job.started_at = 0;
                proof {
                    let ghost old_p = old(self).processing@;
                    crate::manager::lemma_processing_to_waiting(
                        self.waiting@, self.waiting_deps@, old_p, self.dlq@, self.next_id, self.clock, now, i as int, job);
                    crate::jobs_seq::lemma_disjoint_sym(self.waiting@, old_p);
                    crate::jobs_seq::lemma_disjoint_not_has(old_p, self.waiting@, i as int);
                    lemma_index_after_push(self.waiting@, job);
                }
                self.waiting.push(job);
                self.clock = now;
                Ok(())
            },
            None => Err(crate::ack::job_not_found(id)),
        }
    }
}

} // verus!
