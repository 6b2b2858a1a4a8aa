//! Completing and failing jobs.
use vstd::prelude::*;
use crate::job::Job;
use crate::manager::{CompletedJob, JobResult, QueueManager, RetentionEntry};
use crate::text::u64_to_decimal;

verus! {

broadcast use vstd::std_specs::hash::group_hash_axioms;

/// A completed record as a value.
pub open spec fn completed_view(s: Seq<CompletedJob>) -> Seq<(crate::job::JobView, u64, Option<Seq<char>>)> {
    s.map_values(|c: CompletedJob| (c.job@, c.completed_at, crate::job::opt_view(c.result)))
}

/// Results as values.
pub open spec fn results_view(s: Seq<JobResult>) -> Seq<(u64, Seq<char>)> {
    s.map_values(|r: JobResult| (r.job_id, r.result@))
}

/// Retention records as values.
pub open spec fn retention_view(s: Seq<RetentionEntry>) -> Seq<(u64, u64, u64, Option<Seq<char>>)> {
    s.map_values(|r: RetentionEntry| (r.job_id, r.completed_at, r.keep_age, crate::job::opt_view(r.result)))
}

/// The result last stored for job `id` in `rv`.
pub open spec fn result_of(rv: Seq<(u64, Seq<char>)>, id: u64) -> Option<Seq<char>>
    decreases rv.len(),
{
    if rv.len() == 0 {
        None
    } else if rv.last().0 == id {
        Some(rv.last().1)
    } else {
        result_of(rv.drop_last(), id)
    }
}

/// The last `n` entries of `s` (all of them when there are fewer).
pub open spec fn keep_last<A>(s: Seq<A>, n: nat) -> Seq<A> {
    if s.len() > n {
        s.skip(s.len() - n)
    } else {
        s
    }
}

/// The message of an unknown job ID.
pub open spec fn not_found_msg(id: u64) -> Seq<char> {
    "Job "@ + crate::text::decimal(id as nat) + " not found"@
}

/// "Job {id} not found".
pub fn job_not_found(id: u64) -> (r: String)
    ensures
        r@ == not_found_msg(id),
{
    let mut s = String::from_str("Job ");
    let d = u64_to_decimal(id);
    s.append(d.as_str());
    s.append(" not found");
    s
}

/// What a failure did with the job.
pub enum FailOutcome {
    /// Back in the queue for another attempt.
    Retried(Job),
    /// Moved to the dead letter queue.
    MovedToDlq(Job),
    /// Out of attempts and dropped (`remove_on_fail`).
    Removed(Job),
}

/// Acking `ids` one after another: the processing list that is left and
/// the jobs taken off it, in order. IDs not (or no longer) processing are
/// skipped.
pub open spec fn batch_run(p: Seq<Job>, ids: Seq<u64>) -> (Seq<Job>, Seq<Job>)
    decreases ids.len(),
{
    if ids.len() == 0 {
        (p, Seq::empty())
    } else {
        let (p1, a1) = batch_run(p, ids.drop_last());
        let id = ids.last();
        if crate::jobs_seq::has_id(p1, id) {
            let i = crate::manager::index_of(p1, id);
            (p1.remove(i), a1.push(p1[i]))
        } else {
            (p1, a1)
        }
    }
}

/// The concurrency table after one slot is given back per job.
pub open spec fn release_slots(m: Map<Seq<char>, crate::manager::ConcurrencySlot>, jobs: Seq<Job>) -> Map<Seq<char>, crate::manager::ConcurrencySlot>
    decreases jobs.len(),
{
    if jobs.len() == 0 {
        m
    } else {
        crate::manager::release_slot(release_slots(m, jobs.drop_last()), jobs.last().queue@)
    }
}

/// The group set without the groups of `jobs`.
pub open spec fn without_groups(s: Set<(Seq<char>, Seq<char>)>, jobs: Seq<Job>) -> Set<(Seq<char>, Seq<char>)>
    decreases jobs.len(),
{
    if jobs.len() == 0 {
        s
    } else {
        crate::manager::without_item(without_groups(s, jobs.drop_last()), jobs.last().queue@, jobs.last().group_id)
    }
}

/// The unique-key set without the keys of `jobs`.
pub open spec fn without_keys(s: Set<(Seq<char>, Seq<char>)>, jobs: Seq<Job>) -> Set<(Seq<char>, Seq<char>)>
    decreases jobs.len(),
{
    if jobs.len() == 0 {
        s
    } else {
        crate::manager::without_item(without_keys(s, jobs.drop_last()), jobs.last().queue@, jobs.last().unique_key)
    }
}

/// The IDs of the jobs that are kept as completed (not removed on completion).
pub open spec fn kept_ids(jobs: Seq<Job>) -> Seq<u64>
    decreases jobs.len(),
{
    if jobs.len() == 0 {
        Seq::empty()
    } else if jobs.last().remove_on_complete {
        kept_ids(jobs.drop_last())
    } else {
        kept_ids(jobs.drop_last()).push(jobs.last().id)
    }
}

/// Stall counts without those of jobs removed on completion.
pub open spec fn without_stalls(m: Map<u64, u32>, jobs: Seq<Job>) -> Map<u64, u32>
    decreases jobs.len(),
{
    if jobs.len() == 0 {
        m
    } else if jobs.last().remove_on_complete {
        without_stalls(m, jobs.drop_last()).remove(jobs.last().id)
    } else {
        without_stalls(m, jobs.drop_last())
    }
}

impl QueueManager {
    /// Everything but the jobs' places and the queue bookkeeping stays.
    pub open spec fn keeps_queue_side(&self, old: &QueueManager) -> bool {
        &&& self.waiting == old.waiting
        &&& self.waiting_deps == old.waiting_deps
        &&& self.dlq == old.dlq
        &&& self.next_id == old.next_id
        &&& self.debounce == old.debounce
        &&& self.custom_ids == old.custom_ids
        &&& self.same_settings(old)
    }

    /// Completes processing job `id` with an optional result (JSON text).
    ///
    /// The job leaves `processing`; its concurrency slot, group and unique
    /// key are released. Unless the job asked to be removed on completion,
    /// its ID joins the completed set, a record (job, time, result) is kept
    /// in the bounded completed list and the result is stored; otherwise
    /// its stall count is dropped. Jobs with a retention setting get a
    /// retention record. Returns the completed job; an unknown ID gives
    /// "Job {id} not found" and changes nothing.
    pub fn ack(&mut self, id: u64, result: Option<String>, now: u64) -> (r: Result<Job, String>)
        requires
            old(self).wf(),
            old(self).clock <= now <= crate::job::MAX_TIME,
        ensures
            final(self).wf(),
            match r {
                Err(e) => {
                    &&& !crate::jobs_seq::has_id(old(self).processing@, id)
                    &&& e@ == not_found_msg(id)
                    &&& *final(self) == *old(self)
                },
                Ok(job) => {
                    let i = crate::manager::index_of(old(self).processing@, id);
                    let j = old(self).processing@[i];
                    &&& 0 <= i < old(self).processing@.len() && j.id == id
                    &&& job@ == j@
                    &&& final(self).processing@ == old(self).processing@.remove(i)
                    &&& final(self).concurrency@ == crate::manager::release_slot(old(self).concurrency@, j.queue@)
                    &&& crate::tables::pairs_view(final(self).active_groups@) == crate::manager::without_item(
                        crate::tables::pairs_view(old(self).active_groups@), j.queue@, j.group_id)
                    &&& crate::tables::pairs_view(final(self).unique_keys@) == crate::manager::without_item(
                        crate::tables::pairs_view(old(self).unique_keys@), j.queue@, j.unique_key)
                    &&& j.remove_on_complete ==> {
                        &&& final(self).stalled_counts@ == old(self).stalled_counts@.remove(id)
                        &&& final(self).completed == old(self).completed
                        &&& final(self).completed_data == old(self).completed_data
                        &&& final(self).job_results == old(self).job_results
                    }
                    &&& !j.remove_on_complete ==> {
                        &&& final(self).stalled_counts == old(self).stalled_counts
                        &&& final(self).completed@ == old(self).completed@.push(id)
                        &&& completed_view(final(self).completed_data@) == keep_last(
                            completed_view(old(self).completed_data@).push((j@, now, crate::job::opt_view(result))),
                            old(self).cleanup_settings.max_completed_jobs as nat)
                        &&& results_view(final(self).job_results@) == match result {
                            Some(v) => results_view(old(self).job_results@).push((id, v@)),
                            None => results_view(old(self).job_results@),
                        }
                        &&& result matches Some(v) ==> result_of(results_view(final(self).job_results@), id) == Some(v@)
                    }
                    &&& retention_view(final(self).completed_retention@) == if j.keep_completed_age > 0 || j.keep_completed_count > 0 {
                        retention_view(old(self).completed_retention@).push((id, now, j.keep_completed_age, crate::job::opt_view(result)))
                    } else {
                        retention_view(old(self).completed_retention@)
                    }
                    &&& final(self).metrics == (crate::manager::Metrics {
                        total_completed: old(self).metrics.total_completed.wrapping_add(1),
                        latency_sum: old(self).metrics.latency_sum.wrapping_add((now - j.created_at) as u64),
                        latency_count: old(self).metrics.latency_count.wrapping_add(1),
                        ..old(self).metrics
                    })
                    &&& final(self).clock == now
                    &&& final(self).keeps_queue_side(old(self))
                },
            },
            r matches Ok(j) && !j.remove_on_complete ==> crate::job_ops::state_of(*final(self), id, now)
                == crate::job::JobState::Completed,
            r matches Ok(j) && j.remove_on_complete ==> crate::job_ops::state_of(*final(self), id, now)
                == (if old(self).completed@.contains(id) { crate::job::JobState::Completed } else { crate::job::JobState::Unknown }),
    {
        let idx = match self.find_processing(id) {
            Some(i) => i,
            None => {
                return Err(job_not_found(id));
            },
        };
        let ghost pre = *self;
        let job = self.processing.remove(idx);
        proof {
            crate::jobs_seq::lemma_remove_keeps(pre.processing@, idx as int, pre.next_id);
            crate::manager::lemma_created_by(pre.processing@, pre.clock, now);
            crate::manager::lemma_created_by(pre.waiting@, pre.clock, now);
            crate::manager::lemma_created_by(pre.waiting_deps@, pre.clock, now);
            crate::manager::lemma_created_by(pre.dlq@, pre.clock, now);
        }
        self.clock = now;
        self.release_concurrency(&job.queue);
        self.release_group(&job.queue, &job.group_id);
        self.release_unique_key(&job.queue, &job.unique_key);
        if job.remove_on_complete {
            self.stalled_counts.remove(&id);
        } else {
            match &result {
                Some(v) => {
                    self.job_results.push(JobResult { job_id: id, result: v.clone() });
                    assert(results_view(self.job_results@) =~= results_view(pre.job_results@).push((id, v@)));
                },
                None => {},
            }
            self.completed.push(id);
            let ghost cd0 = completed_view(self.completed_data@);
            let rec = CompletedJob { job: job.duplicate(), completed_at: now, result: crate::jobs_seq::copy_opt_string(&result) };
            self.completed_data.push(rec);
            let ghost full = cd0.push((job@, now, crate::job::opt_view(result)));
            assert(completed_view(self.completed_data@) =~= full);
            let max = self.cleanup_settings.max_completed_jobs;
            if self.completed_data.len() > max {
                let cut = self.completed_data.len() - max;
                let tail = self.completed_data.split_off(cut);
                self.completed_data = tail;
                assert(completed_view(self.completed_data@) =~= keep_last(full, max as nat));
            }
        }
        if job.keep_completed_age > 0 || job.keep_completed_count > 0 {
            let ghost rv0 = retention_view(self.completed_retention@);
            self.completed_retention.push(RetentionEntry {
                job_id: id,
                completed_at: now,
                keep_age: job.keep_completed_age,
                result: crate::jobs_seq::copy_opt_string(&result),
            });
            assert(retention_view(self.completed_retention@) =~= rv0.push((id, now, job.keep_completed_age, crate::job::opt_view(result))));
        }
        assert(job.created_at <= pre.clock) by {
            assert(pre.processing@[idx as int] == job);
        }
        proof {
            crate::job_ops::lemma_gone_after_remove(pre.processing@, idx as int);
            crate::jobs_seq::lemma_disjoint_sym(pre.waiting@, pre.processing@);
            crate::jobs_seq::lemma_disjoint_sym(pre.waiting_deps@, pre.processing@);
            crate::jobs_seq::lemma_disjoint_not_has(pre.processing@, pre.waiting@, idx as int);
            crate::jobs_seq::lemma_disjoint_not_has(pre.processing@, pre.waiting_deps@, idx as int);
            crate::jobs_seq::lemma_disjoint_not_has(pre.processing@, pre.dlq@, idx as int);
            if !job.remove_on_complete {
                assert(self.completed@[self.completed@.len() - 1] == id);
            }
        }
        let latency = now - job.created_at;
        self.metrics.total_completed = self.metrics.total_completed.wrapping_add(1);
        self.metrics.latency_sum = self.metrics.latency_sum.wrapping_add(latency);
        self.metrics.latency_count = self.metrics.latency_count.wrapping_add(1);
        Ok(job)
    }

    /// Completes several processing jobs without results.
    ///
    /// Each ID still processing is taken off (see [`batch_run`]); its
    /// concurrency slot, group and unique key are released. Jobs that are
    /// not removed on completion join the completed set; the others lose
    /// their stall count. No completed records or results are kept. The
    /// completion counter grows by the number of jobs acked, which is
    /// returned.
    pub fn ack_batch(&mut self, ids: &Vec<u64>) -> (r: usize)
        requires
            old(self).wf(),
        ensures
            final(self).wf(),
            ({
                let (rest, acked) = batch_run(old(self).processing@, ids@);
                &&& final(self).processing@ == rest
                &&& r == acked.len()
                &&& final(self).concurrency@ == release_slots(old(self).concurrency@, acked)
                &&& crate::tables::pairs_view(final(self).active_groups@) == without_groups(crate::tables::pairs_view(old(self).active_groups@), acked)
                &&& crate::tables::pairs_view(final(self).unique_keys@) == without_keys(crate::tables::pairs_view(old(self).unique_keys@), acked)
                &&& final(self).completed@ == old(self).completed@ + kept_ids(acked)
                &&& final(self).stalled_counts@ == without_stalls(old(self).stalled_counts@, acked)
                &&& final(self).metrics == (crate::manager::Metrics {
                    total_completed: old(self).metrics.total_completed.wrapping_add(acked.len() as u64),
                    ..old(self).metrics
                })
            }),
            final(self).clock == old(self).clock,
            final(self).completed_data == old(self).completed_data,
            final(self).job_results == old(self).job_results,
            final(self).completed_retention == old(self).completed_retention,
            final(self).keeps_queue_side(old(self)),
    {
        let mut acked: usize = 0;
        let mut k: usize = 0;
        let ghost pre = *self;
        while k < ids.len()
            invariant
                k <= ids.len(),
                self.wf(),
                ({
                    let (rest, done) = batch_run(pre.processing@, ids@.take(k as int));
                    &&& self.processing@ == rest
                    &&& acked == done.len()
                    &&& self.concurrency@ == release_slots(pre.concurrency@, done)
                    &&& crate::tables::pairs_view(self.active_groups@) == without_groups(crate::tables::pairs_view(pre.active_groups@), done)
                    &&& crate::tables::pairs_view(self.unique_keys@) == without_keys(crate::tables::pairs_view(pre.unique_keys@), done)
                    &&& self.completed@ == pre.completed@ + kept_ids(done)
                    &&& self.stalled_counts@ == without_stalls(pre.stalled_counts@, done)
                    &&& self.metrics == (crate::manager::Metrics {
                        total_completed: pre.metrics.total_completed.wrapping_add(done.len() as u64),
                        ..pre.metrics
                    })
                    &&& done.len() <= k
                }),
                self.clock == pre.clock,
                self.completed_data == pre.completed_data,
                self.job_results == pre.job_results,
                self.completed_retention == pre.completed_retention,
                self.keeps_queue_side(&pre),
            decreases ids.len() - k,
        {
            let id = ids[k];
            let ghost before = *self;
            let ghost (rest0, done0) = batch_run(pre.processing@, ids@.take(k as int));
            assert(ids@.take(k as int + 1).drop_last() =~= ids@.take(k as int));
            assert(ids@.take(k as int + 1).last() == id);
            match self.find_processing(id) {
                Some(idx) => {
                    let job = self.processing.remove(idx);
                    proof {
                        crate::jobs_seq::lemma_remove_keeps(before.processing@, idx as int, before.next_id);
                        crate::manager::lemma_created_by(before.processing@, before.clock, before.clock);
                        assert(job == before.processing@[idx as int]);
                        assert(done0.push(job).drop_last() =~= done0);
                    }
                    self.release_concurrency(&job.queue);
                    self.release_group(&job.queue, &job.group_id);
                    self.release_unique_key(&job.queue, &job.unique_key);
                    if job.remove_on_complete {
                        self.stalled_counts.remove(&id);
                    } else {
                        self.completed.push(id);
                        assert(self.completed@ =~= pre.completed@ + kept_ids(done0.push(job)));
                    }
                    self.metrics.total_completed = self.metrics.total_completed.wrapping_add(1);
                    proof {
                        let n = done0.len();
                        assert(n < k + 1);
                        assert(pre.metrics.total_completed.wrapping_add(n as u64).wrapping_add(1)
                            == pre.metrics.total_completed.wrapping_add((n + 1) as u64));
                    }
                    acked = acked + 1;
                },
                None => {},
            }
            k = k + 1;
        }
        assert(ids@.take(ids.len() as int) =~= ids@);
        acked
    }

    /// The processing job `id`, if any, can count one more attempt, and
    /// its retry at `now` stays on the clock (see [`crate::job::retry_fits`]).
    pub open spec fn attempts_can_grow(&self, id: u64, now: u64) -> bool {
        forall|i: int| 0 <= i < self.processing@.len() && self.processing@[i].id == id
            ==> self.processing@[i].attempts < u32::MAX && crate::job::retry_fits(self.processing@[i], now)
    }

    /// Fails processing job `id` with an optional error message.
    ///
    /// The attempt is counted. A job out of attempts gives back its
    /// concurrency slot and group and either goes to the dead letter queue
    /// or, with `remove_on_fail`, is dropped along with its stall count;
    /// the failure counter grows. Any other job goes back to the waiting
    /// list with its slot and group released, `started_at` cleared, the
    /// error as its progress message, and `run_at` moved to `now` plus its
    /// exponential backoff (kept when it has no backoff). An unknown ID
    /// gives "Job {id} not found" and changes nothing.
    pub fn fail(&mut self, id: u64, error: Option<String>, now: u64) -> (r: Result<FailOutcome, String>)
        requires
            old(self).wf(),
            old(self).clock <= now <= crate::job::MAX_TIME,
            old(self).attempts_can_grow(id, now),
        ensures
            final(self).wf(),
            match r {
                Err(e) => {
                    &&& !crate::jobs_seq::has_id(old(self).processing@, id)
                    &&& e@ == not_found_msg(id)
                    &&& *final(self) == *old(self)
                },
                Ok(outcome) => {
                    let i = crate::manager::index_of(old(self).processing@, id);
                    let j = old(self).processing@[i];
                    let j1 = Job { attempts: (j.attempts + 1) as u32, ..j };
                    &&& 0 <= i < old(self).processing@.len() && j.id == id
                    &&& final(self).processing@ == old(self).processing@.remove(i)
                    &&& final(self).concurrency@ == crate::manager::release_slot(old(self).concurrency@, j.queue@)
                    &&& crate::tables::pairs_view(final(self).active_groups@) == crate::manager::without_item(
                        crate::tables::pairs_view(old(self).active_groups@), j.queue@, j.group_id)
                    &&& final(self).unique_keys == old(self).unique_keys
                    &&& final(self).waiting_deps == old(self).waiting_deps
                    &&& final(self).next_id == old(self).next_id
                    &&& final(self).debounce == old(self).debounce
                    &&& final(self).custom_ids == old(self).custom_ids
                    &&& final(self).completed == old(self).completed
                    &&& final(self).completed_data == old(self).completed_data
                    &&& final(self).job_results == old(self).job_results
                    &&& final(self).completed_retention == old(self).completed_retention
                    &&& final(self).same_settings(old(self))
                    &&& final(self).clock == now
                    &&& if j1.spec_should_go_to_dlq() {
                        &&& final(self).waiting == old(self).waiting
                        &&& final(self).metrics == (crate::manager::Metrics {
                            total_failed: old(self).metrics.total_failed.wrapping_add(1),
                            ..old(self).metrics
                        })
                        &&& if j.remove_on_fail {
                            &&& outcome matches FailOutcome::Removed(job) && job@ == j1@
                            &&& final(self).dlq == old(self).dlq
                            &&& final(self).stalled_counts@ == old(self).stalled_counts@.remove(id)
                        } else {
                            &&& outcome matches FailOutcome::MovedToDlq(job) && job@ == j1@
                            &&& final(self).dlq@ == old(self).dlq@.push(j1)
                            &&& final(self).stalled_counts == old(self).stalled_counts
                        }
                    } else {
                        let delay = crate::job::backoff_delay(j.backoff, j1.attempts);
                        let j2 = Job {
                            run_at: if delay > 0 { (now + delay) as u64 } else { j.run_at },
                            started_at: 0,
                            progress_msg: match error {
                                Some(e) => Some(e),
                                None => j.progress_msg,
                            },
                            ..j1
                        };
                        &&& outcome matches FailOutcome::Retried(job) && job@ == j2@
                        &&& final(self).waiting@ == old(self).waiting@.push(j2)
                        &&& final(self).dlq == old(self).dlq
                        &&& final(self).stalled_counts == old(self).stalled_counts
                        &&& final(self).metrics == old(self).metrics
                    }
                },
            },
            r matches Ok(FailOutcome::MovedToDlq(_)) ==> crate::job_ops::state_of(*final(self), id, now)
                == crate::job::JobState::Failed,
            r matches Ok(FailOutcome::Retried(_)) ==> (crate::job_ops::state_of(*final(self), id, now)
                == crate::job::JobState::Waiting || crate::job_ops::state_of(*final(self), id, now) == crate::job::JobState::Delayed),
            r matches Ok(FailOutcome::Removed(_)) ==> crate::push::lookup(*final(self), id) is None,
    {
        let idx = match self.find_processing(id) {
            Some(i) => i,
            None => {
                return Err(job_not_found(id));
            },
        };
        let ghost pre = *self;
        let mut job = self.processing.remove(idx);
        assert(job == pre.processing@[idx as int]);
        proof {
            crate::job_ops::lemma_gone_after_remove(pre.processing@, idx as int);
            crate::jobs_seq::lemma_disjoint_sym(pre.waiting@, pre.processing@);
            crate::jobs_seq::lemma_disjoint_sym(pre.waiting_deps@, pre.processing@);
            crate::jobs_seq::lemma_disjoint_not_has(pre.processing@, pre.waiting@, idx as int);
            crate::jobs_seq::lemma_disjoint_not_has(pre.processing@, pre.waiting_deps@, idx as int);
            crate::jobs_seq::lemma_disjoint_not_has(pre.processing@, pre.dlq@, idx as int);
        }
        self.clock = now;
        job.attempts = job.attempts + 1;
        self.release_concurrency(&job.queue);
        self.release_group(&job.queue, &job.group_id);
        if job.should_go_to_dlq() {
            self.metrics.total_failed = self.metrics.total_failed.wrapping_add(1);
            if job.remove_on_fail {
                self.stalled_counts.remove(&id);
                proof {
                    crate::jobs_seq::lemma_remove_keeps(pre.processing@, idx as int, pre.next_id);
                    crate::manager::lemma_created_by(pre.processing@, pre.clock, now);
                    crate::manager::lemma_created_by(pre.waiting@, pre.clock, now);
                    crate::manager::lemma_created_by(pre.waiting_deps@, pre.clock, now);
                    crate::manager::lemma_created_by(pre.dlq@, pre.clock, now);
                }
                Ok(FailOutcome::Removed(job))
            } else {
                proof {
                    crate::manager::lemma_processing_to_dlq(pre.waiting@, pre.waiting_deps@, pre.processing@, pre.dlq@, pre.next_id, pre.clock, now, idx as int, job);
                }
                let copy = job.duplicate();
                self.dlq.push(job);
                proof {
                    crate::jobs_seq::lemma_has_id_index(self.dlq@, self.dlq@.len() - 1);
                }
                Ok(FailOutcome::MovedToDlq(copy))
            }
        } else {
            assert(crate::job::retry_fits(pre.processing@[idx as int], now));
            let backoff = job.next_backoff();
            let new_run_at = if backoff > 0 { now + backoff } else { job.run_at };
            job.run_at = new_run_at;
            job.started_at = 0;
            match error {
                Some(e) => {
                    job.progress_msg = Some(e);
                },
                None => {},
            }
            proof {
                crate::manager::lemma_processing_to_waiting(pre.waiting@, pre.waiting_deps@, pre.processing@, pre.dlq@, pre.next_id, pre.clock, now, idx as int, job);
            }
            let copy = job.duplicate();
            proof {
                crate::job_ops::lemma_index_after_push(pre.waiting@, job);
            }
            self.waiting.push(job);
            Ok(FailOutcome::Retried(copy))
        }
    }
}

impl QueueManager {
    /// The result stored for job `id` by its completion, if any.
    pub fn get_result(&self, id: u64) -> (r: Option<String>)
        ensures
            crate::job::opt_view(r) == result_of(results_view(self.job_results@), id),
    {
        let mut i: usize = self.job_results.len();
        assert(self.job_results@.take(i as int) =~= self.job_results@);
        while i > 0
            invariant
                i <= self.job_results@.len(),
                result_of(results_view(self.job_results@), id) == result_of(results_view(self.job_results@.take(i as int)), id),
            decreases i,
        {
            let ghost t = self.job_results@.take(i as int);
            proof {
                assert(results_view(t).drop_last() =~= results_view(self.job_results@.take(i - 1)));
                assert(results_view(t).last() == (self.job_results@[i - 1].job_id, self.job_results@[i - 1].result@));
            }
            if self.job_results[i - 1].job_id == id {
                return Some(self.job_results[i - 1].result.clone());
            }
            i = i - 1;
        }
        proof {
            assert(results_view(self.job_results@.take(0)) =~= Seq::<(u64, Seq<char>)>::empty());
        }
        None
    }
}

} // verus!
