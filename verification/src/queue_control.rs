//! Per-queue controls (pause, concurrency and rate limits) and per-queue
//! counts.
use vstd::prelude::*;
use crate::job::{Job, QueueMetrics};
use crate::manager::{ConcurrencySlot, QueueManager};

verus! {

broadcast use vstd::std_specs::hash::group_hash_axioms;

/// The parts of the manager a queue control leaves alone.
pub open spec fn control_frame(pre: QueueManager, post: QueueManager) -> bool {
    &&& post.waiting == pre.waiting
    &&& post.waiting_deps == pre.waiting_deps
    &&& post.processing == pre.processing
    &&& post.dlq == pre.dlq
    &&& post.debounce == pre.debounce
    &&& post.custom_ids == pre.custom_ids
    &&& post.next_id == pre.next_id
    &&& post.clock == pre.clock
    &&& post.active_groups == pre.active_groups
    &&& post.unique_keys == pre.unique_keys
}

impl QueueManager {
    /// Pauses queue `q`: pulls take nothing from it until it is resumed.
    pub fn pause(&mut self, q: &str)
        requires
            old(self).wf(),
        ensures
            final(self).wf(),
            final(self).paused@ == old(self).paused@.insert(q@, true),
            final(self).concurrency == old(self).concurrency,
            final(self).rate_limits == old(self).rate_limits,
            final(self).rate_buckets == old(self).rate_buckets,
            control_frame(*old(self), *final(self)),
    {
        self.paused.insert(q.to_owned(), true);
    }

    /// Resumes queue `q`.
    pub fn resume(&mut self, q: &str)
        requires
            old(self).wf(),
        ensures
            final(self).wf(),
            final(self).paused@ == old(self).paused@.insert(q@, false),
            final(self).concurrency == old(self).concurrency,
            final(self).rate_limits == old(self).rate_limits,
            final(self).rate_buckets == old(self).rate_buckets,
            control_frame(*old(self), *final(self)),
    {
        self.paused.insert(q.to_owned(), false);
    }

    /// Whether queue `q` is paused.
    pub fn is_paused(&self, q: &str) -> (r: bool)
        ensures
            r == self.queue_paused(q@),
    {
        match self.paused.get(q) {
            Some(p) => *p,
            None => false,
        }
    }

    /// Limits queue `q` to `limit` jobs running at once; the jobs already
    /// running keep their slots.
    pub fn set_concurrency(&mut self, q: &str, limit: u32)
        requires
            old(self).wf(),
        ensures
            final(self).wf(),
            final(self).concurrency@ == old(self).concurrency@.insert(q@, ConcurrencySlot {
                limit,
                active: if old(self).concurrency@.contains_key(q@) { old(self).concurrency@[q@].active } else { 0 },
            }),
            final(self).paused == old(self).paused,
            final(self).rate_limits == old(self).rate_limits,
            final(self).rate_buckets == old(self).rate_buckets,
            control_frame(*old(self), *final(self)),
    {
        let active = match self.concurrency.get(q) {
            Some(s) => s.active,
            None => 0,
        };
        self.concurrency.insert(q.to_owned(), ConcurrencySlot { limit, active });
    }

    /// Lifts the concurrency limit of queue `q`.
    pub fn clear_concurrency(&mut self, q: &str)
        requires
            old(self).wf(),
        ensures
            final(self).wf(),
            final(self).concurrency@ == old(self).concurrency@.remove(q@),
            final(self).paused == old(self).paused,
            final(self).rate_limits == old(self).rate_limits,
            final(self).rate_buckets == old(self).rate_buckets,
            control_frame(*old(self), *final(self)),
    {
        self.concurrency.remove(q);
    }

    /// Records a rate limit of `limit` jobs per second for queue `q`, with a
    /// full token bucket.
    pub fn set_rate_limit(&mut self, q: &str, limit: u32)
        requires
            old(self).wf(),
        ensures
            final(self).wf(),
            final(self).rate_limits@ == old(self).rate_limits@.insert(q@, limit),
            final(self).rate_buckets@ == old(self).rate_buckets@.remove(q@),
            final(self).paused == old(self).paused,
            final(self).concurrency == old(self).concurrency,
            control_frame(*old(self), *final(self)),
    {
        self.rate_limits.insert(q.to_owned(), limit);
        self.rate_buckets.remove(q);
    }

    /// Lifts the rate limit of queue `q`.
    pub fn clear_rate_limit(&mut self, q: &str)
        requires
            old(self).wf(),
        ensures
            final(self).wf(),
            final(self).rate_limits@ == old(self).rate_limits@.remove(q@),
            final(self).rate_buckets@ == old(self).rate_buckets@.remove(q@),
            final(self).paused == old(self).paused,
            final(self).concurrency == old(self).concurrency,
            control_frame(*old(self), *final(self)),
    {
        self.rate_limits.remove(q);
        self.rate_buckets.remove(q);
    }
}

/// How many jobs of `s` belong to queue `q`.
pub open spec fn count_in(s: Seq<Job>, q: Seq<char>) -> nat
    decreases s.len(),
{
    if s.len() == 0 {
        0
    } else {
        count_in(s.drop_last(), q) + if s.last().queue@ == q { 1nat } else { 0nat }
    }
}

pub proof fn lemma_count_in_len(s: Seq<Job>, q: Seq<char>)
    ensures
        count_in(s, q) <= s.len(),
    decreases s.len(),
{
    if s.len() > 0 {
        lemma_count_in_len(s.drop_last(), q);
    }
}

/// The queue names of `s` in order of first appearance.
pub open spec fn queue_names(s: Seq<Job>) -> Seq<Seq<char>>
    decreases s.len(),
{
    if s.len() == 0 {
        Seq::empty()
    } else {
        let names = queue_names(s.drop_last());
        if names.contains(s.last().queue@) {
            names
        } else {
            names.push(s.last().queue@)
        }
    }
}

/// The metrics of queue `q`: waiting, running and dead jobs, and its rate
/// limit.
pub open spec fn metrics_of(m: QueueManager, q: Seq<char>) -> (Seq<char>, nat, nat, nat, Option<u32>) {
    (
        q,
        count_in(m.waiting@, q),
        count_in(m.processing@, q),
        count_in(m.dlq@, q),
        if m.rate_limits@.contains_key(q) { Some(m.rate_limits@[q]) } else { None },
    )
}

/// A queue metrics row as a value.
pub open spec fn metrics_view(r: QueueMetrics) -> (Seq<char>, nat, nat, nat, Option<u32>) {
    (r.name@, r.pending as nat, r.processing as nat, r.dlq as nat, r.rate_limit)
}

/// How many jobs of `v` belong to queue `q`.
pub(crate) fn count_queue(v: &Vec<Job>, q: &String) -> (r: usize)
    ensures
        r == count_in(v@, q@),
{
    let mut n: usize = 0;
    let mut i: usize = 0;
    while i < v.len()
        invariant
            i <= v@.len(),
            n == count_in(v@.take(i as int), q@),
        decreases v.len() - i,
    {
        proof {
            assert(v@.take(i + 1).drop_last() =~= v@.take(i as int));
            lemma_count_in_len(v@.take(i as int), q@);
        }
        if v[i].queue == *q {
            n = n + 1;
        }
        i = i + 1;
    }
    assert(v@.take(i as int) =~= v@);
    n
}

impl QueueManager {
    /// One row per queue that has waiting jobs, in order of first
    /// appearance: its waiting, running and dead jobs and its rate limit.
    pub fn queue_metrics(&self) -> (r: Vec<QueueMetrics>)
        ensures
            r@.map_values(|x: QueueMetrics| metrics_view(x)) == queue_names(self.waiting@).map_values(|q: Seq<char>| metrics_of(*self, q)),
    {
        let mut names: Vec<String> = Vec::new();
        let mut i: usize = 0;
        assert(self.waiting@.take(0) =~= Seq::<Job>::empty());
        assert(crate::job::strings_view(names@) =~= queue_names(self.waiting@.take(0)));
        while i < self.waiting.len()
            invariant
                i <= self.waiting@.len(),
                crate::job::strings_view(names@) == queue_names(self.waiting@.take(i as int)),
            decreases self.waiting.len() - i,
        {
            proof {
                assert(self.waiting@.take(i + 1).drop_last() =~= self.waiting@.take(i as int));
            }
            let q = &self.waiting[i].queue;
            if !crate::select::strings_contain(&names, q) {
                let ghost before = crate::job::strings_view(names@);
                names.push(q.clone());
                assert(crate::job::strings_view(names@) =~= before.push(q@));
            }
            i = i + 1;
        }
        assert(self.waiting@.take(i as int) =~= self.waiting@);
        let ghost all = crate::job::strings_view(names@);
        let mut out: Vec<QueueMetrics> = Vec::new();
        let mut k: usize = 0;
        while k < names.len()
            invariant
                k <= names@.len(),
                all == crate::job::strings_view(names@),
                out@.map_values(|x: QueueMetrics| metrics_view(x)) == all.take(k as int).map_values(|q: Seq<char>| metrics_of(*self, q)),
            decreases names.len() - k,
        {
            let q = &names[k];
            let pending = count_queue(&self.waiting, q);
            let processing = count_queue(&self.processing, q);
            let dlq = count_queue(&self.dlq, q);
            let rate_limit = match self.rate_limits.get(q.as_str()) {
                Some(l) => Some(*l),
                None => None,
            };
            let ghost before = out@.map_values(|x: QueueMetrics| metrics_view(x));
            out.push(QueueMetrics { name: q.clone(), pending, processing, dlq, rate_limit });
            proof {
                assert(all.take(k + 1) =~= all.take(k as int).push(q@));
                assert(out@.map_values(|x: QueueMetrics| metrics_view(x)) =~= before.push(metrics_of(*self, q@)));
            }
            k = k + 1;
        }
        assert(all.take(k as int) =~= all);
        out
    }
}

} // verus!
