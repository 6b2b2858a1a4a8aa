//! The queue manager: the in-memory state of all queues and the bookkeeping
//! shared by its operations.
use vstd::prelude::*;
use vstd::hash_map::{HashMapWithView, StringHashMap};
use crate::job::{CronJob, Job};
use crate::tables::{DebounceEntry, IdsByName, QueueItem, pair_remove};

verus! {

broadcast use vstd::std_specs::hash::group_hash_axioms;

/// A queue's concurrency limit and the slots in use.
#[derive(Clone, Copy, Debug, PartialEq, Eq, Structural)]
pub struct ConcurrencySlot {
    pub limit: u32,
    pub active: u32,
}

/// A completed job kept for browsing.
pub struct CompletedJob {
    pub job: Job,
    pub completed_at: u64,
    pub result: Option<String>,
}

/// A completed job's result.
pub struct JobResult {
    pub job_id: u64,
    pub result: String,
}

/// Retention record of a completed job.
pub struct RetentionEntry {
    pub job_id: u64,
    pub completed_at: u64,
    pub keep_age: u64,
    pub result: Option<String>,
}

/// A worker that reported a heartbeat.
pub struct Worker {
    pub id: String,
    pub queues: Vec<String>,
    pub concurrency: u32,
    pub last_heartbeat: u64,
    pub jobs_processed: u64,
}

/// Counters over the server's life (they wrap as atomic counters do).
#[derive(Clone, Copy, Debug, PartialEq, Eq, Structural)]
pub struct Metrics {
    pub total_pushed: u64,
    pub total_completed: u64,
    pub total_failed: u64,
    pub total_timed_out: u64,
    pub latency_sum: u64,
    pub latency_count: u64,
}

/// Defaults applied to jobs of all queues.
#[derive(Clone, Copy, Debug, PartialEq, Eq, Structural)]
pub struct QueueDefaults {
    pub timeout: Option<u64>,
    pub max_attempts: Option<u32>,
    pub backoff: Option<u64>,
    pub ttl: Option<u64>,
}

impl Default for QueueDefaults {
    fn default() -> (r: Self)
        ensures
            r.timeout is None && r.max_attempts is None && r.backoff is None && r.ttl is None,
    {
        QueueDefaults { timeout: None, max_attempts: None, backoff: None, ttl: None }
    }
}

/// Limits of the periodic cleanup.
#[derive(Clone, Copy, Debug, PartialEq, Eq, Structural)]
pub struct CleanupSettings {
    pub max_completed_jobs: usize,
    pub max_job_results: usize,
    pub cleanup_interval_secs: u64,
    pub metrics_history_size: usize,
}

impl Default for CleanupSettings {
    fn default() -> (r: Self)
        ensures
            r.max_completed_jobs == 5000,
            r.max_job_results == 5000,
            r.cleanup_interval_secs == 60,
            r.metrics_history_size == 1000,
    {
        CleanupSettings {
            max_completed_jobs: 5000,
            max_job_results: 5000,
            cleanup_interval_secs: 60,
            metrics_history_size: 1000,
        }
    }
}

/// The state of all queues.
///
/// `waiting` holds the jobs of every queue that wait for their turn
/// (ready or delayed), `waiting_deps` the jobs that wait for other jobs,
/// `processing` the jobs handed to workers and `dlq` the dead letter jobs.
/// `clock` is the latest time the manager was told; operations take the
/// current time and it never goes back.
pub struct QueueManager {
    pub waiting: Vec<Job>,
    pub waiting_deps: Vec<Job>,
    pub processing: Vec<Job>,
    pub dlq: Vec<Job>,
    pub completed: Vec<u64>,
    pub completed_data: Vec<CompletedJob>,
    pub job_results: Vec<JobResult>,
    pub completed_retention: Vec<RetentionEntry>,
    pub custom_ids: IdsByName,
    pub debounce: Vec<DebounceEntry>,
    pub unique_keys: Vec<QueueItem>,
    pub active_groups: Vec<QueueItem>,
    pub paused: StringHashMap<bool>,
    pub concurrency: StringHashMap<ConcurrencySlot>,
    pub rate_limits: StringHashMap<u32>,
    pub rate_buckets: StringHashMap<crate::rate::RateBucket>,
    pub metrics_history: Vec<crate::history::MetricsSample>,
    pub stalled_counts: HashMapWithView<u64, u32>,
    pub auth_tokens: Vec<String>,
    pub workers: Vec<Worker>,
    pub cron_jobs: Vec<CronJob>,
    pub queue_defaults: QueueDefaults,
    pub cleanup_settings: CleanupSettings,
    pub metrics: Metrics,
    pub next_id: u64,
    pub clock: u64,
    pub tcp_connection_count: usize,
    pub shutdown_flag: bool,
    pub sync_persistence: bool,
    pub cluster_mode: bool,
}

/// Everything that holds a job: the ID bookkeeping of all four places.
pub open spec fn jobs_wf(w: Seq<Job>, d: Seq<Job>, p: Seq<Job>, x: Seq<Job>, next_id: u64, clock: u64) -> bool {
    &&& crate::jobs_seq::ids_unique(w) && crate::jobs_seq::ids_unique(d)
    &&& crate::jobs_seq::ids_unique(p) && crate::jobs_seq::ids_unique(x)
    &&& crate::jobs_seq::ids_disjoint(w, d) && crate::jobs_seq::ids_disjoint(w, p)
    &&& crate::jobs_seq::ids_disjoint(w, x) && crate::jobs_seq::ids_disjoint(d, p)
    &&& crate::jobs_seq::ids_disjoint(d, x) && crate::jobs_seq::ids_disjoint(p, x)
    &&& crate::jobs_seq::ids_below(w, next_id) && crate::jobs_seq::ids_below(d, next_id)
    &&& crate::jobs_seq::ids_below(p, next_id) && crate::jobs_seq::ids_below(x, next_id)
    &&& created_by(w, clock) && created_by(d, clock) && created_by(p, clock) && created_by(x, clock)
}

/// Every job of `s` was created no later than `clock`.
pub open spec fn created_by(s: Seq<Job>, clock: u64) -> bool {
    forall|i: int| 0 <= i < s.len() ==> s[i].created_at <= clock
}

pub proof fn lemma_created_by(s: Seq<Job>, c1: u64, c2: u64)
    requires
        created_by(s, c1),
        c1 <= c2,
    ensures
        created_by(s, c2),
        forall|i: int| 0 <= i < s.len() ==> created_by(#[trigger] s.remove(i), c2),
        forall|j: Job| j.created_at <= c2 ==> created_by(#[trigger] s.push(j), c2),
{
    assert forall|i: int| 0 <= i < s.len() implies created_by(#[trigger] s.remove(i), c2) by {
        let r = s.remove(i);
        assert forall|k: int| 0 <= k < r.len() implies r[k].created_at <= c2 by {
            if k < i {
                assert(r[k] == s[k]);
            } else {
                assert(r[k] == s[k + 1]);
            }
        }
    }
    assert forall|j: Job| j.created_at <= c2 implies created_by(#[trigger] s.push(j), c2) by {
        let r = s.push(j);
        assert forall|k: int| 0 <= k < r.len() implies r[k].created_at <= c2 by {
            if k < s.len() {
                assert(r[k] == s[k]);
            }
        }
    }
}

/// A job moved from one place to another keeps its ID, backoff and
/// creation time.
pub open spec fn same_identity(a: Job, b: Job) -> bool {
    a.id == b.id && a.backoff == b.backoff && a.created_at == b.created_at
}

/// Moving processing job `i` (possibly changed) to the waiting list keeps
/// the bookkeeping.
pub proof fn lemma_processing_to_waiting(w: Seq<Job>, d: Seq<Job>, p: Seq<Job>, x: Seq<Job>, n: u64, c0: u64, c: u64, i: int, j: Job)
    requires
        jobs_wf(w, d, p, x, n, c0),
        c0 <= c,
        0 <= i < p.len(),
        same_identity(p[i], j),
    ensures
        jobs_wf(w.push(j), d, p.remove(i), x, n, c),
{
    crate::jobs_seq::lemma_remove_keeps(p, i, n);
    crate::jobs_seq::lemma_push_keeps(w, j, n);
    crate::jobs_seq::lemma_disjoint_not_has(p, w, i);
    crate::jobs_seq::lemma_disjoint_not_has(p, x, i);
    lemma_created_by(w, c0, c);
    lemma_created_by(d, c0, c);
    lemma_created_by(p, c0, c);
    lemma_created_by(x, c0, c);
    assert(!crate::jobs_seq::has_id(d, j.id)) by {
        if crate::jobs_seq::has_id(d, j.id) {
            let k = choose|k: int| 0 <= k < d.len() && d[k].id == j.id;
            assert(d[k].id != p[i].id);
        }
    }
    assert(!crate::jobs_seq::has_id(p.remove(i), j.id)) by {
        if crate::jobs_seq::has_id(p.remove(i), j.id) {
            let k = choose|k: int| 0 <= k < p.remove(i).len() && p.remove(i)[k].id == j.id;
            let k2 = if k < i { k } else { k + 1 };
            assert(p.remove(i)[k] == p[k2]);
        }
    }
    assert(crate::jobs_seq::ids_disjoint(w.push(j), d));
    assert(crate::jobs_seq::ids_disjoint(w.push(j), x));
    assert(crate::jobs_seq::ids_disjoint(w.push(j), p.remove(i)));
}

/// Moving processing job `i` (possibly changed) to the dead letter list
/// keeps the bookkeeping.
pub proof fn lemma_processing_to_dlq(w: Seq<Job>, d: Seq<Job>, p: Seq<Job>, x: Seq<Job>, n: u64, c0: u64, c: u64, i: int, j: Job)
    requires
        jobs_wf(w, d, p, x, n, c0),
        c0 <= c,
        0 <= i < p.len(),
        same_identity(p[i], j),
    ensures
        jobs_wf(w, d, p.remove(i), x.push(j), n, c),
{
    crate::jobs_seq::lemma_remove_keeps(p, i, n);
    crate::jobs_seq::lemma_push_keeps(x, j, n);
    lemma_created_by(w, c0, c);
    lemma_created_by(d, c0, c);
    lemma_created_by(p, c0, c);
    lemma_created_by(x, c0, c);
    assert(!crate::jobs_seq::has_id(x, j.id));
    assert(!crate::jobs_seq::has_id(w, j.id)) by {
        if crate::jobs_seq::has_id(w, j.id) {
            let k = choose|k: int| 0 <= k < w.len() && w[k].id == j.id;
            assert(w[k].id != p[i].id);
        }
    }
    assert(!crate::jobs_seq::has_id(d, j.id)) by {
        if crate::jobs_seq::has_id(d, j.id) {
            let k = choose|k: int| 0 <= k < d.len() && d[k].id == j.id;
            assert(d[k].id != p[i].id);
        }
    }
    assert(!crate::jobs_seq::has_id(p.remove(i), j.id)) by {
        if crate::jobs_seq::has_id(p.remove(i), j.id) {
            let k = choose|k: int| 0 <= k < p.remove(i).len() && p.remove(i)[k].id == j.id;
            let k2 = if k < i { k } else { k + 1 };
            assert(p.remove(i)[k] == p[k2]);
        }
    }
    assert(crate::jobs_seq::ids_disjoint(w, x.push(j)));
    assert(crate::jobs_seq::ids_disjoint(d, x.push(j)));
    assert(crate::jobs_seq::ids_disjoint(p.remove(i), x.push(j)));
}

/// Index of the job with ID `id` in `s` (meaningful when there is one).
pub open spec fn index_of(s: Seq<Job>, id: u64) -> int {
    choose|i: int| 0 <= i < s.len() && s[i].id == id
}

/// The concurrency table after one slot of queue `q` is given back.
pub open spec fn release_slot(m: Map<Seq<char>, ConcurrencySlot>, q: Seq<char>) -> Map<Seq<char>, ConcurrencySlot> {
    if m.contains_key(q) {
        let s = m[q];
        m.insert(q, ConcurrencySlot { limit: s.limit, active: if s.active > 0 { (s.active - 1) as u32 } else { 0 } })
    } else {
        m
    }
}

/// The (queue, item) set without the pair of `q` and an optional item.
pub open spec fn without_item(s: Set<(Seq<char>, Seq<char>)>, q: Seq<char>, item: Option<String>) -> Set<(Seq<char>, Seq<char>)> {
    match item {
        Some(k) => s.remove((q, k@)),
        None => s,
    }
}

impl QueueManager {
    /// The manager's invariant.
    pub open spec fn wf(&self) -> bool {
        &&& jobs_wf(self.waiting@, self.waiting_deps@, self.processing@, self.dlq@, self.next_id, self.clock)
        &&& crate::tables::debounce_unique(self.debounce@)
        &&& self.clock <= crate::job::MAX_TIME
        &&& vstd::std_specs::hash::obeys_key_model::<u64>()
    }

    /// The state of the queue side (jobs and their bookkeeping) is as in `other`.
    pub open spec fn same_settings(&self, other: &QueueManager) -> bool {
        &&& self.auth_tokens@ == other.auth_tokens@
        &&& self.workers@ == other.workers@
        &&& self.cron_jobs@ == other.cron_jobs@
        &&& self.queue_defaults == other.queue_defaults
        &&& self.cleanup_settings == other.cleanup_settings
        &&& self.tcp_connection_count == other.tcp_connection_count
        &&& self.shutdown_flag == other.shutdown_flag
        &&& self.sync_persistence == other.sync_persistence
        &&& self.cluster_mode == other.cluster_mode
        &&& self.paused@ == other.paused@
        &&& self.rate_limits@ == other.rate_limits@
        &&& self.rate_buckets@ == other.rate_buckets@
        &&& self.metrics_history@ == other.metrics_history@
    }

    pub open spec fn queue_paused(&self, q: Seq<char>) -> bool {
        self.paused@.contains_key(q) && self.paused@[q]
    }

    /// An empty manager. IDs start at 1.
    pub fn new() -> (r: QueueManager)
        ensures
            r.wf(),
            r.waiting@.len() == 0 && r.waiting_deps@.len() == 0 && r.processing@.len() == 0 && r.dlq@.len() == 0,
            r.completed@.len() == 0,
            r.next_id == 1,
            r.clock == 0,
            r.auth_tokens@.len() == 0,
            r.metrics == (Metrics { total_pushed: 0, total_completed: 0, total_failed: 0, total_timed_out: 0, latency_sum: 0, latency_count: 0 }),
            r.cleanup_settings.max_completed_jobs == 5000,
            r.custom_ids@ == Map::<Seq<char>, u64>::empty(),
            crate::tables::debounce_view(r.debounce@) == Map::<(Seq<char>, Seq<char>), u64>::empty(),
            crate::tables::pairs_view(r.unique_keys@) == Set::<(Seq<char>, Seq<char>)>::empty(),
            crate::tables::pairs_view(r.active_groups@) == Set::<(Seq<char>, Seq<char>)>::empty(),
            r.concurrency@ == Map::<Seq<char>, ConcurrencySlot>::empty(),
            r.paused@ == Map::<Seq<char>, bool>::empty(),
            r.rate_limits@ == Map::<Seq<char>, u32>::empty(),
            r.rate_buckets@ == Map::<Seq<char>, crate::rate::RateBucket>::empty(),
            r.stalled_counts@ == Map::<u64, u32>::empty(),
            r.workers@.len() == 0 && r.cron_jobs@.len() == 0 && r.metrics_history@.len() == 0,
            r.completed_data@.len() == 0 && r.job_results@.len() == 0 && r.completed_retention@.len() == 0,
            r.queue_defaults.timeout is None && r.queue_defaults.max_attempts is None,
            r.queue_defaults.backoff is None && r.queue_defaults.ttl is None,
            r.cleanup_settings == (CleanupSettings {
                max_completed_jobs: 5000,
                max_job_results: 5000,
                cleanup_interval_secs: 60,
                metrics_history_size: 1000,
            }),
            r.tcp_connection_count == 0 && !r.shutdown_flag && !r.sync_persistence && !r.cluster_mode,
    {
        let r = QueueManager {
            waiting: Vec::new(),
            waiting_deps: Vec::new(),
            processing: Vec::new(),
            dlq: Vec::new(),
            completed: Vec::new(),
            completed_data: Vec::new(),
            job_results: Vec::new(),
            completed_retention: Vec::new(),
            custom_ids: IdsByName::new(),
            debounce: Vec::new(),
            unique_keys: Vec::new(),
            active_groups: Vec::new(),
            paused: StringHashMap::new(),
            concurrency: StringHashMap::new(),
            rate_limits: StringHashMap::new(),
            rate_buckets: StringHashMap::new(),
            metrics_history: Vec::new(),
            stalled_counts: HashMapWithView::new(),
            auth_tokens: Vec::new(),
            workers: Vec::new(),
            cron_jobs: Vec::new(),
            queue_defaults: QueueDefaults::default(),
            cleanup_settings: CleanupSettings::default(),
            metrics: Metrics { total_pushed: 0, total_completed: 0, total_failed: 0, total_timed_out: 0, latency_sum: 0, latency_count: 0 },
            next_id: 1,
            clock: 0,
            tcp_connection_count: 0,
            shutdown_flag: false,
            sync_persistence: false,
            cluster_mode: false,
        };
        proof {
            crate::jobs_seq::lemma_empty_facts(1);
            assert(crate::tables::debounce_view(r.debounce@) =~= Map::<(Seq<char>, Seq<char>), u64>::empty());
            assert(crate::tables::pairs_view(r.unique_keys@) =~= Set::<(Seq<char>, Seq<char>)>::empty());
            assert(crate::tables::pairs_view(r.active_groups@) =~= Set::<(Seq<char>, Seq<char>)>::empty());
        }
        r
    }

    /// Position of the processing job with ID `id`.
    pub fn find_processing(&self, id: u64) -> (r: Option<usize>)
        requires
            crate::jobs_seq::ids_unique(self.processing@),
        ensures
            match r {
                Some(i) => i < self.processing@.len() && self.processing@[i as int].id == id
                    && i as int == index_of(self.processing@, id),
                None => !crate::jobs_seq::has_id(self.processing@, id),
            },
    {
        find_job(&self.processing, id)
    }

    /// Gives back one concurrency slot of queue `q` (none is taken below zero).
    pub fn release_concurrency(&mut self, q: &String)
        ensures
            final(self).concurrency@ == release_slot(old(self).concurrency@, q@),
            final(self).waiting == old(self).waiting,
            final(self).waiting_deps == old(self).waiting_deps,
            final(self).processing == old(self).processing,
            final(self).dlq == old(self).dlq,
            final(self).active_groups == old(self).active_groups,
            final(self).unique_keys == old(self).unique_keys,
            final(self).next_id == old(self).next_id,
            final(self).clock == old(self).clock,
            final(self).debounce == old(self).debounce,
            final(self).stalled_counts == old(self).stalled_counts,
            final(self).custom_ids == old(self).custom_ids,
            final(self).completed == old(self).completed,
            final(self).completed_data == old(self).completed_data,
            final(self).job_results == old(self).job_results,
            final(self).completed_retention == old(self).completed_retention,
            final(self).metrics == old(self).metrics,
            final(self).same_settings(old(self)),
    {
        match self.concurrency.get(q.as_str()) {
            Some(slot) => {
                let s = *slot;
                let active = if s.active > 0 { s.active - 1 } else { 0 };
                self.concurrency.insert(q.clone(), ConcurrencySlot { limit: s.limit, active });
            },
            None => {},
        }
    }

    /// Marks the group of a job as no longer busy in queue `q`.
    pub fn release_group(&mut self, q: &String, group: &Option<String>)
        ensures
            crate::tables::pairs_view(final(self).active_groups@) == without_item(crate::tables::pairs_view(old(self).active_groups@), q@, *group),
            final(self).waiting == old(self).waiting,
            final(self).waiting_deps == old(self).waiting_deps,
            final(self).processing == old(self).processing,
            final(self).dlq == old(self).dlq,
            final(self).concurrency == old(self).concurrency,
            final(self).unique_keys == old(self).unique_keys,
            final(self).next_id == old(self).next_id,
            final(self).clock == old(self).clock,
            final(self).debounce == old(self).debounce,
            final(self).stalled_counts == old(self).stalled_counts,
            final(self).custom_ids == old(self).custom_ids,
            final(self).completed == old(self).completed,
            final(self).completed_data == old(self).completed_data,
            final(self).job_results == old(self).job_results,
            final(self).completed_retention == old(self).completed_retention,
            final(self).metrics == old(self).metrics,
            final(self).same_settings(old(self)),
    {
        match group {
            Some(g) => pair_remove(&mut self.active_groups, q, g),
            None => {},
        }
    }

    /// Frees a job's unique key in queue `q`.
    pub fn release_unique_key(&mut self, q: &String, key: &Option<String>)
        ensures
            crate::tables::pairs_view(final(self).unique_keys@) == without_item(crate::tables::pairs_view(old(self).unique_keys@), q@, *key),
            final(self).waiting == old(self).waiting,
            final(self).waiting_deps == old(self).waiting_deps,
            final(self).processing == old(self).processing,
            final(self).dlq == old(self).dlq,
            final(self).concurrency == old(self).concurrency,
            final(self).active_groups == old(self).active_groups,
            final(self).next_id == old(self).next_id,
            final(self).clock == old(self).clock,
            final(self).debounce == old(self).debounce,
            final(self).stalled_counts == old(self).stalled_counts,
            final(self).custom_ids == old(self).custom_ids,
            final(self).completed == old(self).completed,
            final(self).completed_data == old(self).completed_data,
            final(self).job_results == old(self).job_results,
            final(self).completed_retention == old(self).completed_retention,
            final(self).metrics == old(self).metrics,
            final(self).same_settings(old(self)),
    {
        match key {
            Some(k) => pair_remove(&mut self.unique_keys, q, k),
            None => {},
        }
    }
}

/// Position of the job with ID `id` in `v`.
pub fn find_job(v: &Vec<Job>, id: u64) -> (r: Option<usize>)
    requires
        crate::jobs_seq::ids_unique(v@),
    ensures
        match r {
            Some(i) => i < v@.len() && v@[i as int].id == id && i as int == index_of(v@, id),
            None => !crate::jobs_seq::has_id(v@, id),
        },
{
    let mut i: usize = 0;
    while i < v.len()
        invariant
            i <= v.len(),
            forall|k: int| 0 <= k < i ==> v@[k].id != id,
            crate::jobs_seq::ids_unique(v@),
        decreases v.len() - i,
    {
        if v[i].id == id {
            proof {
                let c = index_of(v@, id);
                assert(0 <= c < v@.len() && v@[c].id == id);
                if c != i {
                    assert(v@[c].id != v@[i as int].id);
                }
            }
            return Some(i);
        }
        i = i + 1;
    }
    None
}

} // verus!
