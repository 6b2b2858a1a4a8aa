//! Server management: statistics, resets, runtime settings, tokens and
//! workers.
use vstd::prelude::*;
use crate::job::{Job, WorkerInfo};
use crate::manager::{CleanupSettings, Metrics, QueueDefaults, QueueManager, Worker};
use crate::select::strings_contain;

verus! {

broadcast use {vstd::std_specs::hash::group_hash_axioms, vstd::utf8::encode_utf8_decode_utf8};

/// How long a worker counts as active after its last heartbeat, in ms.
pub const WORKER_ACTIVE_MS: u64 = 30000;

/// How many jobs of `s` may run at `now`.
pub open spec fn count_ready(s: Seq<Job>, now: u64) -> nat
    decreases s.len(),
{
    if s.len() == 0 {
        0
    } else {
        count_ready(s.drop_last(), now) + if s.last().spec_is_ready(now) { 1nat } else { 0nat }
    }
}

pub proof fn lemma_count_ready_len(s: Seq<Job>, now: u64)
    ensures
        count_ready(s, now) <= s.len(),
    decreases s.len(),
{
    if s.len() > 0 {
        lemma_count_ready_len(s.drop_last(), now);
    }
}

/// The tokens of `tokens` that are not empty, as a set of values.
pub open spec fn token_set(tokens: Seq<String>) -> Set<Seq<char>> {
    Set::new(|t: Seq<char>| t.len() > 0 && crate::job::strings_view(tokens).contains(t))
}

/// No value occurs twice in `s`.
pub open spec fn no_dups(s: Seq<Seq<char>>) -> bool {
    forall|i: int, k: int| 0 <= i < s.len() && 0 <= k < s.len() && i != k ==> s[i] != s[k]
}

pub proof fn lemma_no_dups_push(s: Seq<Seq<char>>, x: Seq<char>)
    requires
        no_dups(s),
    ensures
        !s.contains(x) ==> no_dups(s.push(x)),
        !s.contains(x) ==> s.push(x).to_set() == s.to_set().insert(x),
        s.contains(x) ==> s.to_set().insert(x) == s.to_set(),
{
    let t = s.push(x);
    if !s.contains(x) {
        assert forall|i: int, k: int| 0 <= i < t.len() && 0 <= k < t.len() && i != k implies t[i] != t[k] by {
            if i == s.len() {
                assert(t[k] == s[k]);
            } else if k == s.len() {
                assert(t[i] == s[i]);
            } else {
                assert(t[i] == s[i] && t[k] == s[k]);
            }
        }
        assert forall|y: Seq<char>| t.to_set().contains(y) <==> s.to_set().insert(x).contains(y) by {
            if t.contains(y) {
                let m = choose|m: int| 0 <= m < t.len() && t[m] == y;
                if m < s.len() {
                    assert(s[m] == y);
                }
            }
            if s.contains(y) {
                let m = choose|m: int| 0 <= m < s.len() && s[m] == y;
                assert(t[m] == y);
            }
            assert(t[s.len() as int] == x);
        }
        assert(t.to_set() =~= s.to_set().insert(x));
    } else {
        assert(s.to_set().insert(x) =~= s.to_set());
    }
}

pub proof fn lemma_to_set_push(s: Seq<Seq<char>>, x: Seq<char>)
    ensures
        s.push(x).to_set() == s.to_set().insert(x),
        forall|y: Seq<char>| s.push(x).contains(y) <==> (s.contains(y) || y == x),
{
    let t = s.push(x);
    assert forall|y: Seq<char>| t.contains(y) <==> (s.contains(y) || y == x) by {
        if t.contains(y) {
            let m = choose|m: int| 0 <= m < t.len() && t[m] == y;
            if m < s.len() {
                assert(s[m] == y);
            }
        }
        if s.contains(y) {
            let m = choose|m: int| 0 <= m < s.len() && s[m] == y;
            assert(t[m] == y);
        }
        assert(t[s.len() as int] == x);
    }
    assert(t.to_set() =~= s.to_set().insert(x));
}

/// A worker is active at `now` when its last heartbeat is less than
/// [`WORKER_ACTIVE_MS`] ago.
pub open spec fn worker_active(w: Worker, now: u64) -> bool {
    now >= w.last_heartbeat && now - w.last_heartbeat < WORKER_ACTIVE_MS
}

/// The report of a worker, as a value.
pub open spec fn worker_report(w: Worker) -> (Seq<char>, Seq<Seq<char>>, u32, u64, u64) {
    (w.id@, crate::job::strings_view(w.queues@), w.concurrency, w.last_heartbeat, w.jobs_processed)
}

/// A worker report as a value.
pub open spec fn info_report(w: WorkerInfo) -> (Seq<char>, Seq<Seq<char>>, u32, u64, u64) {
    (w.id@, crate::job::strings_view(w.queues@), w.concurrency, w.last_heartbeat, w.jobs_processed)
}

/// The position of the first worker with ID `id`, or -1.
pub open spec fn worker_index(ws: Seq<Worker>, id: Seq<char>) -> int
    decreases ws.len(),
{
    if ws.len() == 0 {
        -1
    } else if worker_index(ws.drop_last(), id) >= 0 {
        worker_index(ws.drop_last(), id)
    } else if ws.last().id@ == id {
        ws.len() - 1
    } else {
        -1
    }
}

pub proof fn lemma_worker_index(ws: Seq<Worker>, id: Seq<char>)
    ensures
        -1 <= worker_index(ws, id) < ws.len(),
        worker_index(ws, id) >= 0 ==> ws[worker_index(ws, id)].id@ == id,
        worker_index(ws, id) >= 0 ==> forall|k: int| 0 <= k < worker_index(ws, id) ==> ws[k].id@ != id,
        worker_index(ws, id) < 0 ==> forall|k: int| 0 <= k < ws.len() ==> ws[k].id@ != id,
    decreases ws.len(),
{
    if ws.len() > 0 {
        lemma_worker_index(ws.drop_last(), id);
        assert forall|k: int| 0 <= k < ws.len() - 1 implies ws.drop_last()[k] == ws[k] by {}
    }
}

/// Whether `a` and `b` hold the same bytes; the time taken does not
/// depend on where they differ.
pub fn constant_time_eq(a: &[u8], b: &[u8]) -> (r: bool)
    ensures
        r == (a@ == b@),
{
    if a.len() != b.len() {
        return false;
    }
    let mut result: u8 = 0;
    let mut i: usize = 0;
    while i < a.len()
        invariant
            i <= a@.len(),
            a@.len() == b@.len(),
            result == 0 <==> forall|k: int| 0 <= k < i ==> a@[k] == b@[k],
        decreases a.len() - i,
    {
        let x = a[i];
        let y = b[i];
        let r0 = result;
        result = result | (x ^ y);
        assert((r0 | (x ^ y)) == 0u8 <==> (r0 == 0u8 && x == y)) by (bit_vector);
        assert forall|k: int| 0 <= k < i + 1 && result == 0 implies a@[k] == b@[k] by {
            if k < i {
                assert(r0 == 0);
            }
        }
        i = i + 1;
    }
    proof {
        if result == 0 {
            assert(a@ =~= b@);
        }
    }
    result == 0
}

/// The position of the first worker with ID `id`.
fn find_worker(ws: &Vec<Worker>, id: &String) -> (r: Option<usize>)
    ensures
        match r {
            Some(i) => i as int == worker_index(ws@, id@),
            None => worker_index(ws@, id@) < 0,
        },
{
    proof {
        lemma_worker_index(ws@, id@);
    }
    let mut i: usize = 0;
    while i < ws.len()
        invariant
            i <= ws@.len(),
            forall|k: int| 0 <= k < i ==> ws@[k].id@ != id@,
            -1 <= worker_index(ws@, id@) < ws@.len(),
            worker_index(ws@, id@) >= 0 ==> ws@[worker_index(ws@, id@)].id@ == id@,
            worker_index(ws@, id@) >= 0 ==> forall|k: int| 0 <= k < worker_index(ws@, id@) ==> ws@[k].id@ != id@,
            worker_index(ws@, id@) < 0 ==> forall|k: int| 0 <= k < ws@.len() ==> ws@[k].id@ != id@,
        decreases ws.len() - i,
    {
        if ws[i].id == *id {
            return Some(i);
        }
        i = i + 1;
    }
    None
}

/// The queues of the jobs `p`, in order.
pub open spec fn queues_of(p: Seq<Job>) -> Seq<Seq<char>> {
    p.map_values(|j: Job| j.queue@)
}

/// The busy (queue, group) pairs `s` with the groups of the jobs `p` given
/// back, in order.
pub open spec fn release_groups(s: Set<(Seq<char>, Seq<char>)>, p: Seq<Job>) -> Set<(Seq<char>, Seq<char>)>
    decreases p.len(),
{
    if p.len() == 0 {
        s
    } else {
        crate::manager::without_item(release_groups(s, p.drop_last()), p.last().queue@, p.last().group_id)
    }
}

impl QueueManager {
    /// A manager that accepts the tokens `tokens` (as a set).
    pub fn with_auth_tokens(tokens: Vec<String>) -> (r: QueueManager)
        ensures
            r.wf(),
            no_dups(crate::job::strings_view(r.auth_tokens@)),
            crate::job::strings_view(r.auth_tokens@).to_set() == crate::job::strings_view(tokens@).to_set(),
    {
        let mut m = QueueManager::new();
        let mut i: usize = 0;
        while i < tokens.len()
            invariant
                i <= tokens.len(),
                m.wf(),
                no_dups(crate::job::strings_view(m.auth_tokens@)),
                crate::job::strings_view(m.auth_tokens@).to_set() == crate::job::strings_view(tokens@.take(i as int)).to_set(),
            decreases tokens.len() - i,
        {
            let ghost before = crate::job::strings_view(m.auth_tokens@);
            let ghost bv = m.auth_tokens@;
            let t = &tokens[i];
            proof {
                lemma_no_dups_push(before, t@);
            }
            if !strings_contain(&m.auth_tokens, t) {
                m.auth_tokens.push(t.clone());
                assert(crate::job::strings_view(m.auth_tokens@) =~= before.push(t@));
            }
            proof {
                assert(crate::job::strings_view(tokens@.take(i + 1)) =~= crate::job::strings_view(tokens@.take(i as int)).push(t@));
                lemma_to_set_push(crate::job::strings_view(tokens@.take(i as int)), t@);
            }
            i = i + 1;
        }
        assert(tokens@.take(tokens.len() as int) =~= tokens@);
        m
    }

    /// Whether `token` is accepted: any token is when none is set, else it
    /// must equal one of the set tokens (compared in constant time).
    pub fn verify_token(&self, token: &str) -> (r: bool)
        ensures
            r == (self.auth_tokens@.len() == 0 || crate::job::strings_view(self.auth_tokens@).contains(token@)),
    {
        if self.auth_tokens.len() == 0 {
            return true;
        }
        let mut found = false;
        let mut i: usize = 0;
        while i < self.auth_tokens.len()
            invariant
                i <= self.auth_tokens@.len(),
                found == exists|k: int| 0 <= k < i && self.auth_tokens@[k]@ == token@,
            decreases self.auth_tokens.len() - i,
        {
            let valid = self.auth_tokens[i].as_str();
            let same = constant_time_eq(token.as_bytes(), valid.as_bytes());
            proof {
                if same {
                    assert(vstd::utf8::decode_utf8(vstd::utf8::encode_utf8(token@)) == token@);
                    assert(vstd::utf8::decode_utf8(vstd::utf8::encode_utf8(valid@)) == valid@);
                }
            }
            if same {
                found = true;
            }
            i = i + 1;
        }
        proof {
            let sv = crate::job::strings_view(self.auth_tokens@);
            if found {
                let k = choose|k: int| 0 <= k < self.auth_tokens@.len() && self.auth_tokens@[k]@ == token@;
                assert(sv[k] == token@);
            }
            if sv.contains(token@) {
                let k = choose|k: int| 0 <= k < sv.len() && sv[k] == token@;
                assert(self.auth_tokens@[k]@ == token@);
            }
        }
        found
    }

    /// The number of tokens set.
    pub fn auth_token_count(&self) -> (r: usize)
        ensures
            r == self.auth_tokens@.len(),
    {
        self.auth_tokens.len()
    }

    /// Replaces the tokens with the non-empty ones of `tokens` (as a set).
    pub fn set_auth_tokens(&mut self, tokens: Vec<String>)
        ensures
            no_dups(crate::job::strings_view(final(self).auth_tokens@)),
            crate::job::strings_view(final(self).auth_tokens@).to_set() == token_set(tokens@),
            final(self).waiting == old(self).waiting,
            final(self).waiting_deps == old(self).waiting_deps,
            final(self).processing == old(self).processing,
            final(self).dlq == old(self).dlq,
            final(self).debounce == old(self).debounce,
            final(self).next_id == old(self).next_id,
            final(self).clock == old(self).clock,
            final(self).stalled_counts == old(self).stalled_counts,
    {
        let mut out: Vec<String> = Vec::new();
        let mut i: usize = 0;
        assert(crate::job::strings_view(out@).to_set() =~= token_set(tokens@.take(0)));
        while i < tokens.len()
            invariant
                i <= tokens.len(),
                no_dups(crate::job::strings_view(out@)),
                crate::job::strings_view(out@).to_set() == token_set(tokens@.take(i as int)),
            decreases tokens.len() - i,
        {
            let ghost before = crate::job::strings_view(out@);
            let t = &tokens[i];
            proof {
                lemma_no_dups_push(before, t@);
            }
            if t.as_str().unicode_len() > 0 && !strings_contain(&out, t) {
                out.push(t.clone());
                assert(crate::job::strings_view(out@) =~= before.push(t@));
            }
            proof {
                let tk = tokens@.take(i as int);
                let tk1 = tokens@.take(i + 1);
                assert(crate::job::strings_view(tk1) =~= crate::job::strings_view(tk).push(t@));
                lemma_to_set_push(crate::job::strings_view(tk), t@);
                if t@.len() > 0 {
                    assert forall|y: Seq<char>| token_set(tk1).contains(y) <==> token_set(tk).insert(t@).contains(y) by {
                        assert(crate::job::strings_view(tk1).contains(y) <==> (crate::job::strings_view(tk).contains(y) || y == t@));
                    }
                    assert(token_set(tk1) =~= token_set(tk).insert(t@));
                } else {
                    assert forall|y: Seq<char>| token_set(tk1).contains(y) <==> token_set(tk).contains(y) by {
                        assert(crate::job::strings_view(tk1).contains(y) <==> (crate::job::strings_view(tk).contains(y) || y == t@));
                    }
                    assert(token_set(tk1) =~= token_set(tk));
                }
            }
            i = i + 1;
        }
        assert(tokens@.take(tokens.len() as int) =~= tokens@);
        self.auth_tokens = out;
    }

    /// Sets the job defaults of all queues.
    pub fn set_queue_defaults(&mut self, timeout: Option<u64>, max_attempts: Option<u32>, backoff: Option<u64>, ttl: Option<u64>)
        ensures
            final(self).queue_defaults == (QueueDefaults { timeout, max_attempts, backoff, ttl }),
            final(self).waiting == old(self).waiting,
            final(self).waiting_deps == old(self).waiting_deps,
            final(self).processing == old(self).processing,
            final(self).dlq == old(self).dlq,
            final(self).debounce == old(self).debounce,
            final(self).next_id == old(self).next_id,
            final(self).clock == old(self).clock,
            final(self).stalled_counts == old(self).stalled_counts,
            final(self).cleanup_settings == old(self).cleanup_settings,
    {
        self.queue_defaults = QueueDefaults { timeout, max_attempts, backoff, ttl };
    }

    /// The job defaults of all queues.
    pub fn get_queue_defaults(&self) -> (r: QueueDefaults)
        ensures
            r == self.queue_defaults,
    {
        self.queue_defaults
    }

    /// Sets the cleanup limits that are given; the others stay.
    pub fn set_cleanup_settings(
        &mut self,
        max_completed_jobs: Option<usize>,
        max_job_results: Option<usize>,
        cleanup_interval_secs: Option<u64>,
        metrics_history_size: Option<usize>,
    )
        ensures
            final(self).cleanup_settings == (CleanupSettings {
                max_completed_jobs: match max_completed_jobs {
                    Some(v) => v,
                    None => old(self).cleanup_settings.max_completed_jobs,
                },
                max_job_results: match max_job_results {
                    Some(v) => v,
                    None => old(self).cleanup_settings.max_job_results,
                },
                cleanup_interval_secs: match cleanup_interval_secs {
                    Some(v) => v,
                    None => old(self).cleanup_settings.cleanup_interval_secs,
                },
                metrics_history_size: match metrics_history_size {
                    Some(v) => v,
                    None => old(self).cleanup_settings.metrics_history_size,
                },
            }),
            final(self).waiting == old(self).waiting,
            final(self).waiting_deps == old(self).waiting_deps,
            final(self).processing == old(self).processing,
            final(self).dlq == old(self).dlq,
            final(self).debounce == old(self).debounce,
            final(self).next_id == old(self).next_id,
            final(self).clock == old(self).clock,
            final(self).stalled_counts == old(self).stalled_counts,
            final(self).queue_defaults == old(self).queue_defaults,
    {
        match max_completed_jobs {
            Some(v) => {
                self.cleanup_settings.max_completed_jobs = v;
            },
            None => {},
        }
        match max_job_results {
            Some(v) => {
                self.cleanup_settings.max_job_results = v;
            },
            None => {},
        }
        match cleanup_interval_secs {
            Some(v) => {
                self.cleanup_settings.cleanup_interval_secs = v;
            },
            None => {},
        }
        match metrics_history_size {
            Some(v) => {
                self.cleanup_settings.metrics_history_size = v;
            },
            None => {},
        }
    }

    /// The cleanup limits.
    pub fn get_cleanup_settings(&self) -> (r: CleanupSettings)
        ensures
            r == self.cleanup_settings,
    {
        self.cleanup_settings
    }

    /// Counts of the jobs: (ready, processing, delayed, dead, completed),
    /// where ready and delayed split the waiting jobs by whether they may
    /// run at `now`.
    pub fn stats(&self, now: u64) -> (r: (usize, usize, usize, usize, usize))
        ensures
            r.0 == count_ready(self.waiting@, now),
            r.1 == self.processing@.len(),
            r.2 == self.waiting@.len() - count_ready(self.waiting@, now),
            r.3 == self.dlq@.len(),
            r.4 == self.completed@.len(),
    {
        let mut ready: usize = 0;
        let mut delayed: usize = 0;
        let mut i: usize = 0;
        while i < self.waiting.len()
            invariant
                i <= self.waiting@.len(),
                ready == count_ready(self.waiting@.take(i as int), now),
                ready + delayed == i,
            decreases self.waiting.len() - i,
        {
            proof {
                assert(self.waiting@.take(i + 1).drop_last() =~= self.waiting@.take(i as int));
                lemma_count_ready_len(self.waiting@.take(i as int), now);
            }
            if self.waiting[i].is_ready(now) {
                ready = ready + 1;
            } else {
                delayed = delayed + 1;
            }
            i = i + 1;
        }
        assert(self.waiting@.take(i as int) =~= self.waiting@);
        (ready, self.processing.len(), delayed, self.dlq.len(), self.completed.len())
    }

    /// Drops every waiting, delayed and processing job, giving back the
    /// concurrency slots and groups of the processing ones; returns how
    /// many jobs were dropped. Jobs waiting for dependencies and dead
    /// letter jobs stay.
    pub fn clear_all_queues(&mut self) -> (r: u64)
        requires
            old(self).wf(),
            old(self).waiting@.len() + old(self).processing@.len() <= u64::MAX,
        ensures
            final(self).wf(),
            r == old(self).waiting@.len() + old(self).processing@.len(),
            final(self).waiting@.len() == 0,
            final(self).processing@.len() == 0,
            final(self).concurrency@ == crate::maintenance::release_slots(old(self).concurrency@, queues_of(old(self).processing@)),
            crate::tables::pairs_view(final(self).active_groups@) == release_groups(
                crate::tables::pairs_view(old(self).active_groups@), old(self).processing@),
            final(self).waiting_deps == old(self).waiting_deps,
            final(self).dlq == old(self).dlq,
            final(self).unique_keys == old(self).unique_keys,
            final(self).debounce == old(self).debounce,
            final(self).custom_ids == old(self).custom_ids,
            final(self).stalled_counts == old(self).stalled_counts,
            final(self).completed == old(self).completed,
            final(self).completed_data == old(self).completed_data,
            final(self).job_results == old(self).job_results,
            final(self).completed_retention == old(self).completed_retention,
            final(self).metrics == old(self).metrics,
            final(self).next_id == old(self).next_id,
            final(self).clock == old(self).clock,
            final(self).same_settings(old(self)),
    {
        let n = self.waiting.len() as u64;
        self.waiting.clear();
        let mut taken: Vec<Job> = Vec::new();
        std::mem::swap(&mut taken, &mut self.processing);
        let ghost pre = *old(self);
        proof {
            crate::jobs_seq::lemma_empty_facts(self.next_id);
            assert(taken@.take(0) =~= Seq::<Job>::empty());
            assert(queues_of(Seq::<Job>::empty()) =~= Seq::<Seq<char>>::empty());
        }
        let mut i: usize = 0;
        while i < taken.len()
            invariant
                i <= taken@.len(),
                taken@ == pre.processing@,
                self.wf(),
                self.waiting@.len() == 0,
                self.processing@.len() == 0,
                self.concurrency@ == crate::maintenance::release_slots(pre.concurrency@, queues_of(taken@.take(i as int))),
                crate::tables::pairs_view(self.active_groups@) == release_groups(
                    crate::tables::pairs_view(pre.active_groups@), taken@.take(i as int)),
                self.waiting_deps == pre.waiting_deps,
                self.dlq == pre.dlq,
                self.unique_keys == pre.unique_keys,
                self.debounce == pre.debounce,
                self.custom_ids == pre.custom_ids,
                self.stalled_counts == pre.stalled_counts,
                self.completed == pre.completed,
                self.completed_data == pre.completed_data,
                self.job_results == pre.job_results,
                self.completed_retention == pre.completed_retention,
                self.metrics == pre.metrics,
                self.next_id == pre.next_id,
                self.clock == pre.clock,
                self.same_settings(&pre),
            decreases taken@.len() - i,
        {
            proof {
                assert(taken@.take(i + 1).drop_last() =~= taken@.take(i as int));
                let qs = queues_of(taken@.take(i + 1));
                assert(qs.drop_last() =~= queues_of(taken@.take(i as int)));
                assert(qs.last() == taken@[i as int].queue@);
            }
            self.release_concurrency(&taken[i].queue);
            self.release_group(&taken[i].queue, &taken[i].group_id);
            i = i + 1;
        }
        proof {
            assert(taken@.take(i as int) =~= taken@);
        }
        n + (i as u64)
    }

    /// Drops every dead letter job; returns how many there were.
    pub fn clear_all_dlq(&mut self) -> (r: u64)
        requires
            old(self).wf(),
        ensures
            final(self).wf(),
            r == old(self).dlq@.len(),
            final(self).dlq@.len() == 0,
            final(self).waiting == old(self).waiting,
            final(self).waiting_deps == old(self).waiting_deps,
            final(self).processing == old(self).processing,
            final(self).completed == old(self).completed,
            final(self).next_id == old(self).next_id,
            final(self).clock == old(self).clock,
    {
        let n = self.dlq.len() as u64;
        self.dlq.clear();
        proof {
            crate::jobs_seq::lemma_empty_facts(self.next_id);
        }
        n
    }

    /// Forgets the completed jobs, their results and their retention
    /// records; returns how many completed jobs there were.
    pub fn clear_completed_jobs(&mut self) -> (r: u64)
        requires
            old(self).wf(),
        ensures
            final(self).wf(),
            r == old(self).completed@.len(),
            final(self).completed@.len() == 0,
            final(self).job_results@.len() == 0,
            final(self).completed_retention@.len() == 0,
            final(self).completed_data == old(self).completed_data,
            final(self).waiting == old(self).waiting,
            final(self).waiting_deps == old(self).waiting_deps,
            final(self).processing == old(self).processing,
            final(self).dlq == old(self).dlq,
            final(self).next_id == old(self).next_id,
            final(self).clock == old(self).clock,
    {
        let n = self.completed.len() as u64;
        self.completed.clear();
        self.job_results.clear();
        self.completed_retention.clear();
        n
    }

    /// Zeroes the push, completion, failure and timeout counters and empties
    /// the metrics history.
    pub fn reset_metrics(&mut self)
        requires
            old(self).wf(),
        ensures
            final(self).wf(),
            final(self).metrics_history@.len() == 0,
            final(self).metrics == (Metrics {
                total_pushed: 0,
                total_completed: 0,
                total_failed: 0,
                total_timed_out: 0,
                ..old(self).metrics
            }),
            final(self).waiting == old(self).waiting,
            final(self).processing == old(self).processing,
            final(self).dlq == old(self).dlq,
            final(self).completed == old(self).completed,
            final(self).next_id == old(self).next_id,
            final(self).clock == old(self).clock,
    {
        self.metrics.total_pushed = 0;
        self.metrics.total_completed = 0;
        self.metrics.total_failed = 0;
        self.metrics.total_timed_out = 0;
        self.metrics_history.clear();
    }

    /// Forgets every job and all per-queue and per-job state (queues, dead
    /// letters, processing, completed jobs and results, workers, cron jobs,
    /// stall counts, debounce windows, custom IDs, unique keys, groups,
    /// queue controls, metrics history) and zeroes the counters. Tokens,
    /// defaults, cleanup limits and the ID sequence stay.
    pub fn reset(&mut self)
        requires
            old(self).wf(),
        ensures
            final(self).wf(),
            final(self).waiting@.len() == 0 && final(self).waiting_deps@.len() == 0,
            final(self).processing@.len() == 0 && final(self).dlq@.len() == 0,
            final(self).completed@.len() == 0 && final(self).completed_data@.len() == 0,
            final(self).job_results@.len() == 0 && final(self).completed_retention@.len() == 0,
            final(self).workers@.len() == 0 && final(self).cron_jobs@.len() == 0,
            final(self).debounce@.len() == 0 && final(self).unique_keys@.len() == 0,
            final(self).active_groups@.len() == 0,
            final(self).custom_ids@ == Map::<Seq<char>, u64>::empty(),
            final(self).stalled_counts@ == Map::<u64, u32>::empty(),
            final(self).paused@ == Map::<Seq<char>, bool>::empty(),
            final(self).concurrency@ == Map::<Seq<char>, crate::manager::ConcurrencySlot>::empty(),
            final(self).rate_limits@ == Map::<Seq<char>, u32>::empty(),
            final(self).rate_buckets@ == Map::<Seq<char>, crate::rate::RateBucket>::empty(),
            final(self).metrics_history@.len() == 0,
            final(self).metrics == (Metrics {
                total_pushed: 0,
                total_completed: 0,
                total_failed: 0,
                total_timed_out: 0,
                ..old(self).metrics
            }),
            final(self).auth_tokens == old(self).auth_tokens,
            final(self).queue_defaults == old(self).queue_defaults,
            final(self).cleanup_settings == old(self).cleanup_settings,
            final(self).next_id == old(self).next_id,
            final(self).clock == old(self).clock,
    {
        let fresh = QueueManager::new();
        self.waiting = fresh.waiting;
        self.waiting_deps = fresh.waiting_deps;
        self.processing = fresh.processing;
        self.dlq = fresh.dlq;
        self.completed = Vec::new();
        self.completed_data = Vec::new();
        self.job_results = Vec::new();
        self.completed_retention = Vec::new();
        self.custom_ids = fresh.custom_ids;
        self.debounce = Vec::new();
        self.unique_keys = Vec::new();
        self.active_groups = Vec::new();
        self.paused = fresh.paused;
        self.concurrency = fresh.concurrency;
        self.rate_limits = vstd::hash_map::StringHashMap::new();
        self.rate_buckets = vstd::hash_map::StringHashMap::new();
        self.metrics_history = Vec::new();
        self.stalled_counts = vstd::hash_map::HashMapWithView::new();
        self.workers = Vec::new();
        self.cron_jobs = Vec::new();
        self.metrics.total_pushed = 0;
        self.metrics.total_completed = 0;
        self.metrics.total_failed = 0;
        self.metrics.total_timed_out = 0;
        proof {
            crate::jobs_seq::lemma_empty_facts(self.next_id);
        }
    }

    /// The number of open TCP connections.
    pub fn connection_count(&self) -> (r: usize)
        ensures
            r == self.tcp_connection_count,
    {
        self.tcp_connection_count
    }

    /// Counts an opened TCP connection.
    pub fn increment_connections(&mut self)
        ensures
            final(self).tcp_connection_count == old(self).tcp_connection_count.wrapping_add(1),
            final(self).waiting == old(self).waiting,
            final(self).processing == old(self).processing,
    {
        self.tcp_connection_count = self.tcp_connection_count.wrapping_add(1);
    }

    /// Counts a closed TCP connection.
    pub fn decrement_connections(&mut self)
        ensures
            final(self).tcp_connection_count == old(self).tcp_connection_count.wrapping_sub(1),
            final(self).waiting == old(self).waiting,
            final(self).processing == old(self).processing,
    {
        self.tcp_connection_count = self.tcp_connection_count.wrapping_sub(1);
    }

    /// Reports of the workers active at `now`, in registration order.
    pub fn list_workers(&self, now: u64) -> (r: Vec<WorkerInfo>)
        ensures
            r@.map_values(|w: WorkerInfo| info_report(w)) == self.workers@.filter(|w: Worker| worker_active(w, now)).map_values(|w: Worker| worker_report(w)),
    {
        let ghost act = |w: Worker| worker_active(w, now);
        let mut out: Vec<WorkerInfo> = Vec::new();
        let mut i: usize = 0;
        proof {
            reveal(Seq::filter);
            assert(out@.map_values(|w: WorkerInfo| info_report(w)) =~= self.workers@.take(0).filter(act).map_values(|w: Worker| worker_report(w)));
        }
        while i < self.workers.len()
            invariant
                i <= self.workers@.len(),
                act == (|w: Worker| worker_active(w, now)),
                out@.map_values(|w: WorkerInfo| info_report(w)) == self.workers@.take(i as int).filter(act).map_values(|w: Worker| worker_report(w)),
            decreases self.workers.len() - i,
        {
            let ghost before = out@;
            let w = &self.workers[i];
            proof {
                reveal(Seq::filter);
                assert(self.workers@.take(i + 1).drop_last() =~= self.workers@.take(i as int));
            }
            if now >= w.last_heartbeat && now - w.last_heartbeat < WORKER_ACTIVE_MS {
                let info = WorkerInfo {
                    id: w.id.clone(),
                    queues: crate::jobs_seq::copy_strings(&w.queues),
                    concurrency: w.concurrency,
                    last_heartbeat: w.last_heartbeat,
                    jobs_processed: w.jobs_processed,
                };
                out.push(info);
                assert(out@.map_values(|w: WorkerInfo| info_report(w)) =~= before.map_values(|w: WorkerInfo| info_report(w)).push(worker_report(*w)));
            }
            i = i + 1;
        }
        assert(self.workers@.take(i as int) =~= self.workers@);
        out
    }

    /// Records a heartbeat of worker `id` at `now`: its queues, concurrency
    /// and processed count are replaced; an unknown worker is added.
    pub fn worker_heartbeat(&mut self, id: String, queues: Vec<String>, concurrency: u32, jobs_processed: u64, now: u64)
        ensures
            ({
                let k = worker_index(old(self).workers@, id@);
                let rep = (id@, crate::job::strings_view(queues@), concurrency, now, jobs_processed);
                &&& k >= 0 ==> final(self).workers@.len() == old(self).workers@.len()
                    && worker_report(final(self).workers@[k]) == rep
                    && forall|m: int| 0 <= m < old(self).workers@.len() && m != k ==> final(self).workers@[m] == old(self).workers@[m]
                &&& k < 0 ==> final(self).workers@.len() == old(self).workers@.len() + 1
                    && worker_report(final(self).workers@.last()) == rep
                    && final(self).workers@.take(old(self).workers@.len() as int) == old(self).workers@
            }),
            final(self).waiting == old(self).waiting,
            final(self).waiting_deps == old(self).waiting_deps,
            final(self).processing == old(self).processing,
            final(self).dlq == old(self).dlq,
            final(self).debounce == old(self).debounce,
            final(self).next_id == old(self).next_id,
            final(self).clock == old(self).clock,
            final(self).stalled_counts == old(self).stalled_counts,
    {
        proof {
            lemma_worker_index(self.workers@, id@);
        }
        let ghost pre = self.workers@;
        match find_worker(&self.workers, &id) {
            Some(i) => {
                let w = Worker { id, queues, concurrency, last_heartbeat: now, jobs_processed };
                self.workers.set(i, w);
                return;
            },
            None => {},
        }
        self.workers.push(Worker { id, queues, concurrency, last_heartbeat: now, jobs_processed });
        assert(self.workers@.take(pre.len() as int) =~= pre);
    }
}

} // verus!
