//! Handing ready jobs to workers.
use vstd::prelude::*;
use crate::job::Job;
use crate::manager::{ConcurrencySlot, QueueManager};
use crate::select::take_ready_jobs;
use crate::tables::{QueueItem, pair_insert};

verus! {

broadcast use vstd::std_specs::hash::group_hash_axioms;

/// The busy groups of queue `q`.
pub open spec fn group_set(s: Set<(Seq<char>, Seq<char>)>, q: Seq<char>) -> Set<Seq<char>> {
    Set::new(|g: Seq<char>| s.contains((q, g)))
}

/// The (queue, group) set with the groups `gs` of queue `q` added.
pub open spec fn with_groups(s: Set<(Seq<char>, Seq<char>)>, q: Seq<char>, gs: Seq<Seq<char>>) -> Set<(Seq<char>, Seq<char>)> {
    s + Set::new(|p: (Seq<char>, Seq<char>)| p.0 == q && gs.contains(p.1))
}

/// How many concurrency slots a pull of `count` jobs gets: all of them
/// without a limit, else as many as are free, up to `count`.
pub open spec fn slots_for(m: Map<Seq<char>, ConcurrencySlot>, q: Seq<char>, count: nat) -> nat {
    if m.contains_key(q) {
        let s = m[q];
        if s.active < s.limit {
            if count <= s.limit - s.active { count } else { (s.limit - s.active) as nat }
        } else {
            0
        }
    } else {
        count
    }
}

/// The concurrency table after `n` more jobs of queue `q` run.
pub open spec fn occupy(m: Map<Seq<char>, ConcurrencySlot>, q: Seq<char>, n: nat) -> Map<Seq<char>, ConcurrencySlot> {
    if m.contains_key(q) {
        m.insert(q, ConcurrencySlot { limit: m[q].limit, active: (m[q].active + n) as u32 })
    } else {
        m
    }
}

/// What a pull of up to `count` jobs of queue `q` at `now` selects from
/// `m`: the new waiting list and the jobs taken.
pub open spec fn pull_selection(m: QueueManager, q: Seq<char>, count: nat, now: u64) -> (Seq<Job>, Seq<Job>) {
    crate::select::select_jobs(
        m.waiting@,
        group_set(crate::tables::pairs_view(m.active_groups@), q),
        q,
        slots_for(m.concurrency@, q, count),
        now,
    )
}

/// `post` is `pre` after a pull of up to `count` jobs of the unpaused
/// queue `q` at `now`: the jobs selected (see [`pull_selection`]) moved to
/// `processing`, their groups busy and their concurrency slots taken.
pub open spec fn pulled(pre: QueueManager, post: QueueManager, q: Seq<char>, count: nat, now: u64) -> bool {
    let (w2, taken) = pull_selection(pre, q, count, now);
    &&& post.waiting@ == w2
    &&& post.processing@ == pre.processing@ + taken
    &&& post.concurrency@ == occupy(pre.concurrency@, q, taken.len())
    &&& crate::tables::pairs_view(post.active_groups@) == with_groups(
        crate::tables::pairs_view(pre.active_groups@), q, crate::select_laws::groups_of(taken))
    &&& post.clock == now
    &&& post.waiting_deps == pre.waiting_deps
    &&& post.dlq == pre.dlq
    &&& post.unique_keys == pre.unique_keys
    &&& post.next_id == pre.next_id
    &&& post.debounce == pre.debounce
    &&& post.custom_ids == pre.custom_ids
    &&& post.stalled_counts == pre.stalled_counts
    &&& post.completed == pre.completed
    &&& post.completed_data == pre.completed_data
    &&& post.job_results == pre.job_results
    &&& post.completed_retention == pre.completed_retention
    &&& post.metrics == pre.metrics
    &&& post.same_settings(&pre)
}

/// One round of a batch pull.
pub enum PullBatch {
    /// The queue is paused; nothing was taken.
    Paused,
    /// The queue's rate limiter granted no job; nothing was taken.
    RateLimited,
    /// The jobs taken (none means: wait for work).
    Jobs(Vec<Job>),
}

/// One round of a single pull.
pub enum PullStep {
    /// The queue is paused.
    Paused,
    /// The queue's rate limiter refused the pull.
    RateLimited,
    /// Nothing could be taken: wait for work or a concurrency slot.
    Wait,
    /// The job taken.
    Job(Job),
}

/// The groups of queue `q` in `v`.
fn queue_groups(v: &Vec<QueueItem>, q: &String) -> (r: Vec<String>)
    ensures
        crate::job::strings_view(r@).to_set() == group_set(crate::tables::pairs_view(v@), q@),
{
    let mut r: Vec<String> = Vec::new();
    let ghost mut wit: Seq<int> = Seq::empty();
    let mut i: usize = 0;
    while i < v.len()
        invariant
            i <= v.len(),
            wit.len() == r@.len(),
            forall|m: int| 0 <= m < r@.len() ==> 0 <= #[trigger] wit[m] < i && v@[wit[m]].queue@ == q@ && v@[wit[m]].item@ == r@[m]@,
            forall|k: int| 0 <= k < i && (#[trigger] v@[k]).queue@ == q@ ==> exists|m: int| 0 <= m < r@.len() && r@[m]@ == v@[k].item@,
        decreases v.len() - i,
    {
        if v[i].queue == *q {
            let ghost before = r@;
            r.push(v[i].item.clone());
            proof {
                wit = wit.push(i as int);
            }
            assert(r@[before.len() as int]@ == v@[i as int].item@);
            assert forall|k: int| 0 <= k < i + 1 && (#[trigger] v@[k]).queue@ == q@ implies exists|m: int| 0 <= m < r@.len() && r@[m]@ == v@[k].item@ by {
                if k < i {
                    let m = choose|m: int| 0 <= m < before.len() && before[m]@ == v@[k].item@;
                    assert(r@[m] == before[m]);
                } else {
                    assert(r@[before.len() as int]@ == v@[k].item@);
                }
            }
        }
        i = i + 1;
    }
    proof {
        let sv = crate::job::strings_view(r@);
        let a = sv.to_set();
        let b = group_set(crate::tables::pairs_view(v@), q@);
        assert forall|g: Seq<char>| a.contains(g) <==> b.contains(g) by {
            if a.contains(g) {
                let m = choose|m: int| 0 <= m < sv.len() && sv[m] == g;
                assert(sv[m] == r@[m]@);
                let k = wit[m];
                assert(v@[k].queue@ == q@ && v@[k].item@ == g);
                assert(crate::tables::pairs_view(v@).contains((q@, g)));
            }
            if b.contains(g) {
                assert(crate::tables::pairs_view(v@).contains((q@, g)));
                let k = choose|k: int| 0 <= k < v@.len() && v@[k].queue@ == q@ && v@[k].item@ == g;
                assert(v@[k].queue@ == q@);
                let m = choose|m: int| 0 <= m < r@.len() && r@[m]@ == v@[k].item@;
                assert(sv[m] == g);
            }
        }
        assert(a =~= b);
    }
    r
}

proof fn lemma_with_groups_push(s: Set<(Seq<char>, Seq<char>)>, q: Seq<char>, gs: Seq<Seq<char>>, g: Seq<char>)
    ensures
        with_groups(s, q, gs.push(g)) == with_groups(s, q, gs).insert((q, g)),
{
    assert forall|p: (Seq<char>, Seq<char>)| with_groups(s, q, gs.push(g)).contains(p) <==> with_groups(s, q, gs).insert((q, g)).contains(p) by {
        if gs.push(g).contains(p.1) && p.1 != g {
            let i = choose|i: int| 0 <= i < gs.push(g).len() && gs.push(g)[i] == p.1;
            assert(i < gs.len());
            assert(gs[i] == p.1);
        }
        if gs.contains(p.1) {
            let i = choose|i: int| 0 <= i < gs.len() && gs[i] == p.1;
            assert(gs.push(g)[i] == p.1);
        }
        assert(gs.push(g)[gs.len() as int] == g);
    }
    assert(with_groups(s, q, gs.push(g)) =~= with_groups(s, q, gs).insert((q, g)));
}

/// Marks the groups of `taken` busy in queue `q`.
fn mark_groups(v: &mut Vec<QueueItem>, q: &String, taken: &Vec<Job>)
    ensures
        crate::tables::pairs_view(final(v)@) == with_groups(
            crate::tables::pairs_view(old(v)@), q@, crate::select_laws::groups_of(taken@)),
{
    let ghost pre = crate::tables::pairs_view(v@);
    let mut k: usize = 0;
    assert(crate::select_laws::groups_of(taken@.take(0)) =~= Seq::<Seq<char>>::empty());
    assert(with_groups(pre, q@, Seq::<Seq<char>>::empty()) =~= pre);
    while k < taken.len()
        invariant
            k <= taken.len(),
            crate::tables::pairs_view(v@) == with_groups(pre, q@, crate::select_laws::groups_of(taken@.take(k as int))),
        decreases taken.len() - k,
    {
        proof {
            crate::select_laws::lemma_groups_of_push(taken@.take(k as int), taken@[k as int]);
            assert(taken@.take(k as int + 1) =~= taken@.take(k as int).push(taken@[k as int]));
        }
        match &taken[k].group_id {
            Some(g) => {
                pair_insert(v, q, g);
                proof {
                    lemma_with_groups_push(pre, q@, crate::select_laws::groups_of(taken@.take(k as int)), g@);
                }
            },
            None => {},
        }
        k = k + 1;
    }
    assert(taken@.take(taken.len() as int) =~= taken@);
}

/// Taking jobs off the waiting list into processing keeps the ID
/// bookkeeping.
proof fn lemma_pull_keeps(w: Seq<Job>, d: Seq<Job>, p: Seq<Job>, x: Seq<Job>, n: u64, c0: u64, now: u64, sel: crate::select::Selection)
    requires
        crate::manager::jobs_wf(w, d, p, x, n, c0),
        c0 <= now,
        crate::select_laws::three_way_unique(sel.pool, sel.skipped, sel.taken),
        crate::jobs_seq::ident_from(sel.pool, w),
        crate::jobs_seq::ident_from(sel.skipped, w),
        crate::jobs_seq::ident_from(sel.taken, w),
    ensures
        crate::manager::jobs_wf(sel.pool + sel.skipped, d, p + sel.taken, x, n, now),
{
    let a = sel.pool;
    let b = sel.skipped;
    let t = sel.taken;
    crate::manager::lemma_created_by(w, c0, now);
    crate::manager::lemma_created_by(d, c0, now);
    crate::manager::lemma_created_by(p, c0, now);
    crate::manager::lemma_created_by(x, c0, now);
    crate::jobs_seq::lemma_ident_from_transfer(a, w, n, now);
    crate::jobs_seq::lemma_ident_from_transfer(b, w, n, now);
    crate::jobs_seq::lemma_ident_from_transfer(t, w, n, now);
    crate::jobs_seq::lemma_disjoint_sym(w, p);
    crate::jobs_seq::lemma_disjoint_sym(t, p);
    crate::jobs_seq::lemma_disjoint_sym(a, t);
    crate::jobs_seq::lemma_disjoint_sym(b, t);
    crate::jobs_seq::lemma_disjoint_sym(w, d);
    crate::jobs_seq::lemma_disjoint_sym(w, x);
    crate::jobs_seq::lemma_concat_keeps(a, b);
    crate::jobs_seq::lemma_concat_keeps(p, t);
    assert(crate::jobs_seq::ids_disjoint(p, t));
    assert(crate::jobs_seq::ids_disjoint(a, p) && crate::jobs_seq::ids_disjoint(b, p));
    assert(crate::jobs_seq::ids_disjoint(a + b, p));
    assert(crate::jobs_seq::ids_disjoint(a + b, t));
    assert(crate::jobs_seq::ids_disjoint(a + b, p + t));
    assert(crate::jobs_seq::ids_disjoint(a + b, d));
    assert(crate::jobs_seq::ids_disjoint(a + b, x));
    assert(crate::jobs_seq::ids_disjoint(t, d));
    crate::jobs_seq::lemma_disjoint_sym(t, d);
    assert(crate::jobs_seq::ids_disjoint(d, p + t));
    assert(crate::jobs_seq::ids_disjoint(t, x));
    assert(crate::jobs_seq::ids_disjoint(p + t, x));
}

impl QueueManager {
    /// Takes up to `count` ready jobs of the unpaused queue `q` at `now`, as
    /// [`pulled`] states.
    #[verifier::rlimit(40)]
    fn take_batch(&mut self, q: &String, count: usize, now: u64) -> (r: Vec<Job>)
        requires
            old(self).wf(),
            old(self).clock <= now <= crate::job::MAX_TIME,
            !old(self).queue_paused(q@),
        ensures
            final(self).wf(),
            pulled(*old(self), *final(self), q@, count as nat, now),
            pull_selection(*old(self), q@, count as nat, now).1.len() <= slots_for(old(self).concurrency@, q@, count as nat),
            crate::job::jobs_view(r@) == crate::job::jobs_view(pull_selection(*old(self), q@, count as nat, now).1),
    {
        let ghost pre = *self;
        let slot = match self.concurrency.get(q.as_str()) {
            Some(s) => Some(*s),
            None => None,
        };
        let slots: usize = match slot {
            Some(s) => {
                if s.active < s.limit {
                    let free = s.limit - s.active;
                    if (count as u64) <= (free as u64) { count } else { free as usize }
                } else {
                    0
                }
            },
            None => count,
        };
        let groups = queue_groups(&self.active_groups, q);
        let taken = take_ready_jobs(&mut self.waiting, &groups, q, slots, now);
        let ghost act = group_set(crate::tables::pairs_view(pre.active_groups@), q@);
        proof {
            crate::jobs_seq::lemma_empty_facts(0);
            assert(crate::select_laws::groups_of(Seq::<Job>::empty()) =~= Seq::<Seq<char>>::empty());
            assert(crate::select_laws::taken_ok(Seq::<Job>::empty(), Seq::<Seq<char>>::empty(), q@, now, act));
            crate::select_laws::lemma_select_loop(pre.waiting@, Seq::empty(), Seq::empty(), Seq::empty(), act, q@, slots as nat, now, pre.waiting@);
            assert(crate::jobs_seq::ident_from(pre.waiting@, pre.waiting@)) by {
                assert forall|k: int| 0 <= k < pre.waiting@.len() implies exists|i: int| 0 <= i < pre.waiting@.len()
                    && pre.waiting@[i].id == (#[trigger] pre.waiting@[k]).id && pre.waiting@[i].backoff == pre.waiting@[k].backoff
                    && pre.waiting@[i].created_at == pre.waiting@[k].created_at by {}
            }
        }
        mark_groups(&mut self.active_groups, q, &taken);
        // The jobs taken keep their slots.
        match slot {
            Some(s) => {
                let active = s.active + (taken.len() as u32);
                self.concurrency.insert(q.clone(), ConcurrencySlot { limit: s.limit, active });
            },
            None => {},
        }
        // Hand copies out; the jobs themselves move to processing.
        let out = crate::jobs_seq::copy_jobs(&taken);
        let mut taken = taken;
        self.processing.append(&mut taken);
        proof {
            let sel = crate::select::select_loop(pre.waiting@, Seq::empty(), Seq::empty(), Seq::empty(), act, q@, slots as nat, now);
            lemma_pull_keeps(pre.waiting@, pre.waiting_deps@, pre.processing@, pre.dlq@, pre.next_id, pre.clock, now, sel);
        }
        self.clock = now;
        out
    }

    /// One round of pulling up to `count` jobs from queue `q` at `now`.
    ///
    /// A paused queue gives `Paused` and nothing changes. Otherwise the
    /// queue's rate limiter grants up to `count` jobs (see
    /// [`crate::rate::rate_grant`]) and is charged for them; when it grants
    /// none of a nonempty request the answer is `RateLimited` and only its
    /// bucket changed. Else the pull of the granted number gets its
    /// concurrency slots (see [`slots_for`]), takes ready jobs best-ranked
    /// first (see [`crate::select::select_jobs`], with the queue's busy
    /// groups), marks their groups busy, keeps the slots of the jobs taken
    /// and moves those jobs to `processing`. An empty list means there was
    /// nothing to take.
    pub fn pull_batch(&mut self, q: &String, count: usize, now: u64) -> (r: PullBatch)
        requires
            old(self).wf(),
            old(self).clock <= now <= crate::job::MAX_TIME,
        ensures
            final(self).wf(),
            old(self).queue_paused(q@) ==> r is Paused && *final(self) == *old(self),
            !old(self).queue_paused(q@) ==> final(self).rate_buckets@ == crate::rate::rate_charged(*old(self), q@, count as nat, now),
            !old(self).queue_paused(q@) && count > 0 && crate::rate::rate_grant(*old(self), q@, count as nat, now) == 0 ==> {
                &&& r is RateLimited
                &&& *final(self) == (QueueManager { rate_buckets: final(self).rate_buckets, ..*old(self) })
            },
            !old(self).queue_paused(q@) && !(count > 0 && crate::rate::rate_grant(*old(self), q@, count as nat, now) == 0) ==> {
                let charged = QueueManager { rate_buckets: final(self).rate_buckets, ..*old(self) };
                let n = crate::rate::rate_grant(*old(self), q@, count as nat, now);
                &&& n <= count
                &&& pulled(charged, *final(self), q@, n, now)
                &&& pull_selection(*old(self), q@, n, now).1.len() <= slots_for(old(self).concurrency@, q@, n)
                &&& r matches PullBatch::Jobs(v) && crate::job::jobs_view(v@) == crate::job::jobs_view(pull_selection(*old(self), q@, n, now).1)
            },
    {
        match self.paused.get(q.as_str()) {
            Some(p) => {
                if *p {
                    return PullBatch::Paused;
                }
            },
            None => {},
        }
        let granted = self.rate_take(q, count, now);
        if count > 0 && granted == 0 {
            return PullBatch::RateLimited;
        }
        let ghost charged = *self;
        assert(pull_selection(charged, q@, granted as nat, now) == pull_selection(*old(self), q@, granted as nat, now));
        PullBatch::Jobs(self.take_batch(q, granted, now))
    }

    /// Takes up to `count` ready jobs of queue `q` without waiting: nothing
    /// from a paused queue; otherwise the jobs a pull of `count` takes (see
    /// [`pulled`]). Unlike [`QueueManager::pull_batch`] it does not ask the
    /// rate limiter.
    pub fn pull_batch_nowait(&mut self, q: &String, count: usize, now: u64) -> (r: Vec<Job>)
        requires
            old(self).wf(),
            old(self).clock <= now <= crate::job::MAX_TIME,
        ensures
            final(self).wf(),
            old(self).queue_paused(q@) ==> r@.len() == 0 && *final(self) == *old(self),
            !old(self).queue_paused(q@) ==> {
                &&& pulled(*old(self), *final(self), q@, count as nat, now)
                &&& crate::job::jobs_view(r@) == crate::job::jobs_view(pull_selection(*old(self), q@, count as nat, now).1)
            },
    {
        match self.paused.get(q.as_str()) {
            Some(p) => {
                if *p {
                    return Vec::new();
                }
            },
            None => {},
        }
        self.take_batch(q, count, now)
    }

    /// One round of pulling a single job of queue `q` at `now`: `Paused` for
    /// a paused queue; `RateLimited` when the queue's rate limiter has no
    /// whole token (see [`crate::rate::rate_grant`]), with only its bucket
    /// refilled; else the bucket is charged one token and the job is taken
    /// as a pull of one job takes it, `Wait` when none could be.
    pub fn pull_step(&mut self, q: &String, now: u64) -> (r: PullStep)
        requires
            old(self).wf(),
            old(self).clock <= now <= crate::job::MAX_TIME,
        ensures
            final(self).wf(),
            old(self).queue_paused(q@) ==> r is Paused && *final(self) == *old(self),
            !old(self).queue_paused(q@) ==> final(self).rate_buckets@ == crate::rate::rate_charged(*old(self), q@, 1, now),
            !old(self).queue_paused(q@) && crate::rate::rate_grant(*old(self), q@, 1, now) == 0 ==> {
                &&& r is RateLimited
                &&& *final(self) == (QueueManager { rate_buckets: final(self).rate_buckets, ..*old(self) })
            },
            !old(self).queue_paused(q@) && crate::rate::rate_grant(*old(self), q@, 1, now) == 1 ==> {
                let charged = QueueManager { rate_buckets: final(self).rate_buckets, ..*old(self) };
                let taken = pull_selection(*old(self), q@, 1, now).1;
                &&& pulled(charged, *final(self), q@, 1, now)
                &&& taken.len() <= 1
                &&& (r is Wait <==> taken.len() == 0)
                &&& (r matches PullStep::Job(j) ==> taken.len() == 1 && j@ == taken[0]@)
                &&& !(r is Paused) && !(r is RateLimited)
            },
    {
        match self.pull_batch(q, 1, now) {
            PullBatch::Paused => PullStep::Paused,
            PullBatch::RateLimited => PullStep::RateLimited,
            PullBatch::Jobs(v) => {
                let ghost pre_pull = v@;
                proof {
                    assert(crate::job::jobs_view(v@).len() == v@.len());
                }
                let mut v = v;
                if v.len() == 0 {
                    PullStep::Wait
                } else {
                    let j = v.swap_remove(0);
                    assert(crate::job::jobs_view(pre_pull)[0] == j@);
                    PullStep::Job(j)
                }
            },
        }
    }
}

/// What a cluster-mode pull does next.
pub enum DistributedCheck {
    /// The queue is paused: wait.
    Paused,
    /// The queue's rate limiter refused the pull: wait.
    RateLimited,
    /// The queue has no free concurrency slot: wait.
    Busy,
    /// A slot is taken: try the NATS streams.
    TryNats,
    /// A slot is taken but there is no NATS storage: pull locally.
    FallbackLocal,
}

/// No list of `m` holds a job with ID `id`.
pub open spec fn id_free(m: QueueManager, id: u64) -> bool {
    &&& !crate::jobs_seq::has_id(m.waiting@, id)
    &&& !crate::jobs_seq::has_id(m.waiting_deps@, id)
    &&& !crate::jobs_seq::has_id(m.processing@, id)
    &&& !crate::jobs_seq::has_id(m.dlq@, id)
}

impl QueueManager {
    /// The local checks of a cluster-mode pull from queue `q` at `now`: a
    /// paused queue waits; else the queue's rate limiter is asked for one job
    /// (see [`crate::rate::rate_grant`]) and the pull waits when it grants
    /// none; a
    /// queue without a free concurrency slot waits; else a slot is taken and
    /// the pull goes to NATS (or, without NATS storage, to the local queue).
    pub fn distributed_pull_check(&mut self, q: &String, has_storage: bool, now: u64) -> (r: DistributedCheck)
        requires
            old(self).wf(),
        ensures
            final(self).wf(),
            old(self).queue_paused(q@) ==> r is Paused && *final(self) == *old(self),
            !old(self).queue_paused(q@) ==> {
                &&& final(self).rate_buckets@ == crate::rate::rate_charged(*old(self), q@, 1, now)
                &&& crate::queue_control::control_frame(*old(self), *final(self))
                &&& final(self).paused == old(self).paused
                &&& final(self).rate_limits == old(self).rate_limits
            },
            !old(self).queue_paused(q@) && crate::rate::rate_grant(*old(self), q@, 1, now) == 0 ==> {
                &&& r is RateLimited
                &&& final(self).concurrency == old(self).concurrency
            },
            !old(self).queue_paused(q@) && crate::rate::rate_grant(*old(self), q@, 1, now) == 1 && old(self).concurrency@.contains_key(q@)
                && old(self).concurrency@[q@].active >= old(self).concurrency@[q@].limit ==> {
                &&& r is Busy
                &&& final(self).concurrency == old(self).concurrency
            },
            !old(self).queue_paused(q@) && crate::rate::rate_grant(*old(self), q@, 1, now) == 1 && !(old(self).concurrency@.contains_key(q@)
                && old(self).concurrency@[q@].active >= old(self).concurrency@[q@].limit) ==> {
                &&& (if has_storage { r is TryNats } else { r is FallbackLocal })
                &&& final(self).concurrency@ == occupy(old(self).concurrency@, q@, 1)
            },
    {
        match self.paused.get(q.as_str()) {
            Some(p) => {
                if *p {
                    return DistributedCheck::Paused;
                }
            },
            None => {},
        }
        if self.rate_take(q, 1, now) == 0 {
            return DistributedCheck::RateLimited;
        }
        match self.concurrency.get(q.as_str()) {
            Some(slot) => {
                let s = *slot;
                if s.active >= s.limit {
                    return DistributedCheck::Busy;
                }
                self.concurrency.insert(q.clone(), ConcurrencySlot { limit: s.limit, active: s.active + 1 });
            },
            None => {},
        }
        if has_storage {
            DistributedCheck::TryNats
        } else {
            DistributedCheck::FallbackLocal
        }
    }

    /// Takes a job pulled from NATS at `now` into `processing`, started and
    /// with a fresh heartbeat; the ID sequence moves past its ID. Returns a
    /// copy of the job.
    pub fn accept_pulled(&mut self, job: Job, now: u64) -> (r: Job)
        requires
            old(self).wf(),
            old(self).clock <= now <= crate::job::MAX_TIME,
            id_free(*old(self), job.id),
            job.id < u64::MAX,
            job.created_at <= now,
        ensures
            final(self).wf(),
            final(self).processing@ == old(self).processing@.push(Job { started_at: now, last_heartbeat: now, ..job }),
            r@ == (Job { started_at: now, last_heartbeat: now, ..job })@,
            final(self).next_id == if job.id >= old(self).next_id { (job.id + 1) as u64 } else { old(self).next_id },
            final(self).clock == now,
            final(self).waiting == old(self).waiting,
            final(self).waiting_deps == old(self).waiting_deps,
            final(self).dlq == old(self).dlq,
            final(self).concurrency == old(self).concurrency,
    {
        let ghost pre = *self;
        let mut job = job;
        job.started_at = now;
        job.last_heartbeat = now;
        let copy = job.duplicate();
        if job.id >= self.next_id {
            self.next_id = job.id + 1;
        }
        let n = self.next_id;
        proof {
            assert forall|i: int| 0 <= i < pre.waiting@.len() implies pre.waiting@[i].id < n by {}
            assert forall|i: int| 0 <= i < pre.waiting_deps@.len() implies pre.waiting_deps@[i].id < n by {}
            assert forall|i: int| 0 <= i < pre.processing@.len() implies pre.processing@[i].id < n by {}
            assert forall|i: int| 0 <= i < pre.dlq@.len() implies pre.dlq@[i].id < n by {}
            crate::manager::lemma_created_by(pre.waiting@, pre.clock, now);
            crate::manager::lemma_created_by(pre.waiting_deps@, pre.clock, now);
            crate::manager::lemma_created_by(pre.processing@, pre.clock, now);
            crate::manager::lemma_created_by(pre.dlq@, pre.clock, now);
            crate::jobs_seq::lemma_push_keeps(pre.processing@, job, n);
            assert(crate::jobs_seq::ids_disjoint(pre.waiting@, pre.processing@.push(job)));
            assert(crate::jobs_seq::ids_disjoint(pre.waiting_deps@, pre.processing@.push(job)));
            assert(crate::jobs_seq::ids_disjoint(pre.processing@.push(job), pre.dlq@));
        }
        self.processing.push(job);
        self.clock = now;
        copy
    }

    /// The local checks of a cluster-mode batch pull of up to `count` jobs
    /// of queue `q`: a paused queue waits; without NATS storage the pull
    /// goes to the local queue; else the pull takes its concurrency slots
    /// (see [`slots_for`]) and goes to NATS with that many, or waits when it
    /// got none.
    pub fn distributed_batch_check(&mut self, q: &String, count: usize, has_storage: bool) -> (r: BatchCheck)
        requires
            old(self).wf(),
        ensures
            final(self).wf(),
            old(self).queue_paused(q@) ==> r is Paused && *final(self) == *old(self),
            !old(self).queue_paused(q@) && !has_storage ==> r is FallbackLocal && *final(self) == *old(self),
            !old(self).queue_paused(q@) && has_storage && slots_for(old(self).concurrency@, q@, count as nat) == 0 ==> r is NoSlots
                && *final(self) == *old(self),
            !old(self).queue_paused(q@) && has_storage && slots_for(old(self).concurrency@, q@, count as nat) > 0 ==> {
                &&& r matches BatchCheck::TryNats(n) && n == slots_for(old(self).concurrency@, q@, count as nat)
                &&& final(self).concurrency@ == occupy(old(self).concurrency@, q@, slots_for(old(self).concurrency@, q@, count as nat))
                &&& crate::queue_control::control_frame(*old(self), *final(self))
                &&& final(self).paused == old(self).paused
            },
    {
        match self.paused.get(q.as_str()) {
            Some(p) => {
                if *p {
                    return BatchCheck::Paused;
                }
            },
            None => {},
        }
        if !has_storage {
            return BatchCheck::FallbackLocal;
        }
        let slots = match self.concurrency.get(q.as_str()) {
            Some(slot) => {
                let s = *slot;
                if s.active < s.limit {
                    let free = s.limit - s.active;
                    let n: usize = if (count as u64) <= (free as u64) { count } else { free as usize };
                    n
                } else {
                    0
                }
            },
            None => count,
        };
        if slots == 0 {
            return BatchCheck::NoSlots;
        }
        match self.concurrency.get(q.as_str()) {
            Some(slot) => {
                let s = *slot;
                self.concurrency.insert(q.clone(), ConcurrencySlot { limit: s.limit, active: s.active + slots as u32 });
            },
            None => {},
        }
        BatchCheck::TryNats(slots)
    }

    /// Gives back `n` concurrency slots of queue `q`, one at a time (none is
    /// taken below zero): the slots a batch pull took but did not use.
    pub fn give_back_slots(&mut self, q: &String, n: usize)
        requires
            old(self).wf(),
        ensures
            final(self).wf(),
            final(self).concurrency@ == released(old(self).concurrency@, q@, n as nat),
            crate::queue_control::control_frame(*old(self), *final(self)),
            final(self).paused@ == old(self).paused@,
            final(self).rate_limits@ == old(self).rate_limits@,
            final(self).rate_buckets@ == old(self).rate_buckets@,
    {
        let mut i: usize = 0;
        while i < n
            invariant
                i <= n,
                self.wf(),
                self.concurrency@ == released(old(self).concurrency@, q@, i as nat),
                crate::queue_control::control_frame(*old(self), *self),
                self.paused@ == old(self).paused@,
                self.rate_limits@ == old(self).rate_limits@,
                self.rate_buckets@ == old(self).rate_buckets@,
            decreases n - i,
        {
            self.release_concurrency(q);
            i = i + 1;
        }
    }
}

/// The concurrency table after `n` slots of queue `q` are given back one
/// at a time.
pub open spec fn released(m: Map<Seq<char>, ConcurrencySlot>, q: Seq<char>, n: nat) -> Map<Seq<char>, ConcurrencySlot>
    decreases n,
{
    if n == 0 {
        m
    } else {
        crate::manager::release_slot(released(m, q, (n - 1) as nat), q)
    }
}

/// One round of the local checks of a cluster-mode batch pull.
pub enum BatchCheck {
    /// The queue is paused: wait.
    Paused,
    /// No concurrency slot is free: wait.
    NoSlots,
    /// This many slots are taken: pull up to that many jobs from NATS.
    TryNats(usize),
    /// There is no NATS storage: pull from the local queue.
    FallbackLocal,
}

} // verus!
