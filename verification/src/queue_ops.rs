//! Operations on whole queues: draining, purging, retrying and cleaning
//! jobs, removing a queue, and per-queue counts and summaries.
use vstd::prelude::*;
use crate::job::{CronJob, Job, JobState, QueueInfo, MAX_TIME};
use crate::jobs_seq::{has_id, ids_disjoint};
use crate::manager::{jobs_wf, CompletedJob, QueueManager};
use crate::queue_control::count_in;

verus! {

broadcast use vstd::std_specs::hash::group_hash_axioms;

/// The jobs of `s` outside queue `q`, in order.
pub open spec fn other_queues(s: Seq<Job>, q: Seq<char>) -> Seq<Job> {
    s.filter(|j: Job| j.queue@ != q)
}

/// Keeping some jobs of a list keeps their IDs apart, and each kept job is
/// one of the list.
pub proof fn lemma_filter_ids(s: Seq<Job>, f: spec_fn(Job) -> bool)
    ensures
        crate::jobs_seq::ids_unique(s) ==> crate::jobs_seq::ids_unique(s.filter(f)),
        crate::jobs_seq::ident_from(s.filter(f), s),
    decreases s.len(),
{
    reveal(Seq::filter);
    if s.len() > 0 {
        let s0 = s.drop_last();
        let last = s.last();
        assert(crate::jobs_seq::ids_unique(s) ==> crate::jobs_seq::ids_unique(s0)) by {
            if crate::jobs_seq::ids_unique(s) {
                assert forall|a: int, b: int| 0 <= a < s0.len() && 0 <= b < s0.len() && a != b implies s0[a].id != s0[b].id by {
                    assert(s0[a] == s[a] && s0[b] == s[b]);
                }
            }
        }
        lemma_filter_ids(s0, f);
        let t = s0.filter(f);
        assert forall|k: int| 0 <= k < t.len() implies exists|i: int| 0 <= i < s.len() - 1 && s[i].id == (#[trigger] t[k]).id
            && s[i].backoff == t[k].backoff && s[i].created_at == t[k].created_at by {
            let i = choose|i: int| 0 <= i < s0.len() && s0[i].id == t[k].id && s0[i].backoff == t[k].backoff && s0[i].created_at == t[k].created_at;
            assert(s[i] == s0[i]);
        }
        if f(last) {
            let u = t.push(last);
            assert(s.filter(f) == u);
            assert forall|k: int| 0 <= k < u.len() implies exists|i: int| 0 <= i < s.len() && s[i].id == (#[trigger] u[k]).id
                && s[i].backoff == u[k].backoff && s[i].created_at == u[k].created_at by {
                if k < t.len() {
                    assert(u[k] == t[k]);
                    let i = choose|i: int| 0 <= i < s.len() - 1 && s[i].id == t[k].id && s[i].backoff == t[k].backoff && s[i].created_at == t[k].created_at;
                } else {
                    assert(u[k] == s[s.len() - 1]);
                }
            }
            if crate::jobs_seq::ids_unique(s) {
                assert(!has_id(t, last.id)) by {
                    if has_id(t, last.id) {
                        let k = choose|k: int| 0 <= k < t.len() && t[k].id == last.id;
                        let i = choose|i: int| 0 <= i < s.len() - 1 && s[i].id == t[k].id && s[i].backoff == t[k].backoff && s[i].created_at == t[k].created_at;
                        assert(s[i].id != s[s.len() - 1].id);
                    }
                }
                crate::jobs_seq::lemma_push_keeps(t, last, 0);
            }
        } else {
            assert(s.filter(f) == t);
        }
    }
}

/// Keeping some processing jobs keeps the bookkeeping.
pub proof fn lemma_wf_filter_p(w: Seq<Job>, d: Seq<Job>, p: Seq<Job>, x: Seq<Job>, n: u64, c: u64, f: spec_fn(Job) -> bool)
    requires
        jobs_wf(w, d, p, x, n, c),
    ensures
        jobs_wf(w, d, p.filter(f), x, n, c),
{
    lemma_filter_ids(p, f);
    crate::jobs_seq::lemma_ident_from_transfer(p.filter(f), p, n, c);
    assert(ids_disjoint(w, p.filter(f)));
    assert(ids_disjoint(d, p.filter(f)));
    assert(ids_disjoint(p.filter(f), x));
}

/// Keeping some waiting jobs keeps the bookkeeping.
pub proof fn lemma_wf_filter_w(w: Seq<Job>, d: Seq<Job>, p: Seq<Job>, x: Seq<Job>, n: u64, c: u64, f: spec_fn(Job) -> bool)
    requires
        jobs_wf(w, d, p, x, n, c),
    ensures
        jobs_wf(w.filter(f), d, p, x, n, c),
{
    crate::job_ops::lemma_wf_swap(w, d, p, x, n, c);
    lemma_wf_filter_p(p, d, w, x, n, c, f);
    crate::job_ops::lemma_wf_swap(p, d, w.filter(f), x, n, c);
}

/// Keeping some dead letter jobs keeps the bookkeeping.
pub proof fn lemma_wf_filter_x(w: Seq<Job>, d: Seq<Job>, p: Seq<Job>, x: Seq<Job>, n: u64, c: u64, f: spec_fn(Job) -> bool)
    requires
        jobs_wf(w, d, p, x, n, c),
    ensures
        jobs_wf(w, d, p, x.filter(f), n, c),
{
    crate::job_ops::lemma_wf_swap(w, d, p, x, n, c);
    lemma_wf_filter_p(w, d, x, p, n, c, f);
    crate::job_ops::lemma_wf_swap(w, d, x.filter(f), p, n, c);
}

/// The jobs of queue `q` are as many as [`count_in`] counts.
pub proof fn lemma_of_queue_count(s: Seq<Job>, q: Seq<char>)
    ensures
        crate::jobs_seq::of_queue(s, q).len() == count_in(s, q),
    decreases s.len(),
{
    reveal(Seq::filter);
    if s.len() > 0 {
        lemma_of_queue_count(s.drop_last(), q);
    }
}

/// The jobs of queue `q` among the first `i` of `s` come first among the
/// jobs of `q` in `s`.
pub proof fn lemma_of_queue_prefix(s: Seq<Job>, q: Seq<char>, i: int)
    requires
        0 <= i <= s.len(),
    ensures
        crate::jobs_seq::of_queue(s.take(i), q).len() <= crate::jobs_seq::of_queue(s, q).len(),
        crate::jobs_seq::of_queue(s, q).take(crate::jobs_seq::of_queue(s.take(i), q).len() as int)
            == crate::jobs_seq::of_queue(s.take(i), q),
    decreases s.len() - i,
{
    reveal(Seq::filter);
    let all = crate::jobs_seq::of_queue(s, q);
    if i == s.len() {
        assert(s.take(i) =~= s);
        assert(all.take(all.len() as int) =~= all);
    } else {
        lemma_of_queue_prefix(s, q, i + 1);
        let a = crate::jobs_seq::of_queue(s.take(i), q);
        let b = crate::jobs_seq::of_queue(s.take(i + 1), q);
        assert(s.take(i + 1).drop_last() =~= s.take(i));
        assert(b.take(a.len() as int) =~= a);
        assert(all.take(a.len() as int) =~= all.take(b.len() as int).take(a.len() as int));
    }
}

/// No job of queue `q` is left outside it.
pub proof fn lemma_other_queues_count(s: Seq<Job>, q: Seq<char>)
    ensures
        count_in(other_queues(s, q), q) == 0,
    decreases s.len(),
{
    reveal(Seq::filter);
    if s.len() > 0 {
        lemma_other_queues_count(s.drop_last(), q);
        let t = other_queues(s.drop_last(), q);
        if s.last().queue@ != q {
            assert(other_queues(s, q) == t.push(s.last()));
            assert(t.push(s.last()).drop_last() =~= t);
        }
    }
}

/// Splits `v` into the jobs outside queue `q` and those of `q`, freeing the
/// unique keys of the latter in `keys`.
fn split_queue(v: Vec<Job>, q: &String, keys: &mut Vec<crate::tables::QueueItem>) -> (r: (Vec<Job>, Vec<Job>))
    ensures
        r.0@ == other_queues(v@, q@),
        r.1@ == crate::jobs_seq::of_queue(v@, q@),
        crate::tables::pairs_view(final(keys)@) == crate::ack::without_keys(
            crate::tables::pairs_view(old(keys)@), crate::jobs_seq::of_queue(v@, q@)),
{
    let ghost orig = v@;
    let ghost k0 = crate::tables::pairs_view(keys@);
    let mut rest = v;
    let mut kept: Vec<Job> = Vec::new();
    let mut taken: Vec<Job> = Vec::new();
    let ghost mut done: int = 0;
    proof {
        reveal(Seq::filter);
        assert(orig.take(0) =~= Seq::<Job>::empty());
    }
    while rest.len() > 0
        invariant
            0 <= done <= orig.len(),
            rest@ == orig.skip(done),
            kept@ == other_queues(orig.take(done), q@),
            taken@ == crate::jobs_seq::of_queue(orig.take(done), q@),
            crate::tables::pairs_view(keys@) == crate::ack::without_keys(k0, crate::jobs_seq::of_queue(orig.take(done), q@)),
        decreases rest.len(),
    {
        let j = rest.remove(0);
        proof {
            reveal(Seq::filter);
            assert(orig.skip(done)[0] == orig[done]);
            assert(rest@ =~= orig.skip(done + 1));
            assert(orig.take(done + 1).drop_last() =~= orig.take(done));
            assert(orig.take(done + 1).last() == orig[done]);
        }
        if j.queue == *q {
            proof {
                let t = crate::jobs_seq::of_queue(orig.take(done), q@);
                assert(crate::jobs_seq::of_queue(orig.take(done + 1), q@) == t.push(j));
                assert(t.push(j).drop_last() =~= t);
            }
            match &j.unique_key {
                Some(k) => crate::tables::pair_remove(keys, &j.queue, k),
                None => {},
            }
            taken.push(j);
        } else {
            kept.push(j);
        }
        proof {
            done = done + 1;
        }
    }
    assert(orig.take(done) =~= orig);
    (kept, taken)
}

/// A dead letter job that a retry of queue `q` (of job `id` only, when
/// given) takes.
pub open spec fn retry_target(j: Job, q: Seq<char>, id: Option<u64>) -> bool {
    j.queue@ == q && match id {
        Some(i) => j.id == i,
        None => true,
    }
}

/// A dead letter job as it is queued again at `now`: no attempt counted,
/// runnable at once, not started, no progress.
pub open spec fn retried(j: Job, now: u64) -> Job {
    Job { attempts: 0, run_at: now, started_at: 0, progress: 0, progress_msg: None, ..j }
}

/// How many jobs of queue `q` in `s` may run at `now`.
pub open spec fn ready_in(s: Seq<Job>, q: Seq<char>, now: u64) -> nat
    decreases s.len(),
{
    if s.len() == 0 {
        0
    } else {
        ready_in(s.drop_last(), q, now) + if s.last().queue@ == q && s.last().run_at <= now { 1nat } else { 0nat }
    }
}

/// How many kept records of completed jobs belong to queue `q`.
pub open spec fn completed_in(s: Seq<CompletedJob>, q: Seq<char>) -> nat
    decreases s.len(),
{
    if s.len() == 0 {
        0
    } else {
        completed_in(s.drop_last(), q) + if s.last().job.queue@ == q { 1nat } else { 0nat }
    }
}

proof fn lemma_ready_in_le(s: Seq<Job>, q: Seq<char>, now: u64)
    ensures
        ready_in(s, q, now) <= count_in(s, q),
        count_in(s, q) <= s.len(),
    decreases s.len(),
{
    if s.len() > 0 {
        lemma_ready_in_le(s.drop_last(), q, now);
    }
}

proof fn lemma_completed_in_le(s: Seq<CompletedJob>, q: Seq<char>)
    ensures
        completed_in(s, q) <= s.len(),
    decreases s.len(),
{
    if s.len() > 0 {
        lemma_completed_in_le(s.drop_last(), q);
    }
}

/// Counts the jobs of queue `q` in `v` that may run at `now` and those that
/// may not yet.
fn count_ready_split(v: &Vec<Job>, q: &String, now: u64) -> (r: (usize, usize))
    ensures
        r.0 == ready_in(v@, q@, now),
        r.0 + r.1 == count_in(v@, q@),
{
    let mut ready: usize = 0;
    let mut later: usize = 0;
    let mut i: usize = 0;
    while i < v.len()
        invariant
            i <= v@.len(),
            ready == ready_in(v@.take(i as int), q@, now),
            ready + later == count_in(v@.take(i as int), q@),
        decreases v.len() - i,
    {
        proof {
            assert(v@.take(i + 1).drop_last() =~= v@.take(i as int));
            lemma_ready_in_le(v@.take(i as int), q@, now);
        }
        if v[i].queue == *q {
            if v[i].run_at <= now {
                ready = ready + 1;
            } else {
                later = later + 1;
            }
        }
        i = i + 1;
    }
    assert(v@.take(i as int) =~= v@);
    (ready, later)
}

/// Counts the kept records of completed jobs of queue `q`.
fn count_completed(v: &Vec<CompletedJob>, q: &String) -> (r: usize)
    ensures
        r == completed_in(v@, q@),
{
    let mut n: usize = 0;
    let mut i: usize = 0;
    while i < v.len()
        invariant
            i <= v@.len(),
            n == completed_in(v@.take(i as int), q@),
        decreases v.len() - i,
    {
        proof {
            assert(v@.take(i + 1).drop_last() =~= v@.take(i as int));
            lemma_completed_in_le(v@.take(i as int), q@);
        }
        if v[i].job.queue == *q {
            n = n + 1;
        }
        i = i + 1;
    }
    assert(v@.take(i as int) =~= v@);
    n
}

/// `names` followed by the queue names of `s` that it lacks, in order of
/// first appearance.
pub open spec fn names_from(names: Seq<Seq<char>>, s: Seq<Job>) -> Seq<Seq<char>>
    decreases s.len(),
{
    if s.len() == 0 {
        names
    } else {
        let n = names_from(names, s.drop_last());
        if n.contains(s.last().queue@) {
            n
        } else {
            n.push(s.last().queue@)
        }
    }
}

/// The queues that hold jobs, waiting, running or dead, in order of first
/// appearance.
pub open spec fn queues_in(m: QueueManager) -> Seq<Seq<char>> {
    names_from(names_from(names_from(Seq::empty(), m.waiting@), m.processing@), m.dlq@)
}

/// The summary row of queue `q`: name, queued, running and dead jobs,
/// whether it is paused, its rate limit and its concurrency limit.
pub open spec fn queue_info_of(m: QueueManager, q: Seq<char>) -> (Seq<char>, nat, nat, nat, bool, Option<u32>, Option<u32>) {
    (
        q,
        count_in(m.waiting@, q),
        count_in(m.processing@, q),
        count_in(m.dlq@, q),
        m.queue_paused(q),
        if m.rate_limits@.contains_key(q) { Some(m.rate_limits@[q]) } else { None },
        if m.concurrency@.contains_key(q) { Some(m.concurrency@[q].limit) } else { None },
    )
}

/// A summary row as a value.
pub open spec fn info_view(r: QueueInfo) -> (Seq<char>, nat, nat, nat, bool, Option<u32>, Option<u32>) {
    (r.name@, r.pending as nat, r.processing as nat, r.dlq as nat, r.paused, r.rate_limit, r.concurrency_limit)
}

/// Adds to `names` the queue names of `v` it lacks.
fn add_queue_names(names: &mut Vec<String>, v: &Vec<Job>)
    ensures
        crate::job::strings_view(final(names)@) == names_from(crate::job::strings_view(old(names)@), v@),
{
    let ghost start = crate::job::strings_view(names@);
    let mut i: usize = 0;
    assert(v@.take(0) =~= Seq::<Job>::empty());
    while i < v.len()
        invariant
            i <= v@.len(),
            crate::job::strings_view(names@) == names_from(start, v@.take(i as int)),
        decreases v.len() - i,
    {
        proof {
            assert(v@.take(i + 1).drop_last() =~= v@.take(i as int));
        }
        let q = &v[i].queue;
        if !crate::select::strings_contain(names, q) {
            let ghost before = crate::job::strings_view(names@);
            names.push(q.clone());
            assert(crate::job::strings_view(names@) =~= before.push(q@));
        }
        i = i + 1;
    }
    assert(v@.take(i as int) =~= v@);
}

/// The cron jobs of `s` outside queue `q`, in order.
pub open spec fn other_crons(s: Seq<CronJob>, q: Seq<char>) -> Seq<CronJob> {
    s.filter(|c: CronJob| c.queue@ != q)
}

/// Splits off the cron jobs of queue `q`: the others, and how many there
/// were.
fn split_crons(v: Vec<CronJob>, q: &String) -> (r: (Vec<CronJob>, usize))
    ensures
        r.0@ == other_crons(v@, q@),
        r.1 == v@.len() - other_crons(v@, q@).len(),
{
    let ghost orig = v@;
    let mut rest = v;
    let mut kept: Vec<CronJob> = Vec::new();
    let mut dropped: usize = 0;
    let ghost mut done: int = 0;
    proof {
        reveal(Seq::filter);
        assert(orig.take(0) =~= Seq::<CronJob>::empty());
        assert(orig.len() == rest.len());
    }
    while rest.len() > 0
        invariant
            0 <= done <= orig.len(),
            orig.len() <= usize::MAX,
            rest@ == orig.skip(done),
            kept@ == other_crons(orig.take(done), q@),
            dropped == done - kept@.len(),
            kept@.len() <= done,
        decreases rest.len(),
    {
        let c = rest.remove(0);
        proof {
            reveal(Seq::filter);
            assert(orig.skip(done)[0] == orig[done]);
            assert(rest@ =~= orig.skip(done + 1));
            assert(orig.take(done + 1).drop_last() =~= orig.take(done));
            assert(orig.take(done + 1).last() == orig[done]);
        }
        if c.queue == *q {
            dropped = dropped + 1;
        } else {
            kept.push(c);
        }
        proof {
            done = done + 1;
        }
    }
    assert(orig.take(done) =~= orig);
    (kept, dropped)
}

/// A job of queue `q` that a cleanup of state `state` takes: created before
/// `cutoff` and, for the waiting and delayed states, runnable at `now` or
/// not.
pub open spec fn clean_pick(j: Job, q: Seq<char>, cutoff: u64, now: u64, state: JobState) -> bool {
    &&& j.queue@ == q
    &&& j.created_at < cutoff
    &&& match state {
        JobState::Waiting => j.run_at <= now,
        JobState::Delayed => j.run_at > now,
        _ => true,
    }
}

/// A cleanup over `s`, front to back: the jobs kept and the jobs taken,
/// where a job is taken when [`clean_pick`] holds and fewer than `limit`
/// (when given) were taken before it.
pub open spec fn clean_split(s: Seq<Job>, q: Seq<char>, cutoff: u64, now: u64, state: JobState, limit: Option<usize>) -> (Seq<Job>, Seq<Job>)
    decreases s.len(),
{
    if s.len() == 0 {
        (Seq::empty(), Seq::empty())
    } else {
        let (kept, taken) = clean_split(s.drop_last(), q, cutoff, now, state, limit);
        let j = s.last();
        if clean_pick(j, q, cutoff, now, state) && (match limit {
            Some(n) => taken.len() < n,
            None => true,
        }) {
            (kept, taken.push(j))
        } else {
            (kept.push(j), taken)
        }
    }
}

/// The same over kept records of completed jobs: the records kept and how
/// many were taken.
pub open spec fn clean_records(s: Seq<CompletedJob>, q: Seq<char>, cutoff: u64, limit: Option<usize>) -> (Seq<CompletedJob>, nat)
    decreases s.len(),
{
    if s.len() == 0 {
        (Seq::empty(), 0)
    } else {
        let (kept, n) = clean_records(s.drop_last(), q, cutoff, limit);
        let c = s.last();
        if c.job.queue@ == q && c.job.created_at < cutoff && (match limit {
            Some(l) => n < l,
            None => true,
        }) {
            (kept, n + 1)
        } else {
            (kept.push(c), n)
        }
    }
}

/// The kept jobs of a cleanup keep their IDs apart, each is one of the
/// list, and no more jobs are taken than the list holds.
pub proof fn lemma_clean_ids(s: Seq<Job>, q: Seq<char>, cutoff: u64, now: u64, state: JobState, limit: Option<usize>)
    ensures
        crate::jobs_seq::ids_unique(s) ==> crate::jobs_seq::ids_unique(clean_split(s, q, cutoff, now, state, limit).0),
        crate::jobs_seq::ident_from(clean_split(s, q, cutoff, now, state, limit).0, s),
        clean_split(s, q, cutoff, now, state, limit).1.len() <= s.len(),
    decreases s.len(),
{
    if s.len() > 0 {
        let s0 = s.drop_last();
        let last = s.last();
        assert(crate::jobs_seq::ids_unique(s) ==> crate::jobs_seq::ids_unique(s0)) by {
            if crate::jobs_seq::ids_unique(s) {
                assert forall|a: int, b: int| 0 <= a < s0.len() && 0 <= b < s0.len() && a != b implies s0[a].id != s0[b].id by {
                    assert(s0[a] == s[a] && s0[b] == s[b]);
                }
            }
        }
        lemma_clean_ids(s0, q, cutoff, now, state, limit);
        let t = clean_split(s0, q, cutoff, now, state, limit).0;
        assert forall|k: int| 0 <= k < t.len() implies exists|i: int| 0 <= i < s.len() - 1 && s[i].id == (#[trigger] t[k]).id
            && s[i].backoff == t[k].backoff && s[i].created_at == t[k].created_at by {
            let i = choose|i: int| 0 <= i < s0.len() && s0[i].id == t[k].id && s0[i].backoff == t[k].backoff && s0[i].created_at == t[k].created_at;
            assert(s[i] == s0[i]);
        }
        let u = clean_split(s, q, cutoff, now, state, limit).0;
        if u == t {
        } else {
            assert(u == t.push(last));
            assert forall|k: int| 0 <= k < u.len() implies exists|i: int| 0 <= i < s.len() && s[i].id == (#[trigger] u[k]).id
                && s[i].backoff == u[k].backoff && s[i].created_at == u[k].created_at by {
                if k < t.len() {
                    assert(u[k] == t[k]);
                    let i = choose|i: int| 0 <= i < s.len() - 1 && s[i].id == t[k].id && s[i].backoff == t[k].backoff && s[i].created_at == t[k].created_at;
                } else {
                    assert(u[k] == s[s.len() - 1]);
                }
            }
            if crate::jobs_seq::ids_unique(s) {
                assert(!has_id(t, last.id)) by {
                    if has_id(t, last.id) {
                        let k = choose|k: int| 0 <= k < t.len() && t[k].id == last.id;
                        let i = choose|i: int| 0 <= i < s.len() - 1 && s[i].id == t[k].id && s[i].backoff == t[k].backoff && s[i].created_at == t[k].created_at;
                        assert(s[i].id != s[s.len() - 1].id);
                    }
                }
                crate::jobs_seq::lemma_push_keeps(t, last, 0);
            }
        }
    }
}

/// Replacing the processing list by a list of some of its jobs, each once,
/// keeps the bookkeeping.
pub proof fn lemma_wf_sub_p(w: Seq<Job>, d: Seq<Job>, p: Seq<Job>, p2: Seq<Job>, x: Seq<Job>, n: u64, c: u64)
    requires
        jobs_wf(w, d, p, x, n, c),
        crate::jobs_seq::ids_unique(p2),
        crate::jobs_seq::ident_from(p2, p),
    ensures
        jobs_wf(w, d, p2, x, n, c),
{
    crate::jobs_seq::lemma_ident_from_transfer(p2, p, n, c);
    assert(ids_disjoint(w, p2));
    assert(ids_disjoint(d, p2));
    assert(ids_disjoint(p2, x));
}

/// Takes out of `v` the jobs a cleanup picks (see [`clean_split`]), freeing
/// their unique keys in `keys`; returns how many were taken.
fn clean_jobs(v: &mut Vec<Job>, q: &String, cutoff: u64, now: u64, state: JobState, limit: Option<usize>, keys: &mut Vec<crate::tables::QueueItem>) -> (r: usize)
    ensures
        final(v)@ == clean_split(old(v)@, q@, cutoff, now, state, limit).0,
        r == clean_split(old(v)@, q@, cutoff, now, state, limit).1.len(),
        crate::tables::pairs_view(final(keys)@) == crate::ack::without_keys(
            crate::tables::pairs_view(old(keys)@), clean_split(old(v)@, q@, cutoff, now, state, limit).1),
{
    let ghost orig = v@;
    let ghost k0 = crate::tables::pairs_view(keys@);
    let mut rest: Vec<Job> = Vec::new();
    std::mem::swap(&mut rest, v);
    let mut taken: usize = 0;
    let ghost mut done: int = 0;
    assert(orig.take(0) =~= Seq::<Job>::empty());
    assert(orig.len() == rest.len());
    while rest.len() > 0
        invariant
            0 <= done <= orig.len(),
            orig.len() <= usize::MAX,
            rest@ == orig.skip(done),
            v@ == clean_split(orig.take(done), q@, cutoff, now, state, limit).0,
            taken == clean_split(orig.take(done), q@, cutoff, now, state, limit).1.len(),
            crate::tables::pairs_view(keys@) == crate::ack::without_keys(k0, clean_split(orig.take(done), q@, cutoff, now, state, limit).1),
        decreases rest.len(),
    {
        let j = rest.remove(0);
        proof {
            assert(orig.skip(done)[0] == orig[done]);
            assert(rest@ =~= orig.skip(done + 1));
            assert(orig.take(done + 1).drop_last() =~= orig.take(done));
            assert(orig.take(done + 1).last() == orig[done]);
            lemma_clean_ids(orig.take(done), q@, cutoff, now, state, limit);
        }
        let ready_ok = if state == JobState::Waiting {
            j.run_at <= now
        } else if state == JobState::Delayed {
            j.run_at > now
        } else {
            true
        };
        let under = match limit {
            Some(n) => taken < n,
            None => true,
        };
        if j.queue == *q && j.created_at < cutoff && ready_ok && under {
            proof {
                let t = clean_split(orig.take(done), q@, cutoff, now, state, limit).1;
                assert(t.push(j).drop_last() =~= t);
            }
            match &j.unique_key {
                Some(k) => crate::tables::pair_remove(keys, &j.queue, k),
                None => {},
            }
            taken = taken + 1;
        } else {
            v.push(j);
        }
        proof {
            done = done + 1;
        }
    }
    assert(orig.take(done) =~= orig);
    taken
}

/// Drops the kept records of completed jobs that a cleanup picks.
fn clean_completed_records(v: &mut Vec<CompletedJob>, q: &String, cutoff: u64, limit: Option<usize>) -> (r: usize)
    ensures
        final(v)@ == clean_records(old(v)@, q@, cutoff, limit).0,
        r == clean_records(old(v)@, q@, cutoff, limit).1,
{
    let ghost orig = v@;
    let mut rest: Vec<CompletedJob> = Vec::new();
    std::mem::swap(&mut rest, v);
    let mut taken: usize = 0;
    let ghost mut done: int = 0;
    assert(orig.take(0) =~= Seq::<CompletedJob>::empty());
    assert(orig.len() == rest.len());
    while rest.len() > 0
        invariant
            0 <= done <= orig.len(),
            orig.len() <= usize::MAX,
            rest@ == orig.skip(done),
            v@ == clean_records(orig.take(done), q@, cutoff, limit).0,
            taken == clean_records(orig.take(done), q@, cutoff, limit).1,
            taken <= done,
        decreases rest.len(),
    {
        let c = rest.remove(0);
        proof {
            assert(orig.skip(done)[0] == orig[done]);
            assert(rest@ =~= orig.skip(done + 1));
            assert(orig.take(done + 1).drop_last() =~= orig.take(done));
            assert(orig.take(done + 1).last() == orig[done]);
        }
        let under = match limit {
            Some(n) => taken < n,
            None => true,
        };
        if c.job.queue == *q && c.job.created_at < cutoff && under {
            taken = taken + 1;
        } else {
            v.push(c);
        }
        proof {
            done = done + 1;
        }
    }
    assert(orig.take(done) =~= orig);
    taken
}

impl QueueManager {
    /// Drops every waiting (or delayed) job of queue `q` and frees their
    /// unique keys; returns how many were dropped.
    pub fn drain(&mut self, q: &str) -> (r: usize)
        requires
            old(self).wf(),
        ensures
            final(self).wf(),
            final(self).waiting@ == other_queues(old(self).waiting@, q@),
            r == count_in(old(self).waiting@, q@),
            count_in(final(self).waiting@, q@) == 0,
            crate::tables::pairs_view(final(self).unique_keys@) == crate::ack::without_keys(
                crate::tables::pairs_view(old(self).unique_keys@), crate::jobs_seq::of_queue(old(self).waiting@, q@)),
            final(self).waiting_deps == old(self).waiting_deps,
            final(self).processing == old(self).processing,
            final(self).dlq == old(self).dlq,
            final(self).concurrency == old(self).concurrency,
            final(self).active_groups == old(self).active_groups,
            final(self).stalled_counts == old(self).stalled_counts,
            final(self).clock == old(self).clock,
            crate::job_ops::ops_frame(*old(self), *final(self)),
    {
        let qs = q.to_owned();
        let mut waiting: Vec<Job> = Vec::new();
        std::mem::swap(&mut waiting, &mut self.waiting);
        let ghost orig = waiting@;
        let mut keys: Vec<crate::tables::QueueItem> = Vec::new();
        std::mem::swap(&mut keys, &mut self.unique_keys);
        let (kept, taken) = split_queue(waiting, &qs, &mut keys);
        self.waiting = kept;
        self.unique_keys = keys;
        proof {
            lemma_wf_filter_w(orig, self.waiting_deps@, self.processing@, self.dlq@, self.next_id, self.clock, |j: Job| j.queue@ != q@);
            lemma_of_queue_count(orig, q@);
            lemma_other_queues_count(orig, q@);
        }
        taken.len()
    }

    /// Drops every dead letter job of queue `q` and frees their unique
    /// keys; returns how many were dropped.
    pub fn purge_dlq(&mut self, q: &str) -> (r: usize)
        requires
            old(self).wf(),
        ensures
            final(self).wf(),
            final(self).dlq@ == other_queues(old(self).dlq@, q@),
            r == count_in(old(self).dlq@, q@),
            crate::tables::pairs_view(final(self).unique_keys@) == crate::ack::without_keys(
                crate::tables::pairs_view(old(self).unique_keys@), crate::jobs_seq::of_queue(old(self).dlq@, q@)),
            final(self).waiting == old(self).waiting,
            final(self).waiting_deps == old(self).waiting_deps,
            final(self).processing == old(self).processing,
            final(self).concurrency == old(self).concurrency,
            final(self).active_groups == old(self).active_groups,
            final(self).stalled_counts == old(self).stalled_counts,
            final(self).clock == old(self).clock,
            crate::job_ops::ops_frame(*old(self), *final(self)),
    {
        let qs = q.to_owned();
        let mut dead: Vec<Job> = Vec::new();
        std::mem::swap(&mut dead, &mut self.dlq);
        let ghost orig = dead@;
        let mut keys: Vec<crate::tables::QueueItem> = Vec::new();
        std::mem::swap(&mut keys, &mut self.unique_keys);
        let (kept, taken) = split_queue(dead, &qs, &mut keys);
        self.dlq = kept;
        self.unique_keys = keys;
        proof {
            lemma_wf_filter_x(self.waiting@, self.waiting_deps@, self.processing@, orig, self.next_id, self.clock, |j: Job| j.queue@ != q@);
            lemma_of_queue_count(orig, q@);
        }
        taken.len()
    }

    /// The first `count` dead letter jobs of queue `q` (all of them without
    /// a count), oldest first.
    pub fn get_dlq(&self, q: &str, count: Option<usize>) -> (r: Vec<Job>)
        ensures
            ({
                let all = crate::jobs_seq::of_queue(self.dlq@, q@);
                crate::job::jobs_view(r@) == crate::job::jobs_view(match count {
                    Some(n) => if n < all.len() { all.take(n as int) } else { all },
                    None => all,
                })
            }),
    {
        let ghost all = crate::jobs_seq::of_queue(self.dlq@, q@);
        let ghost want: Seq<Job> = match count {
            Some(n) => if n < all.len() { all.take(n as int) } else { all },
            None => all,
        };
        let qs = q.to_owned();
        let mut out: Vec<Job> = Vec::new();
        let mut i: usize = 0;
        let mut full: bool = match count {
            Some(n) => n == 0,
            None => false,
        };
        proof {
            reveal(Seq::filter);
            assert(self.dlq@.take(0) =~= Seq::<Job>::empty());
        }
        while i < self.dlq.len() && !full
            invariant
                i <= self.dlq@.len(),
                qs@ == q@,
                all == crate::jobs_seq::of_queue(self.dlq@, q@),
                crate::job::jobs_view(out@) == crate::job::jobs_view(crate::jobs_seq::of_queue(self.dlq@.take(i as int), q@)),
                out@.len() == crate::jobs_seq::of_queue(self.dlq@.take(i as int), q@).len(),
                full == (count matches Some(n) && out@.len() >= n),
                count matches Some(n) ==> out@.len() <= n,
            decreases self.dlq.len() - i,
        {
            proof {
                reveal(Seq::filter);
                assert(self.dlq@.take(i + 1).drop_last() =~= self.dlq@.take(i as int));
                assert(self.dlq@.take(i + 1).last() == self.dlq@[i as int]);
            }
            if self.dlq[i].queue == qs {
                let ghost before = crate::job::jobs_view(out@);
                out.push(self.dlq[i].duplicate());
                assert(crate::job::jobs_view(out@) =~= before.push(self.dlq@[i as int]@));
            }
            i = i + 1;
            full = match count {
                Some(n) => out.len() >= n,
                None => false,
            };
        }
        proof {
            lemma_of_queue_prefix(self.dlq@, q@, i as int);
            if i == self.dlq@.len() {
                assert(self.dlq@.take(i as int) =~= self.dlq@);
            }
            let got = crate::jobs_seq::of_queue(self.dlq@.take(i as int), q@);
            assert(got == all.take(got.len() as int));
            match count {
                Some(n) => {
                    if n < all.len() {
                        assert(got.len() == n);
                    } else {
                        assert(got.len() == all.len());
                        assert(all.take(all.len() as int) =~= all);
                    }
                },
                None => {
                    assert(all.take(all.len() as int) =~= all);
                },
            }
            assert(crate::job::jobs_view(out@) =~= crate::job::jobs_view(want));
        }
        out
    }

    /// Queues again at `now` the dead letter jobs of queue `q` (only job
    /// `job_id`, when given), in order, after the waiting jobs, each with
    /// no attempt counted, runnable at once, not started and without
    /// progress (see [`retried`]); the others stay. Returns how many were
    /// queued.
    pub fn retry_dlq(&mut self, q: &str, job_id: Option<u64>, now: u64) -> (r: usize)
        requires
            old(self).wf(),
            old(self).clock <= now <= MAX_TIME,
        ensures
            final(self).wf(),
            final(self).dlq@ == old(self).dlq@.filter(|j: Job| !retry_target(j, q@, job_id)),
            final(self).waiting@ == old(self).waiting@ + old(self).dlq@.filter(|j: Job| retry_target(j, q@, job_id)).map_values(
                |j: Job| retried(j, now)),
            r == old(self).dlq@.filter(|j: Job| retry_target(j, q@, job_id)).len(),
            final(self).waiting_deps == old(self).waiting_deps,
            final(self).processing == old(self).processing,
            final(self).concurrency == old(self).concurrency,
            final(self).active_groups == old(self).active_groups,
            final(self).unique_keys == old(self).unique_keys,
            final(self).stalled_counts == old(self).stalled_counts,
            final(self).clock == now,
            crate::job_ops::ops_frame(*old(self), *final(self)),
    {
        let qs = q.to_owned();
        let ghost w0 = self.waiting@;
        let ghost orig = self.dlq@;
        let ghost sel = |j: Job| retry_target(j, q@, job_id);
        let ghost keep = |j: Job| !retry_target(j, q@, job_id);
        let ghost reset = |j: Job| retried(j, now);
        let mut rest: Vec<Job> = Vec::new();
        std::mem::swap(&mut rest, &mut self.dlq);
        let mut moved: usize = 0;
        let ghost mut done: int = 0;
        proof {
            reveal(Seq::filter);
            assert(orig.take(0) =~= Seq::<Job>::empty());
            assert(self.dlq@ + rest@ =~= orig);
            assert(orig.len() == rest.len());
            assert(w0 + orig.take(0).filter(sel).map_values(reset) =~= w0);
            crate::manager::lemma_created_by(self.processing@, self.clock, now);
        }
        self.clock = now;
        proof {
            crate::manager::lemma_created_by(w0, old(self).clock, now);
            crate::manager::lemma_created_by(self.waiting_deps@, old(self).clock, now);
            crate::manager::lemma_created_by(orig, old(self).clock, now);
        }
        while rest.len() > 0
            invariant
                0 <= done <= orig.len(),
                orig.len() <= usize::MAX,
                qs@ == q@,
                sel == (|j: Job| retry_target(j, q@, job_id)),
                keep == (|j: Job| !retry_target(j, q@, job_id)),
                reset == (|j: Job| retried(j, now)),
                rest@ == orig.skip(done),
                self.dlq@ == orig.take(done).filter(keep),
                self.waiting@ == w0 + orig.take(done).filter(sel).map_values(reset),
                moved == orig.take(done).filter(sel).len(),
                jobs_wf(self.waiting@, self.waiting_deps@, self.processing@, self.dlq@ + rest@, self.next_id, self.clock),
                self.clock == now,
                now <= MAX_TIME,
                self.waiting_deps == old(self).waiting_deps,
                self.processing == old(self).processing,
                self.concurrency == old(self).concurrency,
                self.active_groups == old(self).active_groups,
                self.unique_keys == old(self).unique_keys,
                self.stalled_counts == old(self).stalled_counts,
                crate::job_ops::ops_frame(*old(self), *self),
                crate::tables::debounce_unique(self.debounce@),
                vstd::std_specs::hash::obeys_key_model::<u64>(),
            decreases rest.len(),
        {
            let ghost d0 = self.dlq@;
            let ghost r0 = rest@;
            let mut j = rest.remove(0);
            proof {
                reveal(Seq::filter);
                assert(orig.skip(done)[0] == orig[done]);
                assert(rest@ =~= orig.skip(done + 1));
                assert(orig.take(done + 1).drop_last() =~= orig.take(done));
                assert(orig.take(done + 1).last() == orig[done]);
                assert((d0 + r0)[d0.len() as int] == j);
                assert((d0 + r0).remove(d0.len() as int) =~= d0 + rest@);
                assert(d0.push(j) + rest@ =~= d0 + r0);
                orig.take(done).lemma_filter_len(sel);
            }
            if j.queue == qs && match job_id {
                Some(i) => j.id == i,
                None => true,
            } {
                let ghost j0 = j;
                j.attempts = 0;
                j.run_at = now;
                j.started_at = 0;
                j.progress = 0;
                j.progress_msg = None;
                proof {
                    assert(j == retried(j0, now));
                    let ghost wv = self.waiting@;
                    crate::job_ops::lemma_wf_swap(wv, self.waiting_deps@, self.processing@, d0 + r0, self.next_id, now);
                    crate::manager::lemma_processing_to_waiting(
                        wv, self.waiting_deps@, d0 + r0, self.processing@, self.next_id, now, now, d0.len() as int, j);
                    crate::job_ops::lemma_wf_swap(wv.push(j), self.waiting_deps@, d0 + rest@, self.processing@, self.next_id, now);
                    assert(orig.take(done + 1).filter(sel) == orig.take(done).filter(sel).push(j0));
                    assert(orig.take(done + 1).filter(sel).map_values(reset) =~= orig.take(done).filter(sel).map_values(reset).push(j));
                    assert(w0 + orig.take(done + 1).filter(sel).map_values(reset) =~= wv.push(j));
                }
                self.waiting.push(j);
                moved = moved + 1;
            } else {
                self.dlq.push(j);
            }
            proof {
                done = done + 1;
            }
        }
        proof {
            assert(orig.take(done) =~= orig);
            assert(self.dlq@ + rest@ =~= self.dlq@);
        }
        moved
    }

    /// How many jobs of queue `q` wait (runnable or delayed).
    pub fn count(&self, q: &str) -> (r: usize)
        ensures
            r == count_in(self.waiting@, q@),
    {
        let qs = q.to_owned();
        crate::queue_control::count_queue(&self.waiting, &qs)
    }

    /// The jobs of queue `q` at `now` by state: (waiting, active, delayed,
    /// completed, failed), where waiting and delayed split the queued jobs
    /// by whether they may run, completed counts the kept records and
    /// failed the dead letter jobs.
    pub fn get_job_counts(&self, q: &str, now: u64) -> (r: (usize, usize, usize, usize, usize))
        ensures
            r.0 == ready_in(self.waiting@, q@, now),
            r.1 == count_in(self.processing@, q@),
            r.2 == count_in(self.waiting@, q@) - ready_in(self.waiting@, q@, now),
            r.3 == completed_in(self.completed_data@, q@),
            r.4 == count_in(self.dlq@, q@),
    {
        let qs = q.to_owned();
        let (ready, later) = count_ready_split(&self.waiting, &qs, now);
        let active = crate::queue_control::count_queue(&self.processing, &qs);
        let completed = count_completed(&self.completed_data, &qs);
        let failed = crate::queue_control::count_queue(&self.dlq, &qs);
        (ready, active, later, completed, failed)
    }

    /// One summary row per queue that holds jobs (see [`queues_in`]), in
    /// order of first appearance (see [`queue_info_of`]).
    pub fn list_queues(&self) -> (r: Vec<QueueInfo>)
        ensures
            r@.map_values(|x: QueueInfo| info_view(x)) == queues_in(*self).map_values(|q: Seq<char>| queue_info_of(*self, q)),
    {
        let mut names: Vec<String> = Vec::new();
        assert(crate::job::strings_view(names@) =~= Seq::<Seq<char>>::empty());
        add_queue_names(&mut names, &self.waiting);
        add_queue_names(&mut names, &self.processing);
        add_queue_names(&mut names, &self.dlq);
        let ghost all = crate::job::strings_view(names@);
        let mut out: Vec<QueueInfo> = Vec::new();
        let mut k: usize = 0;
        while k < names.len()
            invariant
                k <= names@.len(),
                all == crate::job::strings_view(names@),
                all == queues_in(*self),
                out@.map_values(|x: QueueInfo| info_view(x)) == all.take(k as int).map_values(|q: Seq<char>| queue_info_of(*self, q)),
            decreases names.len() - k,
        {
            let q = &names[k];
            let pending = crate::queue_control::count_queue(&self.waiting, q);
            let processing = crate::queue_control::count_queue(&self.processing, q);
            let dlq = crate::queue_control::count_queue(&self.dlq, q);
            let paused = match self.paused.get(q.as_str()) {
                Some(p) => *p,
                None => false,
            };
            let rate_limit = match self.rate_limits.get(q.as_str()) {
                Some(l) => Some(*l),
                None => None,
            };
            let concurrency_limit = match self.concurrency.get(q.as_str()) {
                Some(c) => Some(c.limit),
                None => None,
            };
            let ghost before = out@.map_values(|x: QueueInfo| info_view(x));
            out.push(QueueInfo { name: q.clone(), pending, processing, dlq, paused, rate_limit, concurrency_limit });
            proof {
                assert(all.take(k + 1) =~= all.take(k as int).push(q@));
                assert(out@.map_values(|x: QueueInfo| info_view(x)) =~= before.push(queue_info_of(*self, q@)));
            }
            k = k + 1;
        }
        assert(all.take(k as int) =~= all);
        out
    }

    /// Removes queue `q` and what belongs to it: its waiting,
    /// dependency-waiting and dead letter jobs (freeing their unique keys),
    /// its cron jobs, and its pause, rate limit and concurrency settings.
    /// Its running jobs are left alone. Returns how many jobs and cron jobs
    /// were removed.
    pub fn obliterate(&mut self, q: &str) -> (r: usize)
        requires
            old(self).wf(),
            old(self).waiting@.len() + old(self).waiting_deps@.len() + old(self).dlq@.len() + old(self).cron_jobs@.len() <= usize::MAX,
        ensures
            final(self).wf(),
            final(self).waiting@ == other_queues(old(self).waiting@, q@),
            final(self).waiting_deps@ == other_queues(old(self).waiting_deps@, q@),
            final(self).dlq@ == other_queues(old(self).dlq@, q@),
            final(self).cron_jobs@ == other_crons(old(self).cron_jobs@, q@),
            crate::tables::pairs_view(final(self).unique_keys@) == crate::ack::without_keys(
                crate::ack::without_keys(
                    crate::ack::without_keys(
                        crate::tables::pairs_view(old(self).unique_keys@),
                        crate::jobs_seq::of_queue(old(self).waiting@, q@),
                    ),
                    crate::jobs_seq::of_queue(old(self).waiting_deps@, q@),
                ),
                crate::jobs_seq::of_queue(old(self).dlq@, q@),
            ),
            final(self).paused@ == old(self).paused@.remove(q@),
            final(self).rate_limits@ == old(self).rate_limits@.remove(q@),
            final(self).rate_buckets@ == old(self).rate_buckets@.remove(q@),
            final(self).concurrency@ == old(self).concurrency@.remove(q@),
            r == count_in(old(self).waiting@, q@) + count_in(old(self).waiting_deps@, q@) + count_in(old(self).dlq@, q@)
                + (old(self).cron_jobs@.len() - other_crons(old(self).cron_jobs@, q@).len()),
            final(self).processing == old(self).processing,
            final(self).active_groups == old(self).active_groups,
            final(self).stalled_counts == old(self).stalled_counts,
            final(self).clock == old(self).clock,
            final(self).debounce == old(self).debounce,
            final(self).custom_ids == old(self).custom_ids,
            final(self).next_id == old(self).next_id,
            final(self).completed == old(self).completed,
            final(self).completed_data == old(self).completed_data,
            final(self).job_results == old(self).job_results,
            final(self).completed_retention == old(self).completed_retention,
            final(self).metrics == old(self).metrics,
            final(self).auth_tokens == old(self).auth_tokens,
            final(self).workers == old(self).workers,
            final(self).queue_defaults == old(self).queue_defaults,
            final(self).cleanup_settings == old(self).cleanup_settings,
    {
        let qs = q.to_owned();
        let ghost (w, d, x) = (self.waiting@, self.waiting_deps@, self.dlq@);
        let mut keys: Vec<crate::tables::QueueItem> = Vec::new();
        std::mem::swap(&mut keys, &mut self.unique_keys);
        let mut waiting: Vec<Job> = Vec::new();
        std::mem::swap(&mut waiting, &mut self.waiting);
        let (kept_w, taken_w) = split_queue(waiting, &qs, &mut keys);
        let mut deps: Vec<Job> = Vec::new();
        std::mem::swap(&mut deps, &mut self.waiting_deps);
        let (kept_d, taken_d) = split_queue(deps, &qs, &mut keys);
        let mut dead: Vec<Job> = Vec::new();
        std::mem::swap(&mut dead, &mut self.dlq);
        let (kept_x, taken_x) = split_queue(dead, &qs, &mut keys);
        self.waiting = kept_w;
        self.waiting_deps = kept_d;
        self.dlq = kept_x;
        self.unique_keys = keys;
        let mut crons: Vec<CronJob> = Vec::new();
        std::mem::swap(&mut crons, &mut self.cron_jobs);
        let ghost cs = crons@;
        let (kept_c, dropped_c) = split_crons(crons, &qs);
        self.cron_jobs = kept_c;
        self.paused.remove(q);
        self.rate_limits.remove(q);
        self.rate_buckets.remove(q);
        self.concurrency.remove(q);
        proof {
            let f = |j: Job| j.queue@ != q@;
            lemma_wf_filter_w(w, d, self.processing@, x, self.next_id, self.clock, f);
            crate::job_ops::lemma_wf_swap(w.filter(f), d, self.processing@, x, self.next_id, self.clock);
            lemma_wf_filter_p(w.filter(f), self.processing@, d, x, self.next_id, self.clock, f);
            crate::job_ops::lemma_wf_swap(w.filter(f), self.processing@, d.filter(f), x, self.next_id, self.clock);
            lemma_wf_filter_x(w.filter(f), d.filter(f), self.processing@, x, self.next_id, self.clock, f);
            lemma_of_queue_count(w, q@);
            lemma_of_queue_count(d, q@);
            lemma_of_queue_count(x, q@);
            other_crons(cs, q@).lemma_filter_len(|c: CronJob| c.queue@ != q@);
            cs.lemma_filter_len(|c: CronJob| c.queue@ != q@);
        }
        taken_w.len() + taken_d.len() + taken_x.len() + dropped_c
    }

    /// Removes the jobs of queue `q` in state `state` that were created more
    /// than `grace` ms before `now` (see [`clean_pick`]), oldest positions
    /// first and at most `limit` of them when given: waiting and delayed
    /// jobs from the queue, failed jobs from the dead letter queue (their
    /// unique keys are freed), completed jobs from the kept records. Other
    /// states remove nothing. Returns how many were removed.
    pub fn clean(&mut self, q: &str, grace: u64, state: JobState, limit: Option<usize>, now: u64) -> (r: usize)
        requires
            old(self).wf(),
        ensures
            final(self).wf(),
            ({
                let cutoff = if now >= grace { (now - grace) as u64 } else { 0u64 };
                let ks = crate::tables::pairs_view(old(self).unique_keys@);
                if state == JobState::Waiting || state == JobState::Delayed {
                    let cs = clean_split(old(self).waiting@, q@, cutoff, now, state, limit);
                    &&& final(self).waiting@ == cs.0
                    &&& r == cs.1.len()
                    &&& crate::tables::pairs_view(final(self).unique_keys@) == crate::ack::without_keys(ks, cs.1)
                    &&& final(self).dlq == old(self).dlq
                    &&& final(self).completed_data == old(self).completed_data
                } else if state == JobState::Failed {
                    let cs = clean_split(old(self).dlq@, q@, cutoff, now, state, limit);
                    &&& final(self).dlq@ == cs.0
                    &&& r == cs.1.len()
                    &&& crate::tables::pairs_view(final(self).unique_keys@) == crate::ack::without_keys(ks, cs.1)
                    &&& final(self).waiting == old(self).waiting
                    &&& final(self).completed_data == old(self).completed_data
                } else if state == JobState::Completed {
                    let cr = clean_records(old(self).completed_data@, q@, cutoff, limit);
                    &&& final(self).completed_data@ == cr.0
                    &&& r == cr.1
                    &&& final(self).waiting == old(self).waiting
                    &&& final(self).dlq == old(self).dlq
                    &&& final(self).unique_keys == old(self).unique_keys
                } else {
                    &&& r == 0
                    &&& final(self).waiting == old(self).waiting
                    &&& final(self).dlq == old(self).dlq
                    &&& final(self).completed_data == old(self).completed_data
                    &&& final(self).unique_keys == old(self).unique_keys
                }
            }),
            final(self).waiting_deps == old(self).waiting_deps,
            final(self).processing == old(self).processing,
            final(self).concurrency == old(self).concurrency,
            final(self).active_groups == old(self).active_groups,
            final(self).stalled_counts == old(self).stalled_counts,
            final(self).clock == old(self).clock,
            final(self).debounce == old(self).debounce,
            final(self).custom_ids == old(self).custom_ids,
            final(self).next_id == old(self).next_id,
            final(self).completed == old(self).completed,
            final(self).job_results == old(self).job_results,
            final(self).completed_retention == old(self).completed_retention,
            final(self).metrics == old(self).metrics,
            final(self).same_settings(old(self)),
    {
        let qs = q.to_owned();
        let cutoff = now.saturating_sub(grace);
        let ghost (w, d, p, x) = (self.waiting@, self.waiting_deps@, self.processing@, self.dlq@);
        if state == JobState::Waiting || state == JobState::Delayed {
            let mut keys: Vec<crate::tables::QueueItem> = Vec::new();
            std::mem::swap(&mut keys, &mut self.unique_keys);
            let mut waiting: Vec<Job> = Vec::new();
            std::mem::swap(&mut waiting, &mut self.waiting);
            let n = clean_jobs(&mut waiting, &qs, cutoff, now, state, limit, &mut keys);
            self.waiting = waiting;
            self.unique_keys = keys;
            proof {
                lemma_clean_ids(w, q@, cutoff, now, state, limit);
                crate::job_ops::lemma_wf_swap(w, d, p, x, self.next_id, self.clock);
                lemma_wf_sub_p(p, d, w, self.waiting@, x, self.next_id, self.clock);
                crate::job_ops::lemma_wf_swap(p, d, self.waiting@, x, self.next_id, self.clock);
            }
            n
        } else if state == JobState::Failed {
            let mut keys: Vec<crate::tables::QueueItem> = Vec::new();
            std::mem::swap(&mut keys, &mut self.unique_keys);
            let mut dead: Vec<Job> = Vec::new();
            std::mem::swap(&mut dead, &mut self.dlq);
            let n = clean_jobs(&mut dead, &qs, cutoff, now, state, limit, &mut keys);
            self.dlq = dead;
            self.unique_keys = keys;
            proof {
                lemma_clean_ids(x, q@, cutoff, now, state, limit);
                crate::job_ops::lemma_wf_swap(w, d, p, x, self.next_id, self.clock);
                lemma_wf_sub_p(w, d, x, self.dlq@, p, self.next_id, self.clock);
                crate::job_ops::lemma_wf_swap(w, d, self.dlq@, p, self.next_id, self.clock);
            }
            n
        } else if state == JobState::Completed {
            let mut records: Vec<CompletedJob> = Vec::new();
            std::mem::swap(&mut records, &mut self.completed_data);
            let n = clean_completed_records(&mut records, &qs, cutoff, limit);
            self.completed_data = records;
            n
        } else {
            0
        }
    }
}

} // verus!
