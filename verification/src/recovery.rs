//! Rebuilding the queues from what a storage backend kept.
use vstd::prelude::*;
use crate::job::{CronJob, Job, MAX_TIME};
use crate::manager::QueueManager;

verus! {

broadcast use vstd::std_specs::hash::group_hash_axioms;

/// Where a recovered job goes.
#[derive(Debug, Clone, Copy, PartialEq, Eq, Structural)]
pub enum Placement {
    /// Back in its queue.
    Queue,
    /// Waiting for its dependencies.
    Deps,
    /// Nowhere: the state is not one a pending job can have.
    Dropped,
}

/// Where a job stored in state `state` goes: "waiting", "delayed" and
/// "active" jobs go back to their queue, "waiting_children" jobs (and, for
/// the NATS backend, "waiting_deps" jobs) wait for their dependencies.
pub open spec fn placement(state: Seq<char>, nats: bool) -> Placement {
    if state == "waiting"@ || state == "delayed"@ || state == "active"@ {
        Placement::Queue
    } else if state == "waiting_children"@ || (nats && state == "waiting_deps"@) {
        Placement::Deps
    } else {
        Placement::Dropped
    }
}

/// Decides [`placement`].
pub fn placement_of(state: &str, nats: bool) -> (r: Placement)
    ensures
        r == placement(state@, nats),
{
    if crate::nats_rules::str_is(state, "waiting") || crate::nats_rules::str_is(state, "delayed")
        || crate::nats_rules::str_is(state, "active") {
        Placement::Queue
    } else if crate::nats_rules::str_is(state, "waiting_children") || (nats && crate::nats_rules::str_is(
        state,
        "waiting_deps",
    )) {
        Placement::Deps
    } else {
        Placement::Dropped
    }
}

/// A job the NATS backend keeps as dead: out of attempts.
pub open spec fn is_dead(j: Job) -> bool {
    j.max_attempts > 0 && j.attempts >= j.max_attempts
}

/// The state the NATS backend gives a kept job at `now`: none for a dead
/// job, "waiting" for one that was running, "delayed" for one whose run
/// time is ahead, "waiting_deps" for one with dependencies, else
/// "waiting".
pub open spec fn pending_state(j: Job, now: u64) -> Option<Seq<char>> {
    if is_dead(j) {
        None
    } else if j.started_at > 0 && j.completed_at == 0 {
        Some("waiting"@)
    } else if j.run_at > now {
        Some("delayed"@)
    } else if j.depends_on@.len() > 0 {
        Some("waiting_deps"@)
    } else {
        Some("waiting"@)
    }
}

/// The pending jobs among the kept ones, with their state (see
/// [`pending_state`]), in order.
pub open spec fn pending_of(jobs: Seq<Job>, now: u64) -> Seq<(Job, Seq<char>)>
    decreases jobs.len(),
{
    if jobs.len() == 0 {
        Seq::empty()
    } else {
        let rest = pending_of(jobs.drop_last(), now);
        match pending_state(jobs.last(), now) {
            Some(s) => rest.push((jobs.last(), s)),
            None => rest,
        }
    }
}

/// The jobs of the pairs `ps`, in order.
pub open spec fn jobs_of(ps: Seq<(Job, Seq<char>)>) -> Seq<Job> {
    ps.map_values(|p: (Job, Seq<char>)| p.0)
}

/// Recovery from the NATS backend splits the kept jobs in two: the pending
/// ones (see [`pending_of`]) are exactly the jobs that are not dead, in
/// order, the dead letter ones (see [`load_dlq_jobs`]) exactly the dead
/// ones, and together they hold every kept job once.
pub proof fn law_recovery_partitions(jobs: Seq<Job>, now: u64)
    ensures
        jobs_of(pending_of(jobs, now)) == jobs.filter(|j: Job| !is_dead(j)),
        pending_of(jobs, now).len() + jobs.filter(|j: Job| is_dead(j)).len() == jobs.len(),
    decreases jobs.len(),
{
    reveal(Seq::filter);
    if jobs.len() > 0 {
        let rest = jobs.drop_last();
        law_recovery_partitions(rest, now);
        let ps = pending_of(rest, now);
        let j = jobs.last();
        if !is_dead(j) {
            let s = pending_state(j, now).unwrap();
            assert(jobs_of(ps.push((j, s))) =~= jobs_of(ps).push(j));
        }
    }
}

/// Sorts the jobs the NATS backend kept into pending ones with their state
/// (dead ones are left out), as [`pending_of`] states.
pub fn load_pending_jobs(jobs: Vec<Job>, now: u64) -> (r: Vec<(Job, String)>)
    ensures
        r@.map_values(|p: (Job, String)| (p.0, p.1@)) == pending_of(jobs@, now),
{
    let ghost orig = jobs@;
    let mut rest = jobs;
    let mut out: Vec<(Job, String)> = Vec::new();
    let ghost mut done: int = 0;
    assert(orig.take(0) =~= Seq::<Job>::empty());
    assert(out@.map_values(|p: (Job, String)| (p.0, p.1@)) =~= pending_of(orig.take(0), now));
    while rest.len() > 0
        invariant
            0 <= done <= orig.len(),
            rest@ == orig.skip(done),
            out@.map_values(|p: (Job, String)| (p.0, p.1@)) == pending_of(orig.take(done), now),
        decreases rest.len(),
    {
        let ghost o = out@.map_values(|p: (Job, String)| (p.0, p.1@));
        let j = rest.remove(0);
        proof {
            assert(orig.skip(done)[0] == orig[done]);
            assert(j == orig[done]);
            assert(rest@ =~= orig.skip(done + 1));
            assert(orig.take(done + 1).drop_last() =~= orig.take(done));
            assert(orig.take(done + 1).last() == j);
        }
        let dead = j.max_attempts > 0 && j.attempts >= j.max_attempts;
        if !dead {
            let state = if j.started_at > 0 && j.completed_at == 0 {
                String::from_str("waiting")
            } else if j.run_at > now {
                String::from_str("delayed")
            } else if j.depends_on.len() > 0 {
                String::from_str("waiting_deps")
            } else {
                String::from_str("waiting")
            };
            let ghost sv = state@;
            let ghost jv = j;
            out.push((j, state));
            assert(out@.map_values(|p: (Job, String)| (p.0, p.1@)) =~= o.push((jv, sv)));
        }
        proof {
            done = done + 1;
        }
    }
    assert(orig.take(done) =~= orig);
    out
}

/// The dead jobs among the kept ones, in order.
pub fn load_dlq_jobs(jobs: Vec<Job>) -> (r: Vec<Job>)
    ensures
        r@ == jobs@.filter(|j: Job| is_dead(j)),
{
    let ghost orig = jobs@;
    let ghost dead = |j: Job| is_dead(j);
    let mut rest = jobs;
    let mut out: Vec<Job> = Vec::new();
    let ghost mut done: int = 0;
    proof {
        reveal(Seq::filter);
        assert(orig.take(0) =~= Seq::<Job>::empty());
    }
    while rest.len() > 0
        invariant
            0 <= done <= orig.len(),
            rest@ == orig.skip(done),
            out@ == orig.take(done).filter(dead),
            dead == (|j: Job| is_dead(j)),
        decreases rest.len(),
    {
        let j = rest.remove(0);
        proof {
            reveal(Seq::filter);
            assert(orig.skip(done)[0] == orig[done]);
            assert(j == orig[done]);
            assert(rest@ =~= orig.skip(done + 1));
            assert(orig.take(done + 1).drop_last() =~= orig.take(done));
            assert(orig.take(done + 1).last() == j);
        }
        if j.max_attempts > 0 && j.attempts >= j.max_attempts {
            out.push(j);
        }
        proof {
            done = done + 1;
        }
    }
    assert(orig.take(done) =~= orig);
    out
}

/// The largest ID of `s` (0 for none).
pub open spec fn max_id_of(s: Seq<Job>) -> u64
    decreases s.len(),
{
    if s.len() == 0 {
        0
    } else {
        let m = max_id_of(s.drop_last());
        if s.last().id > m { s.last().id } else { m }
    }
}

/// The largest ID of the kept jobs (0 for none).
pub fn get_max_job_id(jobs: &Vec<Job>) -> (r: u64)
    ensures
        r == max_id_of(jobs@),
{
    let mut m: u64 = 0;
    let mut i: usize = 0;
    while i < jobs.len()
        invariant
            i <= jobs@.len(),
            m == max_id_of(jobs@.take(i as int)),
        decreases jobs.len() - i,
    {
        proof {
            assert(jobs@.take(i + 1).drop_last() =~= jobs@.take(i as int));
        }
        if jobs[i].id > m {
            m = jobs[i].id;
        }
        i = i + 1;
    }
    assert(jobs@.take(i as int) =~= jobs@);
    m
}

/// The jobs of `pending` that go to `where_` (see [`placement`]), in order.
pub open spec fn placed(pending: Seq<(Job, Seq<char>)>, nats: bool, where_: Placement) -> Seq<Job>
    decreases pending.len(),
{
    if pending.len() == 0 {
        Seq::empty()
    } else {
        let rest = placed(pending.drop_last(), nats, where_);
        if placement(pending.last().1, nats) == where_ {
            rest.push(pending.last().0)
        } else {
            rest
        }
    }
}

/// The custom IDs after the jobs of `pending` register theirs, in order.
pub open spec fn registered(m: Map<Seq<char>, u64>, pending: Seq<(Job, Seq<char>)>) -> Map<Seq<char>, u64>
    decreases pending.len(),
{
    if pending.len() == 0 {
        m
    } else {
        let before = registered(m, pending.drop_last());
        match pending.last().0.custom_id {
            Some(c) => before.insert(c@, pending.last().0.id),
            None => before,
        }
    }
}

/// The cron jobs after `crons` are loaded by name, in order: a loaded job
/// replaces the one of the same name, else it is added.
pub open spec fn crons_loaded(cs: Seq<CronJob>, crons: Seq<CronJob>) -> Seq<CronJob>
    decreases crons.len(),
{
    if crons.len() == 0 {
        cs
    } else {
        let before = crons_loaded(cs, crons.drop_last());
        let c = crons.last();
        match cron_index(before, c.name@) {
            Some(i) => before.update(i, c),
            None => before.push(c),
        }
    }
}

/// The position of the first cron job named `name`.
pub open spec fn cron_index(cs: Seq<CronJob>, name: Seq<char>) -> Option<int>
    decreases cs.len(),
{
    if cs.len() == 0 {
        None
    } else {
        match cron_index(cs.drop_last(), name) {
            Some(i) => Some(i),
            None => if cs.last().name@ == name {
                Some(cs.len() - 1)
            } else {
                None
            },
        }
    }
}

pub proof fn lemma_cron_index(cs: Seq<CronJob>, name: Seq<char>)
    ensures
        cron_index(cs, name) matches Some(i) ==> 0 <= i < cs.len() && cs[i].name@ == name && forall|k: int| 0 <= k < i ==> cs[k].name@ != name,
        cron_index(cs, name) is None ==> forall|k: int| 0 <= k < cs.len() ==> cs[k].name@ != name,
    decreases cs.len(),
{
    if cs.len() > 0 {
        lemma_cron_index(cs.drop_last(), name);
        assert forall|k: int| 0 <= k < cs.len() - 1 implies cs.drop_last()[k] == cs[k] by {}
    }
}

/// Every job to be restored keeps the bookkeeping: distinct IDs below the
/// ID sequence `next`, created no later than `now`.
pub open spec fn restorable(jobs: Seq<Job>, next: u64, now: u64) -> bool {
    &&& crate::jobs_seq::ids_unique(jobs)
    &&& crate::jobs_seq::ids_below(jobs, next)
    &&& crate::manager::created_by(jobs, now)
}

/// The ID sequence after recovery with largest stored ID `max_id`.
pub open spec fn next_after(next: u64, max_id: u64) -> u64 {
    if max_id > 0 {
        (max_id + 1) as u64
    } else {
        next
    }
}

/// All the jobs a recovery restores: the pending ones it places, then the
/// dead ones.
pub open spec fn restored_jobs(pending: Seq<(Job, Seq<char>)>, dead: Seq<Job>, nats: bool) -> Seq<Job> {
    placed(pending, nats, Placement::Queue) + placed(pending, nats, Placement::Deps) + dead
}

/// Checks [`restorable`] for the jobs a recovery would restore.
pub fn can_restore(pending: &Vec<(Job, String)>, dead: &Vec<Job>, nats: bool, next: u64, now: u64) -> (r: bool)
    ensures
        r == restorable(restored_jobs(pending@.map_values(|p: (Job, String)| (p.0, p.1@)), dead@, nats), next, now),
{
    let ghost pv = pending@.map_values(|p: (Job, String)| (p.0, p.1@));
    let ghost all = restored_jobs(pv, dead@, nats);
    let mut ids: Vec<u64> = Vec::new();
    let mut ok = true;
    let mut pass: usize = 0;
    let ghost mut seen: Seq<Job> = Seq::empty();
    proof {
        assert(pending@.take(0).map_values(|p: (Job, String)| (p.0, p.1@)) =~= Seq::<(Job, Seq<char>)>::empty());
    }
    while pass < 3
        invariant
            pass <= 3,
            pv == pending@.map_values(|p: (Job, String)| (p.0, p.1@)),
            all == restored_jobs(pv, dead@, nats),
            ids@ == crate::jobs_seq::id_seq(seen),
            ok == restorable(seen, next, now),
            seen == if pass == 0 {
                Seq::<Job>::empty()
            } else if pass == 1 {
                placed(pv, nats, Placement::Queue)
            } else if pass == 2 {
                placed(pv, nats, Placement::Queue) + placed(pv, nats, Placement::Deps)
            } else {
                all
            },
        decreases 3 - pass,
    {
        if pass < 2 {
            let want = if pass == 0 { Placement::Queue } else { Placement::Deps };
            let ghost base = seen;
            let mut i: usize = 0;
            assert(pending@.take(0).map_values(|p: (Job, String)| (p.0, p.1@)) =~= Seq::<(Job, Seq<char>)>::empty());
            assert(base + placed(Seq::<(Job, Seq<char>)>::empty(), nats, want) =~= base);
            while i < pending.len()
                invariant
                    i <= pending@.len(),
                    pv == pending@.map_values(|p: (Job, String)| (p.0, p.1@)),
                    seen == base + placed(pv.take(i as int), nats, want),
                    ids@ == crate::jobs_seq::id_seq(seen),
                    ok == restorable(seen, next, now),
                decreases pending.len() - i,
            {
                proof {
                    assert(pv.take(i + 1).drop_last() =~= pv.take(i as int));
                    assert(pv.take(i + 1).last() == (pending@[i as int].0, pending@[i as int].1@));
                }
                let p = placement_of(pending[i].1.as_str(), nats);
                if p == want {
                    let ghost s0 = seen;
                    let j = &pending[i].0;
                    let fits = check_one(&ids, j, next, now);
                    ok = ok && fits;
                    ids.push(j.id);
                    proof {
                        seen = seen.push(*j);
                        lemma_restorable_push(s0, *j, next, now);
                        assert(crate::jobs_seq::id_seq(seen) =~= crate::jobs_seq::id_seq(s0).push(j.id));
                        assert(seen =~= base + placed(pv.take(i + 1), nats, want));
                    }
                }
                i = i + 1;
            }
            assert(pv.take(pending@.len() as int) =~= pv);
        } else {
            let ghost base = seen;
            let mut i: usize = 0;
            assert(base + dead@.take(0) =~= base);
            while i < dead.len()
                invariant
                    i <= dead@.len(),
                    seen == base + dead@.take(i as int),
                    ids@ == crate::jobs_seq::id_seq(seen),
                    ok == restorable(seen, next, now),
                decreases dead.len() - i,
            {
                let ghost s0 = seen;
                let j = &dead[i];
                let fits = check_one(&ids, j, next, now);
                ok = ok && fits;
                ids.push(j.id);
                proof {
                    seen = seen.push(*j);
                    lemma_restorable_push(s0, *j, next, now);
                    assert(crate::jobs_seq::id_seq(seen) =~= crate::jobs_seq::id_seq(s0).push(j.id));
                    assert(seen =~= base + dead@.take(i + 1));
                }
                i = i + 1;
            }
            assert(dead@.take(dead@.len() as int) =~= dead@);
        }
        pass = pass + 1;
    }
    ok
}

/// Whether `j` can join jobs with IDs `ids` (see [`restorable`]).
fn check_one(ids: &Vec<u64>, j: &Job, next: u64, now: u64) -> (r: bool)
    ensures
        r == (!ids@.contains(j.id) && j.id < next && j.created_at <= now),
{
    let mut k: usize = 0;
    while k < ids.len()
        invariant
            k <= ids@.len(),
            forall|x: int| 0 <= x < k ==> ids@[x] != j.id,
        decreases ids.len() - k,
    {
        if ids[k] == j.id {
            return false;
        }
        k = k + 1;
    }
    j.id < next && j.created_at <= now
}

proof fn lemma_restorable_push(s: Seq<Job>, j: Job, next: u64, now: u64)
    ensures
        restorable(s.push(j), next, now) == (restorable(s, next, now) && !crate::jobs_seq::id_seq(s).contains(j.id)
            && j.id < next && j.created_at <= now),
{
    let t = s.push(j);
    let ids = crate::jobs_seq::id_seq(s);
    assert(ids.contains(j.id) <==> crate::jobs_seq::has_id(s, j.id)) by {
        if ids.contains(j.id) {
            let k = choose|k: int| 0 <= k < ids.len() && ids[k] == j.id;
            assert(s[k].id == j.id);
        }
        if crate::jobs_seq::has_id(s, j.id) {
            let k = choose|k: int| 0 <= k < s.len() && s[k].id == j.id;
            assert(ids[k] == j.id);
        }
    }
    crate::jobs_seq::lemma_push_keeps(s, j, next);
    assert(t[s.len() as int] == j);
    if restorable(t, next, now) {
        assert forall|a: int, b: int| 0 <= a < s.len() && 0 <= b < s.len() && a != b implies s[a].id != s[b].id by {
            assert(t[a] == s[a] && t[b] == s[b]);
        }
        assert forall|a: int| 0 <= a < s.len() implies s[a].id < next && s[a].created_at <= now by {
            assert(t[a] == s[a]);
        }
        if crate::jobs_seq::has_id(s, j.id) {
            let k = choose|k: int| 0 <= k < s.len() && s[k].id == j.id;
            assert(t[k].id == t[s.len() as int].id);
        }
    }
    if restorable(s, next, now) && !crate::jobs_seq::has_id(s, j.id) && j.id < next && j.created_at <= now {
        assert forall|a: int| 0 <= a < t.len() implies t[a].created_at <= now by {
            if a < s.len() {
                assert(t[a] == s[a]);
            }
        }
    }
}

proof fn lemma_split_restorable(a: Seq<Job>, b: Seq<Job>, c: Seq<Job>, next: u64, now: u64)
    requires
        restorable(a + b + c, next, now),
    ensures
        crate::manager::jobs_wf(a, b, Seq::empty(), c, next, now),
{
    let ab = a + b;
    let all = ab + c;
    assert forall|i: int| 0 <= i < a.len() implies all[i] == a[i] by {
        assert(ab[i] == a[i]);
    }
    assert forall|i: int| 0 <= i < b.len() implies all[a.len() + i] == b[i] by {
        assert(ab[a.len() + i] == b[i]);
    }
    assert forall|i: int| 0 <= i < c.len() implies all[ab.len() + i] == c[i] by {}
    crate::jobs_seq::lemma_empty_facts(next);
    assert(crate::jobs_seq::ids_unique(a)) by {
        assert forall|i: int, k: int| 0 <= i < a.len() && 0 <= k < a.len() && i != k implies a[i].id != a[k].id by {
            assert(all[i] == a[i] && all[k] == a[k]);
        }
    }
    assert(crate::jobs_seq::ids_unique(b)) by {
        assert forall|i: int, k: int| 0 <= i < b.len() && 0 <= k < b.len() && i != k implies b[i].id != b[k].id by {
            assert(all[a.len() + i] == b[i] && all[a.len() + k] == b[k]);
        }
    }
    assert(crate::jobs_seq::ids_unique(c)) by {
        assert forall|i: int, k: int| 0 <= i < c.len() && 0 <= k < c.len() && i != k implies c[i].id != c[k].id by {
            assert(all[ab.len() + i] == c[i] && all[ab.len() + k] == c[k]);
        }
    }
    assert(crate::jobs_seq::ids_disjoint(a, b)) by {
        assert forall|i: int, k: int| 0 <= i < a.len() && 0 <= k < b.len() implies a[i].id != b[k].id by {
            assert(all[i] == a[i] && all[a.len() + k] == b[k]);
        }
    }
    assert(crate::jobs_seq::ids_disjoint(a, c)) by {
        assert forall|i: int, k: int| 0 <= i < a.len() && 0 <= k < c.len() implies a[i].id != c[k].id by {
            assert(all[i] == a[i] && all[ab.len() + k] == c[k]);
        }
    }
    assert(crate::jobs_seq::ids_disjoint(b, c)) by {
        assert forall|i: int, k: int| 0 <= i < b.len() && 0 <= k < c.len() implies b[i].id != c[k].id by {
            assert(all[a.len() + i] == b[i] && all[ab.len() + k] == c[k]);
        }
    }
    assert forall|i: int| 0 <= i < a.len() implies a[i].id < next && a[i].created_at <= now by {
        assert(all[i] == a[i]);
    }
    assert forall|i: int| 0 <= i < b.len() implies b[i].id < next && b[i].created_at <= now by {
        assert(all[a.len() + i] == b[i]);
    }
    assert forall|i: int| 0 <= i < c.len() implies c[i].id < next && c[i].created_at <= now by {
        assert(all[ab.len() + i] == c[i]);
    }
}

/// Loads cron job `c` by name into `cs` (see [`crons_loaded`]).
pub(crate) fn upsert_cron(cs: &mut Vec<CronJob>, c: CronJob)
    ensures
        final(cs)@ == match cron_index(old(cs)@, c.name@) {
            Some(i) => old(cs)@.update(i, c),
            None => old(cs)@.push(c),
        },
{
    proof {
        lemma_cron_index(cs@, c.name@);
    }
    match find_cron(cs, &c.name) {
        Some(x) => {
            cs.set(x, c);
        },
        None => {
            cs.push(c);
        },
    }
}

/// The position of the first cron job named `name` (see [`cron_index`]).
pub(crate) fn find_cron(cs: &Vec<CronJob>, name: &String) -> (r: Option<usize>)
    ensures
        match r {
            Some(x) => cron_index(cs@, name@) == Some(x as int),
            None => cron_index(cs@, name@) is None,
        },
{
    proof {
        lemma_cron_index(cs@, name@);
    }
    let mut i: usize = 0;
    while i < cs.len()
        invariant
            i <= cs@.len(),
            forall|k: int| 0 <= k < i ==> cs@[k].name@ != name@,
            cron_index(cs@, name@) matches Some(x) ==> 0 <= x < cs@.len() && cs@[x].name@ == name@ && forall|k: int| 0 <= k < x ==> cs@[k].name@ != name@,
            cron_index(cs@, name@) is None ==> forall|k: int| 0 <= k < cs@.len() ==> cs@[k].name@ != name@,
        decreases cs.len() - i,
    {
        if cs[i].name == *name {
            proof {
                match cron_index(cs@, name@) {
                    Some(y) => {
                        if y < i {
                        } else if y > i {
                            assert(cs@[i as int].name@ != name@);
                        }
                    },
                    None => {
                        assert(cs@[i as int].name@ != name@);
                    },
                }
            }
            return Some(i);
        }
        i = i + 1;
    }
    None
}

impl QueueManager {
    /// Rebuilds the queues of a manager that holds no job yet from what a
    /// storage backend kept: the ID sequence continues after `max_id` (when
    /// it is not 0); each pending job goes where its stored state says (see
    /// [`placement`]), in order; the dead jobs go to the dead letter queue;
    /// the cron jobs are loaded by name; with the NATS backend (`nats`)
    /// every pending job's custom ID is registered. Returns how many
    /// pending jobs were placed. The jobs must keep the bookkeeping (see
    /// [`can_restore`]).
    pub fn restore(&mut self, max_id: u64, pending: Vec<(Job, String)>, dead: Vec<Job>, crons: Vec<CronJob>, nats: bool, now: u64) -> (r: usize)
        requires
            old(self).wf(),
            old(self).clock <= now <= MAX_TIME,
            max_id < u64::MAX,
            old(self).waiting@.len() == 0,
            old(self).waiting_deps@.len() == 0,
            old(self).processing@.len() == 0,
            old(self).dlq@.len() == 0,
            restorable(
                restored_jobs(pending@.map_values(|p: (Job, String)| (p.0, p.1@)), dead@, nats),
                next_after(old(self).next_id, max_id),
                now,
            ),
        ensures
            final(self).wf(),
            ({
                let pv = pending@.map_values(|p: (Job, String)| (p.0, p.1@));
                &&& final(self).waiting@ == placed(pv, nats, Placement::Queue)
                &&& final(self).waiting_deps@ == placed(pv, nats, Placement::Deps)
                &&& r == placed(pv, nats, Placement::Queue).len() + placed(pv, nats, Placement::Deps).len()
                &&& nats ==> final(self).custom_ids@ == registered(old(self).custom_ids@, pv)
            }),
            !nats ==> final(self).custom_ids == old(self).custom_ids,
            final(self).dlq@ == dead@,
            final(self).processing@.len() == 0,
            final(self).next_id == next_after(old(self).next_id, max_id),
            final(self).cron_jobs@ == crons_loaded(old(self).cron_jobs@, crons@),
            final(self).clock == now,
    {
        let ghost pv = pending@.map_values(|p: (Job, String)| (p.0, p.1@));
        let ghost c0 = self.custom_ids@;
        let ghost pre = *self;
        let total = pending.len();
        let mut rest = pending;
        let ghost orig = rest@;
        let ghost mut done: int = 0;
        let mut count: usize = 0;
        let mut queued: Vec<Job> = Vec::new();
        let mut held: Vec<Job> = Vec::new();
        let mut ids = crate::tables::IdsByName::new();
        std::mem::swap(&mut ids, &mut self.custom_ids);
        proof {
            assert(orig.take(0) =~= Seq::<(Job, String)>::empty());
            assert(orig.take(0).map_values(|p: (Job, String)| (p.0, p.1@)) =~= Seq::<(Job, Seq<char>)>::empty());
            assert(pv.take(0) =~= Seq::<(Job, Seq<char>)>::empty());
        }
        while rest.len() > 0
            invariant
                0 <= done <= orig.len(),
                rest@ == orig.skip(done),
                pv == orig.map_values(|p: (Job, String)| (p.0, p.1@)),
                queued@ == placed(pv.take(done), nats, Placement::Queue),
                held@ == placed(pv.take(done), nats, Placement::Deps),
                count == queued@.len() + held@.len(),
                count <= done,
                orig.len() == total,
                nats ==> ids@ == registered(c0, pv.take(done)),
                !nats ==> ids == pre.custom_ids,
            decreases rest.len(),
        {
            let (job, state) = rest.remove(0);
            proof {
                assert(orig.skip(done)[0] == orig[done]);
                assert(rest@ =~= orig.skip(done + 1));
                assert(pv.take(done + 1).drop_last() =~= pv.take(done));
                assert(pv.take(done + 1).last() == (job, state@));
            }
            if nats {
                match &job.custom_id {
                    Some(c) => {
                        ids.insert(c.clone(), job.id);
                    },
                    None => {},
                }
            }
            let p = placement_of(state.as_str(), nats);
            if p == Placement::Queue {
                queued.push(job);
                count = count + 1;
            } else if p == Placement::Deps {
                held.push(job);
                count = count + 1;
            }
            proof {
                done = done + 1;
            }
        }
        proof {
            assert(pv.take(done) =~= pv);
        }
        let mut table: Vec<CronJob> = Vec::new();
        std::mem::swap(&mut table, &mut self.cron_jobs);
        let mut cs = crons;
        let ghost corig = cs@;
        let ghost mut cdone: int = 0;
        let ghost cr0 = table@;
        assert(corig.take(0) =~= Seq::<CronJob>::empty());
        while cs.len() > 0
            invariant
                0 <= cdone <= corig.len(),
                cs@ == corig.skip(cdone),
                table@ == crons_loaded(cr0, corig.take(cdone)),
            decreases cs.len(),
        {
            let c = cs.remove(0);
            proof {
                assert(corig.skip(cdone)[0] == corig[cdone]);
                assert(cs@ =~= corig.skip(cdone + 1));
                assert(corig.take(cdone + 1).drop_last() =~= corig.take(cdone));
                assert(corig.take(cdone + 1).last() == c);
            }
            upsert_cron(&mut table, c);
            proof {
                cdone = cdone + 1;
            }
        }
        proof {
            assert(corig.take(cdone) =~= corig);
        }
        let ghost dv = dead@;
        if max_id > 0 {
            self.next_id = max_id + 1;
        }
        self.clock = now;
        self.waiting = queued;
        self.waiting_deps = held;
        self.dlq = dead;
        self.custom_ids = ids;
        self.cron_jobs = table;
        proof {
            assert(self.waiting@ + self.waiting_deps@ + self.dlq@ == restored_jobs(pv, dv, nats));
            lemma_split_restorable(self.waiting@, self.waiting_deps@, self.dlq@, self.next_id, now);
            assert(self.processing@ =~= Seq::<Job>::empty());
        }
        count
    }

    /// [`QueueManager::restore`] when what it needs holds: the manager holds
    /// no job, `max_id` leaves room for the ID sequence and the stored jobs
    /// keep the bookkeeping (see [`can_restore`]). Then the recovery runs
    /// and its count comes back; otherwise `None`, and nothing changes.
    pub fn restore_checked(&mut self, max_id: u64, pending: Vec<(Job, String)>, dead: Vec<Job>, crons: Vec<CronJob>, nats: bool, now: u64) -> (r: Option<usize>)
        requires
            old(self).wf(),
            old(self).clock <= now <= MAX_TIME,
        ensures
            final(self).wf(),
            ({
                let pv = pending@.map_values(|p: (Job, String)| (p.0, p.1@));
                let ok = max_id < u64::MAX && old(self).waiting@.len() == 0 && old(self).waiting_deps@.len() == 0
                    && old(self).processing@.len() == 0 && old(self).dlq@.len() == 0
                    && restorable(restored_jobs(pv, dead@, nats), next_after(old(self).next_id, max_id), now);
                &&& (r is Some <==> ok)
                &&& !ok ==> *final(self) == *old(self)
                &&& r matches Some(n) ==> {
                    &&& final(self).waiting@ == placed(pv, nats, Placement::Queue)
                    &&& final(self).waiting_deps@ == placed(pv, nats, Placement::Deps)
                    &&& n == placed(pv, nats, Placement::Queue).len() + placed(pv, nats, Placement::Deps).len()
                    &&& (nats ==> final(self).custom_ids@ == registered(old(self).custom_ids@, pv))
                    &&& (!nats ==> final(self).custom_ids == old(self).custom_ids)
                    &&& final(self).dlq@ == dead@
                    &&& final(self).processing@.len() == 0
                    &&& final(self).next_id == next_after(old(self).next_id, max_id)
                    &&& final(self).cron_jobs@ == crons_loaded(old(self).cron_jobs@, crons@)
                    &&& final(self).clock == now
                }
            }),
    {
        if max_id == u64::MAX || self.waiting.len() > 0 || self.waiting_deps.len() > 0 || self.processing.len() > 0
            || self.dlq.len() > 0 {
            return None;
        }
        let next = if max_id > 0 { max_id + 1 } else { self.next_id };
        if !can_restore(&pending, &dead, nats, next, now) {
            return None;
        }
        Some(self.restore(max_id, pending, dead, crons, nats, now))
    }
}

} // verus!
