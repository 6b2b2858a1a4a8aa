//! Taking ready jobs off a queue, best-ranked first.
use vstd::prelude::*;
use crate::job::Job;
use crate::order::job_outranks;

verus! {

/// Index of the best-ranked job of queue `q` among the first `n` jobs of
/// `s`, or -1 when there is none. Ties cannot arise between distinct IDs;
/// the scan keeps the earlier job unless a later one outranks it.
pub open spec fn best_upto(s: Seq<Job>, q: Seq<char>, n: nat) -> int
    decreases n,
{
    if n == 0 {
        -1
    } else {
        let b = best_upto(s, q, (n - 1) as nat);
        let k = n - 1;
        if s[k].queue@ == q && (b < 0 || crate::order::outranks(s[k], s[b])) {
            k
        } else {
            b
        }
    }
}

pub proof fn lemma_best_upto_range(s: Seq<Job>, q: Seq<char>, n: nat)
    requires
        n <= s.len(),
    ensures
        -1 <= best_upto(s, q, n) < n,
        best_upto(s, q, n) >= 0 ==> s[best_upto(s, q, n)].queue@ == q,
        best_upto(s, q, n) < 0 ==> forall|k: int| 0 <= k < n ==> s[k].queue@ != q,
    decreases n,
{
    if n > 0 {
        lemma_best_upto_range(s, q, (n - 1) as nat);
    }
}

/// The group of `j` is in `groups` (by value).
pub open spec fn group_in(j: Job, groups: Seq<Seq<char>>) -> bool {
    match j.group_id {
        Some(g) => groups.contains(g@),
        None => false,
    }
}

/// The group of `j` is in the set `groups`.
pub open spec fn group_in_set(j: Job, groups: Set<Seq<char>>) -> bool {
    match j.group_id {
        Some(g) => groups.contains(g@),
        None => false,
    }
}

/// `j` as handed to a worker at `now`.
pub open spec fn started(j: Job, now: u64) -> Job {
    Job { started_at: now, last_heartbeat: now, ..j }
}

/// The groups of `taken` jobs, added to `newly`.
pub open spec fn add_group(newly: Seq<Seq<char>>, j: Job) -> Seq<Seq<char>> {
    match j.group_id {
        Some(g) => newly.push(g@),
        None => newly,
    }
}

/// Result of taking jobs: what stays in the pool, what was taken, and what
/// was set aside because its group is busy.
pub struct Selection {
    pub pool: Seq<Job>,
    pub taken: Seq<Job>,
    pub skipped: Seq<Job>,
    pub newly: Seq<Seq<char>>,
}

/// Repeatedly takes the best-ranked job of queue `q` from `pool`: expired
/// jobs are dropped, ready jobs whose group is busy (in `active` or taken
/// earlier in this call) are set aside, other ready jobs are taken and
/// stamped with `now`; the first job that is not ready yet goes back and
/// ends the search, as does reaching `max` taken jobs or an empty queue.
pub open spec fn select_loop(
    pool: Seq<Job>,
    taken: Seq<Job>,
    skipped: Seq<Job>,
    newly: Seq<Seq<char>>,
    active: Set<Seq<char>>,
    q: Seq<char>,
    max: nat,
    now: u64,
) -> Selection
    decreases pool.len(),
{
    if taken.len() >= max {
        Selection { pool, taken, skipped, newly }
    } else {
        let b = best_upto(pool, q, pool.len());
        if b < 0 || b >= pool.len() {
            Selection { pool, taken, skipped, newly }
        } else {
            let j = pool[b];
            let rest = pool.remove(b);
            if j.spec_is_expired(now) {
                select_loop(rest, taken, skipped, newly, active, q, max, now)
            } else if j.spec_is_ready(now) {
                if group_in_set(j, active) || group_in(j, newly) {
                    select_loop(rest, taken, skipped.push(j), newly, active, q, max, now)
                } else {
                    select_loop(
                        rest,
                        taken.push(started(j, now)),
                        skipped,
                        add_group(newly, j),
                        active,
                        q,
                        max,
                        now,
                    )
                }
            } else {
                Selection { pool: rest.push(j), taken, skipped, newly }
            }
        }
    }
}

/// Takes up to `max` jobs of queue `q` from `waiting` (see [`select_loop`]);
/// set-aside jobs return to the end of the waiting list.
pub open spec fn select_jobs(
    waiting: Seq<Job>,
    active: Set<Seq<char>>,
    q: Seq<char>,
    max: nat,
    now: u64,
) -> (Seq<Job>, Seq<Job>) {
    let s = select_loop(waiting, Seq::empty(), Seq::empty(), Seq::empty(), active, q, max, now);
    (s.pool + s.skipped, s.taken)
}

/// Whether a group value is in a list of strings.
pub fn strings_contain(v: &Vec<String>, g: &String) -> (r: bool)
    ensures
        r == crate::job::strings_view(v@).contains(g@),
{
    let mut i: usize = 0;
    while i < v.len()
        invariant
            i <= v.len(),
            forall|k: int| 0 <= k < i ==> v@[k]@ != g@,
        decreases v.len() - i,
    {
        if v[i] == *g {
            assert(crate::job::strings_view(v@)[i as int] == g@);
            return true;
        }
        i = i + 1;
    }
    proof {
        if crate::job::strings_view(v@).contains(g@) {
            let k = choose|k: int|
                0 <= k < crate::job::strings_view(v@).len() && crate::job::strings_view(v@)[k] == g@;
            assert(v@[k]@ == g@);
        }
    }
    false
}

/// Index of the best-ranked job of queue `q` in `s`.
pub fn best_index(s: &Vec<Job>, q: &String) -> (r: Option<usize>)
    ensures
        match r {
            Some(i) => i as int == best_upto(s@, q@, s@.len()) && i < s@.len(),
            None => best_upto(s@, q@, s@.len()) < 0,
        },
{
    let mut best: Option<usize> = None;
    let mut i: usize = 0;
    while i < s.len()
        invariant
            i <= s.len(),
            match best {
                Some(b) => b as int == best_upto(s@, q@, i as nat) && b < i,
                None => best_upto(s@, q@, i as nat) < 0,
            },
        decreases s.len() - i,
    {
        if s[i].queue == *q {
            match best {
                Some(b) => {
                    if job_outranks(&s[i], &s[b]) {
                        best = Some(i);
                    }
                },
                None => {
                    best = Some(i);
                },
            }
        }
        i = i + 1;
    }
    best
}

/// Whether the job's group is in `a` or `b`.
fn group_busy(j: &Job, a: &Vec<String>, b: &Vec<String>) -> (r: bool)
    ensures
        r == (group_in_set(*j, crate::job::strings_view(a@).to_set()) || group_in(*j, crate::job::strings_view(b@))),
{
    match &j.group_id {
        Some(g) => strings_contain(a, g) || strings_contain(b, g),
        None => false,
    }
}

/// Takes up to `max` jobs of queue `q` off `waiting`, as [`select_jobs`]
/// states; `active` holds the queue's busy groups. Returns the taken jobs.
pub fn take_ready_jobs(
    waiting: &mut Vec<Job>,
    active: &Vec<String>,
    q: &String,
    max: usize,
    now: u64,
) -> (taken: Vec<Job>)
    ensures
        (final(waiting)@, taken@) == select_jobs(
            old(waiting)@,
            crate::job::strings_view(active@).to_set(),
            q@,
            max as nat,
            now,
        ),
{
    let ghost act = crate::job::strings_view(active@).to_set();
    let ghost target = select_loop(old(waiting)@, Seq::empty(), Seq::empty(), Seq::empty(), act, q@, max as nat, now);
    let mut taken: Vec<Job> = Vec::new();
    let mut skipped: Vec<Job> = Vec::new();
    let mut newly: Vec<String> = Vec::new();
    assert(crate::job::strings_view(newly@) =~= Seq::<Seq<char>>::empty());
    assert(taken@ =~= Seq::<Job>::empty());
    assert(skipped@ =~= Seq::<Job>::empty());
    loop
        invariant_except_break
            select_loop(waiting@, taken@, skipped@, crate::job::strings_view(newly@), act, q@, max as nat, now)
                == target,
        invariant
            act == crate::job::strings_view(active@).to_set(),
        ensures
            (Selection {
                pool: waiting@,
                taken: taken@,
                skipped: skipped@,
                newly: crate::job::strings_view(newly@),
            }) == target,
        decreases waiting@.len(),
    {
        if taken.len() >= max {
            break;
        }
        let b = best_index(waiting, q);
        match b {
            None => {
                break;
            },
            Some(i) => {
                let ghost before = waiting@;
                let ghost prev_newly = crate::job::strings_view(newly@);
                let mut job = waiting.remove(i);
                assert(job == before[i as int]);
                if job.is_expired(now) {
                    // An expired job is dropped.
                } else if job.is_ready(now) {
                    if group_busy(&job, active, &newly) {
                        skipped.push(job);
                    } else {
                        match &job.group_id {
                            Some(g) => {
                                let gc = g.clone();
                                newly.push(gc);
                                assert(crate::job::strings_view(newly@) =~= prev_newly.push(g@));
                            },
                            None => {},
                        }
                        assert(crate::job::strings_view(newly@) == add_group(prev_newly, job));
                        job.started_at = now;
                        job.last_heartbeat = now;
                        taken.push(job);
                    }
                } else {
                    waiting.push(job);
                    break;
                }
            },
        }
    }
    waiting.append(&mut skipped);
    taken
}

} // verus!
