//! The job browser: every job with its state, filtered, newest first.
use vstd::prelude::*;
use crate::job::{Job, JobBrowserItem, JobState, JobView};
use crate::manager::{CompletedJob, QueueManager};

verus! {

/// A browser row as a value.
pub open spec fn item_view(b: JobBrowserItem) -> (JobView, JobState) {
    (b.job@, b.state)
}

pub open spec fn items_view(v: Seq<JobBrowserItem>) -> Seq<(JobView, JobState)> {
    v.map_values(|b: JobBrowserItem| item_view(b))
}

/// The state of a queued job at `now`: delayed until its run time.
pub open spec fn queued_state(j: Job, now: u64) -> JobState {
    if j.run_at > now {
        JobState::Delayed
    } else {
        JobState::Waiting
    }
}

/// A row passes the queue filter `qf` and the state filter `sf`.
pub open spec fn passes(q: Seq<char>, st: JobState, qf: Option<Seq<char>>, sf: Option<JobState>) -> bool {
    &&& match qf {
        Some(f) => q == f,
        None => true,
    }
    &&& match sf {
        Some(s) => s == st,
        None => true,
    }
}

/// The rows of the jobs of `s` that pass the filters, in order; each job's
/// state is `fixed`, or its queued state at `now` without one.
pub open spec fn pick(s: Seq<Job>, fixed: Option<JobState>, now: u64, qf: Option<Seq<char>>, sf: Option<JobState>) -> Seq<(JobView, JobState)>
    decreases s.len(),
{
    if s.len() == 0 {
        Seq::empty()
    } else {
        let j = s.last();
        let st = match fixed {
            Some(f) => f,
            None => queued_state(j, now),
        };
        let rest = pick(s.drop_last(), fixed, now, qf, sf);
        if passes(j.queue@, st, qf, sf) {
            rest.push((j@, st))
        } else {
            rest
        }
    }
}

/// The rows of the completed jobs of `s` that pass the queue filter.
pub open spec fn pick_completed(s: Seq<CompletedJob>, qf: Option<Seq<char>>) -> Seq<(JobView, JobState)>
    decreases s.len(),
{
    if s.len() == 0 {
        Seq::empty()
    } else {
        let j = s.last().job;
        let rest = pick_completed(s.drop_last(), qf);
        if passes(j.queue@, JobState::Completed, qf, None) {
            rest.push((j@, JobState::Completed))
        } else {
            rest
        }
    }
}

/// `x` placed into the newest-first list `s`: after every row at least as
/// new, before the older ones.
pub open spec fn insert_desc(s: Seq<(JobView, JobState)>, x: (JobView, JobState)) -> Seq<(JobView, JobState)>
    decreases s.len(),
{
    if s.len() == 0 {
        seq![x]
    } else if s.last().0.created_at >= x.0.created_at {
        s.push(x)
    } else {
        insert_desc(s.drop_last(), x).push(s.last())
    }
}

/// `s` sorted newest first; rows created at the same time keep their order.
pub open spec fn sort_desc(s: Seq<(JobView, JobState)>) -> Seq<(JobView, JobState)>
    decreases s.len(),
{
    if s.len() == 0 {
        s
    } else {
        insert_desc(sort_desc(s.drop_last()), s.last())
    }
}

/// At most `limit` rows of `s` after the first `offset`.
pub open spec fn page<A>(s: Seq<A>, offset: nat, limit: nat) -> Seq<A> {
    if offset >= s.len() {
        Seq::empty()
    } else if s.len() - offset <= limit {
        s.skip(offset as int)
    } else {
        s.subrange(offset as int, (offset + limit) as int)
    }
}

/// Every row of the browser before paging: queued jobs, dead jobs,
/// dependency-waiting jobs, running jobs, then completed jobs (when the
/// state filter allows them).
pub open spec fn browse_rows(m: QueueManager, qf: Option<Seq<char>>, sf: Option<JobState>, now: u64) -> Seq<(JobView, JobState)> {
    pick(m.waiting@, None, now, qf, sf) + pick(m.dlq@, Some(JobState::Failed), now, qf, sf) + pick(
        m.waiting_deps@,
        Some(JobState::WaitingChildren),
        now,
        qf,
        sf,
    ) + pick(m.processing@, Some(JobState::Active), now, qf, sf) + if sf is None || sf == Some(JobState::Completed) {
        pick_completed(m.completed_data@, qf)
    } else {
        Seq::empty()
    }
}

/// Where `x` goes in `s` is the index form of [`insert_desc`].
proof fn lemma_insert_desc(s: Seq<(JobView, JobState)>, x: (JobView, JobState), k: int)
    requires
        0 <= k <= s.len(),
        forall|m: int| k <= m < s.len() ==> s[m].0.created_at < x.0.created_at,
        k == 0 || s[k - 1].0.created_at >= x.0.created_at,
    ensures
        insert_desc(s, x) == s.insert(k, x),
    decreases s.len(),
{
    if s.len() == 0 {
        assert(s.insert(k, x) =~= seq![x]);
    } else if s.last().0.created_at >= x.0.created_at {
        assert(k == s.len());
        assert(s.insert(k, x) =~= s.push(x));
    } else {
        lemma_insert_desc(s.drop_last(), x, k);
        assert(s.drop_last().insert(k, x).push(s.last()) =~= s.insert(k, x));
    }
}

/// The browser rows of `s` (see [`pick`]) added to `out`.
fn collect_rows(out: &mut Vec<JobBrowserItem>, s: &Vec<Job>, fixed: Option<JobState>, now: u64, qf: &Option<String>, sf: Option<JobState>)
    ensures
        items_view(final(out)@) == items_view(old(out)@) + pick(s@, fixed, now, crate::job::opt_view(*qf), sf),
{
    let ghost o = items_view(out@);
    let ghost qv = crate::job::opt_view(*qf);
    let mut i: usize = 0;
    assert(s@.take(0) =~= Seq::<Job>::empty());
    assert(items_view(out@) =~= o + pick(s@.take(0), fixed, now, qv, sf));
    while i < s.len()
        invariant
            i <= s@.len(),
            qv == crate::job::opt_view(*qf),
            items_view(out@) == o + pick(s@.take(i as int), fixed, now, qv, sf),
        decreases s.len() - i,
    {
        let j = &s[i];
        let st = match fixed {
            Some(f) => f,
            None => if j.run_at > now {
                JobState::Delayed
            } else {
                JobState::Waiting
            },
        };
        let q_ok = match qf {
            Some(f) => j.queue == *f,
            None => true,
        };
        let s_ok = match sf {
            Some(x) => x == st,
            None => true,
        };
        proof {
            assert(s@.take(i + 1).drop_last() =~= s@.take(i as int));
            assert(s@.take(i + 1).last() == *j);
        }
        if q_ok && s_ok {
            let ghost before = out@;
            out.push(JobBrowserItem { job: j.duplicate(), state: st });
            assert(items_view(out@) =~= items_view(before).push((j@, st)));
        }
        i = i + 1;
    }
    assert(s@.take(i as int) =~= s@);
}

/// The browser rows of the completed jobs `s` added to `out`.
fn collect_completed(out: &mut Vec<JobBrowserItem>, s: &Vec<CompletedJob>, qf: &Option<String>)
    ensures
        items_view(final(out)@) == items_view(old(out)@) + pick_completed(s@, crate::job::opt_view(*qf)),
{
    let ghost o = items_view(out@);
    let ghost qv = crate::job::opt_view(*qf);
    let mut i: usize = 0;
    assert(s@.take(0) =~= Seq::<CompletedJob>::empty());
    assert(items_view(out@) =~= o + pick_completed(s@.take(0), qv));
    while i < s.len()
        invariant
            i <= s@.len(),
            qv == crate::job::opt_view(*qf),
            items_view(out@) == o + pick_completed(s@.take(i as int), qv),
        decreases s.len() - i,
    {
        let j = &s[i].job;
        let q_ok = match qf {
            Some(f) => j.queue == *f,
            None => true,
        };
        proof {
            assert(s@.take(i + 1).drop_last() =~= s@.take(i as int));
            assert(s@.take(i + 1).last().job == *j);
        }
        if q_ok {
            let ghost before = out@;
            out.push(JobBrowserItem { job: j.duplicate(), state: JobState::Completed });
            assert(items_view(out@) =~= items_view(before).push((j@, JobState::Completed)));
        }
        i = i + 1;
    }
    assert(s@.take(i as int) =~= s@);
}

/// The rows of `v` sorted newest first, as [`sort_desc`] states.
fn sort_rows(v: Vec<JobBrowserItem>) -> (r: Vec<JobBrowserItem>)
    ensures
        items_view(r@) == sort_desc(items_view(v@)),
{
    let ghost orig = items_view(v@);
    let mut sorted: Vec<JobBrowserItem> = Vec::new();
    let mut rest = v;
    let ghost mut done: int = 0;
    assert(orig.take(0) =~= Seq::<(JobView, JobState)>::empty());
    assert(items_view(sorted@) =~= Seq::<(JobView, JobState)>::empty());
    while rest.len() > 0
        invariant
            0 <= done <= orig.len(),
            items_view(rest@) == orig.skip(done),
            items_view(sorted@) == sort_desc(orig.take(done)),
        decreases rest.len(),
    {
        let ghost r0 = rest@;
        let item = rest.remove(0);
        proof {
            assert(items_view(r0).len() == r0.len());
            assert(items_view(r0)[0] == item_view(item));
            assert(orig.skip(done)[0] == orig[done]);
            assert(orig[done] == item_view(item));
            assert(items_view(rest@) =~= items_view(r0).skip(1));
            assert(orig.skip(done).skip(1) =~= orig.skip(done + 1));
            assert(items_view(rest@) =~= orig.skip(done + 1));
            assert(orig.take(done + 1).drop_last() =~= orig.take(done));
        }
        let ghost s0 = items_view(sorted@);
        let c = item.job.created_at;
        let mut k: usize = sorted.len();
        while k > 0 && sorted[k - 1].job.created_at < c
            invariant
                k <= sorted@.len(),
                items_view(sorted@) == s0,
                forall|m: int| k <= m < s0.len() ==> s0[m].0.created_at < c,
            decreases k,
        {
            k = k - 1;
        }
        proof {
            lemma_insert_desc(s0, item_view(item), k as int);
        }
        let ghost sv = sorted@;
        sorted.insert(k, item);
        assert(items_view(sorted@) =~= s0.insert(k as int, item_view(item)));
        proof {
            done = done + 1;
        }
    }
    assert(orig.take(done) =~= orig);
    sorted
}

impl QueueManager {
    /// The job browser at `now`: every queued (waiting or delayed), dead,
    /// dependency-waiting, running and completed job of queue `queue_filter`
    /// (all queues without one) and of state `state_filter` (all states
    /// without one), newest first, at most `limit` rows after the first
    /// `offset`.
    pub fn list_jobs(&self, queue_filter: Option<&str>, state_filter: Option<JobState>, limit: usize, offset: usize, now: u64) -> (r: Vec<JobBrowserItem>)
        ensures
            items_view(r@) == page(
                sort_desc(browse_rows(*self, match queue_filter {
                    Some(f) => Some(f@),
                    None => None,
                }, state_filter, now)),
                offset as nat,
                limit as nat,
            ),
    {
        let qf: Option<String> = match queue_filter {
            Some(f) => Some(f.to_owned()),
            None => None,
        };
        let mut rows: Vec<JobBrowserItem> = Vec::new();
        collect_rows(&mut rows, &self.waiting, None, now, &qf, state_filter);
        collect_rows(&mut rows, &self.dlq, Some(JobState::Failed), now, &qf, state_filter);
        collect_rows(&mut rows, &self.waiting_deps, Some(JobState::WaitingChildren), now, &qf, state_filter);
        collect_rows(&mut rows, &self.processing, Some(JobState::Active), now, &qf, state_filter);
        let with_completed = match state_filter {
            None => true,
            Some(s) => s == JobState::Completed,
        };
        if with_completed {
            collect_completed(&mut rows, &self.completed_data, &qf);
        } else {
            assert(items_view(rows@) =~= items_view(rows@) + Seq::<(JobView, JobState)>::empty());
        }
        let sorted = sort_rows(rows);
        let ghost all = items_view(sorted@);
        let n = sorted.len();
        let mut out: Vec<JobBrowserItem> = Vec::new();
        if offset >= n {
            assert(items_view(out@) =~= page(all, offset as nat, limit as nat));
            return out;
        }
        let end = if n - offset <= limit { n } else { offset + limit };
        let mut sorted = sorted;
        let mut tail = sorted.split_off(offset);
        let _rest = tail.split_off(end - offset);
        assert(items_view(tail@) =~= page(all, offset as nat, limit as nat));
        tail
    }
}

/// Rows newest first.
pub open spec fn newest_first(s: Seq<(JobView, JobState)>) -> bool {
    forall|i: int, k: int| 0 <= i < k < s.len() ==> s[i].0.created_at >= s[k].0.created_at
}

proof fn lemma_insert_desc_sorted(s: Seq<(JobView, JobState)>, x: (JobView, JobState))
    requires
        newest_first(s),
    ensures
        newest_first(insert_desc(s, x)),
        insert_desc(s, x).to_multiset() == s.to_multiset().insert(x),
        insert_desc(s, x).len() == s.len() + 1,
        forall|i: int| 0 <= i < insert_desc(s, x).len() ==> (#[trigger] insert_desc(s, x)[i] == x || s.contains(insert_desc(s, x)[i])),
    decreases s.len(),
{
    broadcast use vstd::seq_lib::group_to_multiset_ensures;
    if s.len() == 0 {
        assert(seq![x] =~= Seq::<(JobView, JobState)>::empty().push(x));
    } else if s.last().0.created_at >= x.0.created_at {
        let t = s.push(x);
        assert forall|i: int, k: int| 0 <= i < k < t.len() implies t[i].0.created_at >= t[k].0.created_at by {
            if k == s.len() {
                if i < s.len() - 1 {
                    assert(s[i].0.created_at >= s[s.len() - 1].0.created_at);
                }
            }
        }
        assert forall|i: int| 0 <= i < t.len() implies (#[trigger] t[i] == x || s.contains(t[i])) by {
            if i < s.len() {
                assert(t[i] == s[i]);
            }
        }
    } else {
        let d = s.drop_last();
        assert forall|i: int, k: int| 0 <= i < k < d.len() implies d[i].0.created_at >= d[k].0.created_at by {
            assert(d[i] == s[i] && d[k] == s[k]);
        }
        lemma_insert_desc_sorted(d, x);
        let u = insert_desc(d, x);
        let t = u.push(s.last());
        assert forall|i: int| 0 <= i < u.len() implies (#[trigger] u[i]).0.created_at >= s.last().0.created_at by {
            if u[i] == x {
            } else {
                let m = choose|m: int| 0 <= m < d.len() && d[m] == u[i];
                assert(d[m] == s[m]);
                assert(s[m].0.created_at >= s[s.len() - 1].0.created_at);
            }
        }
        assert forall|i: int, k: int| 0 <= i < k < t.len() implies t[i].0.created_at >= t[k].0.created_at by {
            if k == u.len() {
                assert(t[i] == u[i]);
            } else {
                assert(t[i] == u[i] && t[k] == u[k]);
            }
        }
        assert(s =~= d.push(s.last()));
        assert forall|i: int| 0 <= i < t.len() implies (#[trigger] t[i] == x || s.contains(t[i])) by {
            if i < u.len() {
                assert(t[i] == u[i]);
                if u[i] != x {
                    let m = choose|m: int| 0 <= m < d.len() && d[m] == u[i];
                    assert(s[m] == d[m]);
                }
            } else {
                assert(t[i] == s[s.len() - 1]);
            }
        }
    }
}

/// The job browser's order: sorting gives the rows newest first, and the
/// same rows (as a multiset).
pub proof fn law_browse_newest_first(s: Seq<(JobView, JobState)>)
    ensures
        newest_first(sort_desc(s)),
        sort_desc(s).to_multiset() == s.to_multiset(),
    decreases s.len(),
{
    broadcast use vstd::seq_lib::group_to_multiset_ensures;
    if s.len() == 0 {
    } else {
        law_browse_newest_first(s.drop_last());
        lemma_insert_desc_sorted(sort_desc(s.drop_last()), s.last());
        assert(s =~= s.drop_last().push(s.last()));
    }
}

} // verus!
