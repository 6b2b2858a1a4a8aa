//! What taking jobs off a queue guarantees.
use vstd::prelude::*;
use crate::job::Job;

verus! {

/// Three lists whose IDs are unique and pairwise disjoint.
pub open spec fn three_way_unique(a: Seq<Job>, b: Seq<Job>, c: Seq<Job>) -> bool {
    &&& crate::jobs_seq::ids_unique(a) && crate::jobs_seq::ids_unique(b) && crate::jobs_seq::ids_unique(c)
    &&& crate::jobs_seq::ids_disjoint(a, b) && crate::jobs_seq::ids_disjoint(a, c) && crate::jobs_seq::ids_disjoint(b, c)
}

/// A job fit to be handed out at `now`: of queue `q`, ready, not expired,
/// stamped with `now`, its group not busy.
pub open spec fn fit_taken(t: Job, q: Seq<char>, now: u64, active: Set<Seq<char>>) -> bool {
    &&& t.queue@ == q
    &&& t.spec_is_ready(now)
    &&& !t.spec_is_expired(now)
    &&& t.started_at == now
    &&& t.last_heartbeat == now
    &&& !crate::select::group_in_set(t, active)
}

/// No two taken jobs share a group.
pub open spec fn groups_distinct(s: Seq<Job>) -> bool {
    forall|i: int, k: int| 0 <= i < s.len() && 0 <= k < s.len() && i != k && s[i].group_id is Some
        ==> s[k].group_id != s[i].group_id || !(s[k].group_id.unwrap()@ == s[i].group_id.unwrap()@)
}

/// The groups of `s`, by value, in order.
pub open spec fn groups_of(s: Seq<Job>) -> Seq<Seq<char>>
    decreases s.len(),
{
    if s.len() == 0 {
        Seq::empty()
    } else {
        crate::select::add_group(groups_of(s.drop_last()), s.last())
    }
}

pub open spec fn taken_ok(taken: Seq<Job>, newly: Seq<Seq<char>>, q: Seq<char>, now: u64, active: Set<Seq<char>>) -> bool {
    &&& forall|k: int| 0 <= k < taken.len() ==> fit_taken(#[trigger] taken[k], q, now, active)
    &&& newly == groups_of(taken)
    &&& forall|k: int| 0 <= k < taken.len() ==> !crate::select::group_in(#[trigger] taken[k], groups_of(taken.take(k)))
}

pub proof fn lemma_groups_of_push(s: Seq<Job>, j: Job)
    ensures
        groups_of(s.push(j)) == crate::select::add_group(groups_of(s), j),
{
    assert(s.push(j).drop_last() =~= s);
}

/// Facts about a pool with one job taken out.
proof fn lemma_pool_remove(pool: Seq<Job>, skipped: Seq<Job>, taken: Seq<Job>, b: int, orig: Seq<Job>)
    requires
        three_way_unique(pool, skipped, taken),
        crate::jobs_seq::ident_from(pool, orig),
        0 <= b < pool.len(),
    ensures
        crate::jobs_seq::ids_unique(pool.remove(b)),
        crate::jobs_seq::ids_disjoint(pool.remove(b), skipped),
        crate::jobs_seq::ids_disjoint(pool.remove(b), taken),
        crate::jobs_seq::ident_from(pool.remove(b), orig),
        !crate::jobs_seq::has_id(pool.remove(b), pool[b].id),
        !crate::jobs_seq::has_id(skipped, pool[b].id),
        !crate::jobs_seq::has_id(taken, pool[b].id),
        forall|k: int| 0 <= k < pool.len() && k != b ==> pool.remove(b).contains(#[trigger] pool[k]),
{
    let rest = pool.remove(b);
    crate::jobs_seq::lemma_remove_keeps(pool, b, 0);
    crate::jobs_seq::lemma_disjoint_not_has(pool, skipped, b);
    crate::jobs_seq::lemma_disjoint_not_has(pool, taken, b);
    assert forall|k: int| 0 <= k < rest.len() implies exists|i: int| 0 <= i < orig.len() && orig[i].id == (#[trigger] rest[k]).id
        && orig[i].backoff == rest[k].backoff && orig[i].created_at == rest[k].created_at by {
        let k2 = if k < b { k } else { k + 1 };
        assert(rest[k] == pool[k2]);
    }
    assert forall|k: int| 0 <= k < pool.len() && k != b implies rest.contains(#[trigger] pool[k]) by {
        let k2 = if k < b { k } else { k - 1 };
        assert(rest[k2] == pool[k]);
    }
    if crate::jobs_seq::has_id(rest, pool[b].id) {
        let k = choose|k: int| 0 <= k < rest.len() && rest[k].id == pool[b].id;
        let k2 = if k < b { k } else { k + 1 };
        assert(rest[k] == pool[k2]);
    }
}

/// The fate of every job of `pool`, lifted from the fate of the jobs of
/// `pool.remove(b)` and that of `pool[b]`.
proof fn lemma_lift_fate(pool: Seq<Job>, b: int, r: crate::select::Selection, q: Seq<char>, now: u64)
    requires
        0 <= b < pool.len(),
        pool[b].queue@ == q,
        forall|k: int| 0 <= k < pool.len() && k != b ==> pool.remove(b).contains(#[trigger] pool[k]),
        forall|k: int| 0 <= k < pool.remove(b).len() && pool.remove(b)[k].queue@ != q ==> r.pool.contains(#[trigger] pool.remove(b)[k]),
        forall|k: int| 0 <= k < pool.remove(b).len() ==> (r.pool.contains(#[trigger] pool.remove(b)[k]) || r.skipped.contains(pool.remove(b)[k])
            || r.taken.contains(crate::select::started(pool.remove(b)[k], now))
            || (pool.remove(b)[k].queue@ == q && pool.remove(b)[k].spec_is_expired(now))),
        r.pool.contains(pool[b]) || r.skipped.contains(pool[b]) || r.taken.contains(crate::select::started(pool[b], now))
            || pool[b].spec_is_expired(now),
    ensures
        forall|k: int| 0 <= k < pool.len() && pool[k].queue@ != q ==> r.pool.contains(#[trigger] pool[k]),
        forall|k: int| 0 <= k < pool.len() ==> (r.pool.contains(#[trigger] pool[k]) || r.skipped.contains(pool[k])
            || r.taken.contains(crate::select::started(pool[k], now))
            || (pool[k].queue@ == q && pool[k].spec_is_expired(now))),
{
    let rest = pool.remove(b);
    assert forall|k: int| 0 <= k < pool.len() && pool[k].queue@ != q implies r.pool.contains(#[trigger] pool[k]) by {
        let k2 = if k < b { k } else { k - 1 };
        assert(rest[k2] == pool[k]);
    }
    assert forall|k: int| 0 <= k < pool.len() implies (r.pool.contains(#[trigger] pool[k]) || r.skipped.contains(pool[k])
        || r.taken.contains(crate::select::started(pool[k], now))
        || (pool[k].queue@ == q && pool[k].spec_is_expired(now))) by {
        if k != b {
            let k2 = if k < b { k } else { k - 1 };
            assert(rest[k2] == pool[k]);
        }
    }
}

/// Setting a job aside keeps the bookkeeping.
proof fn lemma_skip_step(rest: Seq<Job>, skipped: Seq<Job>, taken: Seq<Job>, j: Job, orig: Seq<Job>)
    requires
        crate::jobs_seq::ids_unique(rest),
        crate::jobs_seq::ids_unique(skipped),
        crate::jobs_seq::ids_unique(taken),
        crate::jobs_seq::ids_disjoint(rest, skipped),
        crate::jobs_seq::ids_disjoint(rest, taken),
        crate::jobs_seq::ids_disjoint(skipped, taken),
        !crate::jobs_seq::has_id(rest, j.id),
        !crate::jobs_seq::has_id(skipped, j.id),
        !crate::jobs_seq::has_id(taken, j.id),
        crate::jobs_seq::ident_from(skipped, orig),
        exists|i: int| 0 <= i < orig.len() && orig[i].id == j.id && orig[i].backoff == j.backoff && orig[i].created_at == j.created_at,
    ensures
        three_way_unique(rest, skipped.push(j), taken),
        crate::jobs_seq::ident_from(skipped.push(j), orig),
{
    let sk = skipped.push(j);
    crate::jobs_seq::lemma_push_keeps(skipped, j, 0);
    assert(crate::jobs_seq::ids_disjoint(rest, sk));
    assert(crate::jobs_seq::ids_disjoint(sk, taken));
    assert forall|k: int| 0 <= k < sk.len() implies exists|i: int| 0 <= i < orig.len() && orig[i].id == (#[trigger] sk[k]).id
        && orig[i].backoff == sk[k].backoff && orig[i].created_at == sk[k].created_at by {
        if k < skipped.len() {
            assert(sk[k] == skipped[k]);
        } else {
            assert(sk[k] == j);
        }
    }
}

/// Taking a job keeps the bookkeeping.
proof fn lemma_take_step(rest: Seq<Job>, skipped: Seq<Job>, taken: Seq<Job>, newly: Seq<Seq<char>>, j: Job, orig: Seq<Job>, q: Seq<char>, now: u64, active: Set<Seq<char>>)
    requires
        crate::jobs_seq::ids_unique(rest),
        crate::jobs_seq::ids_unique(skipped),
        crate::jobs_seq::ids_unique(taken),
        crate::jobs_seq::ids_disjoint(rest, skipped),
        crate::jobs_seq::ids_disjoint(rest, taken),
        crate::jobs_seq::ids_disjoint(skipped, taken),
        !crate::jobs_seq::has_id(rest, j.id),
        !crate::jobs_seq::has_id(skipped, j.id),
        !crate::jobs_seq::has_id(taken, j.id),
        crate::jobs_seq::ident_from(taken, orig),
        exists|i: int| 0 <= i < orig.len() && orig[i].id == j.id && orig[i].backoff == j.backoff && orig[i].created_at == j.created_at,
        taken_ok(taken, newly, q, now, active),
        j.queue@ == q,
        j.spec_is_ready(now),
        !j.spec_is_expired(now),
        !(crate::select::group_in_set(j, active) || crate::select::group_in(j, newly)),
    ensures
        three_way_unique(rest, skipped, taken.push(crate::select::started(j, now))),
        crate::jobs_seq::ident_from(taken.push(crate::select::started(j, now)), orig),
        taken_ok(taken.push(crate::select::started(j, now)), crate::select::add_group(newly, j), q, now, active),
{
    let sj = crate::select::started(j, now);
    let tk = taken.push(sj);
    crate::jobs_seq::lemma_push_keeps(taken, sj, 0);
    assert(crate::jobs_seq::ids_disjoint(rest, tk));
    assert(crate::jobs_seq::ids_disjoint(skipped, tk));
    assert forall|k: int| 0 <= k < tk.len() implies exists|i: int| 0 <= i < orig.len() && orig[i].id == (#[trigger] tk[k]).id
        && orig[i].backoff == tk[k].backoff && orig[i].created_at == tk[k].created_at by {
        if k < taken.len() {
            assert(tk[k] == taken[k]);
        } else {
            assert(tk[k] == sj);
        }
    }
    lemma_groups_of_push(taken, sj);
    assert(crate::select::add_group(newly, j) == crate::select::add_group(newly, sj));
    assert forall|k: int| 0 <= k < tk.len() implies !crate::select::group_in(#[trigger] tk[k], groups_of(tk.take(k))) by {
        if k < taken.len() {
            assert(tk[k] == taken[k]);
            assert(tk.take(k) =~= taken.take(k));
        } else {
            assert(tk[k] == sj);
            assert(tk.take(k) =~= taken);
        }
    }
    assert forall|k: int| 0 <= k < tk.len() implies fit_taken(#[trigger] tk[k], q, now, active) by {
        if k < taken.len() {
            assert(tk[k] == taken[k]);
        }
    }
}

/// The bookkeeping facts of one run of [`crate::select::select_loop`]:
/// IDs stay unique and come from the given list, at most `max` jobs are
/// taken, every taken job is fit and their groups differ, jobs of other
/// queues stay, and a job leaves only by being taken or because it expired.
pub proof fn lemma_select_loop(
    pool: Seq<Job>,
    taken: Seq<Job>,
    skipped: Seq<Job>,
    newly: Seq<Seq<char>>,
    active: Set<Seq<char>>,
    q: Seq<char>,
    max: nat,
    now: u64,
    orig: Seq<Job>,
)
    requires
        three_way_unique(pool, skipped, taken),
        crate::jobs_seq::ident_from(pool, orig),
        crate::jobs_seq::ident_from(skipped, orig),
        crate::jobs_seq::ident_from(taken, orig),
        taken.len() <= max,
        taken_ok(taken, newly, q, now, active),
    ensures
        ({
            let r = crate::select::select_loop(pool, taken, skipped, newly, active, q, max, now);
            &&& three_way_unique(r.pool, r.skipped, r.taken)
            &&& crate::jobs_seq::ident_from(r.pool, orig)
            &&& crate::jobs_seq::ident_from(r.skipped, orig)
            &&& crate::jobs_seq::ident_from(r.taken, orig)
            &&& r.taken.len() <= max
            &&& taken_ok(r.taken, r.newly, q, now, active)
            &&& r.taken.len() >= taken.len() && r.skipped.len() >= skipped.len()
            &&& r.taken.take(taken.len() as int) == taken
            &&& r.skipped.take(skipped.len() as int) == skipped
            &&& forall|k: int| 0 <= k < pool.len() && pool[k].queue@ != q ==> r.pool.contains(#[trigger] pool[k])
            &&& forall|k: int| 0 <= k < pool.len() ==> (r.pool.contains(#[trigger] pool[k]) || r.skipped.contains(pool[k])
                || r.taken.contains(crate::select::started(pool[k], now))
                || (pool[k].queue@ == q && pool[k].spec_is_expired(now)))
        }),
    decreases pool.len(),
{
    let r = crate::select::select_loop(pool, taken, skipped, newly, active, q, max, now);
    if taken.len() >= max {
        assert(r.taken.take(taken.len() as int) =~= taken);
        assert(r.skipped.take(skipped.len() as int) =~= skipped);
        return;
    }
    let b = crate::select::best_upto(pool, q, pool.len());
    crate::select::lemma_best_upto_range(pool, q, pool.len());
    if b < 0 || b >= pool.len() {
        assert(r.taken.take(taken.len() as int) =~= taken);
        assert(r.skipped.take(skipped.len() as int) =~= skipped);
        assert forall|k: int| 0 <= k < pool.len() implies (r.pool.contains(#[trigger] pool[k]) || r.skipped.contains(pool[k])
            || r.taken.contains(crate::select::started(pool[k], now))
            || (pool[k].queue@ == q && pool[k].spec_is_expired(now))) by {
            assert(r.pool[k] == pool[k]);
        }
        return;
    }
    let j = pool[b];
    let rest = pool.remove(b);
    lemma_pool_remove(pool, skipped, taken, b, orig);
    assert(exists|i: int| 0 <= i < orig.len() && orig[i].id == j.id && orig[i].backoff == j.backoff && orig[i].created_at == j.created_at) by {
        assert(pool[b] == j);
    }
    if j.spec_is_expired(now) {
        lemma_select_loop(rest, taken, skipped, newly, active, q, max, now, orig);
        lemma_lift_fate(pool, b, r, q, now);
    } else if j.spec_is_ready(now) {
        if crate::select::group_in_set(j, active) || crate::select::group_in(j, newly) {
            let sk = skipped.push(j);
            lemma_skip_step(rest, skipped, taken, j, orig);
            lemma_select_loop(rest, taken, sk, newly, active, q, max, now, orig);
            assert(r.skipped.take(sk.len() as int) == sk);
            assert(r.skipped.take(skipped.len() as int) =~= r.skipped.take(sk.len() as int).take(skipped.len() as int));
            assert(r.skipped.take(skipped.len() as int) =~= sk.take(skipped.len() as int));
            assert(sk.take(skipped.len() as int) =~= skipped);
            assert(r.skipped[skipped.len() as int] == r.skipped.take(sk.len() as int)[skipped.len() as int]);
            assert(r.skipped.contains(j));
            lemma_lift_fate(pool, b, r, q, now);
        } else {
            let sj = crate::select::started(j, now);
            let tk = taken.push(sj);
            lemma_take_step(rest, skipped, taken, newly, j, orig, q, now, active);
            lemma_select_loop(rest, tk, skipped, crate::select::add_group(newly, j), active, q, max, now, orig);
            assert(r.taken.take(tk.len() as int) == tk);
            assert(r.taken.take(taken.len() as int) =~= r.taken.take(tk.len() as int).take(taken.len() as int));
            assert(r.taken.take(taken.len() as int) =~= tk.take(taken.len() as int));
            assert(tk.take(taken.len() as int) =~= taken);
            assert(r.taken[taken.len() as int] == r.taken.take(tk.len() as int)[taken.len() as int]);
            assert(r.taken.contains(sj));
            lemma_lift_fate(pool, b, r, q, now);
        }
    } else {
        let np = rest.push(j);
        crate::jobs_seq::lemma_push_keeps(rest, j, 0);
        assert(crate::jobs_seq::ident_from(np, orig)) by {
            assert forall|k: int| 0 <= k < np.len() implies exists|i: int| 0 <= i < orig.len() && orig[i].id == (#[trigger] np[k]).id
                && orig[i].backoff == np[k].backoff && orig[i].created_at == np[k].created_at by {
                if k < rest.len() {
                    assert(np[k] == rest[k]);
                } else {
                    assert(np[k] == j);
                }
            }
        }
        assert(crate::jobs_seq::ids_disjoint(np, skipped));
        assert(crate::jobs_seq::ids_disjoint(np, taken));
        assert(r.taken.take(taken.len() as int) =~= taken);
        assert(r.skipped.take(skipped.len() as int) =~= skipped);
        assert(r.pool == np);
        assert forall|k: int| 0 <= k < rest.len() implies r.pool.contains(#[trigger] rest[k]) by {
            assert(np[k] == rest[k]);
        }
        assert(np[rest.len() as int] == j);
        assert(r.pool.contains(j));
        lemma_lift_fate(pool, b, r, q, now);
    }
}

/// All jobs of queue `q` in `s` agree on LIFO mode.
pub open spec fn lifo_uniform(s: Seq<Job>, q: Seq<char>) -> bool {
    forall|i: int, k: int|
        0 <= i < s.len() && 0 <= k < s.len() && s[i].queue@ == q && s[k].queue@ == q ==> s[i].lifo == s[k].lifo
}

/// With unique IDs and one LIFO mode, the job [`crate::select::best_upto`]
/// finds outranks every other job of the queue it looked at.
pub proof fn lemma_best_is_max(s: Seq<Job>, q: Seq<char>, n: nat)
    requires
        n <= s.len(),
        crate::jobs_seq::ids_unique(s),
        lifo_uniform(s, q),
    ensures
        crate::select::best_upto(s, q, n) >= 0 ==> forall|k: int|
            0 <= k < n && k != crate::select::best_upto(s, q, n) && s[k].queue@ == q ==> crate::order::outranks(
                s[crate::select::best_upto(s, q, n)],
                #[trigger] s[k],
            ),
    decreases n,
{
    if n > 0 {
        let m = (n - 1) as nat;
        lemma_best_is_max(s, q, m);
        crate::select::lemma_best_upto_range(s, q, m);
        crate::select::lemma_best_upto_range(s, q, n);
        let b0 = crate::select::best_upto(s, q, m);
        let b = crate::select::best_upto(s, q, n);
        let k = m as int;
        if b == k && b0 >= 0 {
            assert forall|x: int| 0 <= x < n && x != b && s[x].queue@ == q implies crate::order::outranks(s[b], #[trigger] s[x]) by {
                if x != b0 {
                    assert(crate::order::outranks(s[b0], s[x]));
                    crate::order::law_rank_transitive(s[b], s[b0], s[x]);
                }
            }
        } else if b == b0 && b0 >= 0 && s[k].queue@ == q {
            assert(s[k].id != s[b0].id);
            crate::order::law_rank_total(s[k], s[b0]);
        }
    }
}

/// A pull of one job from queue `q` at `now` (no busy groups, no expired
/// job of `q`, one LIFO mode, unique IDs) hands out the queue's top-ranked
/// job when it is ready, and that job outranks every job of `q` left
/// waiting; when it hands out nothing, every ready job of `q` is outranked
/// by a job of `q` that is not ready yet.
pub proof fn law_pull_takes_top(w: Seq<Job>, q: Seq<char>, now: u64)
    requires
        crate::jobs_seq::ids_unique(w),
        lifo_uniform(w, q),
        forall|i: int| 0 <= i < w.len() && w[i].queue@ == q ==> !(#[trigger] w[i]).spec_is_expired(now),
    ensures
        ({
            let (w2, taken) = crate::select::select_jobs(w, Set::empty(), q, 1, now);
            &&& taken.len() <= 1
            &&& taken.len() == 1 ==> forall|k: int| 0 <= k < w2.len() && w2[k].queue@ == q ==> crate::order::outranks(
                taken[0],
                #[trigger] w2[k],
            )
            &&& taken.len() == 0 ==> forall|i: int| 0 <= i < w.len() && w[i].queue@ == q && (#[trigger] w[i]).spec_is_ready(now)
                ==> exists|k: int| 0 <= k < w.len() && w[k].queue@ == q && !w[k].spec_is_ready(now) && crate::order::outranks(w[k], w[i])
        }),
{
    let act = Set::<Seq<char>>::empty();
    let e = Seq::<Job>::empty();
    let en = Seq::<Seq<char>>::empty();
    let b = crate::select::best_upto(w, q, w.len());
    crate::select::lemma_best_upto_range(w, q, w.len());
    lemma_best_is_max(w, q, w.len());
    if b >= 0 {
        let j = w[b];
        let rest = w.remove(b);
        assert(!j.spec_is_expired(now));
        if j.spec_is_ready(now) {
            assert(!crate::select::group_in_set(j, act));
            assert(!crate::select::group_in(j, en));
            let sj = crate::select::started(j, now);
            let r1 = crate::select::select_loop(rest, e.push(sj), e, crate::select::add_group(en, j), act, q, 1, now);
            assert(r1 == crate::select::Selection { pool: rest, taken: e.push(sj), skipped: e, newly: crate::select::add_group(en, j) });
            assert(crate::select::select_loop(w, e, e, en, act, q, 1, now) == r1);
            let w2 = rest + e;
            assert(w2 =~= rest);
            assert forall|k: int| 0 <= k < w2.len() && w2[k].queue@ == q implies crate::order::outranks(e.push(sj)[0], #[trigger] w2[k]) by {
                let k2 = if k < b { k } else { k + 1 };
                assert(w2[k] == w[k2]);
                assert(crate::order::outranks(w[b], w[k2]));
            }
        } else {
            assert forall|i: int| 0 <= i < w.len() && w[i].queue@ == q && (#[trigger] w[i]).spec_is_ready(now)
                implies exists|k: int| 0 <= k < w.len() && w[k].queue@ == q && !w[k].spec_is_ready(now) && crate::order::outranks(w[k], w[i]) by {
                assert(i != b);
                assert(crate::order::outranks(w[b], w[i]));
            }
        }
    }
}

/// Every taken job of `r` outranks every job of `q` left in its pool, and
/// every job it set aside has a busy group.
pub open spec fn ranked_selection(r: crate::select::Selection, active: Set<Seq<char>>, q: Seq<char>) -> bool {
    &&& forall|a: int, x: Job| 0 <= a < r.taken.len() && #[trigger] r.pool.contains(x) && x.queue@ == q
        ==> crate::order::outranks(#[trigger] r.taken[a], x)
    &&& forall|x: Job| #[trigger] r.skipped.contains(x) ==> crate::select::group_in_set(x, active)
        || crate::select::group_in(x, r.newly)
}

/// Each taken job outranks every job of `q` still in the pool, and every
/// job set aside has a busy group, through one run of
/// [`crate::select::select_loop`].
proof fn lemma_select_rank(
    pool: Seq<Job>,
    taken: Seq<Job>,
    skipped: Seq<Job>,
    newly: Seq<Seq<char>>,
    active: Set<Seq<char>>,
    q: Seq<char>,
    max: nat,
    now: u64,
)
    requires
        crate::jobs_seq::ids_unique(pool),
        lifo_uniform(pool, q),
        forall|a: int, x: Job| 0 <= a < taken.len() && #[trigger] pool.contains(x) && x.queue@ == q
            ==> crate::order::outranks(#[trigger] taken[a], x),
        forall|x: Job| #[trigger] skipped.contains(x) ==> crate::select::group_in_set(x, active)
            || crate::select::group_in(x, newly),
    ensures
        ranked_selection(crate::select::select_loop(pool, taken, skipped, newly, active, q, max, now), active, q),
    decreases pool.len(),
{
    let r = crate::select::select_loop(pool, taken, skipped, newly, active, q, max, now);
    if taken.len() >= max {
        assert(r == crate::select::Selection { pool, taken, skipped, newly });
        return;
    }
    let b = crate::select::best_upto(pool, q, pool.len());
    crate::select::lemma_best_upto_range(pool, q, pool.len());
    if b < 0 || b >= pool.len() {
        assert(r == crate::select::Selection { pool, taken, skipped, newly });
        return;
    }
    let j = pool[b];
    let rest = pool.remove(b);
    crate::jobs_seq::lemma_remove_keeps(pool, b, 0);
    assert forall|x: Job| rest.contains(x) implies pool.contains(x) by {
        let k = choose|k: int| 0 <= k < rest.len() && rest[k] == x;
        let k2 = if k < b { k } else { k + 1 };
        assert(rest[k] == pool[k2]);
    }
    assert(lifo_uniform(rest, q)) by {
        assert forall|i: int, k: int| 0 <= i < rest.len() && 0 <= k < rest.len() && rest[i].queue@ == q && rest[k].queue@ == q
            implies rest[i].lifo == rest[k].lifo by {
            let i2 = if i < b { i } else { i + 1 };
            let k2 = if k < b { k } else { k + 1 };
            assert(rest[i] == pool[i2] && rest[k] == pool[k2]);
        }
    }
    if j.spec_is_expired(now) {
        lemma_select_rank(rest, taken, skipped, newly, active, q, max, now);
    } else if j.spec_is_ready(now) {
        if crate::select::group_in_set(j, active) || crate::select::group_in(j, newly) {
            let sk = skipped.push(j);
            assert forall|x: Job| #[trigger] sk.contains(x) implies crate::select::group_in_set(x, active)
                || crate::select::group_in(x, newly) by {
                if x != j {
                    let k = choose|k: int| 0 <= k < sk.len() && sk[k] == x;
                    assert(k < skipped.len());
                    assert(sk[k] == skipped[k]);
                    assert(skipped.contains(x));
                }
            }
            lemma_select_rank(rest, taken, sk, newly, active, q, max, now);
        } else {
            let sj = crate::select::started(j, now);
            let tk = taken.push(sj);
            let nw = crate::select::add_group(newly, j);
            lemma_best_is_max(pool, q, pool.len());
            assert forall|a: int, x: Job| 0 <= a < tk.len() && #[trigger] rest.contains(x) && x.queue@ == q
                implies crate::order::outranks(#[trigger] tk[a], x) by {
                if a < taken.len() {
                    assert(tk[a] == taken[a]);
                } else {
                    let k = choose|k: int| 0 <= k < rest.len() && rest[k] == x;
                    let k2 = if k < b { k } else { k + 1 };
                    assert(rest[k] == pool[k2]);
                    assert(crate::order::outranks(pool[b], pool[k2]));
                }
            }
            assert forall|x: Job| #[trigger] skipped.contains(x) implies crate::select::group_in_set(x, active)
                || crate::select::group_in(x, nw) by {
                if crate::select::group_in(x, newly) {
                    if j.group_id is Some {
                        let g = x.group_id.unwrap()@;
                        let k = choose|k: int| 0 <= k < newly.len() && newly[k] == g;
                        assert(nw[k] == g);
                    }
                }
            }
            lemma_select_rank(rest, tk, skipped, nw, active, q, max, now);
        }
    } else {
        let np = rest.push(j);
        assert forall|x: Job| np.contains(x) implies pool.contains(x) by {
            if x != j {
                let k = choose|k: int| 0 <= k < np.len() && np[k] == x;
                assert(k < rest.len());
                assert(np[k] == rest[k]);
                assert(rest.contains(x));
            } else {
                assert(pool[b] == x);
            }
        }
        assert(r == crate::select::Selection { pool: np, taken, skipped, newly });
        assert(ranked_selection(r, active, q));
    }
}

/// A pull of up to `max` jobs of queue `q` at `now`, with busy groups
/// `active`, from a waiting list with unique IDs: at most `max` jobs are
/// taken; each is of `q`, ready, not expired, started at `now`, with a
/// group neither busy nor shared with another job taken; jobs of other
/// queues stay; every job either stays, is taken or (an expired job of
/// `q`) is dropped. With one LIFO mode in `q`, every job taken outranks
/// every job of `q` left waiting whose group is neither busy nor one of
/// the taken jobs' groups.
#[verifier::rlimit(60)]
pub proof fn law_batch_takes_best_fit(w: Seq<Job>, active: Set<Seq<char>>, q: Seq<char>, max: nat, now: u64)
    requires
        crate::jobs_seq::ids_unique(w),
    ensures
        ({
            let (w2, taken) = crate::select::select_jobs(w, active, q, max, now);
            &&& taken.len() <= max
            &&& forall|k: int| 0 <= k < taken.len() ==> fit_taken(#[trigger] taken[k], q, now, active)
            &&& forall|k: int| 0 <= k < taken.len() ==> !crate::select::group_in(#[trigger] taken[k], groups_of(taken.take(k)))
            &&& forall|k: int| 0 <= k < w.len() && w[k].queue@ != q ==> w2.contains(#[trigger] w[k])
            &&& forall|k: int| 0 <= k < w.len() ==> (w2.contains(#[trigger] w[k]) || taken.contains(crate::select::started(w[k], now))
                || (w[k].queue@ == q && w[k].spec_is_expired(now)))
            &&& lifo_uniform(w, q) ==> forall|a: int, x: Job| 0 <= a < taken.len() && #[trigger] w2.contains(x) && x.queue@ == q
                && !crate::select::group_in_set(x, active) && !crate::select::group_in(x, groups_of(taken))
                ==> crate::order::outranks(#[trigger] taken[a], x)
        }),
{
    let e = Seq::<Job>::empty();
    let en = Seq::<Seq<char>>::empty();
    crate::jobs_seq::lemma_empty_facts(0);
    assert(groups_of(e) =~= en);
    assert(taken_ok(e, en, q, now, active));
    assert(crate::jobs_seq::ident_from(w, w)) by {
        assert forall|k: int| 0 <= k < w.len() implies exists|i: int| 0 <= i < w.len() && w[i].id == (#[trigger] w[k]).id
            && w[i].backoff == w[k].backoff && w[i].created_at == w[k].created_at by {}
    }
    lemma_select_loop(w, e, e, en, active, q, max, now, w);
    let r = crate::select::select_loop(w, e, e, en, active, q, max, now);
    let w2 = r.pool + r.skipped;
    assert forall|x: Job| #[trigger] r.pool.contains(x) || r.skipped.contains(x) implies w2.contains(x) by {
        if r.pool.contains(x) {
            let k = choose|k: int| 0 <= k < r.pool.len() && r.pool[k] == x;
            assert(w2[k] == x);
        } else {
            let k = choose|k: int| 0 <= k < r.skipped.len() && r.skipped[k] == x;
            assert(w2[r.pool.len() + k] == x);
        }
    }
    if lifo_uniform(w, q) {
        lemma_select_rank(w, e, e, en, active, q, max, now);
        assert forall|a: int, x: Job| 0 <= a < r.taken.len() && #[trigger] w2.contains(x) && x.queue@ == q
            && !crate::select::group_in_set(x, active) && !crate::select::group_in(x, groups_of(r.taken))
            implies crate::order::outranks(#[trigger] r.taken[a], x) by {
            let k = choose|k: int| 0 <= k < w2.len() && w2[k] == x;
            if k < r.pool.len() {
                assert(r.pool.contains(x));
            } else {
                assert(r.skipped[k - r.pool.len()] == x);
                assert(r.skipped.contains(x));
            }
        }
    }
}

} // verus!
