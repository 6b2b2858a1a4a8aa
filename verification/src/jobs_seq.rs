//! Facts about sequences of jobs: identity, copies and ID bookkeeping.
use vstd::prelude::*;
use crate::job::Job;

verus! {

/// No two jobs of `s` share an ID.
pub open spec fn ids_unique(s: Seq<Job>) -> bool {
    forall|i: int, k: int| 0 <= i < s.len() && 0 <= k < s.len() && i != k ==> s[i].id != s[k].id
}

/// No job of `a` has the ID of a job of `b`.
pub open spec fn ids_disjoint(a: Seq<Job>, b: Seq<Job>) -> bool {
    forall|i: int, k: int| 0 <= i < a.len() && 0 <= k < b.len() ==> a[i].id != b[k].id
}

/// Every job of `s` has an ID below `n`.
pub open spec fn ids_below(s: Seq<Job>, n: u64) -> bool {
    forall|i: int| 0 <= i < s.len() ==> s[i].id < n
}

/// Some job of `s` has ID `id`.
pub open spec fn has_id(s: Seq<Job>, id: u64) -> bool {
    exists|i: int| 0 <= i < s.len() && s[i].id == id
}

/// The IDs of `s`, in order.
pub open spec fn id_seq(s: Seq<Job>) -> Seq<u64> {
    s.map_values(|j: Job| j.id)
}

/// The jobs of `s` that belong to queue `q`, in order.
pub open spec fn of_queue(s: Seq<Job>, q: Seq<char>) -> Seq<Job> {
    s.filter(|j: Job| j.queue@ == q)
}

pub proof fn lemma_remove_keeps(s: Seq<Job>, i: int, n: u64)
    requires
        0 <= i < s.len(),
    ensures
        ids_unique(s) ==> ids_unique(s.remove(i)),
        ids_below(s, n) ==> ids_below(s.remove(i), n),
        forall|t: Seq<Job>| ids_disjoint(s, t) ==> ids_disjoint(#[trigger] s.remove(i), t),
        forall|t: Seq<Job>| ids_disjoint(t, s) ==> ids_disjoint(t, #[trigger] s.remove(i)),
        forall|id: u64| has_id(s.remove(i), id) ==> has_id(s, id),
        forall|k: int| 0 <= k < s.len() - 1 ==> (#[trigger] s.remove(i)[k]) == (if k < i {
            s[k]
        } else {
            s[k + 1]
        }),
{
    let r = s.remove(i);
    assert forall|k: int| 0 <= k < s.len() - 1 implies (#[trigger] r[k]) == (if k < i {
        s[k]
    } else {
        s[k + 1]
    }) by {}
    assert forall|id: u64| has_id(r, id) implies has_id(s, id) by {
        let k = choose|k: int| 0 <= k < r.len() && r[k].id == id;
        if k < i {
            assert(s[k].id == id);
        } else {
            assert(s[k + 1].id == id);
        }
    }
    if ids_unique(s) {
        assert forall|a: int, b: int| 0 <= a < r.len() && 0 <= b < r.len() && a != b implies r[a].id
            != r[b].id by {
            let a2 = if a < i { a } else { a + 1 };
            let b2 = if b < i { b } else { b + 1 };
            assert(r[a] == s[a2]);
            assert(r[b] == s[b2]);
        }
    }
    if ids_below(s, n) {
        assert forall|a: int| 0 <= a < r.len() implies r[a].id < n by {
            let a2 = if a < i { a } else { a + 1 };
            assert(r[a] == s[a2]);
        }
    }
    assert forall|t: Seq<Job>| ids_disjoint(s, t) implies ids_disjoint(#[trigger] s.remove(i), t) by {
        assert forall|a: int, b: int| 0 <= a < r.len() && 0 <= b < t.len() implies r[a].id
            != t[b].id by {
            let a2 = if a < i { a } else { a + 1 };
            assert(r[a] == s[a2]);
        }
    }
    assert forall|t: Seq<Job>| ids_disjoint(t, s) implies ids_disjoint(t, #[trigger] s.remove(i)) by {
        assert forall|a: int, b: int| 0 <= a < t.len() && 0 <= b < r.len() implies t[a].id
            != r[b].id by {
            let b2 = if b < i { b } else { b + 1 };
            assert(r[b] == s[b2]);
        }
    }
}

pub proof fn lemma_push_keeps(s: Seq<Job>, j: Job, n: u64)
    ensures
        ids_unique(s) && !has_id(s, j.id) ==> ids_unique(s.push(j)),
        ids_below(s, n) && j.id < n ==> ids_below(s.push(j), n),
        forall|t: Seq<Job>|
            ids_disjoint(s, t) && !has_id(t, j.id) ==> ids_disjoint(#[trigger] s.push(j), t),
        forall|t: Seq<Job>|
            ids_disjoint(t, s) && !has_id(t, j.id) ==> ids_disjoint(t, #[trigger] s.push(j)),
        forall|id: u64| has_id(s.push(j), id) <==> (has_id(s, id) || id == j.id),
{
    let r = s.push(j);
    assert(r[s.len() as int] == j);
    assert forall|id: u64| has_id(r, id) <==> (has_id(s, id) || id == j.id) by {
        if has_id(r, id) {
            let k = choose|k: int| 0 <= k < r.len() && r[k].id == id;
            if k < s.len() {
                assert(s[k].id == id);
            }
        }
        if has_id(s, id) {
            let k = choose|k: int| 0 <= k < s.len() && s[k].id == id;
            assert(r[k].id == id);
        }
    }
    if ids_unique(s) && !has_id(s, j.id) {
        assert forall|a: int, b: int| 0 <= a < r.len() && 0 <= b < r.len() && a != b implies r[a].id
            != r[b].id by {
            if a < s.len() && b == s.len() {
                assert(s[a].id != j.id);
            }
            if b < s.len() && a == s.len() {
                assert(s[b].id != j.id);
            }
        }
    }
    assert forall|t: Seq<Job>| ids_disjoint(s, t) && !has_id(t, j.id) implies ids_disjoint(
        #[trigger] s.push(j),
        t,
    ) by {
        assert forall|a: int, b: int| 0 <= a < r.len() && 0 <= b < t.len() implies r[a].id
            != t[b].id by {
            if a == s.len() {
                assert(!(t[b].id == j.id));
            }
        }
    }
    assert forall|t: Seq<Job>| ids_disjoint(t, s) && !has_id(t, j.id) implies ids_disjoint(
        t,
        #[trigger] s.push(j),
    ) by {
        assert forall|a: int, b: int| 0 <= a < t.len() && 0 <= b < r.len() implies t[a].id
            != r[b].id by {
            if b == s.len() {
                assert(!(t[a].id == j.id));
            }
        }
    }
}

pub proof fn lemma_has_id_index(s: Seq<Job>, i: int)
    requires
        0 <= i < s.len(),
    ensures
        has_id(s, s[i].id),
{
}

pub proof fn lemma_disjoint_not_has(a: Seq<Job>, b: Seq<Job>, i: int)
    requires
        ids_disjoint(a, b),
        0 <= i < a.len(),
    ensures
        !has_id(b, a[i].id),
{
}

pub proof fn lemma_disjoint_sym(a: Seq<Job>, b: Seq<Job>)
    ensures
        ids_disjoint(a, b) ==> ids_disjoint(b, a),
{
    if ids_disjoint(a, b) {
        assert forall|i: int, k: int| 0 <= i < b.len() && 0 <= k < a.len() implies b[i].id != a[k].id by {
            assert(a[k].id != b[i].id);
        }
    }
}

pub proof fn lemma_below_not_has(s: Seq<Job>, n: u64)
    requires
        ids_below(s, n),
    ensures
        !has_id(s, n),
{
}

pub proof fn lemma_empty_facts(n: u64)
    ensures
        ids_unique(Seq::<Job>::empty()),
        ids_below(Seq::<Job>::empty(), n),
        forall|t: Seq<Job>| ids_disjoint(Seq::<Job>::empty(), t) && ids_disjoint(t, Seq::<Job>::empty()),
        forall|id: u64| !has_id(Seq::<Job>::empty(), id),
{
}

/// Every job of `s` carries the ID, backoff and creation time of some job
/// of `orig`.
pub open spec fn ident_from(s: Seq<Job>, orig: Seq<Job>) -> bool {
    forall|k: int| 0 <= k < s.len() ==> exists|i: int| 0 <= i < orig.len() && orig[i].id == (#[trigger] s[k]).id
        && orig[i].backoff == s[k].backoff && orig[i].created_at == s[k].created_at
}

pub proof fn lemma_ident_from_transfer(s: Seq<Job>, orig: Seq<Job>, n: u64, c: u64)
    requires
        ident_from(s, orig),
    ensures
        forall|t: Seq<Job>| ids_disjoint(orig, t) ==> ids_disjoint(s, t),
        forall|t: Seq<Job>| ids_disjoint(t, orig) ==> ids_disjoint(t, s),
        ids_below(orig, n) ==> ids_below(s, n),
        crate::manager::created_by(orig, c) ==> crate::manager::created_by(s, c),
        forall|id: u64| has_id(s, id) ==> has_id(orig, id),
{
    assert forall|t: Seq<Job>| ids_disjoint(orig, t) implies ids_disjoint(s, t) by {
        assert forall|a: int, b: int| 0 <= a < s.len() && 0 <= b < t.len() implies s[a].id != t[b].id by {
            let i = choose|i: int| 0 <= i < orig.len() && orig[i].id == s[a].id && orig[i].backoff == s[a].backoff
                && orig[i].created_at == s[a].created_at;
        }
    }
    assert forall|t: Seq<Job>| ids_disjoint(t, orig) implies ids_disjoint(t, s) by {
        assert forall|a: int, b: int| 0 <= a < t.len() && 0 <= b < s.len() implies t[a].id != s[b].id by {
            let i = choose|i: int| 0 <= i < orig.len() && orig[i].id == s[b].id && orig[i].backoff == s[b].backoff
                && orig[i].created_at == s[b].created_at;
        }
    }
    if ids_below(orig, n) {
        assert forall|a: int| 0 <= a < s.len() implies s[a].id < n by {
            let i = choose|i: int| 0 <= i < orig.len() && orig[i].id == s[a].id && orig[i].backoff == s[a].backoff
                && orig[i].created_at == s[a].created_at;
        }
    }
    if crate::manager::created_by(orig, c) {
        assert forall|a: int| 0 <= a < s.len() implies s[a].created_at <= c by {
            let i = choose|i: int| 0 <= i < orig.len() && orig[i].id == s[a].id && orig[i].backoff == s[a].backoff
                && orig[i].created_at == s[a].created_at;
        }
    }
    assert forall|id: u64| has_id(s, id) implies has_id(orig, id) by {
        let a = choose|a: int| 0 <= a < s.len() && s[a].id == id;
        let i = choose|i: int| 0 <= i < orig.len() && orig[i].id == s[a].id && orig[i].backoff == s[a].backoff
            && orig[i].created_at == s[a].created_at;
    }
}

/// Two ID-disjoint lists with unique IDs make one.
pub proof fn lemma_concat_keeps(a: Seq<Job>, b: Seq<Job>)
    ensures
        ids_unique(a) && ids_unique(b) && ids_disjoint(a, b) ==> ids_unique(a + b),
        forall|t: Seq<Job>| ids_disjoint(a, t) && ids_disjoint(b, t) ==> ids_disjoint(#[trigger] (a + b), t),
        forall|t: Seq<Job>| ids_disjoint(t, a) && ids_disjoint(t, b) ==> ids_disjoint(t, #[trigger] (a + b)),
        forall|id: u64| has_id(a + b, id) <==> (has_id(a, id) || has_id(b, id)),
        forall|o: Seq<Job>| ident_from(a, o) && ident_from(b, o) ==> ident_from(#[trigger] (a + b), o),
        forall|n: u64| ids_below(a, n) && ids_below(b, n) ==> ids_below(#[trigger] (a + b), n),
        forall|c: u64| crate::manager::created_by(a, c) && crate::manager::created_by(b, c) ==> crate::manager::created_by(#[trigger] (a + b), c),
{
    let c = a + b;
    assert forall|k: int| a.len() <= k < c.len() implies c[k] == b[k - a.len()] by {}
    assert forall|k: int| 0 <= k < a.len() implies c[k] == a[k] by {}
    if ids_unique(a) && ids_unique(b) && ids_disjoint(a, b) {
        assert forall|i: int, k: int| 0 <= i < c.len() && 0 <= k < c.len() && i != k implies c[i].id != c[k].id by {
            if i < a.len() && k >= a.len() {
                assert(c[k] == b[k - a.len()]);
            } else if k < a.len() && i >= a.len() {
                assert(c[i] == b[i - a.len()]);
            } else if i >= a.len() && k >= a.len() {
                assert(c[i] == b[i - a.len()] && c[k] == b[k - a.len()]);
            }
        }
    }
    assert forall|t: Seq<Job>| ids_disjoint(a, t) && ids_disjoint(b, t) implies ids_disjoint(#[trigger] (a + b), t) by {
        assert forall|i: int, k: int| 0 <= i < c.len() && 0 <= k < t.len() implies c[i].id != t[k].id by {
            if i >= a.len() {
                assert(c[i] == b[i - a.len()]);
            }
        }
    }
    assert forall|t: Seq<Job>| ids_disjoint(t, a) && ids_disjoint(t, b) implies ids_disjoint(t, #[trigger] (a + b)) by {
        assert forall|i: int, k: int| 0 <= i < t.len() && 0 <= k < c.len() implies t[i].id != c[k].id by {
            if k >= a.len() {
                assert(c[k] == b[k - a.len()]);
            }
        }
    }
    assert forall|id: u64| has_id(a + b, id) <==> (has_id(a, id) || has_id(b, id)) by {
        if has_id(c, id) {
            let i = choose|i: int| 0 <= i < c.len() && c[i].id == id;
            if i >= a.len() {
                assert(c[i] == b[i - a.len()]);
            }
        }
        if has_id(a, id) {
            let i = choose|i: int| 0 <= i < a.len() && a[i].id == id;
            assert(c[i] == a[i]);
        }
        if has_id(b, id) {
            let i = choose|i: int| 0 <= i < b.len() && b[i].id == id;
            assert(c[i + a.len()] == b[i]);
        }
    }
    assert forall|o: Seq<Job>| ident_from(a, o) && ident_from(b, o) implies ident_from(#[trigger] (a + b), o) by {
        assert forall|k: int| 0 <= k < c.len() implies exists|i: int| 0 <= i < o.len() && o[i].id == (#[trigger] c[k]).id
            && o[i].backoff == c[k].backoff && o[i].created_at == c[k].created_at by {
            if k < a.len() {
                assert(c[k] == a[k]);
            } else {
                assert(c[k] == b[k - a.len()]);
            }
        }
    }
}

/// A copy of a string option.
pub fn copy_opt_string(o: &Option<String>) -> (r: Option<String>)
    ensures
        r == *o,
{
    match o {
        Some(s) => Some(s.clone()),
        None => None,
    }
}

/// A copy of a list of IDs.
pub fn copy_ids(v: &Vec<u64>) -> (r: Vec<u64>)
    ensures
        r@ == v@,
{
    let mut r: Vec<u64> = Vec::new();
    let mut i: usize = 0;
    while i < v.len()
        invariant
            i <= v.len(),
            r@ == v@.subrange(0, i as int),
        decreases v.len() - i,
    {
        r.push(v[i]);
        i = i + 1;
        assert(r@ =~= v@.subrange(0, i as int));
    }
    assert(v@.subrange(0, v.len() as int) =~= v@);
    r
}

/// A copy of a list of strings.
pub fn copy_strings(v: &Vec<String>) -> (r: Vec<String>)
    ensures
        r@ == v@,
        crate::job::strings_view(r@) == crate::job::strings_view(v@),
{
    let mut r: Vec<String> = Vec::new();
    let mut i: usize = 0;
    while i < v.len()
        invariant
            i <= v.len(),
            r@ == v@.subrange(0, i as int),
        decreases v.len() - i,
    {
        r.push(v[i].clone());
        i = i + 1;
        assert(r@ =~= v@.subrange(0, i as int));
    }
    assert(v@.subrange(0, v.len() as int) =~= v@);
    r
}

pub proof fn lemma_jobs_view_concat(a: Seq<Job>, b: Seq<Job>)
    ensures
        crate::job::jobs_view(a + b) == crate::job::jobs_view(a) + crate::job::jobs_view(b),
{
    assert(crate::job::jobs_view(a + b) =~= crate::job::jobs_view(a) + crate::job::jobs_view(b));
}

/// A copy of every job of `v`.
pub fn copy_jobs(v: &Vec<Job>) -> (r: Vec<Job>)
    ensures
        crate::job::jobs_view(r@) == crate::job::jobs_view(v@),
{
    let mut r: Vec<Job> = Vec::new();
    let mut i: usize = 0;
    while i < v.len()
        invariant
            i <= v.len(),
            r@.len() == i,
            forall|m: int| 0 <= m < i ==> (#[trigger] r@[m])@ == v@[m]@,
        decreases v.len() - i,
    {
        r.push(v[i].duplicate());
        i = i + 1;
    }
    assert(crate::job::jobs_view(r@) =~= crate::job::jobs_view(v@));
    r
}

impl Job {
    /// A field-for-field copy of the job.
    pub fn duplicate(&self) -> (r: Job)
        ensures
            r@ == self@,
    {
        Job {
            id: self.id,
            queue: self.queue.clone(),
            data: self.data.clone(),
            priority: self.priority,
            created_at: self.created_at,
            run_at: self.run_at,
            started_at: self.started_at,
            attempts: self.attempts,
            max_attempts: self.max_attempts,
            backoff: self.backoff,
            ttl: self.ttl,
            timeout: self.timeout,
            unique_key: copy_opt_string(&self.unique_key),
            depends_on: copy_ids(&self.depends_on),
            progress: self.progress,
            progress_msg: copy_opt_string(&self.progress_msg),
            tags: copy_strings(&self.tags),
            lifo: self.lifo,
            remove_on_complete: self.remove_on_complete,
            remove_on_fail: self.remove_on_fail,
            last_heartbeat: self.last_heartbeat,
            stall_timeout: self.stall_timeout,
            stall_count: self.stall_count,
            parent_id: self.parent_id,
            children_ids: copy_ids(&self.children_ids),
            children_completed: self.children_completed,
            custom_id: copy_opt_string(&self.custom_id),
            keep_completed_age: self.keep_completed_age,
            keep_completed_count: self.keep_completed_count,
            completed_at: self.completed_at,
            group_id: copy_opt_string(&self.group_id),
        }
    }
}

} // verus!
