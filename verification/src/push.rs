//! Adding jobs to a queue.
use vstd::prelude::*;
use crate::job::{Job, JobView, MAX_TIME};
use crate::manager::{find_job, QueueManager};
use crate::tables::{debounce_find, debounce_set, pair_contains, pair_insert, DebounceEntry};

verus! {

broadcast use vstd::std_specs::hash::group_hash_axioms;

/// What a client asks for when it pushes a job. Absent options take the
/// queue's neutral value (no delay, no TTL, no timeout, unlimited attempts,
/// no backoff).
pub struct JobInput {
    /// The job's payload, as JSON text.
    pub data: String,
    pub priority: i32,
    pub delay: Option<u64>,
    pub ttl: Option<u64>,
    pub timeout: Option<u64>,
    pub max_attempts: Option<u32>,
    pub backoff: Option<u64>,
    pub unique_key: Option<String>,
    pub depends_on: Option<Vec<u64>>,
    pub tags: Option<Vec<String>>,
    pub lifo: bool,
    pub remove_on_complete: bool,
    pub remove_on_fail: bool,
    pub stall_timeout: Option<u64>,
    pub debounce_id: Option<String>,
    pub debounce_ttl: Option<u64>,
    pub job_id: Option<String>,
    pub keep_completed_age: Option<u64>,
    pub keep_completed_count: Option<usize>,
    pub group_id: Option<String>,
}

/// The default debounce window, in ms.
pub const DEFAULT_DEBOUNCE_TTL: u64 = 5000;

pub open spec fn or_zero(o: Option<u64>) -> u64 {
    match o {
        Some(v) => v,
        None => 0,
    }
}

/// The inputs the queue can take at `now`: its delay and debounce window
/// added to `now` fit in a `u64`.
pub open spec fn input_in_range(i: JobInput, now: u64) -> bool {
    &&& now + or_zero(i.delay) <= u64::MAX
    &&& now + or_zero(i.debounce_ttl) <= u64::MAX
}

/// The job built from `i` for queue `q`, with ID `id`, at `now`.
pub open spec fn input_job(id: u64, q: Seq<char>, i: JobInput, now: u64) -> JobView {
    JobView {
        id,
        queue: q,
        data: i.data@,
        priority: i.priority,
        created_at: now,
        run_at: (now + or_zero(i.delay)) as u64,
        started_at: 0,
        attempts: 0,
        max_attempts: match i.max_attempts {
            Some(m) => m,
            None => 0,
        },
        backoff: or_zero(i.backoff),
        ttl: or_zero(i.ttl),
        timeout: or_zero(i.timeout),
        unique_key: crate::job::opt_view(i.unique_key),
        depends_on: match i.depends_on {
            Some(v) => v@,
            None => Seq::empty(),
        },
        progress: 0,
        progress_msg: None,
        tags: match i.tags {
            Some(v) => crate::job::strings_view(v@),
            None => Seq::empty(),
        },
        lifo: i.lifo,
        remove_on_complete: i.remove_on_complete,
        remove_on_fail: i.remove_on_fail,
        last_heartbeat: 0,
        stall_timeout: or_zero(i.stall_timeout),
        stall_count: 0,
        parent_id: None,
        children_ids: Seq::empty(),
        children_completed: 0,
        custom_id: crate::job::opt_view(i.job_id),
        keep_completed_age: or_zero(i.keep_completed_age),
        keep_completed_count: match i.keep_completed_count {
            Some(c) => c,
            None => 0,
        },
        completed_at: 0,
        group_id: crate::job::opt_view(i.group_id),
    }
}

/// Some dependency of a job is not completed yet.
pub open spec fn deps_pending(deps: Seq<u64>, completed: Seq<u64>) -> bool {
    exists|k: int| 0 <= k < deps.len() && !completed.contains(deps[k])
}

/// The job with ID `id` wherever it waits, runs or lies dead.
pub open spec fn lookup(m: QueueManager, id: u64) -> Option<JobView> {
    if crate::jobs_seq::has_id(m.waiting@, id) {
        Some(m.waiting@[crate::manager::index_of(m.waiting@, id)]@)
    } else if crate::jobs_seq::has_id(m.waiting_deps@, id) {
        Some(m.waiting_deps@[crate::manager::index_of(m.waiting_deps@, id)]@)
    } else if crate::jobs_seq::has_id(m.processing@, id) {
        Some(m.processing@[crate::manager::index_of(m.processing@, id)]@)
    } else if crate::jobs_seq::has_id(m.dlq@, id) {
        Some(m.dlq@[crate::manager::index_of(m.dlq@, id)]@)
    } else {
        None
    }
}

pub proof fn lemma_index_of_unique(s: Seq<Job>, i: int)
    requires
        crate::jobs_seq::ids_unique(s),
        0 <= i < s.len(),
    ensures
        crate::jobs_seq::has_id(s, s[i].id),
        crate::manager::index_of(s, s[i].id) == i,
{
    assert(s[i].id == s[i].id);
    let k = crate::manager::index_of(s, s[i].id);
    assert(0 <= k < s.len() && s[k].id == s[i].id);
}

/// The job `lookup` finds carries the ID asked for.
pub proof fn lemma_lookup_id(m: QueueManager, id: u64)
    ensures
        lookup(m, id) matches Some(v) ==> v.id == id,
{
}

/// The push is refused by the debounce window of its ID.
pub open spec fn debounced(m: QueueManager, q: Seq<char>, i: JobInput, now: u64) -> bool {
    match i.debounce_id {
        Some(d) => {
            let dv = crate::tables::debounce_view(m.debounce@);
            dv.contains_key((q, d@)) && now < dv[(q, d@)]
        },
        None => false,
    }
}

/// The debounce table after an accepted push.
pub open spec fn debounce_after(m: QueueManager, q: Seq<char>, i: JobInput, now: u64) -> Map<(Seq<char>, Seq<char>), u64> {
    match i.debounce_id {
        Some(d) => crate::tables::debounce_view(m.debounce@).insert(
            (q, d@),
            (now + match i.debounce_ttl {
                Some(t) => t,
                None => DEFAULT_DEBOUNCE_TTL,
            }) as u64,
        ),
        None => crate::tables::debounce_view(m.debounce@),
    }
}

/// The job that the push's custom ID already names, if it still exists.
pub open spec fn existing_custom(m: QueueManager, i: JobInput) -> Option<JobView> {
    match i.job_id {
        Some(c) => if m.custom_ids@.contains_key(c@) {
            lookup(m, m.custom_ids@[c@])
        } else {
            None
        },
        None => None,
    }
}

/// The push's unique key is taken in queue `q`.
pub open spec fn key_taken(m: QueueManager, q: Seq<char>, i: JobInput) -> bool {
    match i.unique_key {
        Some(k) => crate::tables::pairs_view(m.unique_keys@).contains((q, k@)),
        None => false,
    }
}

pub open spec fn debounced_msg(d: Seq<char>) -> Seq<char> {
    "Debounced: job with id '"@ + d + "' was pushed recently"@
}

pub open spec fn duplicate_msg(k: Seq<char>) -> Seq<char> {
    "Duplicate job with key: "@ + k
}

/// What a batch push does, input by input: the debounce table, the next
/// free ID, the jobs queued, the jobs held for their dependencies and the
/// IDs given out.
pub struct BatchOut {
    pub debounce: Map<(Seq<char>, Seq<char>), u64>,
    pub next_id: int,
    pub ready: Seq<JobView>,
    pub held: Seq<JobView>,
    pub ids: Seq<u64>,
}

/// A batch push of `inputs` to queue `q` at `now`, starting from debounce
/// table `dv` and ID `first_id`: inputs inside their debounce window are
/// dropped (the others renew it), each other input takes the next ID and
/// its job is held when a dependency is not in `completed`, else queued.
/// Custom IDs and unique keys are not looked at.
pub open spec fn batch_run(
    dv: Map<(Seq<char>, Seq<char>), u64>,
    q: Seq<char>,
    inputs: Seq<JobInput>,
    first_id: int,
    completed: Seq<u64>,
    now: u64,
) -> BatchOut
    decreases inputs.len(),
{
    if inputs.len() == 0 {
        BatchOut { debounce: dv, next_id: first_id, ready: Seq::empty(), held: Seq::empty(), ids: Seq::empty() }
    } else {
        let b = batch_run(dv, q, inputs.drop_last(), first_id, completed, now);
        let i = inputs.last();
        let refused = match i.debounce_id {
            Some(d) => b.debounce.contains_key((q, d@)) && now < b.debounce[(q, d@)],
            None => false,
        };
        if refused {
            b
        } else {
            let dv2 = match i.debounce_id {
                Some(d) => b.debounce.insert(
                    (q, d@),
                    (now + match i.debounce_ttl {
                        Some(t) => t,
                        None => DEFAULT_DEBOUNCE_TTL,
                    }) as u64,
                ),
                None => b.debounce,
            };
            let j = input_job(b.next_id as u64, q, i, now);
            let ids = b.ids.push(b.next_id as u64);
            if deps_pending(j.depends_on, completed) {
                BatchOut { debounce: dv2, next_id: b.next_id + 1, ready: b.ready, held: b.held.push(j), ids }
            } else {
                BatchOut { debounce: dv2, next_id: b.next_id + 1, ready: b.ready.push(j), held: b.held, ids }
            }
        }
    }
}

pub proof fn lemma_batch_run_ids(dv: Map<(Seq<char>, Seq<char>), u64>, q: Seq<char>, inputs: Seq<JobInput>, first_id: int, completed: Seq<u64>, now: u64)
    ensures
        first_id <= batch_run(dv, q, inputs, first_id, completed, now).next_id <= first_id + inputs.len(),
        batch_run(dv, q, inputs, first_id, completed, now).next_id == first_id + batch_run(dv, q, inputs, first_id, completed, now).ids.len(),
    decreases inputs.len(),
{
    if inputs.len() > 0 {
        lemma_batch_run_ids(dv, q, inputs.drop_last(), first_id, completed, now);
    }
}

/// The parts of the manager that a push leaves alone.
pub open spec fn push_frame(pre: QueueManager, post: QueueManager) -> bool {
    &&& post.processing == pre.processing
    &&& post.dlq == pre.dlq
    &&& post.completed == pre.completed
    &&& post.completed_data == pre.completed_data
    &&& post.job_results == pre.job_results
    &&& post.completed_retention == pre.completed_retention
    &&& post.stalled_counts == pre.stalled_counts
    &&& post.concurrency == pre.concurrency
    &&& post.active_groups == pre.active_groups
    &&& post.same_settings(&pre)
}

/// A job that was pushed lies at the end of `post`, after the jobs of `pre`.
pub open spec fn appended(pre: Seq<Job>, post: Seq<Job>, j: JobView) -> bool {
    post.len() == pre.len() + 1 && post.take(pre.len() as int) == pre && post.last()@ == j
}

/// A new job, with the next free ID, added to the waiting list or to the
/// dependency-waiting list keeps the ID bookkeeping.
pub proof fn lemma_add_new(w: Seq<Job>, d: Seq<Job>, p: Seq<Job>, x: Seq<Job>, n: u64, c0: u64, c: u64, j: Job)
    requires
        crate::manager::jobs_wf(w, d, p, x, n, c0),
        c0 <= c,
        j.id == n,
        n < u64::MAX,
        j.created_at <= c,
    ensures
        crate::manager::jobs_wf(w.push(j), d, p, x, (n + 1) as u64, c),
        crate::manager::jobs_wf(w, d.push(j), p, x, (n + 1) as u64, c),
{
    let n1 = (n + 1) as u64;
    crate::manager::lemma_created_by(w, c0, c);
    crate::manager::lemma_created_by(d, c0, c);
    crate::manager::lemma_created_by(p, c0, c);
    crate::manager::lemma_created_by(x, c0, c);
    crate::jobs_seq::lemma_below_not_has(w, n);
    crate::jobs_seq::lemma_below_not_has(d, n);
    crate::jobs_seq::lemma_below_not_has(p, n);
    crate::jobs_seq::lemma_below_not_has(x, n);
    crate::jobs_seq::lemma_push_keeps(w, j, n1);
    crate::jobs_seq::lemma_push_keeps(d, j, n1);
    assert(crate::jobs_seq::ids_below(w, n1) && crate::jobs_seq::ids_below(d, n1));
    assert(crate::jobs_seq::ids_below(p, n1) && crate::jobs_seq::ids_below(x, n1));
    assert(crate::jobs_seq::ids_disjoint(w.push(j), d));
    assert(crate::jobs_seq::ids_disjoint(w.push(j), p));
    assert(crate::jobs_seq::ids_disjoint(w.push(j), x));
    assert(crate::jobs_seq::ids_disjoint(w, d.push(j)));
    assert(crate::jobs_seq::ids_disjoint(d.push(j), p));
    assert(crate::jobs_seq::ids_disjoint(d.push(j), x));
}

impl JobInput {
    /// An input with the payload `data` and every option absent.
    pub fn new(data: String) -> (r: JobInput)
        ensures
            r.data@ == data@,
            r.priority == 0,
            r.delay is None && r.ttl is None && r.timeout is None && r.max_attempts is None,
            r.backoff is None && r.unique_key is None && r.depends_on is None && r.tags is None,
            !r.lifo && !r.remove_on_complete && !r.remove_on_fail,
            r.stall_timeout is None && r.debounce_id is None && r.debounce_ttl is None,
            r.job_id is None && r.keep_completed_age is None && r.keep_completed_count is None,
            r.group_id is None,
    {
        JobInput {
            data,
            priority: 0,
            delay: None,
            ttl: None,
            timeout: None,
            max_attempts: None,
            backoff: None,
            unique_key: None,
            depends_on: None,
            tags: None,
            lifo: false,
            remove_on_complete: false,
            remove_on_fail: false,
            stall_timeout: None,
            debounce_id: None,
            debounce_ttl: None,
            job_id: None,
            keep_completed_age: None,
            keep_completed_count: None,
            group_id: None,
        }
    }

    /// The same input with priority `priority`.
    pub fn with_priority(self, priority: i32) -> (r: JobInput)
        ensures
            r == (JobInput { priority, ..self }),
    {
        JobInput { priority, ..self }
    }
}

/// Whether some ID of `deps` is missing from `completed`.
pub fn has_pending_dep(deps: &Vec<u64>, completed: &Vec<u64>) -> (r: bool)
    ensures
        r == deps_pending(deps@, completed@),
{
    let mut k: usize = 0;
    while k < deps.len()
        invariant
            k <= deps.len(),
            forall|m: int| 0 <= m < k ==> completed@.contains(#[trigger] deps@[m]),
        decreases deps.len() - k,
    {
        let d = deps[k];
        let mut found = false;
        let mut c: usize = 0;
        while c < completed.len()
            invariant
                c <= completed.len(),
                found == (exists|x: int| 0 <= x < c && completed@[x] == d),
            decreases completed.len() - c,
        {
            if completed[c] == d {
                found = true;
            }
            c = c + 1;
        }
        if !found {
            assert(!completed@.contains(deps@[k as int]));
            return true;
        }
        k = k + 1;
    }
    false
}

/// Checks the debounce window of `(q, d)` at `now`; an accepted push opens
/// a new window of `ttl` ms. Returns whether the push is refused.
fn debounce_check(table: &mut Vec<DebounceEntry>, q: &String, d: &String, ttl: u64, now: u64) -> (r: bool)
    requires
        crate::tables::debounce_unique(old(table)@),
        now + ttl <= u64::MAX,
    ensures
        crate::tables::debounce_unique(final(table)@),
        r == (crate::tables::debounce_view(old(table)@).contains_key((q@, d@))
            && now < crate::tables::debounce_view(old(table)@)[(q@, d@)]),
        r ==> final(table)@ == old(table)@,
        !r ==> crate::tables::debounce_view(final(table)@) == crate::tables::debounce_view(old(table)@).insert((q@, d@), (now + ttl) as u64),
{
    match debounce_find(table, q, d) {
        Some(i) => {
            if now < table[i].expiry {
                return true;
            }
        },
        None => {},
    }
    debounce_set(table, q, d, now + ttl);
    false
}

/// "Debounced: job with id '{d}' was pushed recently".
fn debounced_error(d: &String) -> (r: String)
    ensures
        r@ == debounced_msg(d@),
{
    let mut s = String::from_str("Debounced: job with id '");
    s.append(d.as_str());
    s.append("' was pushed recently");
    s
}

/// "Duplicate job with key: {k}".
fn duplicate_error(k: &String) -> (r: String)
    ensures
        r@ == duplicate_msg(k@),
{
    let mut s = String::from_str("Duplicate job with key: ");
    s.append(k.as_str());
    s
}

impl QueueManager {
    /// Builds the job that `input` describes for queue `queue`, with ID
    /// `id`, created at `now`.
    pub fn create_job_from_input(&self, id: u64, queue: String, input: JobInput, now: u64) -> (r: Job)
        requires
            now + or_zero(input.delay) <= u64::MAX,
        ensures
            r@ == input_job(id, queue@, input, now),
    {
        let delay = match input.delay {
            Some(d) => d,
            None => 0,
        };
        let ghost iv = input;
        let j = Job {
            id,
            queue,
            data: input.data,
            priority: input.priority,
            created_at: now,
            run_at: now + delay,
            started_at: 0,
            attempts: 0,
            max_attempts: match input.max_attempts {
                Some(m) => m,
                None => 0,
            },
            backoff: match input.backoff {
                Some(b) => b,
                None => 0,
            },
            ttl: match input.ttl {
                Some(t) => t,
                None => 0,
            },
            timeout: match input.timeout {
                Some(t) => t,
                None => 0,
            },
            unique_key: input.unique_key,
            depends_on: match input.depends_on {
                Some(v) => v,
                None => Vec::new(),
            },
            progress: 0,
            progress_msg: None,
            tags: match input.tags {
                Some(v) => v,
                None => Vec::new(),
            },
            lifo: input.lifo,
            remove_on_complete: input.remove_on_complete,
            remove_on_fail: input.remove_on_fail,
            last_heartbeat: 0,
            stall_timeout: match input.stall_timeout {
                Some(s) => s,
                None => 0,
            },
            stall_count: 0,
            parent_id: None,
            children_ids: Vec::new(),
            children_completed: 0,
            custom_id: input.job_id,
            keep_completed_age: match input.keep_completed_age {
                Some(a) => a,
                None => 0,
            },
            keep_completed_count: match input.keep_completed_count {
                Some(c) => c,
                None => 0,
            },
            completed_at: 0,
            group_id: input.group_id,
        };
        proof {
            let e: Seq<String> = Seq::empty();
            assert(crate::job::strings_view(e) =~= Seq::<Seq<char>>::empty());
            assert(j@.tags == input_job(id, queue@, iv, now).tags);
            assert(j@ == input_job(id, queue@, iv, now));
        }
        j
    }

    /// A copy of the job with ID `id`, looked up in the waiting,
    /// dependency-waiting, processing and dead letter lists.
    pub fn get_job_by_internal_id(&self, id: u64) -> (r: Option<Job>)
        requires
            self.wf(),
        ensures
            match r {
                Some(j) => lookup(*self, id) == Some(j@),
                None => lookup(*self, id) is None,
            },
    {
        match find_job(&self.waiting, id) {
            Some(i) => {
                return Some(self.waiting[i].duplicate());
            },
            None => {},
        }
        match find_job(&self.waiting_deps, id) {
            Some(i) => {
                return Some(self.waiting_deps[i].duplicate());
            },
            None => {},
        }
        match find_job(&self.processing, id) {
            Some(i) => {
                return Some(self.processing[i].duplicate());
            },
            None => {},
        }
        match find_job(&self.dlq, id) {
            Some(i) => Some(self.dlq[i].duplicate()),
            None => None,
        }
    }

    /// Pushes a job built from `input` to queue `queue` at `now`.
    ///
    /// In order: a push whose debounce ID is inside its window is refused
    /// (else the window is renewed); the push takes the next ID; a custom
    /// ID that names a job which still exists gives that job back and
    /// nothing is added (a stale one is dropped, and the custom ID is
    /// recorded for the new job); a unique key already taken in the queue
    /// refuses the push and forgets the custom ID; otherwise the job waits
    /// for its dependencies when one of them has not completed, and is
    /// queued (and counted) when none is pending.
    pub fn push(&mut self, queue: String, input: JobInput, now: u64) -> (r: Result<Job, String>)
        requires
            old(self).wf(),
            old(self).clock <= now <= MAX_TIME,
            old(self).next_id < u64::MAX,
            input_in_range(input, now),
        ensures
            final(self).wf(),
            final(self).clock == now,
            push_frame(*old(self), *final(self)),
            r matches Ok(job) ==> lookup(*final(self), job.id) == Some(job@),
            debounced(*old(self), queue@, input, now) ==> {
                &&& r matches Err(e) && e@ == debounced_msg(input.debounce_id.unwrap()@)
                &&& final(self).debounce@ == old(self).debounce@
                &&& final(self).next_id == old(self).next_id
                &&& final(self).custom_ids == old(self).custom_ids
                &&& final(self).unique_keys == old(self).unique_keys
                &&& final(self).waiting == old(self).waiting
                &&& final(self).waiting_deps == old(self).waiting_deps
                &&& final(self).metrics == old(self).metrics
            },
            !debounced(*old(self), queue@, input, now) ==> {
                let id = old(self).next_id;
                let j = input_job(id, queue@, input, now);
                &&& crate::tables::debounce_view(final(self).debounce@) == debounce_after(*old(self), queue@, input, now)
                &&& final(self).next_id == id + 1
                &&& existing_custom(*old(self), input) is Some ==> {
                    &&& r matches Ok(job) && job@ == existing_custom(*old(self), input).unwrap()
                    &&& final(self).custom_ids == old(self).custom_ids
                    &&& final(self).unique_keys == old(self).unique_keys
                    &&& final(self).waiting == old(self).waiting
                    &&& final(self).waiting_deps == old(self).waiting_deps
                    &&& final(self).metrics == old(self).metrics
                }
                &&& existing_custom(*old(self), input) is None && key_taken(*old(self), queue@, input) ==> {
                    &&& r matches Err(e) && e@ == duplicate_msg(input.unique_key.unwrap()@)
                    &&& final(self).custom_ids@ == match input.job_id {
                        Some(c) => old(self).custom_ids@.remove(c@),
                        None => old(self).custom_ids@,
                    }
                    &&& final(self).unique_keys == old(self).unique_keys
                    &&& final(self).waiting == old(self).waiting
                    &&& final(self).waiting_deps == old(self).waiting_deps
                    &&& final(self).metrics == old(self).metrics
                }
                &&& existing_custom(*old(self), input) is None && !key_taken(*old(self), queue@, input) ==> {
                    &&& r matches Ok(job) && job@ == j
                    &&& final(self).custom_ids@ == match input.job_id {
                        Some(c) => old(self).custom_ids@.insert(c@, id),
                        None => old(self).custom_ids@,
                    }
                    &&& crate::tables::pairs_view(final(self).unique_keys@) == match input.unique_key {
                        Some(k) => crate::tables::pairs_view(old(self).unique_keys@).insert((queue@, k@)),
                        None => crate::tables::pairs_view(old(self).unique_keys@),
                    }
                    &&& deps_pending(j.depends_on, old(self).completed@) ==> {
                        &&& appended(old(self).waiting_deps@, final(self).waiting_deps@, j)
                        &&& final(self).waiting == old(self).waiting
                        &&& final(self).metrics == old(self).metrics
                    }
                    &&& !deps_pending(j.depends_on, old(self).completed@) ==> {
                        &&& appended(old(self).waiting@, final(self).waiting@, j)
                        &&& final(self).waiting_deps == old(self).waiting_deps
                        &&& final(self).metrics == (crate::manager::Metrics {
                            total_pushed: old(self).metrics.total_pushed.wrapping_add(1),
                            ..old(self).metrics
                        })
                    }
                }
            },
    {
        let ghost pre = *self;
        match &input.debounce_id {
            Some(d) => {
                let ttl = match input.debounce_ttl {
                    Some(t) => t,
                    None => DEFAULT_DEBOUNCE_TTL,
                };
                if debounce_check(&mut self.debounce, &queue, d, ttl, now) {
                    proof {
                        crate::manager::lemma_created_by(self.waiting@, pre.clock, now);
                        crate::manager::lemma_created_by(self.waiting_deps@, pre.clock, now);
                        crate::manager::lemma_created_by(self.processing@, pre.clock, now);
                        crate::manager::lemma_created_by(self.dlq@, pre.clock, now);
                    }
                    self.clock = now;
                    return Err(debounced_error(d));
                }
            },
            None => {},
        }
        let id = self.next_id;
        let ghost mid = *self;
        let mut drop_stale = false;
        match &input.job_id {
            Some(c) => {
                match self.custom_ids.get(c.as_str()) {
                    Some(existing) => {
                        let e = existing;
                        match self.get_job_by_internal_id(e) {
                            Some(job) => {
                                proof {
                                    lemma_lookup_id(*self, e);
                                    crate::manager::lemma_created_by(self.waiting@, pre.clock, now);
                                    crate::manager::lemma_created_by(self.waiting_deps@, pre.clock, now);
                                    crate::manager::lemma_created_by(self.processing@, pre.clock, now);
                                    crate::manager::lemma_created_by(self.dlq@, pre.clock, now);
                                }
                                self.next_id = id + 1;
                                self.clock = now;
                                return Ok(job);
                            },
                            None => {
                                drop_stale = true;
                            },
                        }
                    },
                    None => {},
                }
                if drop_stale {
                    self.custom_ids.remove(c.as_str());
                }
                self.custom_ids.insert(c.clone(), id);
            },
            None => {},
        }
        proof {
            crate::manager::lemma_created_by(self.waiting@, pre.clock, now);
            crate::manager::lemma_created_by(self.waiting_deps@, pre.clock, now);
            crate::manager::lemma_created_by(self.processing@, pre.clock, now);
            crate::manager::lemma_created_by(self.dlq@, pre.clock, now);
        }
        self.next_id = id + 1;
        self.clock = now;
        match &input.unique_key {
            Some(k) => {
                if pair_contains(&self.unique_keys, &queue, k) {
                    match &input.job_id {
                        Some(c) => {
                            self.custom_ids.remove(c.as_str());
                        },
                        None => {},
                    }
                    return Err(duplicate_error(k));
                }
                pair_insert(&mut self.unique_keys, &queue, k);
            },
            None => {},
        }
        let ghost iv = input;
        let ghost qv = queue@;
        let job = self.create_job_from_input(id, queue, input, now);
        let pending = has_pending_dep(&job.depends_on, &self.completed);
        if pending {
            let ghost before = self.waiting_deps@;
            self.waiting_deps.push(job.duplicate());
            proof {
                lemma_add_new(mid.waiting@, mid.waiting_deps@, mid.processing@, mid.dlq@, mid.next_id, mid.clock, now,
                    self.waiting_deps@.last());
                assert(self.waiting_deps@.take(before.len() as int) =~= before);
                lemma_index_of_unique(self.waiting_deps@, before.len() as int);
                crate::jobs_seq::lemma_below_not_has(mid.waiting@, mid.next_id);
            }
        } else {
            let ghost before = self.waiting@;
            self.waiting.push(job.duplicate());
            self.metrics.total_pushed = self.metrics.total_pushed.wrapping_add(1);
            proof {
                lemma_add_new(mid.waiting@, mid.waiting_deps@, mid.processing@, mid.dlq@, mid.next_id, mid.clock, now,
                    self.waiting@.last());
                assert(self.waiting@.take(before.len() as int) =~= before);
                lemma_index_of_unique(self.waiting@, before.len() as int);
            }
        }
        Ok(job)
    }

    /// Pushes a batch of jobs to queue `queue` at `now` and returns the IDs
    /// given out, as [`batch_run`] states: queued jobs go after the waiting
    /// ones, held jobs after the dependency-waiting ones, and every ID
    /// given out is counted as pushed.
    pub fn push_batch(&mut self, queue: String, inputs: Vec<JobInput>, now: u64) -> (r: Vec<u64>)
        requires
            old(self).wf(),
            old(self).clock <= now <= MAX_TIME,
            old(self).next_id + inputs@.len() <= u64::MAX,
            forall|k: int| 0 <= k < inputs@.len() ==> input_in_range(#[trigger] inputs@[k], now),
        ensures
            final(self).wf(),
            final(self).clock == now,
            push_frame(*old(self), *final(self)),
            ({
                let b = batch_run(crate::tables::debounce_view(old(self).debounce@), queue@, inputs@,
                    old(self).next_id as int, old(self).completed@, now);
                &&& r@ == b.ids
                &&& crate::tables::debounce_view(final(self).debounce@) == b.debounce
                &&& final(self).next_id == b.next_id
                &&& crate::job::jobs_view(final(self).waiting@) == crate::job::jobs_view(old(self).waiting@) + b.ready
                &&& crate::job::jobs_view(final(self).waiting_deps@) == crate::job::jobs_view(old(self).waiting_deps@) + b.held
                &&& final(self).custom_ids == old(self).custom_ids
                &&& final(self).unique_keys == old(self).unique_keys
                &&& final(self).metrics == (crate::manager::Metrics {
                    total_pushed: old(self).metrics.total_pushed.wrapping_add(b.ids.len() as u64),
                    ..old(self).metrics
                })
            }),
    {
        let ghost pre = *self;
        let ghost orig = inputs@;
        let ghost dv0 = crate::tables::debounce_view(self.debounce@);
        proof {
            crate::manager::lemma_created_by(self.waiting@, pre.clock, now);
            crate::manager::lemma_created_by(self.waiting_deps@, pre.clock, now);
            crate::manager::lemma_created_by(self.processing@, pre.clock, now);
            crate::manager::lemma_created_by(self.dlq@, pre.clock, now);
        }
        self.clock = now;
        let mut inputs = inputs;
        let mut ready: Vec<Job> = Vec::new();
        let mut held: Vec<Job> = Vec::new();
        let mut ids: Vec<u64> = Vec::new();
        assert(self.waiting@ + ready@ =~= self.waiting@);
        assert(self.waiting_deps@ + held@ =~= self.waiting_deps@);
        assert(orig.take(0) =~= Seq::<JobInput>::empty());
        assert(crate::job::jobs_view(ready@) =~= Seq::<JobView>::empty());
        assert(crate::job::jobs_view(held@) =~= Seq::<JobView>::empty());
        let ghost mut done: int = 0;
        while inputs.len() > 0
            invariant
                0 <= done <= orig.len(),
                inputs@ == orig.skip(done),
                forall|k: int| 0 <= k < orig.len() ==> input_in_range(#[trigger] orig[k], now),
                pre.next_id + orig.len() <= u64::MAX,
                crate::manager::jobs_wf(self.waiting@ + ready@, self.waiting_deps@ + held@, self.processing@, self.dlq@, self.next_id, now),
                crate::tables::debounce_unique(self.debounce@),
                self.clock == now,
                now <= MAX_TIME,
                self.waiting == pre.waiting,
                self.waiting_deps == pre.waiting_deps,
                self.processing == pre.processing,
                self.dlq == pre.dlq,
                self.completed == pre.completed,
                push_frame(pre, *self),
                self.custom_ids == pre.custom_ids,
                self.unique_keys == pre.unique_keys,
                self.metrics == pre.metrics,
                vstd::std_specs::hash::obeys_key_model::<u64>(),
                ({
                    let b = batch_run(dv0, queue@, orig.take(done), pre.next_id as int, pre.completed@, now);
                    &&& b.debounce == crate::tables::debounce_view(self.debounce@)
                    &&& b.next_id == self.next_id
                    &&& b.ready == crate::job::jobs_view(ready@)
                    &&& b.held == crate::job::jobs_view(held@)
                    &&& b.ids == ids@
                }),
            decreases inputs.len(),
        {
            let input = inputs.remove(0);
            let ghost iv = input;
            proof {
                assert(orig[done] == iv);
                assert(orig.take(done + 1).drop_last() =~= orig.take(done));
                assert(orig.take(done + 1).last() == iv);
                assert(inputs@ =~= orig.skip(done + 1));
                lemma_batch_run_ids(dv0, queue@, orig.take(done), pre.next_id as int, pre.completed@, now);
            }
            let refused = match &input.debounce_id {
                Some(d) => {
                    let ttl = match input.debounce_ttl {
                        Some(t) => t,
                        None => DEFAULT_DEBOUNCE_TTL,
                    };
                    debounce_check(&mut self.debounce, &queue, d, ttl, now)
                },
                None => false,
            };
            if !refused {
                let id = self.next_id;
                let job = self.create_job_from_input(id, queue.clone(), input, now);
                let pending = has_pending_dep(&job.depends_on, &self.completed);
                let ghost w = self.waiting@ + ready@;
                let ghost d = self.waiting_deps@ + held@;
                proof {
                    lemma_add_new(w, d, self.processing@, self.dlq@, id, now, now, job);
                }
                ids.push(id);
                self.next_id = id + 1;
                if pending {
                    let ghost hb = held@;
                    held.push(job);
                    assert(self.waiting_deps@ + held@ =~= d.push(held@.last()));
                    assert(crate::job::jobs_view(held@) =~= crate::job::jobs_view(hb).push(held@.last()@));
                } else {
                    let ghost rb = ready@;
                    ready.push(job);
                    assert(self.waiting@ + ready@ =~= w.push(ready@.last()));
                    assert(crate::job::jobs_view(ready@) =~= crate::job::jobs_view(rb).push(ready@.last()@));
                }
            }
            proof {
                done = done + 1;
            }
        }
        proof {
            assert(orig.take(done) =~= orig);
        }
        self.waiting.append(&mut ready);
        self.waiting_deps.append(&mut held);
        let n = ids.len() as u64;
        self.metrics.total_pushed = self.metrics.total_pushed.wrapping_add(n);
        proof {
            crate::jobs_seq::lemma_jobs_view_concat(pre.waiting@, self.waiting@.skip(pre.waiting@.len() as int));
        }
        ids
    }
}

} // verus!
