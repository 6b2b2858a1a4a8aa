//! Jobs, job states and the other plain records of the queue protocol.
use vstd::prelude::*;

verus! {

/// Job state, as in BullMQ.
#[derive(Debug, Clone, Copy, PartialEq, Eq, Structural)]
pub enum JobState {
    /// In queue, ready to be processed.
    Waiting,
    /// In queue, but `run_at` is in the future.
    Delayed,
    /// Currently being processed.
    Active,
    /// Successfully completed.
    Completed,
    /// In the dead letter queue after `max_attempts`.
    Failed,
    /// Waiting for dependencies to complete.
    WaitingChildren,
    /// Parent waiting for children to complete (flows).
    WaitingParent,
    /// Job is stalled (no heartbeat).
    Stalled,
    /// Job not found or state cannot be determined.
    Unknown,
}

/// A job. `data` holds the JSON payload as text; the queue never reads it.
#[derive(Debug)]
pub struct Job {
    pub id: u64,
    pub queue: String,
    pub data: String,
    pub priority: i32,
    pub created_at: u64,
    pub run_at: u64,
    /// When the job started processing (0 = not started).
    pub started_at: u64,
    pub attempts: u32,
    /// 0 = infinite.
    pub max_attempts: u32,
    /// Base backoff in ms.
    pub backoff: u64,
    /// 0 = no expiration.
    pub ttl: u64,
    /// 0 = no timeout.
    pub timeout: u64,
    pub unique_key: Option<String>,
    pub depends_on: Vec<u64>,
    pub progress: u8,
    pub progress_msg: Option<String>,
    pub tags: Vec<String>,
    /// LIFO mode: last in, first out.
    pub lifo: bool,
    pub remove_on_complete: bool,
    pub remove_on_fail: bool,
    pub last_heartbeat: u64,
    /// Stall detection timeout in ms (0 = default of 30 s).
    pub stall_timeout: u64,
    pub stall_count: u32,
    pub parent_id: Option<u64>,
    pub children_ids: Vec<u64>,
    pub children_completed: u32,
    pub custom_id: Option<String>,
    pub keep_completed_age: u64,
    pub keep_completed_count: usize,
    pub completed_at: u64,
    pub group_id: Option<String>,
}

/// The value of an optional string.
pub open spec fn opt_view(o: Option<String>) -> Option<Seq<char>> {
    match o {
        Some(s) => Some(s@),
        None => None,
    }
}

/// The values of a list of strings.
pub open spec fn strings_view(v: Seq<String>) -> Seq<Seq<char>> {
    v.map_values(|s: String| s@)
}

/// A job as a value: every field by its view.
pub struct JobView {
    pub id: u64,
    pub queue: Seq<char>,
    pub data: Seq<char>,
    pub priority: i32,
    pub created_at: u64,
    pub run_at: u64,
    pub started_at: u64,
    pub attempts: u32,
    pub max_attempts: u32,
    pub backoff: u64,
    pub ttl: u64,
    pub timeout: u64,
    pub unique_key: Option<Seq<char>>,
    pub depends_on: Seq<u64>,
    pub progress: u8,
    pub progress_msg: Option<Seq<char>>,
    pub tags: Seq<Seq<char>>,
    pub lifo: bool,
    pub remove_on_complete: bool,
    pub remove_on_fail: bool,
    pub last_heartbeat: u64,
    pub stall_timeout: u64,
    pub stall_count: u32,
    pub parent_id: Option<u64>,
    pub children_ids: Seq<u64>,
    pub children_completed: u32,
    pub custom_id: Option<Seq<char>>,
    pub keep_completed_age: u64,
    pub keep_completed_count: usize,
    pub completed_at: u64,
    pub group_id: Option<Seq<char>>,
}

impl View for Job {
    type V = JobView;

    open spec fn view(&self) -> JobView {
        JobView {
            id: self.id,
            queue: self.queue@,
            data: self.data@,
            priority: self.priority,
            created_at: self.created_at,
            run_at: self.run_at,
            started_at: self.started_at,
            attempts: self.attempts,
            max_attempts: self.max_attempts,
            backoff: self.backoff,
            ttl: self.ttl,
            timeout: self.timeout,
            unique_key: opt_view(self.unique_key),
            depends_on: self.depends_on@,
            progress: self.progress,
            progress_msg: opt_view(self.progress_msg),
            tags: strings_view(self.tags@),
            lifo: self.lifo,
            remove_on_complete: self.remove_on_complete,
            remove_on_fail: self.remove_on_fail,
            last_heartbeat: self.last_heartbeat,
            stall_timeout: self.stall_timeout,
            stall_count: self.stall_count,
            parent_id: self.parent_id,
            children_ids: self.children_ids@,
            children_completed: self.children_completed,
            custom_id: opt_view(self.custom_id),
            keep_completed_age: self.keep_completed_age,
            keep_completed_count: self.keep_completed_count,
            completed_at: self.completed_at,
            group_id: opt_view(self.group_id),
        }
    }
}

/// The views of a list of jobs.
pub open spec fn jobs_view(v: Seq<Job>) -> Seq<JobView> {
    v.map_values(|j: Job| j@)
}

/// The largest clock value (2^62 ms) and the largest delay or TTL the queue
/// accepts: a sum of two of them fits in a `u64`.
pub const MAX_TIME: u64 = 4611686018427387904;

pub open spec fn pow2(n: nat) -> nat
    decreases n,
{
    if n == 0 {
        1
    } else {
        2 * pow2((n - 1) as nat)
    }
}

pub open spec fn min_u32(a: u32, b: u32) -> u32 {
    if a <= b {
        a
    } else {
        b
    }
}

/// Exponential backoff: `base * 2^min(attempts, 10)`, or 0 without a base.
pub open spec fn backoff_delay(backoff: u64, attempts: u32) -> nat {
    if backoff == 0 {
        0
    } else {
        (backoff as nat) * pow2(min_u32(attempts, 10) as nat)
    }
}

pub proof fn lemma_pow2_bounds(n: nat)
    requires
        n <= 10,
    ensures
        1 <= pow2(n) <= 1024,
        pow2(n) <= pow2(10),
    decreases n,
{
    reveal_with_fuel(pow2, 11);
    if n > 0 {
        lemma_pow2_bounds((n - 1) as nat);
    }
}

/// The shift `1 << k` for `k <= 10` is `2^k`.
fn shift_pow2(k: u32) -> (r: u64)
    requires
        k <= 10,
    ensures
        r == pow2(k as nat),
        1 <= r <= 1024,
{
    let mut r: u64 = 1;
    let mut i: u32 = 0;
    while i < k
        invariant
            i <= k <= 10,
            r == pow2(i as nat),
            1 <= r <= 1024,
        decreases k - i,
    {
        proof {
            lemma_pow2_bounds((i + 1) as nat);
        }
        r = r * 2;
        i = i + 1;
    }
    proof {
        lemma_pow2_bounds(k as nat);
    }
    r
}

impl Job {
    pub open spec fn spec_is_ready(&self, now: u64) -> bool {
        self.run_at <= now
    }

    pub open spec fn spec_is_expired(&self, now: u64) -> bool {
        self.ttl > 0 && (if now >= self.created_at { now - self.created_at } else { 0 }) > self.ttl
    }

    pub open spec fn spec_is_timed_out(&self, now: u64) -> bool {
        self.timeout > 0 && self.started_at > 0 && (if now >= self.started_at {
            now - self.started_at
        } else {
            0
        }) > self.timeout
    }

    pub open spec fn spec_should_go_to_dlq(&self) -> bool {
        self.max_attempts > 0 && self.attempts >= self.max_attempts
    }

    /// Whether the job may run at `now`.
    #[verifier::when_used_as_spec(spec_is_ready)]
    pub fn is_ready(&self, now: u64) -> (r: bool)
        ensures
            r == self.spec_is_ready(now),
    {
        self.run_at <= now
    }

    /// Whether the job's TTL has passed at `now` (saturating age).
    #[verifier::when_used_as_spec(spec_is_expired)]
    pub fn is_expired(&self, now: u64) -> (r: bool)
        ensures
            r == self.spec_is_expired(now),
    {
        self.ttl > 0 && now.saturating_sub(self.created_at) > self.ttl
    }

    /// Whether a started job has run longer than its timeout at `now`.
    #[verifier::when_used_as_spec(spec_is_timed_out)]
    pub fn is_timed_out(&self, now: u64) -> (r: bool)
        ensures
            r == self.spec_is_timed_out(now),
    {
        self.timeout > 0 && self.started_at > 0 && now.saturating_sub(self.started_at)
            > self.timeout
    }

    /// Whether the job has used up its attempts (0 = never).
    #[verifier::when_used_as_spec(spec_should_go_to_dlq)]
    pub fn should_go_to_dlq(&self) -> (r: bool)
        ensures
            r == self.spec_should_go_to_dlq(),
    {
        self.max_attempts > 0 && self.attempts >= self.max_attempts
    }

    /// Exponential backoff for the next retry: `backoff * 2^min(attempts, 10)`.
    /// The product must fit in a `u64`.
    pub fn next_backoff(&self) -> (r: u64)
        requires
            backoff_delay(self.backoff, self.attempts) <= u64::MAX,
        ensures
            r == backoff_delay(self.backoff, self.attempts),
    {
        if self.backoff == 0 {
            return 0;
        }
        let k = if self.attempts < 10 { self.attempts } else { 10 };
        let m = shift_pow2(k);
        self.backoff * m
    }
}

/// Whether failing `j` at `now` keeps its next run on the clock: with the
/// attempt counted, either the job has used up its attempts, or `now` plus
/// its grown backoff fits in a `u64`.
pub open spec fn retry_fits(j: Job, now: u64) -> bool {
    let a = (j.attempts + 1) as u32;
    (j.max_attempts > 0 && a >= j.max_attempts) || now + backoff_delay(j.backoff, a) <= u64::MAX
}

impl Job {
    /// Computes [`retry_fits`] for this job at `now`.
    pub fn retry_on_clock(&self, now: u64) -> (r: bool)
        requires
            self.attempts < u32::MAX,
        ensures
            r == retry_fits(*self, now),
    {
        let a = self.attempts + 1;
        if self.max_attempts > 0 && a >= self.max_attempts {
            return true;
        }
        if self.backoff == 0 {
            return true;
        }
        let k = if a < 10 { a } else { 10 };
        let m = shift_pow2(k);
        match self.backoff.checked_mul(m) {
            None => false,
            Some(d) => d <= u64::MAX - now,
        }
    }
}

/// Retry delay of the NATS backend: the exponential backoff, or one second
/// when the job has no base backoff. `attempts` is the count after this
/// failure.
pub open spec fn nats_retry_delay(backoff: u64, attempts: u32) -> nat {
    if backoff > 0 {
        backoff_delay(backoff, attempts)
    } else {
        1000
    }
}

/// Computes [`nats_retry_delay`], which must fit in a `u64`.
pub fn retry_delay_ms(backoff: u64, attempts: u32) -> (r: u64)
    requires
        nats_retry_delay(backoff, attempts) <= u64::MAX,
    ensures
        r == nats_retry_delay(backoff, attempts),
{
    if backoff > 0 {
        let k = if attempts < 10 { attempts } else { 10 };
        let m = shift_pow2(k);
        backoff * m
    } else {
        1000
    }
}

/// Job log entry for debugging.
pub struct JobLogEntry {
    pub timestamp: u64,
    pub message: String,
    /// "info", "warn", "error" or "debug".
    pub level: String,
}

/// Flow result: the parent and the children created with it.
pub struct FlowResult {
    pub parent_id: u64,
    pub children_ids: Vec<u64>,
}

/// Per-queue metrics.
pub struct QueueMetrics {
    pub name: String,
    pub pending: usize,
    pub processing: usize,
    pub dlq: usize,
    pub rate_limit: Option<u32>,
}

/// Progress of a job.
pub struct ProgressInfo {
    pub id: u64,
    pub progress: u8,
    pub message: Option<String>,
}

/// Summary of one queue.
pub struct QueueInfo {
    pub name: String,
    pub pending: usize,
    pub processing: usize,
    pub dlq: usize,
    pub paused: bool,
    pub rate_limit: Option<u32>,
    pub concurrency_limit: Option<u32>,
}

/// A registered worker.
pub struct WorkerInfo {
    pub id: String,
    pub queues: Vec<String>,
    pub concurrency: u32,
    pub last_heartbeat: u64,
    pub jobs_processed: u64,
}

/// A webhook registration.
pub struct WebhookConfig {
    pub id: String,
    pub url: String,
    /// "job.completed", "job.failed", "job.progress".
    pub events: Vec<String>,
    /// Filter by queue; `None` = all queues.
    pub queue: Option<String>,
    /// HMAC signing secret.
    pub secret: Option<String>,
    pub created_at: u64,
}

/// A cron or repeatable job definition. `data` is the JSON payload as text.
pub struct CronJob {
    pub name: String,
    pub queue: String,
    pub data: String,
    /// Cron expression (optional when `repeat_every` is set).
    pub schedule: Option<String>,
    /// Repeat every N ms (alternative to `schedule`).
    pub repeat_every: Option<u64>,
    pub priority: i32,
    pub next_run: u64,
    /// Number of times this job has been executed.
    pub executions: u64,
    /// Max executions (`None` = infinite).
    pub limit: Option<u64>,
}

/// A job with its current state, for the job browser.
pub struct JobBrowserItem {
    pub job: Job,
    pub state: JobState,
}

} // verus!
