//! The request and response records of the HTTP API, and the small rules
//! they carry (defaults, required fields, token lists, state names).
use vstd::prelude::*;
use crate::job::JobState;

verus! {

/// The pieces of `s` between the occurrences of `sep` (at least one piece,
/// as `str::split` gives them).
pub open spec fn split_on(s: Seq<char>, sep: char) -> Seq<Seq<char>>
    decreases s.len(),
{
    if s.len() == 0 {
        seq![Seq::empty()]
    } else {
        let p = split_on(s.drop_last(), sep);
        if s.last() == sep {
            p.push(Seq::empty())
        } else {
            p.update(p.len() - 1, p.last().push(s.last()))
        }
    }
}

pub proof fn lemma_split_on_len(s: Seq<char>, sep: char)
    ensures
        split_on(s, sep).len() >= 1,
    decreases s.len(),
{
    if s.len() > 0 {
        lemma_split_on_len(s.drop_last(), sep);
    }
}

/// Whether `c` is whitespace in Unicode's sense (the `White_Space`
/// property, as `char::is_whitespace` has it).
pub open spec fn is_space(c: char) -> bool {
    let u = c as u32;
    ||| 0x9 <= u <= 0xD
    ||| u == 0x20 || u == 0x85 || u == 0xA0 || u == 0x1680
    ||| 0x2000 <= u <= 0x200A
    ||| u == 0x2028 || u == 0x2029 || u == 0x202F || u == 0x205F || u == 0x3000
}

/// `s` without its leading whitespace.
pub open spec fn trim_front(s: Seq<char>) -> Seq<char>
    decreases s.len(),
{
    if s.len() > 0 && is_space(s[0]) {
        trim_front(s.drop_first())
    } else {
        s
    }
}

/// `s` without its trailing whitespace.
pub open spec fn trim_back(s: Seq<char>) -> Seq<char>
    decreases s.len(),
{
    if s.len() > 0 && is_space(s.last()) {
        trim_back(s.drop_last())
    } else {
        s
    }
}

/// `s` without leading and trailing whitespace, as `str::trim` gives it.
pub open spec fn unicode_trim(s: Seq<char>) -> Seq<char> {
    trim_back(trim_front(s))
}

fn space_char(c: char) -> (r: bool)
    ensures
        r == is_space(c),
{
    let u = c as u32;
    (0x9 <= u && u <= 0xD) || u == 0x20 || u == 0x85 || u == 0xA0 || u == 0x1680 || (0x2000 <= u && u <= 0x200A)
        || u == 0x2028 || u == 0x2029 || u == 0x202F || u == 0x205F || u == 0x3000
}

/// Computes [`unicode_trim`].
fn trim(s: &str) -> (r: String)
    ensures
        r@ == unicode_trim(s@),
{
    let n = s.unicode_len();
    let mut i: usize = 0;
    proof {
        assert(s@.skip(0) =~= s@);
    }
    while i < n && space_char(s.get_char(i))
        invariant
            i <= n,
            n == s@.len(),
            trim_front(s@) == trim_front(s@.skip(i as int)),
        decreases n - i,
    {
        assert(s@.skip(i as int).drop_first() =~= s@.skip(i + 1));
        i = i + 1;
    }
    assert(trim_front(s@) == s@.skip(i as int));
    let mut j: usize = n;
    proof {
        assert(s@.skip(i as int) =~= s@.subrange(i as int, n as int));
    }
    while j > i && space_char(s.get_char(j - 1))
        invariant
            i <= j <= n,
            n == s@.len(),
            unicode_trim(s@) == trim_back(s@.subrange(i as int, j as int)),
        decreases j,
    {
        assert(s@.subrange(i as int, j as int).drop_last() =~= s@.subrange(i as int, j - 1));
        j = j - 1;
    }
    s.substring_char(i, j).to_owned()
}

/// The tokens of a comma-separated list: each piece trimmed, empty ones
/// dropped, in order.
pub open spec fn token_list(s: Seq<char>) -> Seq<Seq<char>> {
    split_on(s, ',').map_values(|p: Seq<char>| unicode_trim(p)).filter(|t: Seq<char>| t.len() > 0)
}

/// The auth tokens of a comma-separated list (see [`token_list`]).
pub fn parse_auth_tokens(tokens: &str) -> (r: Vec<String>)
    ensures
        crate::job::strings_view(r@) == token_list(tokens@),
{
    let n = tokens.unicode_len();
    let mut pieces: Vec<String> = Vec::new();
    let mut cur = String::new();
    let mut i: usize = 0;
    proof {
        assert(tokens@.take(0) =~= Seq::<char>::empty());
        assert(crate::job::strings_view(pieces@).push(cur@) =~= split_on(tokens@.take(0), ','));
    }
    while i < n
        invariant
            i <= n,
            n == tokens@.len(),
            crate::job::strings_view(pieces@).push(cur@) == split_on(tokens@.take(i as int), ','),
        decreases n - i,
    {
        let c = tokens.get_char(i);
        let ghost before = crate::job::strings_view(pieces@).push(cur@);
        proof {
            assert(tokens@.take(i + 1).drop_last() =~= tokens@.take(i as int));
            assert(tokens@.take(i + 1).last() == c);
        }
        if c == ',' {
            let done = cur;
            pieces.push(done);
            cur = String::new();
            assert(crate::job::strings_view(pieces@).push(cur@) =~= before.push(Seq::empty()));
        } else {
            let ghost c0 = cur@;
            crate::text::push_char(&mut cur, c);
            assert(crate::job::strings_view(pieces@).push(cur@) =~= before.update(before.len() - 1, c0.push(c)));
        }
        i = i + 1;
    }
    let ghost pv = crate::job::strings_view(pieces@);
    pieces.push(cur);
    assert(tokens@.take(n as int) =~= tokens@);
    assert(crate::job::strings_view(pieces@) =~= pv.push(cur@));
    assert(crate::job::strings_view(pieces@) == split_on(tokens@, ','));
    let ghost all = crate::job::strings_view(pieces@);
    let ghost trimmed = all.map_values(|p: Seq<char>| unicode_trim(p));
    let mut out: Vec<String> = Vec::new();
    let mut k: usize = 0;
    proof {
        reveal(Seq::filter);
        assert(crate::job::strings_view(out@) =~= trimmed.take(0).filter(|t: Seq<char>| t.len() > 0));
    }
    while k < pieces.len()
        invariant
            k <= pieces@.len(),
            all == crate::job::strings_view(pieces@),
            trimmed == all.map_values(|p: Seq<char>| unicode_trim(p)),
            crate::job::strings_view(out@) == trimmed.take(k as int).filter(|t: Seq<char>| t.len() > 0),
        decreases pieces.len() - k,
    {
        let t = trim(pieces[k].as_str());
        proof {
            reveal(Seq::filter);
            assert(trimmed.take(k + 1).drop_last() =~= trimmed.take(k as int));
            assert(trimmed.take(k + 1).last() == t@);
        }
        if t.as_str().unicode_len() > 0 {
            let ghost o = crate::job::strings_view(out@);
            out.push(t);
            assert(crate::job::strings_view(out@) =~= o.push(unicode_trim(all[k as int])));
        }
        k = k + 1;
    }
    assert(trimmed.take(k as int) =~= trimmed);
    assert(trimmed == split_on(tokens@, ',').map_values(|p: Seq<char>| unicode_trim(p)));
    out
}

/// The state named by a job browser filter.
pub open spec fn state_named(s: Seq<char>) -> Option<JobState> {
    if s == "waiting"@ {
        Some(JobState::Waiting)
    } else if s == "delayed"@ {
        Some(JobState::Delayed)
    } else if s == "active"@ {
        Some(JobState::Active)
    } else if s == "completed"@ {
        Some(JobState::Completed)
    } else if s == "failed"@ {
        Some(JobState::Failed)
    } else {
        None
    }
}

impl JobState {
    /// The state a filter names ("waiting", "delayed", "active",
    /// "completed" or "failed"); `None` for any other name.
    pub fn from_name(s: &str) -> (r: Option<JobState>)
        ensures
            r == state_named(s@),
    {
        if crate::nats_rules::str_is(s, "waiting") {
            Some(JobState::Waiting)
        } else if crate::nats_rules::str_is(s, "delayed") {
            Some(JobState::Delayed)
        } else if crate::nats_rules::str_is(s, "active") {
            Some(JobState::Active)
        } else if crate::nats_rules::str_is(s, "completed") {
            Some(JobState::Completed)
        } else if crate::nats_rules::str_is(s, "failed") {
            Some(JobState::Failed)
        } else {
            None
        }
    }
}

/// Health of the server.
pub struct HealthResponse {
    pub status: String,
    pub uptime_ms: u64,
    pub sqlite_enabled: bool,
}

/// Which job events a stream carries (comma-separated).
pub struct JobEventsQuery {
    pub events: Option<String>,
}

/// The jobs a flow created.
pub struct FlowResponse {
    pub parent_id: u64,
    pub children_ids: Vec<u64>,
}

/// S3 backup settings as reported.
pub struct S3BackupSettings {
    pub enabled: bool,
    pub endpoint: Option<String>,
    pub bucket: Option<String>,
    pub region: Option<String>,
    pub interval_secs: u64,
    pub keep_count: usize,
    pub compress: bool,
}

/// SQLite settings as reported.
pub struct SqliteSettings {
    pub enabled: bool,
    pub path: Option<String>,
    pub synchronous: bool,
    pub snapshot_interval: u64,
    pub snapshot_min_changes: u64,
}

/// The server's settings as reported.
pub struct ServerSettings {
    pub version: String,
    pub tcp_port: u16,
    pub http_port: u16,
    pub sqlite: SqliteSettings,
    pub s3_backup: S3BackupSettings,
    pub auth_enabled: bool,
    pub auth_token_count: usize,
    pub uptime_seconds: u64,
}

/// New auth tokens, comma-separated.
pub struct SaveAuthRequest {
    pub tokens: String,
}

/// New job defaults.
pub struct QueueDefaultsRequest {
    pub default_timeout: Option<u64>,
    pub default_max_attempts: Option<u32>,
    pub default_backoff: Option<u64>,
    pub default_ttl: Option<u64>,
}

/// New cleanup limits.
pub struct CleanupSettingsRequest {
    pub max_completed_jobs: Option<usize>,
    pub max_job_results: Option<usize>,
    pub cleanup_interval_secs: Option<u64>,
    pub metrics_history_size: Option<usize>,
}

/// New SQLite settings.
pub struct SqliteConfigRequest {
    pub enabled: bool,
    pub path: Option<String>,
    pub synchronous: Option<bool>,
    pub cache_size_mb: Option<i32>,
}

/// New settings of the asynchronous writer.
pub struct AsyncWriterConfigRequest {
    pub batch_interval_ms: Option<u64>,
    pub max_batch_size: Option<usize>,
}

/// New S3 backup settings.
pub struct SaveS3SettingsRequest {
    pub enabled: bool,
    pub endpoint: Option<String>,
    pub bucket: Option<String>,
    pub region: Option<String>,
    pub access_key: Option<String>,
    pub secret_key: Option<String>,
    pub interval_secs: Option<u64>,
    pub keep_count: Option<usize>,
    pub prefix: Option<String>,
    pub compress: Option<bool>,
}

/// A field that is present and not empty.
pub open spec fn filled(o: Option<String>) -> bool {
    o matches Some(s) && s@.len() > 0
}

fn is_filled(o: &Option<String>) -> (r: bool)
    ensures
        r == filled(*o),
{
    match o {
        Some(s) => s.as_str().unicode_len() > 0,
        None => false,
    }
}

impl SaveS3SettingsRequest {
    /// The endpoint, bucket, access key and secret key, each required to be
    /// present and not empty; the first one missing names the error.
    pub fn validate_required(&self) -> (r: Result<(String, String, String, String), &'static str>)
        ensures
            !filled(self.endpoint) ==> (r matches Err(e) && e@ == "S3 endpoint is required"@),
            filled(self.endpoint) && !filled(self.bucket) ==> (r matches Err(e) && e@ == "S3 bucket is required"@),
            filled(self.endpoint) && filled(self.bucket) && !filled(self.access_key) ==> (r matches Err(e) && e@
                == "S3 access key is required"@),
            filled(self.endpoint) && filled(self.bucket) && filled(self.access_key) && !filled(self.secret_key) ==> (r matches Err(
                e,
            ) && e@ == "S3 secret key is required"@),
            filled(self.endpoint) && filled(self.bucket) && filled(self.access_key) && filled(self.secret_key) ==> (r matches Ok(v)
                && v.0@ == self.endpoint.unwrap()@ && v.1@ == self.bucket.unwrap()@ && v.2@ == self.access_key.unwrap()@
                && v.3@ == self.secret_key.unwrap()@),
    {
        if !is_filled(&self.endpoint) {
            return Err("S3 endpoint is required");
        }
        if !is_filled(&self.bucket) {
            return Err("S3 bucket is required");
        }
        if !is_filled(&self.access_key) {
            return Err("S3 access key is required");
        }
        if !is_filled(&self.secret_key) {
            return Err("S3 secret key is required");
        }
        let endpoint = match &self.endpoint {
            Some(s) => s.clone(),
            None => String::new(),
        };
        let bucket = match &self.bucket {
            Some(s) => s.clone(),
            None => String::new(),
        };
        let access_key = match &self.access_key {
            Some(s) => s.clone(),
            None => String::new(),
        };
        let secret_key = match &self.secret_key {
            Some(s) => s.clone(),
            None => String::new(),
        };
        Ok((endpoint, bucket, access_key, secret_key))
    }
}

/// An S3 backup as listed.
pub struct S3BackupInfo {
    pub key: String,
    pub size: i64,
    pub last_modified: Option<String>,
}

/// A backup to restore.
pub struct RestoreRequest {
    pub key: String,
}

/// Why a job failed.
pub struct FailRequest {
    pub error: Option<String>,
}

/// A job's progress report.
pub struct ProgressRequest {
    pub progress: u8,
    pub message: Option<String>,
}

/// A queue's new rate limit.
pub struct RateLimitRequest {
    pub limit: u32,
}

/// A queue's new concurrency limit.
pub struct ConcurrencyRequest {
    pub limit: u32,
}

/// How many jobs a pull asks for.
pub struct PullQuery {
    pub count: usize,
}

/// The number of jobs a pull asks for when the request does not say.
pub fn default_count() -> (r: usize)
    ensures
        r == 1,
{
    1
}

/// A WebSocket's auth token.
pub struct WsQuery {
    pub token: Option<String>,
}

/// Which jobs a clean removes.
pub struct CleanRequest {
    pub grace: u64,
    pub state: String,
    pub limit: Option<usize>,
}

/// A page of the job browser.
pub struct JobsQuery {
    pub queue: Option<String>,
    pub state: Option<String>,
    pub limit: usize,
    pub offset: usize,
}

/// The page size of the job browser when the request does not say.
pub fn default_job_limit() -> (r: usize)
    ensures
        r == 100,
{
    100
}

/// A job's new priority.
pub struct ChangePriorityRequest {
    pub priority: i32,
}

/// How long a running job is put back for.
pub struct MoveToDelayedRequest {
    pub delay: u64,
}

/// A worker's heartbeat.
pub struct WorkerHeartbeatRequest {
    pub queues: Vec<String>,
    pub concurrency: u32,
    pub jobs_processed: u64,
}

/// A new webhook.
pub struct CreateWebhookRequest {
    pub url: String,
    pub events: Vec<String>,
    pub queue: Option<String>,
    pub secret: Option<String>,
}

/// The envelope of every API answer: `ok` with data, or not with an error.
pub struct ApiResponse<T> {
    pub ok: bool,
    pub data: Option<T>,
    pub error: Option<String>,
}

impl<T> ApiResponse<T> {
    /// A successful answer carrying `data`.
    pub fn success(data: T) -> (r: Self)
        ensures
            r.ok && r.data == Some(data) && r.error is None,
    {
        ApiResponse { ok: true, data: Some(data), error: None }
    }

    /// A failed answer with message `msg`.
    pub fn error(msg: &str) -> (r: Self)
        ensures
            !r.ok && r.data is None && (r.error matches Some(e) && e@ == msg@),
    {
        ApiResponse { ok: false, data: None, error: Some(msg.to_owned()) }
    }

    /// A failed answer with message `msg`.
    pub fn error_string(msg: String) -> (r: Self)
        ensures
            !r.ok && r.data is None && (r.error matches Some(e) && e@ == msg@),
    {
        ApiResponse { ok: false, data: None, error: Some(msg) }
    }
}

/// Job counts as reported.
pub struct StatsResponse {
    pub queued: usize,
    pub processing: usize,
    pub delayed: usize,
    pub dlq: usize,
}

/// Sizes of the server's tables, for debugging.
pub struct MemoryStats {
    pub completed_jobs_count: usize,
    pub completed_jobs_data_count: usize,
    pub job_results_count: usize,
    pub job_index_count: usize,
    pub processing_count: usize,
    pub job_logs_count: usize,
    pub stalled_count_entries: usize,
    pub custom_id_map_count: usize,
    pub debounce_cache_queues: usize,
    pub debounce_cache_entries: usize,
    pub job_waiters_count: usize,
    pub completed_retention_count: usize,
    pub subscribers_count: usize,
    pub webhooks_count: usize,
    pub workers_count: usize,
    pub cron_jobs_count: usize,
    pub metrics_history_count: usize,
    pub kv_store_count: usize,
    pub total_queued_jobs: usize,
    pub total_dlq_jobs: usize,
    pub total_waiting_deps: usize,
    pub total_waiting_children: usize,
    pub total_unique_keys: usize,
}

/// A job state as the gRPC API reports it.
#[derive(Debug, Clone, Copy, PartialEq, Eq, Structural)]
pub enum GrpcJobState {
    Unknown,
    Waiting,
    Delayed,
    Active,
    Completed,
    Failed,
    WaitingChildren,
}

/// The gRPC state of a job state: a parent waiting for children counts as
/// waiting for children, and a stalled job as active.
pub open spec fn grpc_state(s: JobState) -> GrpcJobState {
    match s {
        JobState::Waiting => GrpcJobState::Waiting,
        JobState::Delayed => GrpcJobState::Delayed,
        JobState::Active => GrpcJobState::Active,
        JobState::Completed => GrpcJobState::Completed,
        JobState::Failed => GrpcJobState::Failed,
        JobState::WaitingChildren => GrpcJobState::WaitingChildren,
        JobState::WaitingParent => GrpcJobState::WaitingChildren,
        JobState::Stalled => GrpcJobState::Active,
        JobState::Unknown => GrpcJobState::Unknown,
    }
}

impl From<JobState> for GrpcJobState {
    fn from(state: JobState) -> (r: Self) {
        match state {
            JobState::Waiting => GrpcJobState::Waiting,
            JobState::Delayed => GrpcJobState::Delayed,
            JobState::Active => GrpcJobState::Active,
            JobState::Completed => GrpcJobState::Completed,
            JobState::Failed => GrpcJobState::Failed,
            JobState::WaitingChildren => GrpcJobState::WaitingChildren,
            JobState::WaitingParent => GrpcJobState::WaitingChildren,
            JobState::Stalled => GrpcJobState::Active,
            JobState::Unknown => GrpcJobState::Unknown,
        }
    }
}

impl vstd::std_specs::convert::FromSpecImpl<JobState> for GrpcJobState {
    open spec fn obeys_from_spec() -> bool {
        true
    }

    open spec fn from_spec(state: JobState) -> GrpcJobState {
        grpc_state(state)
    }
}

/// A job as the gRPC API reports it; `data` is the payload's JSON bytes.
pub struct GrpcJob {
    pub id: u64,
    pub queue: String,
    pub data: Vec<u8>,
    pub priority: i32,
    pub created_at: u64,
    pub run_at: u64,
    pub started_at: u64,
    pub attempts: u32,
    pub max_attempts: u32,
    pub backoff: u64,
    pub ttl: u64,
    pub timeout: u64,
    pub unique_key: Option<String>,
    pub depends_on: Vec<u64>,
    pub progress: u32,
    pub progress_msg: Option<String>,
    pub lifo: bool,
}

impl GrpcJob {
    /// The gRPC form of `job`: the same fields, the payload as its UTF-8
    /// bytes and the progress widened.
    pub fn from_job(job: crate::job::Job) -> (r: GrpcJob)
        ensures
            r.id == job.id && r.queue@ == job.queue@ && r.data@ == vstd::utf8::encode_utf8(job.data@),
            r.priority == job.priority && r.created_at == job.created_at && r.run_at == job.run_at,
            r.started_at == job.started_at && r.attempts == job.attempts && r.max_attempts == job.max_attempts,
            r.backoff == job.backoff && r.ttl == job.ttl && r.timeout == job.timeout,
            crate::job::opt_view(r.unique_key) == crate::job::opt_view(job.unique_key),
            r.depends_on@ == job.depends_on@,
            r.progress == job.progress as u32,
            crate::job::opt_view(r.progress_msg) == crate::job::opt_view(job.progress_msg),
            r.lifo == job.lifo,
    {
        let data = job.data.as_str().as_bytes_vec();
        GrpcJob {
            id: job.id,
            queue: job.queue,
            data,
            priority: job.priority,
            created_at: job.created_at,
            run_at: job.run_at,
            started_at: job.started_at,
            attempts: job.attempts,
            max_attempts: job.max_attempts,
            backoff: job.backoff,
            ttl: job.ttl,
            timeout: job.timeout,
            unique_key: job.unique_key,
            depends_on: job.depends_on,
            progress: job.progress as u32,
            progress_msg: job.progress_msg,
            lifo: job.lifo,
        }
    }
}

} // verus!
