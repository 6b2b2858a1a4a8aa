//! The decisions of the NATS backend: where a job is published, how a
//! failed job is retried or dead-lettered, when a delayed job is promoted,
//! who leads the cluster, and how the configuration is read.
use vstd::prelude::*;
use crate::job::{Job, MAX_TIME};
use crate::nats_config::{NatsConfig, PriorityBucket};
use crate::text::{parse_unsigned, parse_unsigned_spec, to_lowercase};

verus! {

/// How long a leadership claim lasts, in ms.
pub const LEADER_TTL_MS: u64 = 10000;

/// The longest a delayed message is put back for, in ms.
pub const MAX_REDELIVERY_DELAY_MS: u64 = 5000;

/// The stream a job is published to at `now`: its queue's delayed stream
/// while its run time is ahead, else the stream of its priority bucket.
pub open spec fn target_stream(prefix: Seq<char>, j: Job, now: u64) -> Seq<char> {
    if j.run_at > now {
        prefix + "."@ + j.queue@ + ".delayed"@
    } else {
        prefix + "."@ + j.queue@ + ".priority."@ + crate::nats_config::bucket_name(crate::nats_config::bucket_of(j.priority))
    }
}

/// The subject a job is published to at `now` (see [`target_stream`]).
pub fn target_subject(config: &NatsConfig, job: &Job, now: u64) -> (r: String)
    ensures
        r@ == target_stream(config.prefix@, *job, now),
{
    if job.run_at > now {
        config.delayed_stream(job.queue.as_str())
    } else {
        config.priority_stream(job.queue.as_str(), PriorityBucket::from_priority(job.priority))
    }
}

/// What a failed job of the NATS backend becomes.
pub enum FailResult {
    /// It will run again after `delay_ms`.
    Retrying { delay_ms: u64 },
    /// It reached its attempt limit and left the queue.
    MovedToDlq,
}

/// What failing `j` gives: the attempt is counted; at the attempt limit
/// (none when it is 0) the job leaves the queue, else it is retried after
/// [`nats_retry_delay`].
pub open spec fn fail_result(j: Job) -> (bool, nat) {
    let attempts = j.attempts + 1;
    if j.max_attempts > 0 && attempts >= j.max_attempts {
        (true, 0)
    } else {
        (false, crate::job::nats_retry_delay(j.backoff, attempts as u32))
    }
}

/// Decides what a failure of `job` does (see [`fail_result`]).
pub fn fail_decision(job: &Job) -> (r: FailResult)
    requires
        job.attempts < u32::MAX,
        fail_result(*job).1 <= u64::MAX,
    ensures
        fail_result(*job).0 ==> r is MovedToDlq,
        !fail_result(*job).0 ==> (r matches FailResult::Retrying { delay_ms } && delay_ms == fail_result(*job).1),
{
    let attempts = job.attempts + 1;
    if job.max_attempts > 0 && attempts >= job.max_attempts {
        return FailResult::MovedToDlq;
    }
    FailResult::Retrying { delay_ms: crate::job::retry_delay_ms(job.backoff, attempts) }
}

/// "DLQ: {error}".
pub open spec fn dlq_note(e: Seq<char>) -> Seq<char> {
    "DLQ: "@ + e
}

/// A job as stored when it enters the dead letter stream: the error noted
/// (when given) and its attempts set to its limit (at least 1), so that it
/// is found again as dead on restart.
pub fn dlq_marked(job: &Job, error: Option<&str>) -> (r: Job)
    ensures
        r@ == (crate::job::JobView {
            progress_msg: match error {
                Some(e) => Some(dlq_note(e@)),
                None => job@.progress_msg,
            },
            max_attempts: if job.max_attempts == 0 { 1 } else { job.max_attempts },
            attempts: if job.max_attempts == 0 { 1 } else { job.max_attempts },
            ..job@
        }),
{
    let mut j = job.duplicate();
    match error {
        Some(e) => {
            let mut m = String::from_str("DLQ: ");
            m.append(e);
            j.progress_msg = Some(m);
        },
        None => {},
    }
    if j.max_attempts == 0 {
        j.max_attempts = 1;
    }
    j.attempts = j.max_attempts;
    j
}

/// A job as published again for a retry at `new_run_at`: one more attempt
/// counted and no longer started.
pub fn retried_job(job: &Job, new_run_at: u64) -> (r: Job)
    requires
        job.attempts < u32::MAX,
    ensures
        r@ == (crate::job::JobView { run_at: new_run_at, attempts: (job.attempts + 1) as u32, started_at: 0, ..job@ }),
{
    let mut j = job.duplicate();
    j.run_at = new_run_at;
    j.attempts = j.attempts + 1;
    j.started_at = 0;
    j
}

/// What the delayed-job scheduler does with a message.
pub enum DelayedAction {
    /// The job is due: publish it to its priority stream.
    Promote,
    /// The job is not due: hand the message back for `delay_ms`.
    Later { delay_ms: u64 },
    /// The message holds no job: drop it.
    Discard,
}

/// Decides what happens to a delayed message at `now`, given the run time
/// of the job it holds (`None` when it could not be read): a due job is
/// promoted, another is handed back for the time left (at most
/// [`MAX_REDELIVERY_DELAY_MS`]), and an unreadable message is dropped.
pub fn delayed_action(run_at: Option<u64>, now: u64) -> (r: DelayedAction)
    ensures
        match run_at {
            None => r is Discard,
            Some(t) => if t <= now {
                r is Promote
            } else {
                r matches DelayedAction::Later { delay_ms } && delay_ms == (if t - now <= MAX_REDELIVERY_DELAY_MS {
                    t - now
                } else {
                    MAX_REDELIVERY_DELAY_MS as int
                })
            },
        },
{
    match run_at {
        None => DelayedAction::Discard,
        Some(t) => {
            if t <= now {
                DelayedAction::Promote
            } else {
                let left = t - now;
                let d = if left <= MAX_REDELIVERY_DELAY_MS { left } else { MAX_REDELIVERY_DELAY_MS };
                DelayedAction::Later { delay_ms: d }
            }
        },
    }
}

/// The reply to a NATS message once it has been handled.
pub enum MessageReply {
    /// Done with: remove it.
    Ack,
    /// Hand it back, for redelivery after the delay (at once without one).
    Nak(Option<u64>),
    /// Remove it without redelivery.
    Term,
}

/// The reply to a delayed message once [`delayed_action`] was carried out;
/// `published` tells whether a due job reached its priority stream. A
/// promoted job's message is acked, or handed back at once when the
/// publish failed; a job not yet due is handed back for its delay; a
/// message that holds no job is terminated.
pub fn delayed_reply(action: &DelayedAction, published: bool) -> (r: MessageReply)
    ensures
        match *action {
            DelayedAction::Promote => if published { r is Ack } else { r matches MessageReply::Nak(None) },
            DelayedAction::Later { delay_ms } => r matches MessageReply::Nak(Some(d)) && d == delay_ms,
            DelayedAction::Discard => r is Term,
        },
{
    match action {
        DelayedAction::Promote => if published { MessageReply::Ack } else { MessageReply::Nak(None) },
        DelayedAction::Later { delay_ms } => MessageReply::Nak(Some(*delay_ms)),
        DelayedAction::Discard => MessageReply::Term,
    }
}

/// What the NATS backend does to fail a pulled job.
pub struct NatsFailPlan {
    /// Publish the job to its queue's dead letter stream first.
    pub to_dlq: bool,
    /// Publish the job again, with this run time, first.
    pub retry_at: Option<u64>,
    /// The reply to the pulled message afterwards.
    pub reply: MessageReply,
    /// What the failure reports.
    pub result: FailResult,
}

/// How failing `job` at `now` goes (see [`fail_result`]): a job out of
/// attempts is published to the dead letter stream unless it has
/// `remove_on_fail`, and its message is terminated; any other job is
/// published again to run after its retry delay, and its message is acked.
pub fn nats_fail_plan(job: &Job, now: u64) -> (r: NatsFailPlan)
    requires
        job.attempts < u32::MAX,
        !fail_result(*job).0 ==> now + fail_result(*job).1 <= u64::MAX,
    ensures
        fail_result(*job).0 ==> {
            &&& r.to_dlq == !job.remove_on_fail
            &&& r.retry_at is None
            &&& r.reply is Term
            &&& r.result is MovedToDlq
        },
        !fail_result(*job).0 ==> {
            &&& !r.to_dlq
            &&& r.retry_at == Some((now + fail_result(*job).1) as u64)
            &&& r.reply is Ack
            &&& r.result matches FailResult::Retrying { delay_ms } && delay_ms == fail_result(*job).1
        },
{
    match fail_decision(job) {
        FailResult::MovedToDlq => NatsFailPlan {
            to_dlq: !job.remove_on_fail,
            retry_at: None,
            reply: MessageReply::Term,
            result: FailResult::MovedToDlq,
        },
        FailResult::Retrying { delay_ms } => NatsFailPlan {
            to_dlq: false,
            retry_at: Some(now + delay_ms),
            reply: MessageReply::Ack,
            result: FailResult::Retrying { delay_ms },
        },
    }
}

/// A claim of cluster leadership.
pub struct LeaderClaim {
    pub node_id: String,
    pub timestamp: u64,
    pub expires_at: u64,
}

/// What a node does in one round of leader election.
pub enum LeaderStep {
    /// No claim exists: create this one.
    Create(LeaderClaim),
    /// Replace the current claim with this one (it expired, or it is ours).
    Renew(LeaderClaim),
    /// Another node leads.
    Follow,
}

/// One round of leader election for `node_id` at `now`, given the current
/// claim: with none the node claims; an expired claim or its own is
/// replaced by a fresh one; another node's live claim is left alone.
/// A fresh claim lasts [`LEADER_TTL_MS`].
pub fn leadership_step(node_id: &String, current: Option<&LeaderClaim>, now: u64) -> (r: LeaderStep)
    requires
        now <= MAX_TIME,
    ensures
        ({
            let fresh = |c: LeaderClaim| c.node_id@ == node_id@ && c.timestamp == now && c.expires_at == now + LEADER_TTL_MS;
            match current {
                None => r matches LeaderStep::Create(c) && fresh(c),
                Some(cur) => if cur.expires_at < now || cur.node_id@ == node_id@ {
                    r matches LeaderStep::Renew(c) && fresh(c)
                } else {
                    r is Follow
                },
            }
        }),
{
    let claim = LeaderClaim { node_id: node_id.clone(), timestamp: now, expires_at: now + LEADER_TTL_MS };
    match current {
        None => LeaderStep::Create(claim),
        Some(cur) => {
            if cur.expires_at < now || cur.node_id == *node_id {
                LeaderStep::Renew(claim)
            } else {
                LeaderStep::Follow
            }
        },
    }
}

/// The leader named by a claim at `now`: its node while the claim lasts.
pub fn current_leader(claim: Option<&LeaderClaim>, now: u64) -> (r: Option<String>)
    ensures
        match claim {
            Some(c) => if c.expires_at > now {
                r matches Some(n) && n@ == c.node_id@
            } else {
                r is None
            },
            None => r is None,
        },
{
    match claim {
        Some(c) => {
            if c.expires_at > now {
                Some(c.node_id.clone())
            } else {
                None
            }
        },
        None => None,
    }
}

/// The key of the leadership claim: "{prefix}_leader".
pub fn leader_key(config: &NatsConfig) -> (r: String)
    ensures
        r@ == config.prefix@ + "_leader"@,
{
    let mut s = config.prefix.clone();
    s.append("_leader");
    s
}

/// Whether `s` is `lit`, char by char.
pub fn str_is(s: &str, lit: &str) -> (r: bool)
    ensures
        r == (s@ == lit@),
{
    let n = s.unicode_len();
    if n != lit.unicode_len() {
        return false;
    }
    let mut i: usize = 0;
    while i < n
        invariant
            i <= n,
            n == s@.len() && n == lit@.len(),
            forall|k: int| 0 <= k < i ==> s@[k] == lit@[k],
        decreases n - i,
    {
        if s.get_char(i) != lit.get_char(i) {
            return false;
        }
        i = i + 1;
    }
    assert(s@ =~= lit@);
    true
}

/// The environment variables the NATS configuration reads; `None` where a
/// variable is not set.
pub struct NatsEnv {
    pub url: Option<String>,
    pub stream_replicas: Option<String>,
    pub kv_replicas: Option<String>,
    pub prefix: Option<String>,
    pub node_id: Option<String>,
    pub tls: Option<String>,
    pub tls_cert: Option<String>,
    pub tls_key: Option<String>,
    pub username: Option<String>,
    pub password: Option<String>,
    pub credentials: Option<String>,
}

/// A replica count read from the environment: the variable's value when it
/// parses as a `u8`, else `default`.
pub open spec fn replicas_from(v: Option<String>, default: u8) -> u8 {
    match v {
        Some(s) => match parse_unsigned_spec(s@, 255) {
            Some(n) => n as u8,
            None => default,
        },
        None => default,
    }
}

/// TLS is on when the variable is "1" or, lower-cased, "true".
pub open spec fn tls_from(v: Option<String>) -> bool {
    match v {
        Some(s) => s@ == "1"@ || crate::text::unicode_lowercase(s@) == "true"@,
        None => false,
    }
}

/// `Some` of a variable's value, or `default`.
pub open spec fn or_value(v: Option<String>, default: Option<Seq<char>>) -> Option<Seq<char>> {
    match v {
        Some(s) => Some(s@),
        None => default,
    }
}

fn replicas(v: &Option<String>, default: u8) -> (r: u8)
    ensures
        r == replicas_from(*v, default),
{
    match v {
        Some(s) => match parse_unsigned(s.as_str(), 255) {
            Some(n) => n as u8,
            None => default,
        },
        None => default,
    }
}

impl NatsConfig {
    /// The configuration that the environment `env` describes: each set
    /// variable replaces its default (a replica count only when it parses).
    pub fn from_env_values(env: NatsEnv) -> (r: NatsConfig)
        ensures
            r.url@ == (match env.url {
                Some(u) => u@,
                None => "nats://localhost:4222"@,
            }),
            r.stream_replicas == replicas_from(env.stream_replicas, 1),
            r.kv_replicas == replicas_from(env.kv_replicas, 1),
            r.prefix@ == (match env.prefix {
                Some(p) => p@,
                None => "flashq"@,
            }),
            crate::job::opt_view(r.node_id) == or_value(env.node_id, None),
            r.tls == tls_from(env.tls),
            crate::job::opt_view(r.tls_cert) == or_value(env.tls_cert, None),
            crate::job::opt_view(r.tls_key) == or_value(env.tls_key, None),
            crate::job::opt_view(r.username) == or_value(env.username, None),
            crate::job::opt_view(r.password) == or_value(env.password, None),
            crate::job::opt_view(r.credentials_file) == or_value(env.credentials, None),
            r.connect_timeout_ms == 10000,
            r.request_timeout_ms == 5000,
            r.reconnect_buffer_size == 8388608,
            r.max_reconnect_attempts == 0,
    {
        let mut config = NatsConfig::default();
        let stream_replicas = replicas(&env.stream_replicas, 1);
        let kv_replicas = replicas(&env.kv_replicas, 1);
        let tls = match &env.tls {
            Some(v) => {
                if str_is(v.as_str(), "1") {
                    true
                } else {
                    let low = to_lowercase(v.as_str());
                    str_is(low.as_str(), "true")
                }
            },
            None => false,
        };
        match env.url {
            Some(u) => {
                config.url = u;
            },
            None => {},
        }
        config.stream_replicas = stream_replicas;
        config.kv_replicas = kv_replicas;
        match env.prefix {
            Some(p) => {
                config.prefix = p;
            },
            None => {},
        }
        config.node_id = env.node_id;
        config.tls = tls;
        config.tls_cert = env.tls_cert;
        config.tls_key = env.tls_key;
        config.username = env.username;
        config.password = env.password;
        config.credentials_file = env.credentials;
        config
    }
}

/// A lower-case hexadecimal digit.
pub open spec fn is_hex_lower(c: char) -> bool {
    ('0' <= c && c <= '9') || ('a' <= c && c <= 'f')
}

/// Calls uuid's `Uuid::now_v7()` and formats it with `to_string`, which
/// gives the hyphenated lower-case form: 36 characters, the first 8
/// hexadecimal digits followed by '-'. The value depends on the time and
/// on chance; nothing else is stated.
#[verifier::external_body]
fn new_uuid_v7_text() -> (r: String)
    ensures
        r@.len() == 36,
        r@[8] == '-',
        forall|i: int| 0 <= i < 8 ==> is_hex_lower(#[trigger] r@[i]),
{
    uuid::Uuid::now_v7().to_string()
}

/// Calls uuid's `Uuid::now_v7()` and copies its 16 bytes. uuid builds the
/// bytes with the version 7 in the high nibble of byte 6 and the RFC 4122
/// variant (binary 10) in the two high bits of byte 8; the other bits hold
/// the time and chance, and nothing is stated of them.
#[verifier::external_body]
fn new_uuid_v7_bytes() -> (r: Vec<u8>)
    ensures
        r@.len() == 16,
        r@[6] / 16 == 7,
        r@[8] / 64 == 2,
{
    uuid::Uuid::now_v7().as_bytes().to_vec()
}

/// The big-endian value of the bytes `b`.
pub open spec fn be_value(b: Seq<u8>) -> nat
    decreases b.len(),
{
    if b.len() == 0 {
        0
    } else {
        be_value(b.drop_last()) * 256 + b.last() as nat
    }
}

/// `256^n`.
pub open spec fn pow256(n: nat) -> nat
    decreases n,
{
    if n == 0 {
        1
    } else {
        256 * pow256((n - 1) as nat)
    }
}

pub proof fn lemma_pow256_mono(a: nat, b: nat)
    requires
        a <= b,
    ensures
        pow256(a) <= pow256(b),
    decreases b - a,
{
    if a < b {
        lemma_pow256_mono(a, (b - 1) as nat);
    }
}

pub proof fn lemma_be_value_bound(b: Seq<u8>)
    ensures
        be_value(b) < pow256(b.len()),
    decreases b.len(),
{
    if b.len() > 0 {
        lemma_be_value_bound(b.drop_last());
        let p = pow256((b.len() - 1) as nat);
        assert(be_value(b.drop_last()) * 256 + (b.last() as nat) < p * 256) by (nonlinear_arith)
            requires
                be_value(b.drop_last()) < p,
                b.last() < 256,
        ;
    }
}

/// The job ID carried by a UUID: its first 8 bytes, big-endian.
pub fn job_id_from_uuid(bytes: &Vec<u8>) -> (r: u64)
    requires
        bytes@.len() >= 8,
    ensures
        r == be_value(bytes@.take(8)),
{
    let mut v: u64 = 0;
    let mut i: usize = 0;
    proof {
        reveal_with_fuel(pow256, 8);
        assert(pow256(7) == 0x100000000000000);
    }
    while i < 8
        invariant
            i <= 8,
            bytes@.len() >= 8,
            v == be_value(bytes@.take(i as int)),
            pow256(7) == 0x100000000000000,
        decreases 8 - i,
    {
        proof {
            lemma_be_value_bound(bytes@.take(i as int));
            lemma_pow256_mono(i as nat, 7);
            assert(bytes@.take(i + 1).drop_last() =~= bytes@.take(i as int));
            assert(v * 256 + 255 <= u64::MAX) by (nonlinear_arith)
                requires
                    v < pow256(i as nat),
                    pow256(i as nat) <= pow256(7),
                    pow256(7) == 0x100000000000000,
            ;
        }
        v = v * 256 + bytes[i] as u64;
        i = i + 1;
    }
    v
}

/// The bytes of a version 7 UUID: 16 of them, the version 7 in the high
/// nibble of byte 6, the variant 10 in the high bits of byte 8.
pub open spec fn is_uuid_v7(b: Seq<u8>) -> bool {
    b.len() == 16 && b[6] / 16 == 7 && b[8] / 64 == 2
}

/// The first 8 bytes of `b` as a number carry byte 6's high nibble in bits
/// 12 to 15.
pub proof fn lemma_version_nibble(b: Seq<u8>)
    requires
        b.len() >= 8,
    ensures
        (be_value(b.take(8)) / 4096) % 16 == b[6] / 16,
{
    let v6 = be_value(b.take(6));
    let b6 = b[6] as int;
    let b7 = b[7] as int;
    assert(b.take(8).drop_last() =~= b.take(7));
    assert(b.take(7).drop_last() =~= b.take(6));
    assert(be_value(b.take(7)) == v6 * 256 + b6);
    assert(be_value(b.take(8)) == (v6 * 256 + b6) * 256 + b7);
    let q = b6 / 16;
    let m = b6 % 16;
    assert(b6 == 16 * q + m && 0 <= m < 16 && 0 <= q < 16) by (nonlinear_arith)
        requires
            0 <= b6 < 256,
            q == b6 / 16,
            m == b6 % 16,
    ;
    assert(be_value(b.take(8)) == 4096 * (16 * v6 + q) + (256 * m + b7)) by (nonlinear_arith)
        requires
            be_value(b.take(8)) == (v6 * 256 + b6) * 256 + b7,
            b6 == 16 * q + m,
    ;
    let x = be_value(b.take(8)) as int;
    assert(x / 4096 == 16 * v6 + q) by (nonlinear_arith)
        requires
            x == 4096 * (16 * v6 + q) + (256 * m + b7),
            0 <= m < 16,
            0 <= b7 < 256,
            v6 >= 0,
            q >= 0,
    ;
    assert((16 * v6 + q) % 16 == q) by (nonlinear_arith)
        requires
            0 <= q < 16,
            v6 >= 0,
    ;
}

/// A fresh job ID: the first 8 bytes, big-endian, of a fresh version 7
/// UUID (see [`job_id_from_uuid`]), so bits 12 to 15 of the ID hold the
/// version 7. The rest depends on the time and on chance.
pub fn generate_job_id() -> (r: u64)
    ensures
        exists|b: Seq<u8>| #![trigger is_uuid_v7(b)] is_uuid_v7(b) && r == be_value(b.take(8)),
        (r / 4096) % 16 == 7,
{
    let bytes = new_uuid_v7_bytes();
    let r = job_id_from_uuid(&bytes);
    proof {
        lemma_version_nibble(bytes@);
        assert(is_uuid_v7(bytes@));
    }
    r
}

/// "node-" and the first 8 characters of `u`.
pub open spec fn node_name(u: Seq<char>) -> Seq<char> {
    "node-"@ + u.take(8)
}

/// The node name built from a UUID text: "node-" and its first group.
pub fn node_name_from_uuid(u: &str) -> (r: String)
    requires
        u@.len() >= 9,
        u@[8] == '-',
        forall|i: int| 0 <= i < 8 ==> #[trigger] u@[i] != '-',
    ensures
        r@ == node_name(u@),
{
    let mut s = String::from_str("node-");
    let first = u.substring_char(0, 8);
    s.append(first);
    assert(u@.subrange(0, 8) =~= u@.take(8));
    s
}

impl NatsConfig {
    /// This node's ID: the configured one, else "node-" and the first group
    /// of a fresh version 7 UUID.
    pub fn node_id(&self) -> (r: String)
        ensures
            match self.node_id {
                Some(n) => r@ == n@,
                None => r@.len() == 13 && r@.take(5) == "node-"@,
            },
    {
        match &self.node_id {
            Some(n) => n.clone(),
            None => {
                let u = new_uuid_v7_text();
                assert forall|i: int| 0 <= i < 8 implies #[trigger] u@[i] != '-' by {
                    assert(is_hex_lower(u@[i]));
                }
                let r = node_name_from_uuid(u.as_str());
                proof {
                    reveal_strlit("node-");
                }
                assert(r@.take(5) =~= "node-"@);
                r
            },
        }
    }
}

} // verus!
