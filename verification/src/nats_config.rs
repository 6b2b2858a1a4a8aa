//! NATS JetStream configuration and the names of subjects, streams, KV
//! buckets and keys derived from it.
use vstd::prelude::*;
use crate::text::{is_alphanumeric, push_char};

verus! {

/// NATS JetStream configuration. Timeouts are in milliseconds.
pub struct NatsConfig {
    /// NATS server URL (e.g. "nats://localhost:4222").
    pub url: String,
    /// Number of stream replicas (1 = no replication, 3 = HA).
    pub stream_replicas: u8,
    /// Number of KV store replicas.
    pub kv_replicas: u8,
    pub connect_timeout_ms: u64,
    pub request_timeout_ms: u64,
    pub reconnect_buffer_size: usize,
    /// Max reconnect attempts (0 = infinite).
    pub max_reconnect_attempts: usize,
    /// Prefix for all NATS subjects and streams.
    pub prefix: String,
    /// Node ID for this instance (generated when not set).
    pub node_id: Option<String>,
    pub tls: bool,
    pub tls_cert: Option<String>,
    pub tls_key: Option<String>,
    pub username: Option<String>,
    pub password: Option<String>,
    pub credentials_file: Option<String>,
}

impl Default for NatsConfig {
    fn default() -> (r: Self)
        ensures
            r.url@ == "nats://localhost:4222"@,
            r.stream_replicas == 1,
            r.kv_replicas == 1,
            r.connect_timeout_ms == 10000,
            r.request_timeout_ms == 5000,
            r.reconnect_buffer_size == 8388608,
            r.max_reconnect_attempts == 0,
            r.prefix@ == "flashq"@,
            r.node_id is None,
            !r.tls,
            r.tls_cert is None,
            r.tls_key is None,
            r.username is None,
            r.password is None,
            r.credentials_file is None,
    {
        NatsConfig {
            url: String::from_str("nats://localhost:4222"),
            stream_replicas: 1,
            kv_replicas: 1,
            connect_timeout_ms: 10000,
            request_timeout_ms: 5000,
            reconnect_buffer_size: 8388608,
            max_reconnect_attempts: 0,
            prefix: String::from_str("flashq"),
            node_id: None,
            tls: false,
            tls_cert: None,
            tls_key: None,
            username: None,
            password: None,
            credentials_file: None,
        }
    }
}

/// Priority bucket for stream routing.
#[derive(Debug, Clone, Copy, PartialEq, Eq, Structural)]
pub enum PriorityBucket {
    /// priority >= 5
    High,
    /// priority 0..=4
    Normal,
    /// priority < 0
    Low,
}

pub open spec fn bucket_of(priority: i32) -> PriorityBucket {
    if priority >= 5 {
        PriorityBucket::High
    } else if priority >= 0 {
        PriorityBucket::Normal
    } else {
        PriorityBucket::Low
    }
}

pub open spec fn bucket_name(b: PriorityBucket) -> Seq<char> {
    match b {
        PriorityBucket::High => "high"@,
        PriorityBucket::Normal => "normal"@,
        PriorityBucket::Low => "low"@,
    }
}

/// The pull order of a bucket: high (0), normal (1), low (2).
pub open spec fn bucket_rank(b: PriorityBucket) -> int {
    match b {
        PriorityBucket::High => 0,
        PriorityBucket::Normal => 1,
        PriorityBucket::Low => 2,
    }
}

/// A higher priority never lands in a bucket pulled later.
pub proof fn law_bucket_monotone(p1: i32, p2: i32)
    requires
        p1 <= p2,
    ensures
        bucket_rank(bucket_of(p2)) <= bucket_rank(bucket_of(p1)),
{
}

impl PriorityBucket {
    /// Bucket of a numeric priority.
    pub fn from_priority(priority: i32) -> (r: Self)
        ensures
            r == bucket_of(priority),
    {
        if priority >= 5 {
            PriorityBucket::High
        } else if priority >= 0 {
            PriorityBucket::Normal
        } else {
            PriorityBucket::Low
        }
    }

    /// Bucket name.
    pub fn as_str(&self) -> (r: &'static str)
        ensures
            r@ == bucket_name(*self),
    {
        match self {
            PriorityBucket::High => "high",
            PriorityBucket::Normal => "normal",
            PriorityBucket::Low => "low",
        }
    }

    /// All buckets in pull order: high, normal, low.
    pub fn all() -> (r: [Self; 3])
        ensures
            r@ == seq![PriorityBucket::High, PriorityBucket::Normal, PriorityBucket::Low],
    {
        let r = [PriorityBucket::High, PriorityBucket::Normal, PriorityBucket::Low];
        assert(r@ =~= seq![PriorityBucket::High, PriorityBucket::Normal, PriorityBucket::Low]);
        r
    }
}

/// `a` followed by `b`, as a new string.
fn concat2(a: &str, b: &str) -> (r: String)
    ensures
        r@ == a@ + b@,
{
    let mut s = String::from_str(a);
    s.append(b);
    s
}

impl NatsConfig {
    /// Full subject name: `{prefix}.{name}`.
    pub fn subject(&self, name: &str) -> (r: String)
        ensures
            r@ == self.prefix@ + "."@ + name@,
    {
        let mut s = concat2(self.prefix.as_str(), ".");
        s.append(name);
        s
    }

    /// KV bucket name: `{prefix}-{name}`.
    pub fn kv_bucket(&self, name: &str) -> (r: String)
        ensures
            r@ == self.prefix@ + "-"@ + name@,
    {
        let mut s = concat2(self.prefix.as_str(), "-");
        s.append(name);
        s
    }

    /// Subject of a queue's priority stream: `{prefix}.{queue}.priority.{bucket}`.
    pub fn priority_stream(&self, queue: &str, priority: PriorityBucket) -> (r: String)
        ensures
            r@ == self.prefix@ + "."@ + queue@ + ".priority."@ + bucket_name(priority),
    {
        let mut s = concat2(self.prefix.as_str(), ".");
        s.append(queue);
        s.append(".priority.");
        s.append(priority.as_str());
        s
    }

    /// Subject of a queue's delayed stream: `{prefix}.{queue}.delayed`.
    pub fn delayed_stream(&self, queue: &str) -> (r: String)
        ensures
            r@ == self.prefix@ + "."@ + queue@ + ".delayed"@,
    {
        let mut s = concat2(self.prefix.as_str(), ".");
        s.append(queue);
        s.append(".delayed");
        s
    }

    /// Subject of a queue's dead letter stream: `{prefix}.{queue}.dlq`.
    pub fn dlq_stream(&self, queue: &str) -> (r: String)
        ensures
            r@ == self.prefix@ + "."@ + queue@ + ".dlq"@,
    {
        let mut s = concat2(self.prefix.as_str(), ".");
        s.append(queue);
        s.append(".dlq");
        s
    }
}

/// A char allowed in a NATS stream name as it stands.
pub open spec fn stream_name_char(c: char) -> bool {
    crate::text::unicode_alphanumeric(c) || c == '-' || c == '_'
}

/// The name with every char that is not alphanumeric, `-` or `_` replaced
/// by `_`.
pub open spec fn sanitized(name: Seq<char>) -> Seq<char> {
    name.map_values(|c: char| if stream_name_char(c) { c } else { '_' })
}

/// Sanitizing keeps the length and a sanitized name stays as it is.
pub proof fn law_sanitize_idempotent(name: Seq<char>)
    ensures
        sanitized(name).len() == name.len(),
        sanitized(sanitized(name)) == sanitized(name),
        forall|i: int| 0 <= i < name.len() ==> stream_name_char(#[trigger] sanitized(name)[i]),
{
    assert(sanitized(sanitized(name)) =~= sanitized(name));
}

/// Makes a queue name fit for a NATS stream name: chars other than
/// alphanumerics, `-` and `_` become `_`.
pub fn sanitize_name(name: &str) -> (r: String)
    ensures
        r@ == sanitized(name@),
{
    let n = name.unicode_len();
    let mut s = String::new();
    let mut i: usize = 0;
    while i < n
        invariant
            i <= n,
            n == name@.len(),
            s@ == sanitized(name@.subrange(0, i as int)),
        decreases n - i,
    {
        let c = name.get_char(i);
        let keep = is_alphanumeric(c) || c == '-' || c == '_';
        if keep {
            push_char(&mut s, c);
        } else {
            push_char(&mut s, '_');
        }
        assert(sanitized(name@.subrange(0, i + 1)) =~= sanitized(name@.subrange(0, i as int)).push(
            if stream_name_char(c) { c } else { '_' },
        ));
        i = i + 1;
    }
    assert(name@.subrange(0, n as int) =~= name@);
    s
}

/// Name of a queue's priority stream: `{prefix}__{sanitized queue}_priority_{bucket}`.
pub fn stream_name(prefix: &str, queue: &str, bucket: &str) -> (r: String)
    ensures
        r@ == prefix@ + "__"@ + sanitized(queue@) + "_priority_"@ + bucket@,
{
    let q = sanitize_name(queue);
    let mut s = concat2(prefix, "__");
    s.append(q.as_str());
    s.append("_priority_");
    s.append(bucket);
    s
}

/// Name of a queue's delayed stream: `{prefix}__{sanitized queue}_delayed`.
pub fn delayed_stream_name(prefix: &str, queue: &str) -> (r: String)
    ensures
        r@ == prefix@ + "__"@ + sanitized(queue@) + "_delayed"@,
{
    let q = sanitize_name(queue);
    let mut s = concat2(prefix, "__");
    s.append(q.as_str());
    s.append("_delayed");
    s
}

/// Name of a queue's dead letter stream: `{prefix}__{sanitized queue}_dlq`.
pub fn dlq_stream_name(prefix: &str, queue: &str) -> (r: String)
    ensures
        r@ == prefix@ + "__"@ + sanitized(queue@) + "_dlq"@,
{
    let q = sanitize_name(queue);
    let mut s = concat2(prefix, "__");
    s.append(q.as_str());
    s.append("_dlq");
    s
}

/// Name of a node's durable consumer on a priority stream:
/// `{prefix}_{sanitized queue}_{bucket}_{node_id}`.
pub fn consumer_name(prefix: &str, queue: &str, bucket: PriorityBucket, node_id: &str) -> (r: String)
    ensures
        r@ == prefix@ + "_"@ + sanitized(queue@) + "_"@ + bucket_name(bucket) + "_"@ + node_id@,
{
    let q = sanitize_name(queue);
    let mut s = concat2(prefix, "_");
    s.append(q.as_str());
    s.append("_");
    s.append(bucket.as_str());
    s.append("_");
    s.append(node_id);
    s
}

/// Name of the delayed scheduler's consumer: `{sanitized queue}_delayed_scheduler`.
pub fn delayed_consumer_name(queue: &str) -> (r: String)
    ensures
        r@ == sanitized(queue@) + "_delayed_scheduler"@,
{
    let mut s = sanitize_name(queue);
    s.append("_delayed_scheduler");
    s
}

/// Lower-case hex digit of `d < 16`.
pub open spec fn hex_char(d: nat) -> char {
    if d < 10 {
        ((d + '0' as nat) as u32) as char
    } else {
        ((d - 10 + 'a' as nat) as u32) as char
    }
}

/// The last `width` hex digits of `v`, most significant first, zero-padded.
pub open spec fn hex_fixed(v: nat, width: nat) -> Seq<char>
    decreases width,
{
    if width == 0 {
        Seq::empty()
    } else {
        hex_fixed(v / 16, (width - 1) as nat).push(hex_char(v % 16))
    }
}

fn hex_digit(d: u64) -> (c: char)
    requires
        d < 16,
    ensures
        c == hex_char(d as nat),
{
    if d < 10 {
        ((d as u32) + ('0' as u32)) as u8 as char
    } else {
        ((d as u32) - 10 + ('a' as u32)) as u8 as char
    }
}

fn push_hex(s: &mut String, v: u64, width: u64)
    ensures
        final(s)@ == old(s)@ + hex_fixed(v as nat, width as nat),
    decreases width,
{
    if width > 0 {
        push_hex(s, v / 16, width - 1);
        push_char(s, hex_digit(v % 16));
    } else {
        assert(hex_fixed(v as nat, 0) =~= Seq::<char>::empty());
    }
}

/// KV key of a job: its ID as 16 lower-case hex digits.
pub fn job_key(job_id: u64) -> (r: String)
    ensures
        r@ == hex_fixed(job_id as nat, 16),
        r@.len() == 16,
{
    let mut s = String::new();
    push_hex(&mut s, job_id, 16);
    proof {
        lemma_hex_fixed_len(job_id as nat, 16);
    }
    s
}

pub proof fn lemma_hex_fixed_len(v: nat, width: nat)
    ensures
        hex_fixed(v, width).len() == width,
    decreases width,
{
    if width > 0 {
        lemma_hex_fixed_len(v / 16, (width - 1) as nat);
    }
}

/// 16 to the power `w`.
pub open spec fn pow16(w: nat) -> nat
    decreases w,
{
    if w == 0 {
        1
    } else {
        16 * pow16((w - 1) as nat)
    }
}

/// Whether `c` is a lower-case hex digit.
pub open spec fn is_lower_hex(c: char) -> bool {
    ('0' as int <= c as int <= '9' as int) || ('a' as int <= c as int <= 'f' as int)
}

/// The value of the lower-case hex digit `c`.
pub open spec fn hex_digit_value(c: char) -> int {
    if c as int <= '9' as int {
        c as int - '0' as int
    } else {
        c as int - 'a' as int + 10
    }
}

/// The number that the hex digits `s` stand for, most significant first,
/// as `u64::from_str_radix(s, 16)` reads lower-case digits.
pub open spec fn hex_value(s: Seq<char>) -> int
    decreases s.len(),
{
    if s.len() == 0 {
        0
    } else {
        hex_value(s.drop_last()) * 16 + hex_digit_value(s.last())
    }
}

/// Whether `s` comes before `t`, of the same length, in string order.
pub open spec fn str_before(s: Seq<char>, t: Seq<char>) -> bool
    decreases s.len(),
{
    if s.len() == 0 || s.len() != t.len() {
        false
    } else {
        str_before(s.drop_last(), t.drop_last()) || (s.drop_last() == t.drop_last() && (s.last() as int) < (t.last() as int))
    }
}

proof fn lemma_pow16_positive(w: nat)
    ensures
        pow16(w) > 0,
    decreases w,
{
    if w > 0 {
        lemma_pow16_positive((w - 1) as nat);
    }
}

proof fn lemma_hex_char(d: nat, e: nat)
    requires
        d < 16,
        e < 16,
    ensures
        is_lower_hex(hex_char(d)),
        hex_digit_value(hex_char(d)) == d,
        d < e ==> (hex_char(d) as int) < (hex_char(e) as int),
{
}

/// The last hex digit of `v` and the rest: `v % 16^w` splits into them.
proof fn lemma_split16(v: nat, w: nat)
    requires
        w > 0,
    ensures
        pow16(w) == 16 * pow16((w - 1) as nat),
        pow16((w - 1) as nat) > 0,
        v % pow16(w) == 16 * ((v / 16) % pow16((w - 1) as nat)) + v % 16,
        0 <= (v / 16) % pow16((w - 1) as nat) < pow16((w - 1) as nat),
        0 <= v % 16 < 16,
{
    lemma_pow16_positive((w - 1) as nat);
    vstd::arithmetic::div_mod::lemma_breakdown(v as int, 16, pow16((w - 1) as nat) as int);
}

proof fn lemma_hex_fixed_value(v: nat, w: nat)
    ensures
        hex_value(hex_fixed(v, w)) == v % pow16(w),
        forall|i: int| 0 <= i < w ==> is_lower_hex(#[trigger] hex_fixed(v, w)[i]),
    decreases w,
{
    lemma_hex_fixed_len(v, w);
    if w == 0 {
        assert(pow16(0) == 1);
        assert(v % 1 == 0);
    } else {
        let p = hex_fixed(v / 16, (w - 1) as nat);
        lemma_hex_fixed_value(v / 16, (w - 1) as nat);
        lemma_hex_char(v % 16, 0);
        lemma_split16(v, w);
        assert(hex_fixed(v, w).drop_last() =~= p);
        assert forall|i: int| 0 <= i < w implies is_lower_hex(#[trigger] hex_fixed(v, w)[i]) by {
            if i < w - 1 {
                assert(hex_fixed(v, w)[i] == p[i]);
            }
        }
    }
}

proof fn lemma_hex_fixed_same(a: nat, b: nat, w: nat)
    requires
        a % pow16(w) == b % pow16(w),
    ensures
        hex_fixed(a, w) == hex_fixed(b, w),
    decreases w,
{
    if w > 0 {
        lemma_split16(a, w);
        lemma_split16(b, w);
        assert((a / 16) % pow16((w - 1) as nat) == (b / 16) % pow16((w - 1) as nat) && a % 16 == b % 16);
        lemma_hex_fixed_same(a / 16, b / 16, (w - 1) as nat);
        assert(hex_fixed(a, w) == hex_fixed(a / 16, (w - 1) as nat).push(hex_char(a % 16)));
        assert(hex_fixed(b, w) == hex_fixed(b / 16, (w - 1) as nat).push(hex_char(b % 16)));
    }
}

proof fn lemma_hex_fixed_order(a: nat, b: nat, w: nat)
    requires
        a % pow16(w) < b % pow16(w),
    ensures
        str_before(hex_fixed(a, w), hex_fixed(b, w)),
    decreases w,
{
    if w == 0 {
        assert(pow16(0) == 1);
        assert(a % 1 == 0 && b % 1 == 0);
    } else {
        lemma_split16(a, w);
        lemma_split16(b, w);
        lemma_hex_fixed_len(a, w);
        lemma_hex_fixed_len(b, w);
        let (pa, pb) = (hex_fixed(a / 16, (w - 1) as nat), hex_fixed(b / 16, (w - 1) as nat));
        assert(hex_fixed(a, w).drop_last() =~= pa);
        assert(hex_fixed(b, w).drop_last() =~= pb);
        let (qa, qb) = ((a / 16) % pow16((w - 1) as nat), (b / 16) % pow16((w - 1) as nat));
        assert(qa < qb || (qa == qb && a % 16 < b % 16));
        if qa < qb {
            lemma_hex_fixed_order(a / 16, b / 16, (w - 1) as nat);
        } else {
            lemma_hex_fixed_same(a / 16, b / 16, (w - 1) as nat);
            lemma_hex_char(a % 16, b % 16);
        }
    }
}

/// A job's KV key is 16 lower-case hex digits that read back as its ID,
/// so no two jobs share a key, and keys sort as their IDs do.
pub proof fn lemma_job_key_order(a: u64, b: u64)
    ensures
        hex_fixed(a as nat, 16).len() == 16,
        forall|i: int| 0 <= i < 16 ==> is_lower_hex(#[trigger] hex_fixed(a as nat, 16)[i]),
        hex_value(hex_fixed(a as nat, 16)) == a,
        hex_fixed(a as nat, 16) == hex_fixed(b as nat, 16) ==> a == b,
        a < b ==> str_before(hex_fixed(a as nat, 16), hex_fixed(b as nat, 16)),
{
    reveal_with_fuel(pow16, 17);
    assert(pow16(16) == 0x1_0000_0000_0000_0000);
    vstd::arithmetic::div_mod::lemma_small_mod(a as nat, pow16(16));
    vstd::arithmetic::div_mod::lemma_small_mod(b as nat, pow16(16));
    lemma_hex_fixed_len(a as nat, 16);
    lemma_hex_fixed_value(a as nat, 16);
    lemma_hex_fixed_value(b as nat, 16);
    if a < b {
        lemma_hex_fixed_order(a as nat, b as nat, 16);
    }
}

/// Message counts of a queue's streams.
#[derive(Debug, Clone, Copy, PartialEq, Eq, Structural)]
pub struct StreamInfo {
    pub high_priority: u64,
    pub normal_priority: u64,
    pub low_priority: u64,
    pub delayed: u64,
    pub dlq: u64,
}

impl StreamInfo {
    pub open spec fn waiting_total(&self) -> int {
        self.high_priority + self.normal_priority + self.low_priority
    }

    /// Total waiting jobs (all priority buckets).
    pub fn total_waiting(&self) -> (r: u64)
        requires
            self.waiting_total() <= u64::MAX,
        ensures
            r == self.waiting_total(),
    {
        self.high_priority + self.normal_priority + self.low_priority
    }

    /// Total pending jobs (waiting + delayed).
    pub fn total_pending(&self) -> (r: u64)
        requires
            self.waiting_total() + self.delayed <= u64::MAX,
        ensures
            r == self.waiting_total() + self.delayed,
    {
        self.total_waiting() + self.delayed
    }
}

} // verus!
