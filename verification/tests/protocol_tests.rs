use flashq::api::{GrpcJob, GrpcJobState};
use flashq::job::{Job, JobState};
use flashq::nats_config::{job_key, sanitize_name, stream_name, NatsConfig, PriorityBucket, StreamInfo};
use flashq::nats_rules::{generate_job_id, NatsEnv};
use std::collections::HashSet;
use std::time::{Duration, Instant, SystemTime, UNIX_EPOCH};

fn now_ms() -> u64 {
    SystemTime::now().duration_since(UNIX_EPOCH).unwrap().as_millis() as u64
}

fn pause_ms(ms: u64) {
    let start = Instant::now();
    while start.elapsed() < Duration::from_millis(ms) {}
}

fn blank_job(id: u64, queue: &str, priority: i32) -> Job {
    Job {
        id,
        queue: queue.to_string(),
        data: "{\"test\":true}".to_string(),
        priority,
        created_at: now_ms(),
        run_at: now_ms(),
        started_at: 0,
        attempts: 0,
        max_attempts: 3,
        backoff: 1000,
        ttl: 0,
        timeout: 30000,
        unique_key: None,
        depends_on: vec![],
        progress: 0,
        progress_msg: None,
        tags: vec![],
        lifo: false,
        remove_on_complete: false,
        remove_on_fail: false,
        last_heartbeat: 0,
        stall_timeout: 0,
        stall_count: 0,
        parent_id: None,
        children_ids: vec![],
        children_completed: 0,
        custom_id: None,
        keep_completed_age: 0,
        keep_completed_count: 0,
        completed_at: 0,
        group_id: None,
    }
}

fn create_test_internal_job(id: u64) -> Job {
    Job {
        id,
        queue: "test-queue".to_string(),
        data: "{\"test\":\"data\"}".to_string(),
        priority: 10,
        created_at: 1000,
        run_at: 1000,
        started_at: 500,
        attempts: 1,
        max_attempts: 3,
        backoff: 1000,
        ttl: 60000,
        timeout: 30000,
        unique_key: Some("unique".to_string()),
        depends_on: vec![1, 2],
        progress: 50,
        progress_msg: Some("halfway".to_string()),
        tags: vec!["tag1".to_string()],
        lifo: true,
        remove_on_complete: false,
        remove_on_fail: false,
        last_heartbeat: 0,
        stall_timeout: 0,
        stall_count: 0,
        parent_id: None,
        children_ids: vec![],
        children_completed: 0,
        custom_id: None,
        keep_completed_age: 0,
        keep_completed_count: 0,
        completed_at: 0,
        group_id: None,
    }
}

#[test]
fn test_internal_job_to_grpc_job_conversion() {
    let internal = create_test_internal_job(123);
    let grpc_job = GrpcJob::from_job(internal);

    assert_eq!(grpc_job.id, 123);
    assert_eq!(grpc_job.queue, "test-queue");
    assert_eq!(grpc_job.priority, 10);
    assert_eq!(grpc_job.created_at, 1000);
    assert_eq!(grpc_job.run_at, 1000);
    assert_eq!(grpc_job.started_at, 500);
    assert_eq!(grpc_job.attempts, 1);
    assert_eq!(grpc_job.max_attempts, 3);
    assert_eq!(grpc_job.backoff, 1000);
    assert_eq!(grpc_job.ttl, 60000);
    assert_eq!(grpc_job.timeout, 30000);
    assert_eq!(grpc_job.unique_key, Some("unique".to_string()));
    assert_eq!(grpc_job.depends_on, vec![1, 2]);
    assert_eq!(grpc_job.progress, 50);
    assert_eq!(grpc_job.progress_msg, Some("halfway".to_string()));
    assert!(grpc_job.lifo);
}

#[test]
fn test_job_state_conversion_waiting() {
    let state: GrpcJobState = JobState::Waiting.into();
    assert_eq!(state, GrpcJobState::Waiting);
}

#[test]
fn test_job_state_conversion_delayed() {
    let state: GrpcJobState = JobState::Delayed.into();
    assert_eq!(state, GrpcJobState::Delayed);
}

#[test]
fn test_job_state_conversion_active() {
    let state: GrpcJobState = JobState::Active.into();
    assert_eq!(state, GrpcJobState::Active);
}

#[test]
fn test_job_state_conversion_completed() {
    let state: GrpcJobState = JobState::Completed.into();
    assert_eq!(state, GrpcJobState::Completed);
}

#[test]
fn test_job_state_conversion_failed() {
    let state: GrpcJobState = JobState::Failed.into();
    assert_eq!(state, GrpcJobState::Failed);
}

#[test]
fn test_job_state_conversion_waiting_children() {
    let state: GrpcJobState = JobState::WaitingChildren.into();
    assert_eq!(state, GrpcJobState::WaitingChildren);
}

#[test]
fn test_job_state_conversion_stalled_maps_to_active() {
    let state: GrpcJobState = JobState::Stalled.into();
    assert_eq!(state, GrpcJobState::Active);
}

#[test]
fn test_job_state_conversion_unknown() {
    let state: GrpcJobState = JobState::Unknown.into();
    assert_eq!(state, GrpcJobState::Unknown);
}

#[test]
fn waiting_parent_maps_to_waiting_children() {
    let state: GrpcJobState = JobState::WaitingParent.into();
    assert_eq!(state, GrpcJobState::WaitingChildren);
}

#[test]
fn test_backoff_calculation() {
    let backoff = 1000u64;

    assert_eq!(backoff * (1 << 0), 1000);
    assert_eq!(backoff * (1 << 1), 2000);
    assert_eq!(backoff * (1 << 2), 4000);
    assert_eq!(backoff * (1 << 3), 8000);
    assert_eq!(backoff * (1 << 10), 1024000);

    assert_eq!(flashq::job::retry_delay_ms(backoff, 0), 1000);
    assert_eq!(flashq::job::retry_delay_ms(backoff, 1), 2000);
    assert_eq!(flashq::job::retry_delay_ms(backoff, 2), 4000);
    assert_eq!(flashq::job::retry_delay_ms(backoff, 3), 8000);
    assert_eq!(flashq::job::retry_delay_ms(backoff, 10), 1024000);
    assert_eq!(flashq::job::retry_delay_ms(backoff, 11), 1024000);
    assert_eq!(flashq::job::retry_delay_ms(0, 3), 1000);
}

#[test]
fn test_priority_bucket_from_priority() {
    assert_eq!(PriorityBucket::from_priority(10), PriorityBucket::High);
    assert_eq!(PriorityBucket::from_priority(5), PriorityBucket::High);
    assert_eq!(PriorityBucket::from_priority(4), PriorityBucket::Normal);
    assert_eq!(PriorityBucket::from_priority(0), PriorityBucket::Normal);
    assert_eq!(PriorityBucket::from_priority(-1), PriorityBucket::Low);
    assert_eq!(PriorityBucket::from_priority(-100), PriorityBucket::Low);
}

#[test]
fn test_config_subject_names() {
    let config = NatsConfig::default();
    assert_eq!(config.subject("jobs"), "flashq.jobs");
    assert_eq!(config.kv_bucket("jobs"), "flashq-jobs");
    assert_eq!(config.priority_stream("email", PriorityBucket::High), "flashq.email.priority.high");
    assert_eq!(config.delayed_stream("email"), "flashq.email.delayed");
    assert_eq!(config.dlq_stream("email"), "flashq.email.dlq");
}

#[test]
fn test_job_key() {
    assert_eq!(job_key(1), "0000000000000001");
    assert_eq!(job_key(255), "00000000000000ff");
    assert_eq!(job_key(u64::MAX), "ffffffffffffffff");
}

#[test]
fn pull_test_stream_name() {
    assert_eq!(stream_name("flashq", "email", "high"), "flashq__email_priority_high");
}

#[test]
fn test_priority_order() {
    let buckets = PriorityBucket::all();
    assert_eq!(buckets[0], PriorityBucket::High);
    assert_eq!(buckets[1], PriorityBucket::Normal);
    assert_eq!(buckets[2], PriorityBucket::Low);
}

#[test]
fn test_priority_routing() {
    let config = NatsConfig::default();

    assert_eq!(
        config.priority_stream("email", PriorityBucket::from_priority(10)),
        "flashq.email.priority.high"
    );
    assert_eq!(
        config.priority_stream("email", PriorityBucket::from_priority(5)),
        "flashq.email.priority.high"
    );
    assert_eq!(
        config.priority_stream("email", PriorityBucket::from_priority(4)),
        "flashq.email.priority.normal"
    );
    assert_eq!(
        config.priority_stream("email", PriorityBucket::from_priority(0)),
        "flashq.email.priority.normal"
    );
    assert_eq!(
        config.priority_stream("email", PriorityBucket::from_priority(-1)),
        "flashq.email.priority.low"
    );
}

#[test]
fn test_job_id_generation() {
    let mut ids = HashSet::new();
    for _ in 0..10 {
        let id = generate_job_id();
        assert!(ids.insert(id), "Duplicate ID generated: {}", id);
        pause_ms(1);
    }
    assert_eq!(ids.len(), 10);
}

#[test]
fn test_job_id_time_sortable() {
    let id1 = generate_job_id();
    pause_ms(2);
    let id2 = generate_job_id();
    assert!(id2 > id1, "Expected id2 ({}) > id1 ({})", id2, id1);
}

#[test]
fn streams_test_stream_name() {
    assert_eq!(stream_name("flashq", "email", "high"), "flashq__email_priority_high");
    assert_eq!(stream_name("flashq", "my.queue", "normal"), "flashq__my_queue_priority_normal");
}

#[test]
fn test_sanitize_name() {
    assert_eq!(sanitize_name("simple"), "simple");
    assert_eq!(sanitize_name("with.dot"), "with_dot");
    assert_eq!(sanitize_name("with-dash"), "with-dash");
    assert_eq!(sanitize_name("with_underscore"), "with_underscore");
    assert_eq!(sanitize_name("with spaces"), "with_spaces");
}

#[test]
fn test_stream_info_totals() {
    let info = StreamInfo { high_priority: 10, normal_priority: 20, low_priority: 5, delayed: 15, dlq: 3 };
    assert_eq!(info.total_waiting(), 35);
    assert_eq!(info.total_pending(), 50);
}

#[test]
fn test_priority_bucket_mapping() {
    assert_eq!(PriorityBucket::from_priority(10), PriorityBucket::High);
    assert_eq!(PriorityBucket::from_priority(5), PriorityBucket::High);
    assert_eq!(PriorityBucket::from_priority(4), PriorityBucket::Normal);
    assert_eq!(PriorityBucket::from_priority(0), PriorityBucket::Normal);
    assert_eq!(PriorityBucket::from_priority(-1), PriorityBucket::Low);
}

#[test]
fn test_config_subject_generation() {
    let config = NatsConfig { prefix: "test".to_string(), ..NatsConfig::default() };

    assert_eq!(config.subject("jobs"), "test.jobs");
    assert_eq!(config.kv_bucket("results"), "test-results");
    assert_eq!(config.priority_stream("email", PriorityBucket::High), "test.email.priority.high");
}

#[test]
fn test_config_from_env() {
    let env = NatsEnv {
        url: Some("nats://test:4222".to_string()),
        stream_replicas: None,
        kv_replicas: None,
        prefix: Some("myapp".to_string()),
        node_id: None,
        tls: None,
        tls_cert: None,
        tls_key: None,
        username: None,
        password: None,
        credentials: None,
    };
    let config = NatsConfig::from_env_values(env);
    assert_eq!(config.url, "nats://test:4222");
    assert_eq!(config.prefix, "myapp");
}

#[test]
fn test_job_creation() {
    let job = blank_job(123, "test-queue", 5);
    assert_eq!(job.id, 123);
    assert_eq!(job.queue, "test-queue");
    assert_eq!(job.priority, 5);
}

#[test]
fn test_priority_bucket_order() {
    let buckets = PriorityBucket::all();
    assert_eq!(buckets.len(), 3);
    assert_eq!(buckets[0], PriorityBucket::High);
    assert_eq!(buckets[1], PriorityBucket::Normal);
    assert_eq!(buckets[2], PriorityBucket::Low);
}

#[test]
fn test_job_with_empty_optional_fields() {
    let internal = Job {
        id: 1,
        queue: "q".to_string(),
        data: "null".to_string(),
        priority: 0,
        created_at: 0,
        run_at: 0,
        started_at: 0,
        attempts: 0,
        max_attempts: 0,
        backoff: 0,
        ttl: 0,
        timeout: 0,
        unique_key: None,
        depends_on: vec![],
        progress: 0,
        progress_msg: None,
        tags: vec![],
        lifo: false,
        remove_on_complete: false,
        remove_on_fail: false,
        last_heartbeat: 0,
        stall_timeout: 0,
        stall_count: 0,
        parent_id: None,
        children_ids: vec![],
        children_completed: 0,
        custom_id: None,
        keep_completed_age: 0,
        keep_completed_count: 0,
        completed_at: 0,
        group_id: None,
    };
    let grpc_job = GrpcJob::from_job(internal);
    assert_eq!(grpc_job.id, 1);
    assert!(grpc_job.unique_key.is_none());
    assert!(grpc_job.depends_on.is_empty());
    assert!(grpc_job.progress_msg.is_none());
}

#[test]
fn job_keys_read_back_and_sort_as_their_ids() {
    let ids = [0u64, 1, 15, 16, 255, 256, 4096, 1 << 40, u64::MAX - 1, u64::MAX];
    for (k, a) in ids.iter().enumerate() {
        let ka = job_key(*a);
        assert_eq!(ka.len(), 16);
        assert!(ka.chars().all(|c| c.is_ascii_digit() || ('a'..='f').contains(&c)));
        assert_eq!(u64::from_str_radix(&ka, 16), Ok(*a));
        for b in &ids[k + 1..] {
            assert!(ka < job_key(*b));
        }
    }
}
