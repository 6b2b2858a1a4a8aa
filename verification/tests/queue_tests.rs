use flashq::ack::FailOutcome;
use flashq::admin::constant_time_eq;
use flashq::api::SaveS3SettingsRequest;
use flashq::api::parse_auth_tokens;
use flashq::cron::calculate_next_run;
use flashq::cron::parse_next_cron_run;
use flashq::cron::validate_cron;
use flashq::job::retry_delay_ms;
use flashq::job::{Job, JobState};
use flashq::manager::QueueManager;
use flashq::nats_config::NatsConfig;
use flashq::nats_config::PriorityBucket;
use flashq::nats_config::sanitize_name;
use flashq::nats_rules::NatsEnv;
use flashq::nats_rules::{current_leader, leadership_step, LeaderClaim, LeaderStep};
use flashq::nats_rules::{delayed_action, delayed_reply, nats_fail_plan, DelayedAction, MessageReply};
use flashq::nats_rules::{dlq_marked, retried_job};
use flashq::nats_rules::{fail_decision, FailResult};
use flashq::nats_rules::{job_id_from_uuid, node_name_from_uuid};
use flashq::nats_rules::{leader_key, target_subject};
use flashq::order::{compare_jobs, job_outranks};
use flashq::pull::{DistributedCheck, PullBatch, PullStep};
use flashq::push::{has_pending_dep, JobInput};
use flashq::recovery::can_restore;
use flashq::recovery::{get_max_job_id, load_dlq_jobs, load_pending_jobs, placement_of, Placement};
use flashq::text::{parse_unsigned, u64_to_decimal};
use std::cmp::Ordering;

fn input(data: &str) -> JobInput {
    JobInput::new(data.to_string())
}

fn pushed(m: &mut QueueManager, queue: &str, inp: JobInput, now: u64) -> Job {
    match m.push(queue.to_string(), inp, now) {
        Ok(j) => j,
        Err(e) => panic!("push refused: {}", e),
    }
}

fn pull_jobs(m: &mut QueueManager, queue: &str, count: usize, now: u64) -> Vec<Job> {
    match m.pull_batch(&queue.to_string(), count, now) {
        PullBatch::Jobs(v) => v,
        PullBatch::Paused => panic!("queue unexpectedly paused"),
        PullBatch::RateLimited => panic!("queue unexpectedly rate limited"),
    }
}

#[test]
fn push_then_lookup_gives_the_job() {
    let mut m = QueueManager::new();
    let j = pushed(&mut m, "emails", input("{\"to\":\"a\"}"), 10);
    assert_eq!(j.id, 1);
    assert_eq!(j.queue, "emails");
    assert_eq!(j.created_at, 10);
    assert_eq!(j.run_at, 10);
    let found = m.get_job_by_internal_id(j.id).expect("job is stored");
    assert_eq!(found.id, j.id);
    assert_eq!(found.data, "{\"to\":\"a\"}");
    assert!(m.get_job_by_internal_id(99).is_none());
    assert_eq!(m.next_id, 2);
    assert_eq!(m.metrics.total_pushed, 1);
}

#[test]
fn ids_are_given_out_in_order() {
    let mut m = QueueManager::new();
    let a = pushed(&mut m, "q", input("{}"), 1);
    let b = pushed(&mut m, "q", input("{}"), 2);
    let c = pushed(&mut m, "other", input("{}"), 3);
    assert_eq!((a.id, b.id, c.id), (1, 2, 3));
}

#[test]
fn higher_priority_is_pulled_first() {
    let mut m = QueueManager::new();
    let low = pushed(&mut m, "priority-order-test", input("{\"order\":\"first\"}").with_priority(1), 5);
    let high = pushed(&mut m, "priority-order-test", input("{\"order\":\"second\"}").with_priority(100), 5);
    let got = pull_jobs(&mut m, "priority-order-test", 1, 6);
    assert_eq!(got.len(), 1);
    assert_eq!(got[0].id, high.id);
    assert_eq!(got[0].data, "{\"order\":\"second\"}");
    let next = pull_jobs(&mut m, "priority-order-test", 1, 7);
    assert_eq!(next[0].id, low.id);
}

#[test]
fn equal_priority_is_first_in_first_out() {
    let mut m = QueueManager::new();
    for _ in 0..3 {
        pushed(&mut m, "fifo", input("{}"), 100);
    }
    let got = pull_jobs(&mut m, "fifo", 3, 100);
    let ids: Vec<u64> = got.iter().map(|j| j.id).collect();
    assert_eq!(ids, vec![1, 2, 3]);
}

#[test]
fn lifo_job_is_pulled_before_older_ones() {
    let mut m = QueueManager::new();
    pushed(&mut m, "stack", input("{}"), 100);
    let mut last = input("{}");
    last.lifo = true;
    let newest = pushed(&mut m, "stack", last, 100);
    let got = pull_jobs(&mut m, "stack", 1, 100);
    assert_eq!(got[0].id, newest.id);
}

#[test]
fn pulled_jobs_are_stamped_and_processing() {
    let mut m = QueueManager::new();
    pushed(&mut m, "q", input("{}"), 10);
    let got = pull_jobs(&mut m, "q", 5, 20);
    assert_eq!(got.len(), 1);
    assert_eq!(got[0].started_at, 20);
    assert_eq!(got[0].last_heartbeat, 20);
    assert_eq!(m.processing.len(), 1);
    assert_eq!(m.waiting.len(), 0);
    assert_eq!(m.clock, 20);
    let empty = pull_jobs(&mut m, "q", 5, 21);
    assert!(empty.is_empty());
}

#[test]
fn pull_only_takes_from_the_named_queue() {
    let mut m = QueueManager::new();
    pushed(&mut m, "a", input("{}"), 1);
    pushed(&mut m, "b", input("{}"), 1);
    let got = pull_jobs(&mut m, "b", 10, 2);
    assert_eq!(got.len(), 1);
    assert_eq!(got[0].queue, "b");
    assert_eq!(m.waiting.len(), 1);
    assert_eq!(m.waiting[0].queue, "a");
}

#[test]
fn delayed_job_waits_for_its_time() {
    let mut m = QueueManager::new();
    let mut inp = input("{}");
    inp.delay = Some(60000);
    let j = pushed(&mut m, "delayed-test", inp, 1000);
    assert_eq!(j.run_at, 61000);
    let (ready, processing, delayed, dead, completed) = m.stats(1000);
    assert_eq!((ready, processing, delayed, dead, completed), (0, 0, 1, 0, 0));
    assert!(pull_jobs(&mut m, "delayed-test", 1, 2000).is_empty());
    let got = pull_jobs(&mut m, "delayed-test", 1, 61000);
    assert_eq!(got.len(), 1);
    assert_eq!(got[0].id, j.id);
}

#[test]
fn expired_job_is_dropped_on_pull() {
    let mut m = QueueManager::new();
    let mut inp = input("{}");
    inp.ttl = Some(100);
    pushed(&mut m, "ttl", inp, 1000);
    assert!(pull_jobs(&mut m, "ttl", 1, 1200).is_empty());
    assert_eq!(m.waiting.len(), 0);
}

#[test]
fn ack_with_result_then_get_result() {
    let mut m = QueueManager::new();
    let j = pushed(&mut m, "result-test", input("{}"), 1);
    pull_jobs(&mut m, "result-test", 1, 2);
    let done = m.ack(j.id, Some("{\"value\":42}".to_string()), 3).expect("ack");
    assert_eq!(done.id, j.id);
    assert_eq!(m.get_result(j.id), Some("{\"value\":42}".to_string()));
    assert_eq!(m.get_result(j.id + 1), None);
    assert_eq!(m.processing.len(), 0);
    assert_eq!(m.completed, vec![j.id]);
    assert_eq!(m.metrics.total_completed, 1);
    let (_, _, _, _, completed) = m.stats(3);
    assert_eq!(completed, 1);
}

#[test]
fn ack_unknown_job_is_refused() {
    let mut m = QueueManager::new();
    let r = m.ack(999, None, 1);
    assert_eq!(r.err(), Some("Job 999 not found".to_string()));
    assert_eq!(m.clock, 0);
}

#[test]
fn ack_of_a_waiting_job_is_refused() {
    let mut m = QueueManager::new();
    let j = pushed(&mut m, "q", input("{}"), 1);
    assert!(m.ack(j.id, None, 2).is_err());
    assert_eq!(m.waiting.len(), 1);
}

#[test]
fn ack_batch_counts_the_acked_jobs() {
    let mut m = QueueManager::new();
    for _ in 0..3 {
        pushed(&mut m, "batch", input("{}"), 1);
    }
    pull_jobs(&mut m, "batch", 2, 2);
    let n = m.ack_batch(&vec![1, 2, 3, 42]);
    assert_eq!(n, 2);
    assert_eq!(m.processing.len(), 0);
    assert_eq!(m.waiting.len(), 1);
}

#[test]
fn fail_unknown_job_is_refused() {
    let mut m = QueueManager::new();
    match m.fail(7, Some("x".to_string()), 1) {
        Err(e) => assert_eq!(e, "Job 7 not found"),
        Ok(_) => panic!("fail of an unknown job succeeded"),
    }
}

#[test]
fn fail_at_the_attempt_limit_goes_to_the_dead_letter_queue() {
    let mut m = QueueManager::new();
    let mut inp = input("{}");
    inp.max_attempts = Some(1);
    let j = pushed(&mut m, "fail-test", inp, 1);
    pull_jobs(&mut m, "fail-test", 1, 2);
    match m.fail(j.id, Some("test error".to_string()), 3) {
        Ok(FailOutcome::MovedToDlq(dead)) => {
            assert_eq!(dead.id, j.id);
            assert_eq!(dead.attempts, 1);
        },
        _ => panic!("expected the dead letter queue"),
    }
    assert_eq!(m.dlq.len(), 1);
    assert_eq!(m.processing.len(), 0);
    assert_eq!(m.metrics.total_failed, 1);
    let rows = m.list_jobs(Some("fail-test"), None, 10, 0, 3);
    assert_eq!(rows.len(), 1);
    assert_eq!(rows[0].state, JobState::Failed);
}

#[test]
fn fail_with_attempts_left_retries_after_backoff() {
    let mut m = QueueManager::new();
    let mut inp = input("{}");
    inp.max_attempts = Some(3);
    inp.backoff = Some(1000);
    let j = pushed(&mut m, "retry", inp, 100);
    pull_jobs(&mut m, "retry", 1, 150);
    match m.fail(j.id, Some("boom".to_string()), 200) {
        Ok(FailOutcome::Retried(r)) => {
            assert_eq!(r.attempts, 1);
            // backoff * 2^attempts after this failure
            assert_eq!(r.run_at, 200 + 2000);
            assert_eq!(r.started_at, 0);
            assert_eq!(r.progress_msg, Some("boom".to_string()));
        },
        _ => panic!("expected a retry"),
    }
    assert_eq!(m.waiting.len(), 1);
    assert_eq!(m.waiting[0].run_at, 2200);
    assert!(pull_jobs(&mut m, "retry", 1, 2199).is_empty());
    assert_eq!(pull_jobs(&mut m, "retry", 1, 2200).len(), 1);
}

#[test]
fn fail_without_backoff_keeps_the_run_time() {
    let mut m = QueueManager::new();
    let j = pushed(&mut m, "r", input("{}"), 100);
    pull_jobs(&mut m, "r", 1, 150);
    match m.fail(j.id, None, 200) {
        Ok(FailOutcome::Retried(r)) => assert_eq!(r.run_at, 100),
        _ => panic!("expected a retry"),
    }
}

#[test]
fn fail_with_remove_on_fail_drops_the_job() {
    let mut m = QueueManager::new();
    let mut inp = input("{}");
    inp.max_attempts = Some(1);
    inp.remove_on_fail = true;
    let j = pushed(&mut m, "gone", inp, 1);
    pull_jobs(&mut m, "gone", 1, 2);
    match m.fail(j.id, None, 3) {
        Ok(FailOutcome::Removed(r)) => assert_eq!(r.id, j.id),
        _ => panic!("expected removal"),
    }
    assert!(m.dlq.is_empty());
    assert!(m.waiting.is_empty());
    assert!(m.processing.is_empty());
}

#[test]
fn pending_dependency_check() {
    assert!(has_pending_dep(&vec![1, 2], &vec![1]));
    assert!(!has_pending_dep(&vec![1, 2], &vec![2, 1, 5]));
    assert!(!has_pending_dep(&vec![], &vec![]));
}

#[test]
fn pull_step_reports_paused_wait_and_job() {
    let mut m = QueueManager::new();
    let q = "step".to_string();
    assert!(matches!(m.pull_step(&q, 1), PullStep::Wait));
    pushed(&mut m, "step", input("{}"), 1);
    m.pause("step");
    assert!(matches!(m.pull_step(&q, 2), PullStep::Paused));
    m.resume("step");
    match m.pull_step(&q, 3) {
        PullStep::Job(j) => assert_eq!(j.id, 1),
        _ => panic!("expected a job"),
    }
}

#[test]
fn pull_batch_nowait_takes_what_is_ready() {
    let mut m = QueueManager::new();
    pushed(&mut m, "nw", input("{}"), 1);
    pushed(&mut m, "nw", input("{}"), 1);
    let q = "nw".to_string();
    assert_eq!(m.pull_batch_nowait(&q, 5, 2).len(), 2);
    assert!(m.pull_batch_nowait(&q, 5, 3).is_empty());
}

#[test]
fn distributed_pull_takes_a_slot_or_waits() {
    let mut m = QueueManager::new();
    let q = "dist".to_string();
    assert!(matches!(m.distributed_pull_check(&q, true, 1), DistributedCheck::TryNats));
    assert!(matches!(m.distributed_pull_check(&q, false, 1), DistributedCheck::FallbackLocal));
    m.pause("dist");
    assert!(matches!(m.distributed_pull_check(&q, true, 1), DistributedCheck::Paused));
    m.resume("dist");
    m.set_concurrency("dist", 0);
    assert!(matches!(m.distributed_pull_check(&q, true, 1), DistributedCheck::Busy));
}

#[test]
fn unique_key_refuses_a_second_job_in_the_queue() {
    let mut m = QueueManager::new();
    let mut a = input("{}");
    a.unique_key = Some("order-7".to_string());
    let first = pushed(&mut m, "u", a, 1);
    let mut b = input("{}");
    b.unique_key = Some("order-7".to_string());
    let r = m.push("u".to_string(), b, 2);
    assert_eq!(r.err(), Some("Duplicate job with key: order-7".to_string()));
    assert_eq!(m.waiting.len(), 1);
    // the same key is free in another queue
    let mut c = input("{}");
    c.unique_key = Some("order-7".to_string());
    assert!(m.push("other".to_string(), c, 3).is_ok());
    // once the first job completes its key is free again
    pull_jobs(&mut m, "u", 1, 4);
    m.ack(first.id, None, 5).expect("ack");
    let mut d = input("{}");
    d.unique_key = Some("order-7".to_string());
    assert!(m.push("u".to_string(), d, 6).is_ok());
}

#[test]
fn custom_job_id_gives_back_the_existing_job() {
    let mut m = QueueManager::new();
    let mut a = input("{}");
    a.job_id = Some("my-custom-id-123".to_string());
    let first = pushed(&mut m, "custom-id-test", a, 1);
    let mut b = input("{}");
    b.job_id = Some("my-custom-id-123".to_string());
    let again = pushed(&mut m, "custom-id-test", b, 2);
    assert_eq!(again.id, first.id);
    assert_eq!(m.waiting.len(), 1);
    assert_eq!(m.custom_ids.get("my-custom-id-123"), Some(first.id));
    assert_eq!(m.custom_ids.get("unknown"), None);
}

#[test]
fn debounced_push_is_refused_inside_its_window() {
    let mut m = QueueManager::new();
    let mut a = input("{}");
    a.debounce_id = Some("d1".to_string());
    pushed(&mut m, "deb", a, 1000);
    let mut b = input("{}");
    b.debounce_id = Some("d1".to_string());
    let r = m.push("deb".to_string(), b, 1100);
    assert_eq!(r.err(), Some("Debounced: job with id 'd1' was pushed recently".to_string()));
    assert_eq!(m.waiting.len(), 1);
    assert_eq!(m.next_id, 2);
    // after the default window of 5 s the same ID is accepted
    let mut c = input("{}");
    c.debounce_id = Some("d1".to_string());
    assert!(m.push("deb".to_string(), c, 7000).is_ok());
}

#[test]
fn job_with_pending_dependency_waits_until_it_completes() {
    let mut m = QueueManager::new();
    let parent = pushed(&mut m, "deps", input("{}"), 1);
    let mut child_in = input("{}");
    child_in.depends_on = Some(vec![parent.id]);
    let child = pushed(&mut m, "deps", child_in, 2);
    assert_eq!(m.waiting_deps.len(), 1);
    assert_eq!(m.waiting_deps[0].id, child.id);
    let rows = m.list_jobs(Some("deps"), None, 10, 0, 2);
    assert!(rows.iter().any(|r| r.job.id == child.id && r.state == JobState::WaitingChildren));
    m.check_dependencies();
    assert_eq!(m.waiting_deps.len(), 1);
    pull_jobs(&mut m, "deps", 1, 3);
    m.ack(parent.id, None, 4).expect("ack");
    m.check_dependencies();
    assert!(m.waiting_deps.is_empty());
    let got = pull_jobs(&mut m, "deps", 1, 5);
    assert_eq!(got[0].id, child.id);
}

#[test]
fn job_whose_dependency_already_completed_is_queued() {
    let mut m = QueueManager::new();
    let a = pushed(&mut m, "d", input("{}"), 1);
    pull_jobs(&mut m, "d", 1, 2);
    m.ack(a.id, None, 3).expect("ack");
    let mut b = input("{}");
    b.depends_on = Some(vec![a.id]);
    pushed(&mut m, "d", b, 4);
    assert!(m.waiting_deps.is_empty());
    assert_eq!(m.waiting.len(), 1);
}

#[test]
fn push_batch_gives_consecutive_ids() {
    let mut m = QueueManager::new();
    let ids = m.push_batch("batch".to_string(), vec![input("{\"n\":1}"), input("{\"n\":2}"), input("{\"n\":3}")], 10);
    assert_eq!(ids, vec![1, 2, 3]);
    assert_eq!(m.waiting.len(), 3);
    assert_eq!(m.metrics.total_pushed, 3);
    let got = pull_jobs(&mut m, "batch", 3, 10);
    let data: Vec<String> = got.iter().map(|j| j.data.clone()).collect();
    assert_eq!(data, vec!["{\"n\":1}", "{\"n\":2}", "{\"n\":3}"]);
}

#[test]
fn paused_queue_gives_nothing_until_resumed() {
    let mut m = QueueManager::new();
    pushed(&mut m, "p", input("{}"), 1);
    assert!(!m.is_paused("p"));
    m.pause("p");
    assert!(m.is_paused("p"));
    assert!(matches!(m.pull_batch(&"p".to_string(), 1, 2), PullBatch::Paused));
    assert_eq!(m.waiting.len(), 1);
    m.resume("p");
    assert!(!m.is_paused("p"));
    assert_eq!(pull_jobs(&mut m, "p", 1, 3).len(), 1);
}

#[test]
fn concurrency_limit_caps_running_jobs() {
    let mut m = QueueManager::new();
    for _ in 0..4 {
        pushed(&mut m, "c", input("{}"), 1);
    }
    m.set_concurrency("c", 2);
    assert_eq!(pull_jobs(&mut m, "c", 10, 2).len(), 2);
    assert!(pull_jobs(&mut m, "c", 10, 3).is_empty());
    m.ack(1, None, 4).expect("ack");
    assert_eq!(pull_jobs(&mut m, "c", 10, 5).len(), 1);
    m.clear_concurrency("c");
    assert_eq!(pull_jobs(&mut m, "c", 10, 6).len(), 1);
}

#[test]
fn one_job_per_group_runs_at_a_time() {
    let mut m = QueueManager::new();
    for _ in 0..2 {
        let mut i = input("{}");
        i.group_id = Some("tenant-a".to_string());
        pushed(&mut m, "g", i, 1);
    }
    let mut other = input("{}");
    other.group_id = Some("tenant-b".to_string());
    pushed(&mut m, "g", other, 1);
    let got = pull_jobs(&mut m, "g", 10, 2);
    let ids: Vec<u64> = got.iter().map(|j| j.id).collect();
    assert_eq!(ids, vec![1, 3]);
    assert!(pull_jobs(&mut m, "g", 10, 3).is_empty());
    m.ack(1, None, 4).expect("ack");
    let next = pull_jobs(&mut m, "g", 10, 5);
    assert_eq!(next[0].id, 2);
}

#[test]
fn rate_limit_is_recorded_in_the_metrics() {
    let mut m = QueueManager::new();
    pushed(&mut m, "rl", input("{}"), 1);
    m.set_rate_limit("rl", 10);
    let rows = m.queue_metrics();
    assert_eq!(rows.len(), 1);
    assert_eq!(rows[0].rate_limit, Some(10));
    m.clear_rate_limit("rl");
    assert_eq!(m.queue_metrics()[0].rate_limit, None);
}

#[test]
fn queue_metrics_count_per_queue() {
    let mut m = QueueManager::new();
    pushed(&mut m, "a", input("{}"), 1);
    pushed(&mut m, "b", input("{}"), 1);
    pushed(&mut m, "a", input("{}"), 1);
    pull_jobs(&mut m, "a", 1, 2);
    let rows = m.queue_metrics();
    let names: Vec<String> = rows.iter().map(|r| r.name.clone()).collect();
    assert_eq!(names, vec!["b", "a"]);
    let a = rows.iter().find(|r| r.name == "a").unwrap();
    assert_eq!((a.pending, a.processing, a.dlq), (1, 1, 0));
    let b = rows.iter().find(|r| r.name == "b").unwrap();
    assert_eq!((b.pending, b.processing, b.dlq), (1, 0, 0));
}

#[test]
fn timed_out_job_is_retried() {
    let mut m = QueueManager::new();
    let mut inp = input("{}");
    inp.timeout = Some(100);
    inp.max_attempts = Some(3);
    let j = pushed(&mut m, "t", inp, 1000);
    pull_jobs(&mut m, "t", 1, 1000);
    m.check_timed_out_jobs(1050);
    assert_eq!(m.processing.len(), 1);
    m.check_timed_out_jobs(1200);
    assert!(m.processing.is_empty());
    assert_eq!(m.waiting.len(), 1);
    let w = &m.waiting[0];
    assert_eq!(w.id, j.id);
    assert_eq!(w.attempts, 1);
    assert_eq!(w.started_at, 0);
    assert_eq!(w.progress_msg, Some("Job timed out".to_string()));
}

#[test]
fn timed_out_job_out_of_attempts_is_dead() {
    let mut m = QueueManager::new();
    let mut inp = input("{}");
    inp.timeout = Some(100);
    inp.max_attempts = Some(1);
    pushed(&mut m, "t", inp, 1000);
    pull_jobs(&mut m, "t", 1, 1000);
    m.check_timed_out_jobs(1200);
    assert_eq!(m.dlq.len(), 1);
    assert_eq!(m.metrics.total_timed_out, 1);
}

#[test]
fn stalled_job_goes_to_the_dead_letter_queue_after_three_stalls() {
    let mut m = QueueManager::new();
    let mut inp = input("{}");
    inp.stall_timeout = Some(100);
    let j = pushed(&mut m, "s", inp, 1000);
    pull_jobs(&mut m, "s", 1, 1000);
    m.check_stalled_jobs(1050);
    assert_eq!(m.processing[0].stall_count, 0);
    m.check_stalled_jobs(1200);
    assert_eq!(m.processing[0].stall_count, 1);
    assert_eq!(m.processing[0].last_heartbeat, 1200);
    m.check_stalled_jobs(1400);
    assert_eq!(m.processing[0].stall_count, 2);
    m.check_stalled_jobs(1600);
    assert!(m.processing.is_empty());
    assert_eq!(m.dlq.len(), 1);
    assert_eq!(m.dlq[0].id, j.id);
    assert_eq!(m.metrics.total_failed, 1);
}

#[test]
fn heartbeat_keeps_a_job_from_stalling() {
    let mut m = QueueManager::new();
    let mut inp = input("{}");
    inp.stall_timeout = Some(100);
    let j = pushed(&mut m, "s", inp, 1000);
    pull_jobs(&mut m, "s", 1, 1000);
    m.heartbeat(j.id, 1090).expect("heartbeat");
    assert_eq!(m.processing[0].last_heartbeat, 1090);
    m.check_stalled_jobs(1150);
    assert_eq!(m.processing[0].stall_count, 0);
    assert_eq!(m.heartbeat(999, 1200).err(), Some("Job 999 not in processing".to_string()));
}

#[test]
fn stats_split_ready_and_delayed() {
    let mut m = QueueManager::new();
    pushed(&mut m, "x", input("{}"), 10);
    let mut later = input("{}");
    later.delay = Some(500);
    pushed(&mut m, "x", later, 10);
    pushed(&mut m, "x", input("{}"), 10);
    pull_jobs(&mut m, "x", 1, 20);
    assert_eq!(m.stats(20), (1, 1, 1, 0, 0));
    assert_eq!(m.stats(600), (2, 1, 0, 0, 0));
}

#[test]
fn list_jobs_is_newest_first_and_paged() {
    let mut m = QueueManager::new();
    pushed(&mut m, "l", input("{}"), 10);
    pushed(&mut m, "l", input("{}"), 20);
    pushed(&mut m, "l", input("{}"), 30);
    pushed(&mut m, "other", input("{}"), 40);
    let rows = m.list_jobs(Some("l"), None, 10, 0, 30);
    let ids: Vec<u64> = rows.iter().map(|r| r.job.id).collect();
    assert_eq!(ids, vec![3, 2, 1]);
    assert!(rows.iter().all(|r| r.state == JobState::Waiting));
    let page = m.list_jobs(None, None, 2, 1, 40);
    let ids: Vec<u64> = page.iter().map(|r| r.job.id).collect();
    assert_eq!(ids, vec![3, 2]);
}

#[test]
fn list_jobs_filters_by_state() {
    let mut m = QueueManager::new();
    pushed(&mut m, "f", input("{}"), 10);
    let mut d = input("{}");
    d.delay = Some(1000);
    let delayed = pushed(&mut m, "f", d, 10);
    pushed(&mut m, "f", input("{}"), 10);
    pull_jobs(&mut m, "f", 1, 11);
    let only_delayed = m.list_jobs(None, Some(JobState::Delayed), 10, 0, 11);
    assert_eq!(only_delayed.len(), 1);
    assert_eq!(only_delayed[0].job.id, delayed.id);
    let active = m.list_jobs(None, Some(JobState::Active), 10, 0, 11);
    assert_eq!(active.len(), 1);
    assert_eq!(active[0].job.id, 1);
    let state = JobState::from_name("delayed");
    assert_eq!(state, Some(JobState::Delayed));
    assert_eq!(JobState::from_name("nope"), None);
}

#[test]
fn clearing_queues_dead_letters_and_completed_jobs() {
    let mut m = QueueManager::new();
    pushed(&mut m, "c", input("{}"), 1);
    let mut once = input("{}");
    once.max_attempts = Some(1);
    pushed(&mut m, "c", once, 1);
    pushed(&mut m, "c", input("{}"), 1);
    let got = pull_jobs(&mut m, "c", 2, 2);
    m.ack(got[0].id, Some("1".to_string()), 3).expect("ack");
    assert!(m.fail(got[1].id, None, 4).is_ok());
    assert_eq!(m.clear_all_queues(), 1);
    assert!(m.waiting.is_empty());
    assert_eq!(m.clear_all_dlq(), 1);
    assert!(m.dlq.is_empty());
    assert_eq!(m.clear_completed_jobs(), 1);
    assert!(m.completed.is_empty());
    assert_eq!(m.get_result(got[0].id), None);
}

#[test]
fn reset_forgets_jobs_but_keeps_the_id_sequence() {
    let mut m = QueueManager::new();
    pushed(&mut m, "r", input("{}"), 1);
    pushed(&mut m, "r", input("{}"), 1);
    m.pause("r");
    m.reset();
    assert!(m.waiting.is_empty());
    assert!(!m.is_paused("r"));
    assert_eq!(m.metrics.total_pushed, 0);
    assert_eq!(m.next_id, 3);
    let j = pushed(&mut m, "r", input("{}"), 2);
    assert_eq!(j.id, 3);
}

#[test]
fn reset_metrics_zeroes_the_counters() {
    let mut m = QueueManager::new();
    pushed(&mut m, "r", input("{}"), 1);
    m.reset_metrics();
    assert_eq!(m.metrics.total_pushed, 0);
    assert_eq!(m.waiting.len(), 1);
}

#[test]
fn auth_tokens_are_checked() {
    let open = QueueManager::new();
    assert!(open.verify_token("anything"));
    let mut m = QueueManager::with_auth_tokens(vec!["secret".to_string(), "other".to_string(), "secret".to_string()]);
    assert_eq!(m.auth_token_count(), 2);
    assert!(m.verify_token("secret"));
    assert!(m.verify_token("other"));
    assert!(!m.verify_token("secre"));
    assert!(!m.verify_token(""));
    m.set_auth_tokens(vec!["new".to_string()]);
    assert!(!m.verify_token("secret"));
    assert!(m.verify_token("new"));
}

#[test]
fn constant_time_comparison() {
    assert!(constant_time_eq(b"abc", b"abc"));
    assert!(!constant_time_eq(b"abc", b"abd"));
    assert!(!constant_time_eq(b"abc", b"ab"));
    assert!(constant_time_eq(b"", b""));
}

#[test]
fn token_list_is_split_and_trimmed() {
    assert_eq!(parse_auth_tokens(" a , b,,c "), vec!["a", "b", "c"]);
    assert!(parse_auth_tokens("").is_empty());
    assert!(parse_auth_tokens(" , ,").is_empty());
    assert_eq!(parse_auth_tokens("\ttok\n"), vec!["tok"]);
}

#[test]
fn settings_are_stored() {
    let mut m = QueueManager::new();
    m.set_queue_defaults(Some(30000), Some(5), None, Some(60000));
    let d = m.get_queue_defaults();
    assert_eq!(d.timeout, Some(30000));
    assert_eq!(d.max_attempts, Some(5));
    assert_eq!(d.backoff, None);
    assert_eq!(d.ttl, Some(60000));
    assert_eq!(m.get_cleanup_settings().max_completed_jobs, 5000);
    m.set_cleanup_settings(Some(100), None, Some(30), None);
    let c = m.get_cleanup_settings();
    assert_eq!((c.max_completed_jobs, c.max_job_results, c.cleanup_interval_secs, c.metrics_history_size), (100, 5000, 30, 1000));
}

#[test]
fn connections_are_counted() {
    let mut m = QueueManager::new();
    m.increment_connections();
    m.increment_connections();
    m.decrement_connections();
    assert_eq!(m.connection_count(), 1);
}

#[test]
fn workers_are_listed_while_active() {
    let mut m = QueueManager::new();
    m.worker_heartbeat("w1".to_string(), vec!["emails".to_string()], 4, 10, 1000);
    m.worker_heartbeat("w2".to_string(), vec![], 1, 0, 1000);
    m.worker_heartbeat("w1".to_string(), vec!["emails".to_string()], 4, 12, 20000);
    let all = m.list_workers(20000);
    let ids: Vec<String> = all.iter().map(|w| w.id.clone()).collect();
    assert_eq!(ids, vec!["w1", "w2"]);
    assert_eq!(all[0].jobs_processed, 12);
    let later = m.list_workers(40000);
    assert_eq!(later.len(), 1);
    assert_eq!(later[0].id, "w1");
}

#[test]
fn cleanup_trims_completed_jobs_to_half_the_limit() {
    let mut m = QueueManager::new();
    for _ in 0..3 {
        pushed(&mut m, "c", input("{}"), 1);
    }
    pull_jobs(&mut m, "c", 3, 2);
    for id in 1..=3 {
        m.ack(id, Some("r".to_string()), 3).expect("ack");
    }
    m.set_cleanup_settings(Some(2), Some(2), None, None);
    m.run_cleanup();
    assert_eq!(m.completed, vec![3]);
    assert_eq!(m.get_result(3), Some("r".to_string()));
    assert_eq!(m.get_result(1), None);
}

#[test]
fn retention_records_expire() {
    let mut m = QueueManager::new();
    let mut inp = input("{}");
    inp.keep_completed_age = Some(100);
    let j = pushed(&mut m, "k", inp, 1);
    pull_jobs(&mut m, "k", 1, 2);
    m.ack(j.id, None, 10).expect("ack");
    assert_eq!(m.completed_retention.len(), 1);
    m.cleanup_completed_retention(50);
    assert_eq!(m.completed_retention.len(), 1);
    m.cleanup_completed_retention(500);
    assert!(m.completed_retention.is_empty());
}

fn cron(name: &str, queue: &str, schedule: Option<&str>, repeat_every: Option<u64>, next_run: u64, limit: Option<u64>) -> flashq::job::CronJob {
    flashq::job::CronJob {
        name: name.to_string(),
        queue: queue.to_string(),
        data: "{\"cron\":true}".to_string(),
        schedule: schedule.map(|s| s.to_string()),
        repeat_every,
        priority: 7,
        next_run,
        executions: 0,
        limit,
    }
}

#[test]
fn cron_schedules_are_validated() {
    assert!(validate_cron("*/5").is_ok());
    assert!(validate_cron("0 * * * *").is_ok());
    assert!(validate_cron("*/30 * * * * *").is_err());
    assert!(validate_cron("0/30 * * * * *").is_ok());
    assert_eq!(validate_cron("*/abc").err(), Some("Invalid interval format: */abc".to_string()));
    let long = "*".repeat(300);
    assert_eq!(validate_cron(&long).err(), Some("Cron schedule too long (300 chars, max 256 chars)".to_string()));
    let bad = validate_cron("not a cron").err().expect("refused");
    assert!(bad.starts_with("Invalid cron expression 'not a cron': "));
    assert!(bad.len() > "Invalid cron expression 'not a cron': ".len());
}

#[test]
fn next_cron_run_follows_the_schedule() {
    assert_eq!(parse_next_cron_run("*/5", 1000), 6000);
    // every second: the next whole second after now
    assert_eq!(parse_next_cron_run("* * * * * *", 1_000_500), 1_001_000);
    // every minute, five fields
    assert_eq!(parse_next_cron_run("* * * * *", 1_000), 60_000);
    // an expression croner refuses falls back to one minute later
    assert_eq!(parse_next_cron_run("not a cron", 5_000), 65_000);
}

#[test]
fn nats_next_run_of_a_cron_job() {
    assert_eq!(calculate_next_run(&cron("a", "q", None, Some(2500), 0, None), 1000), 3500);
    assert_eq!(calculate_next_run(&cron("b", "q", Some("* * * * *"), None, 0, None), 0), 60_000);
    assert_eq!(calculate_next_run(&cron("c", "q", None, None, 0, None), 1000), 61_000);
}

#[test]
fn due_cron_jobs_push_and_advance() {
    let mut m = QueueManager::new();
    m.cron_jobs.push(cron("every-sec", "cronq", None, Some(1000), 500, None));
    m.cron_jobs.push(cron("later", "cronq", None, Some(1000), 5000, None));
    m.cron_jobs.push(cron("spent", "cronq", None, Some(1000), 0, Some(0)));
    let n = m.run_cron_jobs(1000);
    assert_eq!(n, 1);
    assert_eq!(m.waiting.len(), 1);
    assert_eq!(m.waiting[0].data, "{\"cron\":true}");
    assert_eq!(m.waiting[0].priority, 7);
    assert_eq!(m.cron_jobs.len(), 2);
    assert_eq!(m.cron_jobs[0].next_run, 2000);
    assert_eq!(m.cron_jobs[0].executions, 1);
    assert_eq!(m.cron_jobs[1].next_run, 5000);
    let fires = m.advance_crons(2000);
    assert_eq!(fires, vec![("cronq".to_string(), "{\"cron\":true}".to_string(), 7)]);
}

fn stored_job(id: u64, queue: &str) -> Job {
    let m = QueueManager::new();
    let mut j = m.create_job_from_input(id, queue.to_string(), input("{}"), 100);
    j.max_attempts = 3;
    j
}

#[test]
fn stored_jobs_are_sorted_for_recovery() {
    let ready = stored_job(4, "q");
    let mut delayed = stored_job(9, "q");
    delayed.run_at = 10_000;
    let mut running = stored_job(2, "q");
    running.started_at = 50;
    let mut dead = stored_job(7, "q");
    dead.attempts = 3;
    let mut deps = stored_job(5, "q");
    deps.depends_on = vec![4];
    let all = vec![ready.duplicate(), delayed.duplicate(), running.duplicate(), dead.duplicate(), deps.duplicate()];
    assert_eq!(get_max_job_id(&all), 9);
    assert_eq!(get_max_job_id(&vec![]), 0);
    let pending = load_pending_jobs(all.iter().map(|j| j.duplicate()).collect(), 1000);
    let states: Vec<(u64, String)> = pending.iter().map(|(j, s)| (j.id, s.clone())).collect();
    assert_eq!(
        states,
        vec![(4, "waiting".to_string()), (9, "delayed".to_string()), (2, "waiting".to_string()), (5, "waiting_deps".to_string())]
    );
    let dlq = load_dlq_jobs(all);
    assert_eq!(dlq.len(), 1);
    assert_eq!(dlq[0].id, 7);
    assert_eq!(placement_of("active", false), Placement::Queue);
    assert_eq!(placement_of("waiting_children", false), Placement::Deps);
    assert_eq!(placement_of("waiting_deps", true), Placement::Deps);
    assert_eq!(placement_of("waiting_deps", false), Placement::Dropped);
    assert_eq!(placement_of("completed", true), Placement::Dropped);
}

#[test]
fn restore_rebuilds_the_queues() {
    let mut m = QueueManager::new();
    let mut custom = stored_job(3, "q");
    custom.custom_id = Some("c-3".to_string());
    let pending = vec![
        (custom, "waiting".to_string()),
        (stored_job(5, "q"), "waiting_children".to_string()),
        (stored_job(6, "q"), "completed".to_string()),
    ];
    let mut dead = stored_job(8, "q");
    dead.attempts = 3;
    let dead = vec![dead];
    assert!(can_restore(&pending, &dead, true, 9, 1000));
    assert!(!can_restore(&pending, &dead, true, 8, 1000));
    let crons = vec![cron("nightly", "q", Some("0 0 * * *"), None, 0, None)];
    let placed = m.restore(8, pending, dead, crons, true, 1000);
    assert_eq!(placed, 2);
    assert_eq!(m.waiting.len(), 1);
    assert_eq!(m.waiting[0].id, 3);
    assert_eq!(m.waiting_deps.len(), 1);
    assert_eq!(m.dlq.len(), 1);
    assert_eq!(m.cron_jobs.len(), 1);
    assert_eq!(m.next_id, 9);
    assert_eq!(m.custom_ids.get("c-3"), Some(3));
    let next = pushed(&mut m, "q", input("{}"), 1001);
    assert_eq!(next.id, 9);
}

#[test]
fn accepted_nats_job_moves_the_id_sequence() {
    let mut m = QueueManager::new();
    let j = stored_job(40, "n");
    let got = m.accept_pulled(j, 500);
    assert_eq!(got.started_at, 500);
    assert_eq!(got.last_heartbeat, 500);
    assert_eq!(m.processing.len(), 1);
    assert_eq!(m.next_id, 41);
    m.ack(40, None, 600).expect("ack");
}

#[test]
fn job_rank_is_a_strict_total_order() {
    let a = stored_job(1, "q");
    let mut b = stored_job(2, "q");
    let mut c = stored_job(3, "q");
    c.priority = 5;
    // total and irreflexive
    assert!(job_outranks(&a, &b) != job_outranks(&b, &a));
    assert!(!job_outranks(&a, &a));
    assert_eq!(compare_jobs(&a, &a), Ordering::Equal);
    assert_eq!(compare_jobs(&a, &b), Ordering::Greater);
    assert_eq!(compare_jobs(&b, &a), Ordering::Less);
    // transitive: c over a over b
    assert!(job_outranks(&c, &a) && job_outranks(&a, &b) && job_outranks(&c, &b));
    // a LIFO job puts the higher ID first
    b.lifo = true;
    assert!(job_outranks(&b, &a));
    // an earlier run time goes first at equal priority
    let mut d = stored_job(9, "q");
    d.run_at = 50;
    assert!(job_outranks(&d, &a));
}

#[test]
fn priority_buckets_are_monotone() {
    let rank = |b: PriorityBucket| match b {
        PriorityBucket::Low => 0,
        PriorityBucket::Normal => 1,
        PriorityBucket::High => 2,
    };
    let ps = [-100, -1, 0, 1, 9, 10, 11, 1000];
    for &p1 in ps.iter() {
        for &p2 in ps.iter() {
            if p1 <= p2 {
                assert!(rank(PriorityBucket::from_priority(p1)) <= rank(PriorityBucket::from_priority(p2)));
            }
        }
    }
}

#[test]
fn sanitized_names_stay_sanitized() {
    for name in ["my queue!", "a.b-c_d", "émails", "", "plain"] {
        let once = sanitize_name(name);
        assert_eq!(sanitize_name(&once), once);
    }
    assert_eq!(sanitize_name("a.b c"), "a_b_c");
    assert_eq!(sanitize_name("ok-name_1"), "ok-name_1");
}

#[test]
fn nats_fail_decision_and_retry_delay() {
    let mut j = stored_job(1, "q");
    j.max_attempts = 2;
    j.backoff = 500;
    match fail_decision(&j) {
        FailResult::Retrying { delay_ms } => assert_eq!(delay_ms, 1000),
        FailResult::MovedToDlq => panic!("expected a retry"),
    }
    j.attempts = 1;
    assert!(matches!(fail_decision(&j), FailResult::MovedToDlq));
    assert_eq!(retry_delay_ms(0, 3), 1000);
    assert_eq!(retry_delay_ms(100, 3), 800);
    assert_eq!(retry_delay_ms(1, 50), 1024);
}

#[test]
fn dead_and_retried_jobs_for_nats() {
    let mut j = stored_job(1, "q");
    j.max_attempts = 0;
    let d = dlq_marked(&j, Some("boom"));
    assert_eq!(d.progress_msg, Some("DLQ: boom".to_string()));
    assert_eq!((d.max_attempts, d.attempts), (1, 1));
    j.started_at = 77;
    let r = retried_job(&j, 9000);
    assert_eq!((r.run_at, r.attempts, r.started_at), (9000, 1, 0));
}

#[test]
fn delayed_messages_are_promoted_or_handed_back() {
    assert!(matches!(delayed_action(None, 10), DelayedAction::Discard));
    assert!(matches!(delayed_action(Some(10), 10), DelayedAction::Promote));
    assert!(matches!(delayed_action(Some(1010), 10), DelayedAction::Later { delay_ms: 1000 }));
    assert!(matches!(delayed_action(Some(100_000), 10), DelayedAction::Later { delay_ms: 5000 }));
}

#[test]
fn leader_election_rounds() {
    let me = "node-a".to_string();
    match leadership_step(&me, None, 100) {
        LeaderStep::Create(c) => {
            assert_eq!(c.node_id, "node-a");
            assert_eq!((c.timestamp, c.expires_at), (100, 10_100));
        },
        _ => panic!("expected a claim"),
    }
    let other = LeaderClaim { node_id: "node-b".to_string(), timestamp: 0, expires_at: 5000 };
    assert!(matches!(leadership_step(&me, Some(&other), 1000), LeaderStep::Follow));
    assert!(matches!(leadership_step(&me, Some(&other), 6000), LeaderStep::Renew(_)));
    assert_eq!(current_leader(Some(&other), 1000), Some("node-b".to_string()));
    assert_eq!(current_leader(Some(&other), 5000), None);
    assert_eq!(current_leader(None, 0), None);
}

#[test]
fn job_ids_and_node_names_from_uuids() {
    let bytes: Vec<u8> = vec![0, 0, 0, 0, 0, 0, 1, 2, 9, 9, 9, 9, 9, 9, 9, 9];
    assert_eq!(job_id_from_uuid(&bytes), 258);
    assert_eq!(node_name_from_uuid("0190a1b2-c3d4-7e5f-8a9b-0c1d2e3f4a5b"), "node-0190a1b2");
    let cfg = flashq::nats_config::NatsConfig::default();
    let id = cfg.node_id();
    assert_eq!(id.len(), 13);
    assert!(id.starts_with("node-"));
    assert_ne!(id, "node-00000000");
}

#[test]
fn nats_subjects_follow_the_job() {
    let cfg = NatsConfig::default();
    let mut j = stored_job(1, "emails");
    j.priority = 50;
    j.run_at = 100;
    assert_eq!(target_subject(&cfg, &j, 100), "flashq.emails.priority.high");
    assert_eq!(target_subject(&cfg, &j, 99), "flashq.emails.delayed");
    assert_eq!(leader_key(&cfg), "flashq_leader");
}

#[test]
fn tls_flag_is_read_case_insensitively() {
    let env = |tls: Option<&str>| NatsEnv {
        url: None,
        stream_replicas: Some("3".to_string()),
        kv_replicas: Some("many".to_string()),
        prefix: None,
        node_id: None,
        tls: tls.map(|s| s.to_string()),
        tls_cert: None,
        tls_key: None,
        username: None,
        password: None,
        credentials: None,
    };
    assert!(NatsConfig::from_env_values(env(Some("TRUE"))).tls);
    assert!(NatsConfig::from_env_values(env(Some("1"))).tls);
    assert!(!NatsConfig::from_env_values(env(Some("yes"))).tls);
    let c = NatsConfig::from_env_values(env(None));
    assert!(!c.tls);
    assert_eq!(c.stream_replicas, 3);
    assert_eq!(c.kv_replicas, 1);
    assert_eq!(c.url, "nats://localhost:4222");
}

#[test]
fn s3_settings_need_every_credential() {
    let mut r = SaveS3SettingsRequest {
        enabled: true,
        endpoint: Some("https://s3".to_string()),
        bucket: Some("b".to_string()),
        region: None,
        access_key: Some("".to_string()),
        secret_key: Some("s".to_string()),
        interval_secs: None,
        keep_count: None,
        prefix: None,
        compress: None,
    };
    assert_eq!(r.validate_required().err(), Some("S3 access key is required"));
    r.access_key = Some("k".to_string());
    let ok = r.validate_required().expect("complete");
    assert_eq!(ok, ("https://s3".to_string(), "b".to_string(), "k".to_string(), "s".to_string()));
    r.endpoint = None;
    assert_eq!(r.validate_required().err(), Some("S3 endpoint is required"));
}

#[test]
fn decimal_text_and_numbers() {
    assert_eq!(u64_to_decimal(0), "0");
    assert_eq!(u64_to_decimal(18446744073709551615), "18446744073709551615");
    assert_eq!(parse_unsigned("42", 100), Some(42));
    assert_eq!(parse_unsigned("420", 100), None);
    assert_eq!(parse_unsigned("", 100), None);
    assert_eq!(parse_unsigned("4a", 100), None);
}

#[test]
fn generated_job_ids_carry_the_uuid_version() {
    for _ in 0..20 {
        let id = flashq::nats_rules::generate_job_id();
        assert_eq!((id >> 12) & 0xF, 7);
    }
}

#[test]
fn rate_limit_spends_a_token_per_pull_and_refills() {
    let mut m = QueueManager::new();
    for _ in 0..3 {
        pushed(&mut m, "rl-step", input("{}"), 1);
    }
    m.set_rate_limit("rl-step", 1);
    let q = "rl-step".to_string();
    match m.pull_step(&q, 2) {
        PullStep::Job(j) => assert_eq!(j.id, 1),
        _ => panic!("expected a job"),
    }
    assert!(matches!(m.pull_step(&q, 3), PullStep::RateLimited));
    assert!(matches!(m.pull_step(&q, 503), PullStep::RateLimited));
    match m.pull_step(&q, 1003) {
        PullStep::Job(j) => assert_eq!(j.id, 2),
        _ => panic!("expected a job"),
    }
    assert_eq!(m.processing.len(), 2);
    assert_eq!(m.waiting.len(), 1);
}

#[test]
fn rate_limit_caps_a_batch_pull() {
    let mut m = QueueManager::new();
    for _ in 0..5 {
        pushed(&mut m, "rl-batch", input("{}"), 1);
    }
    m.set_rate_limit("rl-batch", 2);
    let q = "rl-batch".to_string();
    assert_eq!(pull_jobs(&mut m, "rl-batch", 5, 10).len(), 2);
    assert!(matches!(m.pull_batch(&q, 5, 11), PullBatch::RateLimited));
    // A full second refills the bucket to its capacity of two jobs.
    assert_eq!(pull_jobs(&mut m, "rl-batch", 5, 5000).len(), 2);
    m.clear_rate_limit("rl-batch");
    assert_eq!(pull_jobs(&mut m, "rl-batch", 5, 5001).len(), 1);
}

#[test]
fn rate_limit_holds_back_a_cluster_pull() {
    let mut m = QueueManager::new();
    let q = "rl-dist".to_string();
    m.set_rate_limit("rl-dist", 1);
    assert!(matches!(m.distributed_pull_check(&q, true, 1), DistributedCheck::TryNats));
    assert!(matches!(m.distributed_pull_check(&q, true, 2), DistributedCheck::RateLimited));
    assert!(matches!(m.distributed_pull_check(&q, true, 1002), DistributedCheck::TryNats));
}

#[test]
fn a_zero_rate_limit_refuses_every_pull() {
    let mut m = QueueManager::new();
    pushed(&mut m, "rl-zero", input("{}"), 1);
    m.set_rate_limit("rl-zero", 0);
    let q = "rl-zero".to_string();
    assert!(matches!(m.pull_step(&q, 2), PullStep::RateLimited));
    assert!(matches!(m.pull_step(&q, 100000), PullStep::RateLimited));
}

#[test]
fn push_takes_any_backoff_and_fail_checks_the_retry_clock() {
    let mut m = QueueManager::new();
    let mut inp = input("{}");
    inp.backoff = Some(1u64 << 60);
    let j = pushed(&mut m, "big-backoff", inp, 1);
    assert_eq!(j.backoff, 1u64 << 60);
    let mut k = j.duplicate();
    k.attempts = 0;
    k.max_attempts = 0;
    assert!(k.retry_on_clock(1));
    k.attempts = 5;
    assert!(!k.retry_on_clock(1));
    k.max_attempts = 6;
    assert!(k.retry_on_clock(1));
    k.backoff = 0;
    k.max_attempts = 0;
    assert!(k.retry_on_clock(u64::MAX));
}

#[test]
fn delayed_messages_are_acked_handed_back_or_dropped() {
    assert!(matches!(delayed_reply(&delayed_action(Some(100), 100), true), MessageReply::Ack));
    assert!(matches!(delayed_reply(&delayed_action(Some(100), 100), false), MessageReply::Nak(None)));
    assert!(matches!(delayed_reply(&delayed_action(Some(3000), 1000), false), MessageReply::Nak(Some(2000))));
    assert!(matches!(delayed_reply(&delayed_action(Some(100000), 1000), true), MessageReply::Nak(Some(5000))));
    assert!(matches!(delayed_reply(&delayed_action(None, 1000), true), MessageReply::Term));
}

#[test]
fn nats_fail_plan_retries_or_ends_the_job() {
    let mut j = stored_job(1, "q");
    j.max_attempts = 2;
    j.backoff = 500;
    let p = nats_fail_plan(&j, 10_000);
    assert!(!p.to_dlq);
    assert_eq!(p.retry_at, Some(11_000));
    assert!(matches!(p.reply, MessageReply::Ack));
    assert!(matches!(p.result, FailResult::Retrying { delay_ms: 1000 }));
    j.attempts = 1;
    let p = nats_fail_plan(&j, 10_000);
    assert!(p.to_dlq);
    assert_eq!(p.retry_at, None);
    assert!(matches!(p.reply, MessageReply::Term));
    assert!(matches!(p.result, FailResult::MovedToDlq));
    j.remove_on_fail = true;
    let p = nats_fail_plan(&j, 10_000);
    assert!(!p.to_dlq);
    assert!(matches!(p.reply, MessageReply::Term));
}

#[test]
fn restore_checked_refuses_clashing_ids_and_runs_otherwise() {
    let mut m = QueueManager::new();
    let pending = vec![(stored_job(3, "q"), "waiting".to_string()), (stored_job(3, "q"), "waiting".to_string())];
    assert_eq!(m.restore_checked(5, pending, vec![], vec![], false, 1000), None);
    assert!(m.waiting.is_empty());
    assert_eq!(m.next_id, 1);
    let pending = vec![(stored_job(3, "q"), "waiting".to_string()), (stored_job(4, "q"), "delayed".to_string())];
    assert_eq!(m.restore_checked(5, pending, vec![stored_job(5, "q")], vec![], false, 1000), Some(2));
    assert_eq!(m.waiting.len(), 2);
    assert_eq!(m.dlq.len(), 1);
    assert_eq!(m.next_id, 6);
    let again = vec![(stored_job(7, "q"), "waiting".to_string())];
    assert_eq!(m.restore_checked(8, again, vec![], vec![], false, 1000), None);
}

#[test]
fn auth_tokens_drop_unicode_whitespace_around_each_token() {
    let toks = parse_auth_tokens("\u{3000}alpha ,\tbeta\u{85}, \u{2003} ,g a m\u{a0}");
    assert_eq!(toks, vec!["alpha".to_string(), "beta".to_string(), "g a m".to_string()]);
    for t in &toks {
        assert_eq!(t.as_str(), t.trim());
    }
}

#[test]
fn metrics_history_keeps_the_latest_samples_and_resets() {
    let mut m = QueueManager::new();
    pushed(&mut m, "hist", input("{}"), 1);
    m.collect_metrics_history(1000);
    m.collect_metrics_history(2000);
    let h = m.get_metrics_history();
    assert_eq!(h.len(), 2);
    assert_eq!(h[0].timestamp, 1000);
    assert_eq!(h[0].queued, 1);
    assert!(h[0].rate_window.is_none() && h[1].rate_window.is_none());
    m.metrics.total_completed = 4;
    m.collect_metrics_history(4000);
    assert_eq!(m.get_metrics_history()[2].rate_window, Some((2000, 4)));
    for t in 0..70u64 {
        m.collect_metrics_history(5000 + t);
    }
    let h = m.get_metrics_history();
    assert_eq!(h.len(), 60);
    assert_eq!(h[59].timestamp, 5069);
    assert_eq!(h[0].timestamp, 5010);
    m.reset_metrics();
    assert!(m.get_metrics_history().is_empty());
    assert_eq!(m.waiting.len(), 1);
}

#[test]
fn pull_batch_nowait_does_not_ask_the_rate_limiter() {
    let mut m = QueueManager::new();
    for _ in 0..3 {
        pushed(&mut m, "rl-nowait", input("{}"), 1);
    }
    m.set_rate_limit("rl-nowait", 1);
    let q = "rl-nowait".to_string();
    assert_eq!(m.pull_batch_nowait(&q, 5, 2).len(), 3);
}

#[test]
fn clear_all_queues_drops_waiting_and_processing_jobs() {
    let mut m = QueueManager::new();
    m.set_concurrency("cq", 5);
    let mut grouped = input("{}");
    grouped.group_id = Some("g".to_string());
    pushed(&mut m, "cq", grouped, 1);
    pushed(&mut m, "cq", input("{}"), 1);
    pushed(&mut m, "cq", input("{}"), 1);
    let mut later = input("{}");
    later.delay = Some(10_000);
    pushed(&mut m, "cq", later, 1);
    let got = pull_jobs(&mut m, "cq", 2, 2);
    assert_eq!(got.len(), 2);
    assert_eq!(m.clear_all_queues(), 4);
    assert!(m.waiting.is_empty());
    assert!(m.processing.is_empty());
    assert!(m.active_groups.is_empty());
    // The slots of the dropped processing jobs are free again.
    for _ in 0..5 {
        pushed(&mut m, "cq", input("{}"), 3);
    }
    assert_eq!(pull_jobs(&mut m, "cq", 10, 4).len(), 5);
}

#[test]
fn a_batch_pull_takes_the_best_ranked_ready_jobs() {
    let mut m = QueueManager::new();
    for p in [1, 5, 3, 9, 5] {
        let mut i = input("{}");
        i.priority = p;
        pushed(&mut m, "rank", i, 1);
    }
    let got = pull_jobs(&mut m, "rank", 3, 2);
    let prios: Vec<i32> = got.iter().map(|j| j.priority).collect();
    assert_eq!(prios, vec![9, 5, 5]);
    assert_eq!(got[1].id, 2);
    assert_eq!(got[2].id, 5);
    for j in &m.waiting {
        assert!(j.priority <= 5);
    }
}
