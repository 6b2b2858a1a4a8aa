use flashq::ack::FailOutcome;
use flashq::job::{Job, JobState};
use flashq::manager::QueueManager;
use flashq::nats_state::{ConnectionState, NatsError, QueueState};
use flashq::cron::{nats_cron_advanced, nats_cron_due, nats_cron_job};
use flashq::job::CronJob;
use flashq::pull::{BatchCheck, PullBatch};
use flashq::push::JobInput;

fn input(data: &str) -> JobInput {
    JobInput::new(data.to_string())
}

fn pushed(m: &mut QueueManager, queue: &str, inp: JobInput, now: u64) -> Job {
    match m.push(queue.to_string(), inp, now) {
        Ok(j) => j,
        Err(e) => panic!("push refused: {}", e),
    }
}

fn pull_jobs(m: &mut QueueManager, queue: &str, count: usize, now: u64) -> Vec<Job> {
    match m.pull_batch(&queue.to_string(), count, now) {
        PullBatch::Jobs(v) => v,
        PullBatch::Paused => panic!("queue unexpectedly paused"),
        PullBatch::RateLimited => panic!("queue unexpectedly rate limited"),
    }
}

#[test]
fn state_follows_the_job_through_its_life() {
    let mut m = QueueManager::new();
    let j = pushed(&mut m, "life", input("{}"), 10);
    assert_eq!(m.get_state(j.id, 10), JobState::Waiting);
    pull_jobs(&mut m, "life", 1, 11);
    assert_eq!(m.get_state(j.id, 11), JobState::Active);
    m.ack(j.id, None, 12).expect("ack");
    assert_eq!(m.get_state(j.id, 12), JobState::Completed);
    assert_eq!(m.get_state(999999, 12), JobState::Unknown);
}

#[test]
fn failed_and_delayed_states() {
    let mut m = QueueManager::new();
    let mut once = input("{}");
    once.max_attempts = Some(1);
    let a = pushed(&mut m, "grpc-fail-test", once, 1);
    pull_jobs(&mut m, "grpc-fail-test", 1, 2);
    assert!(matches!(m.fail(a.id, Some("test error".to_string()), 3), Ok(FailOutcome::MovedToDlq(_))));
    assert_eq!(m.get_state(a.id, 3), JobState::Failed);
    let mut later = input("{}");
    later.delay = Some(60000);
    let b = pushed(&mut m, "d", later, 4);
    assert_eq!(m.get_state(b.id, 4), JobState::Delayed);
    assert_eq!(m.get_state(b.id, 60004), JobState::Waiting);
    let mut child = input("{}");
    child.depends_on = Some(vec![12345]);
    let c = pushed(&mut m, "d", child, 5);
    assert_eq!(m.get_state(c.id, 5), JobState::WaitingChildren);
}

#[test]
fn get_job_gives_the_job_and_its_state() {
    let mut m = QueueManager::new();
    let j = pushed(&mut m, "detail-test", input("{\"original\":true}"), 1);
    let (job, state) = m.get_job(j.id, 1);
    assert_eq!(state, JobState::Waiting);
    let job = job.expect("found");
    assert_eq!(job.id, j.id);
    assert_eq!(job.data, "{\"original\":true}");
    let (none, unknown) = m.get_job(999999999, 1);
    assert!(none.is_none());
    assert_eq!(unknown, JobState::Unknown);
    pull_jobs(&mut m, "detail-test", 1, 2);
    m.ack(j.id, Some("7".to_string()), 3).expect("ack");
    let (done, state) = m.get_job(j.id, 3);
    assert_eq!(state, JobState::Completed);
    assert_eq!(done.expect("kept as completed").id, j.id);
}

#[test]
fn cancel_removes_a_waiting_job() {
    let mut m = QueueManager::new();
    let mut inp = input("{}");
    inp.unique_key = Some("k".to_string());
    let j = pushed(&mut m, "cancel-test", inp, 1);
    assert_eq!(m.cancel(j.id), Ok(()));
    let (job, state) = m.get_job(j.id, 2);
    assert!(job.is_none());
    assert_eq!(state, JobState::Unknown);
    // the unique key is free again
    let mut again = input("{}");
    again.unique_key = Some("k".to_string());
    assert!(m.push("cancel-test".to_string(), again, 3).is_ok());
}

#[test]
fn cancel_of_a_dependency_waiting_job() {
    let mut m = QueueManager::new();
    let mut inp = input("{}");
    inp.depends_on = Some(vec![777]);
    let j = pushed(&mut m, "c", inp, 1);
    assert_eq!(m.cancel(j.id), Ok(()));
    assert!(m.waiting_deps.is_empty());
}

#[test]
fn cancel_of_a_completed_or_active_job_fails() {
    let mut m = QueueManager::new();
    let j = pushed(&mut m, "cancel-completed-test", input("{}"), 1);
    pull_jobs(&mut m, "cancel-completed-test", 1, 2);
    assert_eq!(m.cancel(j.id), Err(format!("Job {} not found", j.id)));
    assert_eq!(m.processing.len(), 1);
    m.ack(j.id, None, 3).expect("ack");
    assert!(m.cancel(j.id).is_err());
}

#[test]
fn progress_is_reported_and_read_back() {
    let mut m = QueueManager::new();
    let mut inp = input("{}");
    inp.stall_timeout = Some(100);
    let j = pushed(&mut m, "progress-test", inp, 1000);
    assert_eq!(m.get_progress(j.id), Ok((0, None)));
    assert!(m.update_progress(j.id, 50, Some("halfway".to_string()), 1001).is_err());
    pull_jobs(&mut m, "progress-test", 1, 1000);
    m.update_progress(j.id, 50, Some("halfway".to_string()), 1090).expect("progress");
    assert_eq!(m.get_progress(j.id), Ok((50, Some("halfway".to_string()))));
    assert_eq!(m.processing[0].last_heartbeat, 1090);
    m.check_stalled_jobs(1150);
    assert_eq!(m.processing[0].stall_count, 0);
    m.update_progress(j.id, 250, None, 1100).expect("progress");
    assert_eq!(m.get_progress(j.id), Ok((100, None)));
    assert_eq!(m.get_progress(424242), Err("Job 424242 not found".to_string()));
}

#[test]
fn priority_change_reorders_the_queue() {
    let mut m = QueueManager::new();
    let a = pushed(&mut m, "priority-test", input("{}").with_priority(1), 1);
    let b = pushed(&mut m, "priority-test", input("{}").with_priority(5), 1);
    m.change_priority(a.id, 100).expect("waiting job");
    let got = pull_jobs(&mut m, "priority-test", 1, 2);
    assert_eq!(got[0].id, a.id);
    assert_eq!(got[0].priority, 100);
    assert!(m.change_priority(a.id, 1).is_err());
    assert!(m.change_priority(b.id, 1).is_ok());
}

#[test]
fn promote_makes_a_delayed_job_runnable() {
    let mut m = QueueManager::new();
    let mut inp = input("{}");
    inp.delay = Some(60000);
    let j = pushed(&mut m, "promote-test", inp, 1000);
    assert_eq!(m.get_state(j.id, 1500), JobState::Delayed);
    m.promote(j.id, 1500).expect("delayed job");
    assert_eq!(m.get_state(j.id, 1500), JobState::Waiting);
    assert_eq!(m.promote(j.id, 1600), Err(format!("Job {} is not delayed", j.id)));
    assert_eq!(m.promote(4040, 1600), Err("Job 4040 not found".to_string()));
    assert_eq!(pull_jobs(&mut m, "promote-test", 1, 1600).len(), 1);
}

#[test]
fn move_to_delayed_reschedules_without_an_attempt() {
    let mut m = QueueManager::new();
    let j = pushed(&mut m, "delay-test", input("{}"), 1);
    m.set_concurrency("delay-test", 1);
    pull_jobs(&mut m, "delay-test", 1, 10);
    m.move_to_delayed(j.id, 5000, 20).expect("processing job");
    assert_eq!(m.get_state(j.id, 20), JobState::Delayed);
    let w = &m.waiting[0];
    assert_eq!((w.run_at, w.started_at, w.attempts), (5020, 0, 0));
    // the concurrency slot was given back
    assert!(pull_jobs(&mut m, "delay-test", 1, 4000).is_empty());
    assert_eq!(pull_jobs(&mut m, "delay-test", 1, 5020).len(), 1);
    assert!(m.move_to_delayed(999, 10, 5021).is_err());
}

#[test]
fn discard_moves_any_live_job_to_the_dead_letter_queue() {
    let mut m = QueueManager::new();
    let a = pushed(&mut m, "discard-test", input("{}"), 1);
    let b = pushed(&mut m, "discard-test", input("{}"), 1);
    m.discard(a.id).expect("waiting job");
    pull_jobs(&mut m, "discard-test", 1, 2);
    m.discard(b.id).expect("processing job");
    let dlq = m.get_dlq("discard-test", None);
    let ids: Vec<u64> = dlq.iter().map(|j| j.id).collect();
    assert_eq!(ids, vec![a.id, b.id]);
    assert!(m.processing.is_empty());
    assert_eq!(m.discard(a.id), Err(format!("Job {} not found", a.id)));
}

#[test]
fn dead_letter_jobs_can_be_listed_retried_and_purged() {
    let mut m = QueueManager::new();
    for _ in 0..3 {
        let mut once = input("{}");
        once.max_attempts = Some(1);
        pushed(&mut m, "retry-dlq-test", once, 1);
    }
    let mut other = input("{}");
    other.max_attempts = Some(1);
    pushed(&mut m, "elsewhere", other, 1);
    for j in pull_jobs(&mut m, "retry-dlq-test", 3, 2) {
        m.fail(j.id, Some("test".to_string()), 3).expect("fail");
    }
    let j = pull_jobs(&mut m, "elsewhere", 1, 3).remove(0);
    m.fail(j.id, None, 3).expect("fail");
    assert_eq!(m.get_dlq("retry-dlq-test", Some(2)).len(), 2);
    assert_eq!(m.get_dlq("retry-dlq-test", Some(10)).len(), 3);
    assert_eq!(m.get_dlq("retry-dlq-test", Some(0)).len(), 0);
    assert_eq!(m.retry_dlq("retry-dlq-test", Some(2), 10), 1);
    let back = m.waiting.iter().find(|j| j.id == 2).expect("requeued");
    assert_eq!((back.attempts, back.run_at, back.started_at, back.progress), (0, 10, 0, 0));
    assert_eq!(back.progress_msg, None);
    assert_eq!(m.retry_dlq("retry-dlq-test", None, 11), 2);
    assert_eq!(m.stats(11).0, 3);
    assert_eq!(m.purge_dlq("retry-dlq-test"), 0);
    assert_eq!(m.purge_dlq("elsewhere"), 1);
    assert!(m.dlq.is_empty());
}

#[test]
fn drain_removes_the_queued_jobs_of_one_queue() {
    let mut m = QueueManager::new();
    for i in 0..5 {
        pushed(&mut m, "drain-test", input(&format!("{{\"i\":{}}}", i)), 1);
    }
    pushed(&mut m, "keep", input("{}"), 1);
    assert_eq!(m.count("drain-test"), 5);
    assert_eq!(m.drain("drain-test"), 5);
    assert_eq!(m.count("drain-test"), 0);
    assert_eq!(m.count("keep"), 1);
}

#[test]
fn obliterate_removes_a_queue_entirely() {
    let mut m = QueueManager::new();
    for _ in 0..3 {
        pushed(&mut m, "obliterate-test", input("{}"), 1);
    }
    m.pause("obliterate-test");
    m.set_rate_limit("obliterate-test", 5);
    pushed(&mut m, "other", input("{}"), 1);
    let removed = m.obliterate("obliterate-test");
    assert!(removed >= 3);
    assert_eq!(removed, 3);
    assert!(!m.is_paused("obliterate-test"));
    assert_eq!(m.waiting.len(), 1);
    assert_eq!(m.waiting[0].queue, "other");
}

#[test]
fn job_counts_by_state() {
    let mut m = QueueManager::new();
    pushed(&mut m, "counts-test", input("{}"), 1);
    pushed(&mut m, "counts-test", input("{}"), 1);
    let mut later = input("{}");
    later.delay = Some(1000);
    pushed(&mut m, "counts-test", later, 1);
    let mut once = input("{}");
    once.max_attempts = Some(1);
    pushed(&mut m, "counts-test", once, 1);
    let got = pull_jobs(&mut m, "counts-test", 2, 2);
    m.ack(got[0].id, None, 3).expect("ack");
    let rows = m.list_jobs(Some("counts-test"), None, 100, 0, 3);
    assert_eq!(rows.len(), 4);
    assert_eq!(m.get_job_counts("counts-test", 3), (1, 1, 1, 1, 0));
    assert_eq!(m.get_job_counts("nothing", 3), (0, 0, 0, 0, 0));
}

#[test]
fn queue_list_shows_counts_and_settings() {
    let mut m = QueueManager::new();
    pushed(&mut m, "paused-state-test", input("{}"), 1);
    pushed(&mut m, "b", input("{}"), 1);
    m.pause("paused-state-test");
    m.set_concurrency("b", 3);
    let rows = m.list_queues();
    assert_eq!(rows.len(), 2);
    assert_eq!(rows[0].name, "paused-state-test");
    assert!(rows[0].paused);
    assert_eq!(rows[0].pending, 1);
    assert_eq!(rows[1].concurrency_limit, Some(3));
    m.resume("paused-state-test");
    assert!(!m.list_queues()[0].paused);
}

#[test]
fn clean_removes_old_jobs_of_one_state() {
    let mut m = QueueManager::new();
    pushed(&mut m, "clean-test", input("{}"), 100);
    pushed(&mut m, "clean-test", input("{}"), 200);
    pushed(&mut m, "clean-test", input("{}"), 900);
    let mut later = input("{}");
    later.delay = Some(100_000);
    pushed(&mut m, "clean-test", later, 100);
    // waiting jobs created more than 500 ms before 1000: the first two
    assert_eq!(m.clean("clean-test", 500, JobState::Waiting, Some(1), 1000), 1);
    assert_eq!(m.clean("clean-test", 500, JobState::Waiting, None, 1000), 1);
    assert_eq!(m.count("clean-test"), 2);
    assert_eq!(m.clean("clean-test", 500, JobState::Delayed, None, 1000), 1);
    assert_eq!(m.clean("clean-test", 500, JobState::Active, None, 1000), 0);
    assert_eq!(m.count("clean-test"), 1);
}

#[test]
fn clean_completed_and_failed() {
    let mut m = QueueManager::new();
    pushed(&mut m, "clean-test", input("{}"), 1);
    let mut once = input("{}");
    once.max_attempts = Some(1);
    pushed(&mut m, "clean-test", once, 1);
    let got = pull_jobs(&mut m, "clean-test", 2, 2);
    m.ack(got[0].id, None, 3).expect("ack");
    m.fail(got[1].id, None, 3).expect("fail");
    assert_eq!(m.clean("clean-test", 0, JobState::Completed, None, 3), 1);
    assert_eq!(m.get_job_counts("clean-test", 3).3, 0);
    assert_eq!(m.clean("clean-test", 0, JobState::Failed, None, 3), 1);
    assert!(m.dlq.is_empty());
}

#[test]
fn nats_error_texts() {
    assert_eq!(NatsError::KvError("boom".to_string()).message(), "KV error: boom");
    assert_eq!(NatsError::NotConnected.message(), "Not connected to NATS");
    assert_eq!(NatsError::Timeout.message(), "NATS operation timeout");
    assert_eq!(NatsError::StreamNotFound("s".to_string()).message(), "Stream not found: s");
    let st = QueueState::default();
    assert!(!st.paused && st.rate_limit.is_none() && st.concurrency_limit.is_none());
    assert_ne!(ConnectionState::Connected, ConnectionState::Disconnected);
}

#[test]
fn jobs_compare_by_id_and_order_by_rank() {
    let m = QueueManager::new();
    let a = m.create_job_from_input(1, "q".to_string(), input("{}").with_priority(1), 10);
    let mut a2 = m.create_job_from_input(1, "q".to_string(), input("{\"other\":1}"), 10);
    let b = m.create_job_from_input(2, "q".to_string(), input("{}").with_priority(9), 10);
    assert!(a == a2);
    assert!(a != b);
    assert!(b > a);
    assert!(a < b);
    a2.priority = 1;
    assert_eq!(a.partial_cmp(&a2), Some(std::cmp::Ordering::Equal));
}

#[test]
fn cluster_batch_pull_takes_and_gives_back_slots() {
    use_batch_check();
}

fn use_batch_check() {
    let mut m = QueueManager::new();
    let q = "dist".to_string();
    assert!(matches!(m.distributed_batch_check(&q, 5, false), BatchCheck::FallbackLocal));
    assert!(matches!(m.distributed_batch_check(&q, 5, true), BatchCheck::TryNats(5)));
    m.set_concurrency("dist", 3);
    assert!(matches!(m.distributed_batch_check(&q, 5, true), BatchCheck::TryNats(3)));
    assert!(matches!(m.distributed_batch_check(&q, 5, true), BatchCheck::NoSlots));
    m.give_back_slots(&q, 2);
    assert!(matches!(m.distributed_batch_check(&q, 5, true), BatchCheck::TryNats(2)));
    m.pause("dist");
    assert!(matches!(m.distributed_batch_check(&q, 5, true), BatchCheck::Paused));
}

#[test]
fn nats_cron_runs() {
    let cron = CronJob {
        name: "nightly".to_string(),
        queue: "reports".to_string(),
        data: "{}".to_string(),
        schedule: None,
        repeat_every: Some(1000),
        priority: 3,
        next_run: 500,
        executions: 1,
        limit: Some(2),
    };
    assert!(nats_cron_due(&cron, 500));
    assert!(!nats_cron_due(&cron, 499));
    let job = nats_cron_job(&cron, 77, 600);
    assert_eq!((job.id, job.priority, job.max_attempts, job.backoff, job.timeout), (77, 3, 3, 1000, 30000));
    assert_eq!(job.tags, vec!["cron".to_string(), "nightly".to_string()]);
    assert!(job.remove_on_complete);
    let next = nats_cron_advanced(&cron, 600);
    assert_eq!((next.executions, next.next_run), (2, 1600));
    assert!(!nats_cron_due(&next, 5000));
}
