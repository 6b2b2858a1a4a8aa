//! flashq: the verified core of a job queue server.
//!
//! The library holds the queue's own logic: job ordering and retry rules,
//! the in-memory queue state machine (push, pull, ack, fail, timeouts,
//! dependencies, stall detection), the NATS naming and routing rules, cron
//! and leader-election decisions, and the request and response types of the
//! HTTP API.
use vstd::prelude::*;

pub mod text;
pub mod job;
pub mod nats_config;
pub mod jobs_seq;
pub mod order;
pub mod select;
pub mod select_laws;
pub mod tables;
pub mod manager;
pub mod ack;
pub mod pull;
pub mod push;
pub mod maintenance;
pub mod admin;
pub mod browse;
pub mod cron;
pub mod nats_rules;
pub mod api;
pub mod cleanup;
pub mod recovery;
pub mod queue_control;
pub mod job_ops;
pub mod queue_ops;
pub mod nats_state;
pub mod rate;
pub mod history;

verus! {

} // verus!
