//! The state and error types of the NATS backend.
use vstd::prelude::*;

verus! {

/// The state of the connection to NATS.
#[derive(Debug, Clone, Copy, PartialEq, Eq, Structural)]
pub enum ConnectionState {
    Disconnected,
    Connecting,
    Connected,
    Reconnecting,
}

/// What can go wrong talking to NATS.
#[derive(Debug, Clone)]
pub enum NatsError {
    /// Failed to connect to the NATS server.
    ConnectionFailed(String),
    /// Not connected to NATS.
    NotConnected,
    /// A JetStream operation failed.
    JetStreamError(String),
    /// A key-value operation failed.
    KvError(String),
    /// No stream of that name.
    StreamNotFound(String),
    /// No consumer of that name.
    ConsumerNotFound(String),
    /// Publishing a message failed.
    PublishFailed(String),
    /// Fetching messages failed.
    FetchFailed(String),
    /// Encoding or decoding failed.
    SerializationError(String),
    /// The configuration is invalid.
    ConfigError(String),
    /// An operation timed out.
    Timeout,
    /// Leader election failed.
    LeaderElectionFailed(String),
}

/// The text of an error: a fixed lead followed by its detail.
pub open spec fn nats_error_text(e: NatsError) -> Seq<char> {
    match e {
        NatsError::ConnectionFailed(m) => "NATS connection failed: "@ + m@,
        NatsError::NotConnected => "Not connected to NATS"@,
        NatsError::JetStreamError(m) => "JetStream error: "@ + m@,
        NatsError::KvError(m) => "KV error: "@ + m@,
        NatsError::StreamNotFound(m) => "Stream not found: "@ + m@,
        NatsError::ConsumerNotFound(m) => "Consumer not found: "@ + m@,
        NatsError::PublishFailed(m) => "Publish failed: "@ + m@,
        NatsError::FetchFailed(m) => "Fetch failed: "@ + m@,
        NatsError::SerializationError(m) => "Serialization error: "@ + m@,
        NatsError::ConfigError(m) => "Configuration error: "@ + m@,
        NatsError::Timeout => "NATS operation timeout"@,
        NatsError::LeaderElectionFailed(m) => "Leader election failed: "@ + m@,
    }
}

fn lead_and(lead: &str, detail: &String) -> (r: String)
    ensures
        r@ == lead@ + detail@,
{
    let mut s = String::from_str(lead);
    s.append(detail.as_str());
    s
}

impl NatsError {
    /// The error as text (see [`nats_error_text`]).
    pub fn message(&self) -> (r: String)
        ensures
            r@ == nats_error_text(*self),
    {
        match self {
            NatsError::ConnectionFailed(m) => lead_and("NATS connection failed: ", m),
            NatsError::NotConnected => String::from_str("Not connected to NATS"),
            NatsError::JetStreamError(m) => lead_and("JetStream error: ", m),
            NatsError::KvError(m) => lead_and("KV error: ", m),
            NatsError::StreamNotFound(m) => lead_and("Stream not found: ", m),
            NatsError::ConsumerNotFound(m) => lead_and("Consumer not found: ", m),
            NatsError::PublishFailed(m) => lead_and("Publish failed: ", m),
            NatsError::FetchFailed(m) => lead_and("Fetch failed: ", m),
            NatsError::SerializationError(m) => lead_and("Serialization error: ", m),
            NatsError::ConfigError(m) => lead_and("Configuration error: ", m),
            NatsError::Timeout => String::from_str("NATS operation timeout"),
            NatsError::LeaderElectionFailed(m) => lead_and("Leader election failed: ", m),
        }
    }
}

/// The per-queue settings the NATS backend keeps.
#[derive(Debug, Clone)]
pub struct QueueState {
    pub paused: bool,
    pub rate_limit: Option<u32>,
    pub concurrency_limit: Option<u32>,
}

impl Default for QueueState {
    /// Not paused, no limits.
    fn default() -> (r: Self)
        ensures
            !r.paused && r.rate_limit is None && r.concurrency_limit is None,
    {
        QueueState { paused: false, rate_limit: None, concurrency_limit: None }
    }
}

} // verus!
