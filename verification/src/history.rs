//! The metrics history behind the charts: a window of the latest samples
//! of the queue counters, one taken per collection.
use vstd::prelude::*;
use crate::manager::QueueManager;

verus! {

/// How many samples the history keeps.
pub const METRICS_HISTORY_LEN: usize = 60;

/// One sample of the counters. The charts' throughput is
/// `completed_delta / elapsed_ms` jobs per ms over `rate_window`, and their
/// mean latency `latency_sum / latency_count`; those quotients are taken by
/// whoever draws them.
#[derive(Clone, Copy, Debug)]
pub struct MetricsSample {
    pub timestamp: u64,
    /// Jobs waiting their turn, ready or delayed.
    pub queued: usize,
    pub processing: usize,
    pub completed: u64,
    pub failed: u64,
    /// The time since the previous sample and the jobs completed since,
    /// when the history held at least two samples and time went on.
    pub rate_window: Option<(u64, u64)>,
    pub latency_sum: u64,
    pub latency_count: u64,
}

/// The sample of `m` taken at `now`.
pub open spec fn sample_at(m: QueueManager, now: u64) -> MetricsSample {
    let h = m.metrics_history@;
    MetricsSample {
        timestamp: now,
        queued: m.waiting@.len() as usize,
        processing: m.processing@.len() as usize,
        completed: m.metrics.total_completed,
        failed: m.metrics.total_failed,
        rate_window: if h.len() >= 2 && now > h.last().timestamp {
            Some(((now - h.last().timestamp) as u64, m.metrics.total_completed.wrapping_sub(h.last().completed)))
        } else {
            None
        },
        latency_sum: m.metrics.latency_sum,
        latency_count: m.metrics.latency_count,
    }
}

/// The history `h` with sample `s` added, the oldest dropped once it holds
/// more than [`METRICS_HISTORY_LEN`].
pub open spec fn with_sample(h: Seq<MetricsSample>, s: MetricsSample) -> Seq<MetricsSample> {
    let h2 = h.push(s);
    if h2.len() > METRICS_HISTORY_LEN { h2.drop_first() } else { h2 }
}

impl QueueManager {
    /// The samples of the history, oldest first.
    pub fn get_metrics_history(&self) -> (r: Vec<MetricsSample>)
        ensures
            r@ == self.metrics_history@,
    {
        let mut r: Vec<MetricsSample> = Vec::new();
        let mut i: usize = 0;
        while i < self.metrics_history.len()
            invariant
                i <= self.metrics_history@.len(),
                r@ == self.metrics_history@.take(i as int),
            decreases self.metrics_history@.len() - i,
        {
            r.push(self.metrics_history[i]);
            i = i + 1;
            assert(r@ =~= self.metrics_history@.take(i as int));
        }
        assert(r@ =~= self.metrics_history@);
        r
    }

    /// Takes a sample at `now` (see [`sample_at`]) into the history (see
    /// [`with_sample`]). Nothing else changes.
    pub fn collect_metrics_history(&mut self, now: u64)
        ensures
            final(self).metrics_history@ == with_sample(old(self).metrics_history@, sample_at(*old(self), now)),
            *final(self) == (QueueManager { metrics_history: final(self).metrics_history, ..*old(self) }),
    {
        let n = self.metrics_history.len();
        let rate_window = if n >= 2 {
            let prev = self.metrics_history[n - 1];
            if now > prev.timestamp {
                Some((now - prev.timestamp, self.metrics.total_completed.wrapping_sub(prev.completed)))
            } else {
                None
            }
        } else {
            None
        };
        let s = MetricsSample {
            timestamp: now,
            queued: self.waiting.len(),
            processing: self.processing.len(),
            completed: self.metrics.total_completed,
            failed: self.metrics.total_failed,
            rate_window,
            latency_sum: self.metrics.latency_sum,
            latency_count: self.metrics.latency_count,
        };
        self.metrics_history.push(s);
        if self.metrics_history.len() > METRICS_HISTORY_LEN {
            self.metrics_history.remove(0);
        }
        assert(self.metrics_history@ =~= with_sample(old(self).metrics_history@, sample_at(*old(self), now)));
    }
}

} // verus!
