//! Rate limits: each rate-limited queue has a token bucket that refills at
//! its limit, in jobs per second, up to one second's worth; a pull gets at
//! most one job per whole token and spends one token per job granted.
use vstd::prelude::*;
use crate::manager::QueueManager;

verus! {

broadcast use vstd::std_specs::hash::group_hash_axioms;

/// One job's worth of tokens: buckets count in thousandths of a job.
pub const TOKEN: u64 = 1000;

/// The state of a queue's token bucket: the tokens left, in thousandths of
/// a job, and the time of the last refill. A rate-limited queue without a
/// bucket has a full one.
#[derive(Clone, Copy, Debug, PartialEq, Eq, Structural)]
pub struct RateBucket {
    pub tokens: u64,
    pub refilled_at: u64,
}

/// The most tokens a bucket for `limit` jobs per second holds: one second's
/// worth.
pub open spec fn capacity(limit: u32) -> int {
    limit * TOKEN
}

/// The tokens of bucket `b` for `limit` jobs per second after it refills
/// at `now`: `limit` tokens accrue per second since the last refill (none
/// when `now` is not later), up to the capacity.
pub open spec fn refilled(b: RateBucket, limit: u32, now: u64) -> int {
    let elapsed: int = if now >= b.refilled_at { now - b.refilled_at } else { 0 };
    let t = b.tokens + elapsed * limit;
    if t > capacity(limit) { capacity(limit) } else { t }
}

/// The tokens of rate-limited queue `q` at `now`.
pub open spec fn tokens_at(m: QueueManager, q: Seq<char>, now: u64) -> int {
    let limit = m.rate_limits@[q];
    if m.rate_buckets@.contains_key(q) {
        refilled(m.rate_buckets@[q], limit, now)
    } else {
        capacity(limit)
    }
}

/// How many jobs the rate limiter of queue `q` grants at `now` to a pull of
/// up to `count`: all of them without a rate limit, else as many as the
/// bucket holds whole tokens, up to `count`.
pub open spec fn rate_grant(m: QueueManager, q: Seq<char>, count: nat, now: u64) -> nat {
    if !m.rate_limits@.contains_key(q) {
        count
    } else {
        let whole = tokens_at(m, q, now) / (TOKEN as int);
        if whole < count { whole as nat } else { count }
    }
}

/// The buckets after a pull of up to `count` jobs of queue `q` asks its
/// rate limiter at `now`: a rate-limited queue's bucket is refilled at
/// `now` and one token is spent per job granted.
pub open spec fn rate_charged(m: QueueManager, q: Seq<char>, count: nat, now: u64) -> Map<Seq<char>, RateBucket> {
    if !m.rate_limits@.contains_key(q) {
        m.rate_buckets@
    } else {
        let left = tokens_at(m, q, now) - rate_grant(m, q, count, now) * TOKEN;
        m.rate_buckets@.insert(q, RateBucket { tokens: left as u64, refilled_at: now })
    }
}

/// Computes [`refilled`].
fn refill(b: RateBucket, limit: u32, now: u64) -> (r: u64)
    ensures
        r == refilled(b, limit, now),
{
    let cap = (limit as u64) * TOKEN;
    let elapsed = if now >= b.refilled_at { now - b.refilled_at } else { 0 };
    if b.tokens >= cap || elapsed >= TOKEN {
        proof {
            if elapsed >= TOKEN {
                assert(elapsed * limit >= TOKEN * limit) by (nonlinear_arith)
                    requires
                        elapsed >= TOKEN,
                ;
            }
        }
        return cap;
    }
    assert(elapsed * (limit as u64) <= 1000 * (limit as u64)) by (nonlinear_arith)
        requires
            elapsed < 1000,
    ;
    let t = b.tokens + elapsed * (limit as u64);
    if t > cap { cap } else { t }
}

impl QueueManager {
    /// Asks the rate limiter of queue `q` at `now` for up to `count` jobs:
    /// returns how many it grants (see [`rate_grant`]); the bucket is
    /// refilled and charged as [`rate_charged`] states. Nothing else
    /// changes.
    pub fn rate_take(&mut self, q: &String, count: usize, now: u64) -> (r: usize)
        requires
            old(self).wf(),
        ensures
            final(self).wf(),
            r == rate_grant(*old(self), q@, count as nat, now),
            final(self).rate_buckets@ == rate_charged(*old(self), q@, count as nat, now),
            *final(self) == (QueueManager { rate_buckets: final(self).rate_buckets, ..*old(self) }),
    {
        let limit = match self.rate_limits.get(q.as_str()) {
            None => {
                return count;
            },
            Some(l) => *l,
        };
        let t = match self.rate_buckets.get(q.as_str()) {
            None => (limit as u64) * TOKEN,
            Some(b) => refill(*b, limit, now),
        };
        assert(t <= (limit as u64) * TOKEN);
        let whole = t / TOKEN;
        let granted: usize = if whole < (count as u64) { whole as usize } else { count };
        assert(granted * TOKEN <= t) by (nonlinear_arith)
            requires
                granted <= whole,
                whole == t / 1000,
        ;
        let left = t - (granted as u64) * TOKEN;
        self.rate_buckets.insert(q.clone(), RateBucket { tokens: left, refilled_at: now });
        granted
    }
}

} // verus!
