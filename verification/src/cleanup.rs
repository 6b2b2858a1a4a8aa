//! Trimming what completed jobs leave behind.
use vstd::prelude::*;
use crate::manager::{JobResult, QueueManager, RetentionEntry};

verus! {

broadcast use vstd::std_specs::hash::group_hash_axioms;

/// Above this many completed IDs the background cleanup trims them.
pub const MAX_COMPLETED: usize = 50000;

/// Above this many stored results the background cleanup trims them.
pub const MAX_RESULTS: usize = 10000;

/// `s` with its oldest entries dropped when it holds more than `max`: then
/// only the newest `max / 2` stay.
pub open spec fn trimmed<A>(s: Seq<A>, max: nat) -> Seq<A> {
    if s.len() > max {
        s.skip(s.len() - max / 2)
    } else {
        s
    }
}

/// The IDs that trimming `s` to `max` drops.
pub open spec fn trimmed_away(s: Seq<u64>, max: nat) -> Seq<u64> {
    if s.len() > max {
        s.take(s.len() - max / 2)
    } else {
        Seq::empty()
    }
}

/// A retention record still kept at `now`: no age limit, or younger than
/// its limit.
pub open spec fn retained(e: RetentionEntry, now: u64) -> bool {
    e.keep_age == 0 || (if now >= e.completed_at { now - e.completed_at } else { 0 }) < e.keep_age
}

/// Keeps the newest `max / 2` entries of `v` when it holds more than `max`.
fn trim_front<A>(v: &mut Vec<A>, max: usize) -> (removed: Vec<A>)
    ensures
        final(v)@ == trimmed(old(v)@, max as nat),
        removed@ == if old(v)@.len() > max { old(v)@.take(old(v)@.len() - max / 2) } else { Seq::<A>::empty() },
{
    let n = v.len();
    if n > max {
        let cut = n - max / 2;
        let tail = v.split_off(cut);
        let mut removed = tail;
        std::mem::swap(v, &mut removed);
        removed
    } else {
        Vec::new()
    }
}

impl QueueManager {
    /// The background trim of completed IDs: above [`MAX_COMPLETED`] the
    /// oldest are dropped down to half that many, along with the custom IDs
    /// that name them.
    pub fn cleanup_completed_jobs(&mut self)
        requires
            old(self).wf(),
        ensures
            final(self).wf(),
            final(self).completed@ == trimmed(old(self).completed@, MAX_COMPLETED as nat),
            final(self).custom_ids@ == old(self).custom_ids@.restrict(
                Set::new(|k: Seq<char>| !trimmed_away(old(self).completed@, MAX_COMPLETED as nat).contains(old(self).custom_ids@[k])),
            ),
            final(self).waiting == old(self).waiting,
            final(self).waiting_deps == old(self).waiting_deps,
            final(self).processing == old(self).processing,
            final(self).dlq == old(self).dlq,
            final(self).job_results == old(self).job_results,
            final(self).completed_data == old(self).completed_data,
            final(self).next_id == old(self).next_id,
            final(self).clock == old(self).clock,
    {
        let removed = trim_front(&mut self.completed, MAX_COMPLETED);
        self.custom_ids.retain_not_in(&removed);
        proof {
            if !(old(self).completed@.len() > MAX_COMPLETED) {
                assert(removed@ =~= trimmed_away(old(self).completed@, MAX_COMPLETED as nat));
            }
        }
    }

    /// The background trim of stored results: above [`MAX_RESULTS`] the
    /// oldest are dropped down to half that many.
    pub fn cleanup_job_results(&mut self)
        requires
            old(self).wf(),
        ensures
            final(self).wf(),
            final(self).job_results@ == trimmed(old(self).job_results@, MAX_RESULTS as nat),
            final(self).completed == old(self).completed,
            final(self).waiting == old(self).waiting,
            final(self).processing == old(self).processing,
            final(self).dlq == old(self).dlq,
            final(self).next_id == old(self).next_id,
            final(self).clock == old(self).clock,
    {
        let _ = trim_front(&mut self.job_results, MAX_RESULTS);
    }

    /// Drops the retention records whose age limit passed at `now`.
    pub fn cleanup_completed_retention(&mut self, now: u64)
        requires
            old(self).wf(),
        ensures
            final(self).wf(),
            final(self).completed_retention@ == old(self).completed_retention@.filter(|e: RetentionEntry| retained(e, now)),
            final(self).completed == old(self).completed,
            final(self).job_results == old(self).job_results,
            final(self).waiting == old(self).waiting,
            final(self).processing == old(self).processing,
            final(self).dlq == old(self).dlq,
            final(self).next_id == old(self).next_id,
            final(self).clock == old(self).clock,
    {
        let ghost orig = self.completed_retention@;
        let ghost keep = |e: RetentionEntry| retained(e, now);
        let mut rest: Vec<RetentionEntry> = Vec::new();
        std::mem::swap(&mut rest, &mut self.completed_retention);
        let mut kept: Vec<RetentionEntry> = Vec::new();
        let ghost mut done: int = 0;
        proof {
            reveal(Seq::filter);
            assert(orig.take(0) =~= Seq::<RetentionEntry>::empty());
        }
        while rest.len() > 0
            invariant
                0 <= done <= orig.len(),
                rest@ == orig.skip(done),
                kept@ == orig.take(done).filter(keep),
                keep == (|e: RetentionEntry| retained(e, now)),
            decreases rest.len(),
        {
            let ghost r = rest@;
            let e = rest.remove(0);
            proof {
                reveal(Seq::filter);
                assert(orig.skip(done)[0] == orig[done]);
                assert(e == orig[done]);
                assert(rest@ =~= orig.skip(done + 1));
                assert(orig.take(done + 1).drop_last() =~= orig.take(done));
                assert(orig.take(done + 1).last() == e);
            }
            let age = now.saturating_sub(e.completed_at);
            if e.keep_age == 0 || age < e.keep_age {
                kept.push(e);
            }
            proof {
                done = done + 1;
            }
        }
        assert(orig.take(done) =~= orig);
        self.completed_retention = kept;
    }

    /// The cleanup run on request: completed IDs and stored results above
    /// their configured limits are trimmed to half the limit, oldest first.
    pub fn run_cleanup(&mut self)
        requires
            old(self).wf(),
        ensures
            final(self).wf(),
            final(self).completed@ == trimmed(old(self).completed@, old(self).cleanup_settings.max_completed_jobs as nat),
            final(self).job_results@ == trimmed(old(self).job_results@, old(self).cleanup_settings.max_job_results as nat),
            final(self).custom_ids == old(self).custom_ids,
            final(self).waiting == old(self).waiting,
            final(self).processing == old(self).processing,
            final(self).dlq == old(self).dlq,
            final(self).next_id == old(self).next_id,
            final(self).clock == old(self).clock,
    {
        let max_completed = self.cleanup_settings.max_completed_jobs;
        let max_results = self.cleanup_settings.max_job_results;
        let _ = trim_front(&mut self.completed, max_completed);
        let _ = trim_front(&mut self.job_results, max_results);
    }
}

} // verus!
