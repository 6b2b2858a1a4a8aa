//! The order in which jobs leave a queue.
use vstd::prelude::*;
use crate::job::Job;

verus! {

/// `a` leaves the queue before `b`: higher priority first, then earlier
/// `run_at`, then by ID: the higher ID first when either job is LIFO, the
/// lower ID first otherwise.
pub open spec fn outranks(a: Job, b: Job) -> bool {
    if a.priority != b.priority {
        a.priority > b.priority
    } else if a.run_at != b.run_at {
        a.run_at < b.run_at
    } else if a.lifo || b.lifo {
        a.id > b.id
    } else {
        a.id < b.id
    }
}

/// Decides [`outranks`].
pub fn job_outranks(a: &Job, b: &Job) -> (r: bool)
    ensures
        r == outranks(*a, *b),
{
    if a.priority != b.priority {
        a.priority > b.priority
    } else if a.run_at != b.run_at {
        a.run_at < b.run_at
    } else if a.lifo || b.lifo {
        a.id > b.id
    } else {
        a.id < b.id
    }
}

/// The three-way comparison of two jobs by queue rank: `Greater` when `a`
/// leaves the queue first, `Less` when `b` does, `Equal` only for the same
/// ID with the same priority and `run_at`.
pub fn compare_jobs(a: &Job, b: &Job) -> (r: std::cmp::Ordering)
    ensures
        (r == std::cmp::Ordering::Greater) == outranks(*a, *b),
        (r == std::cmp::Ordering::Less) == outranks(*b, *a),
        (r == std::cmp::Ordering::Equal) == (a.priority == b.priority && a.run_at == b.run_at
            && a.id == b.id),
{
    if job_outranks(a, b) {
        std::cmp::Ordering::Greater
    } else if job_outranks(b, a) {
        std::cmp::Ordering::Less
    } else {
        std::cmp::Ordering::Equal
    }
}

/// Of two distinct jobs exactly one leaves the queue first.
pub proof fn law_rank_total(a: Job, b: Job)
    requires
        a.id != b.id,
    ensures
        outranks(a, b) != outranks(b, a),
{
}

/// No job leaves before itself.
pub proof fn law_rank_irreflexive(a: Job)
    ensures
        !outranks(a, a),
{
}

/// Among jobs that agree on LIFO mode the rank is transitive.
pub proof fn law_rank_transitive(a: Job, b: Job, c: Job)
    requires
        a.lifo == b.lifo,
        b.lifo == c.lifo,
        outranks(a, b),
        outranks(b, c),
    ensures
        outranks(a, c),
{
}

/// The rank comparison as an ordering (see [`compare_jobs`]).
pub open spec fn rank_ordering(a: Job, b: Job) -> std::cmp::Ordering {
    if outranks(a, b) {
        std::cmp::Ordering::Greater
    } else if outranks(b, a) {
        std::cmp::Ordering::Less
    } else {
        std::cmp::Ordering::Equal
    }
}

impl PartialEq for Job {
    /// Two jobs are the same job when they carry the same ID.
    fn eq(&self, other: &Self) -> (r: bool) {
        self.id == other.id
    }
}

impl vstd::std_specs::cmp::PartialEqSpecImpl for Job {
    open spec fn obeys_eq_spec() -> bool {
        true
    }

    open spec fn eq_spec(&self, other: &Job) -> bool {
        self.id == other.id
    }
}

impl Eq for Job {
}

impl PartialOrd for Job {
    /// Jobs compare by queue rank: the job that leaves the queue first is
    /// the greater one.
    fn partial_cmp(&self, other: &Self) -> (r: Option<std::cmp::Ordering>) {
        Some(compare_jobs(self, other))
    }
}

impl vstd::std_specs::cmp::PartialOrdSpecImpl for Job {
    open spec fn obeys_partial_cmp_spec() -> bool {
        true
    }

    open spec fn partial_cmp_spec(&self, other: &Job) -> Option<std::cmp::Ordering> {
        Some(rank_ordering(*self, *other))
    }
}

} // verus!
