//! Cron and repeatable jobs: schedules, their next run, and running the
//! jobs that are due.
use vstd::prelude::*;
use crate::job::{CronJob, Job, MAX_TIME};
use crate::manager::QueueManager;
use crate::push::JobInput;
use crate::text::{decimal, parse_unsigned, parse_unsigned_spec, u64_to_decimal};

verus! {

broadcast use vstd::std_specs::hash::group_hash_axioms;

/// The longest schedule accepted, in bytes.
pub const MAX_CRON_SCHEDULE_LENGTH: usize = 256;

/// The fallback delay of a schedule that cannot be read, in ms.
pub const CRON_FALLBACK_MS: u64 = 60000;

/// The first second of the year 5000: croner moves a time forward only
/// from a year before it.
pub const YEAR_5000_SECS: i64 = 95617584000;

/// The first millisecond of the year 5000.
pub const YEAR_5000_MS: u64 = 95617584000000;

/// The next second after `now_secs` (UTC) that the cron expression
/// `schedule` (seconds optional) matches, as croner computes it; `None`
/// when croner refuses the expression or finds no such time.
pub uninterp spec fn cron_next_second(schedule: Seq<char>, now_secs: i64) -> Option<i64>;

/// The error croner gives for the cron expression `schedule` (seconds
/// optional), as text; `None` when it accepts it.
pub uninterp spec fn cron_parse_error(schedule: Seq<char>) -> Option<Seq<char>>;

/// Calls croner's `Cron::new(..).with_seconds_optional().parse()` and
/// `find_next_occurrence` (not inclusive) from chrono's
/// `DateTime::<Utc>::from_timestamp(now_secs, 0)`. The result is named;
/// croner starts one second after `now_secs` and only moves forward. The
/// start is kept inside chrono's range and before the year 5000, where
/// croner's day arithmetic cannot reach chrono's largest date.
#[verifier::external_body]
fn croner_next_second(schedule: &str, now_secs: i64) -> (r: Option<i64>)
    requires
        0 <= now_secs < YEAR_5000_SECS,
    ensures
        r == cron_next_second(schedule@, now_secs),
        r matches Some(t) ==> now_secs < t,
{
    let cron = match croner::Cron::new(schedule).with_seconds_optional().parse() {
        Ok(c) => c,
        Err(_) => return None,
    };
    let start = match chrono::DateTime::<chrono::Utc>::from_timestamp(now_secs, 0) {
        Some(t) => t,
        None => return None,
    };
    match cron.find_next_occurrence(&start, false) {
        Ok(next) => Some(next.timestamp()),
        Err(_) => None,
    }
}

/// Calls croner's `Cron::new(..).with_seconds_optional().parse()` and gives
/// its error as text. The result is named.
#[verifier::external_body]
fn croner_parse_error(schedule: &str) -> (r: Option<String>)
    ensures
        crate::job::opt_view(r) == cron_parse_error(schedule@),
{
    match croner::Cron::new(schedule).with_seconds_optional().parse() {
        Ok(_) => None,
        Err(e) => Some(e.to_string()),
    }
}

/// Calls `str::parse::<croner::Cron>()` and croner's `find_next_occurrence`
/// (not inclusive) from chrono's `DateTime::<Utc>::from_timestamp_millis`.
/// croner's `FromStr` builds the pattern with `Cron::new` and does not parse
/// it, so no month is set: the search never matches and ends in an error
/// (at the year 5000, or at once from a later start). It gives `None`.
#[verifier::external_body]
fn croner_next_millis_unparsed(schedule: &str, now_ms: i64) -> (r: Option<i64>)
    ensures
        r is None,
{
    let cron = match schedule.parse::<croner::Cron>() {
        Ok(c) => c,
        Err(_) => return None,
    };
    let start = match chrono::DateTime::<chrono::Utc>::from_timestamp_millis(now_ms) {
        Some(t) => t,
        None => return None,
    };
    match cron.find_next_occurrence(&start, false) {
        Ok(next) => Some(next.timestamp_millis()),
        Err(_) => None,
    }
}

/// The rest of `s` after a leading "*/", if it has one.
pub open spec fn interval_part(s: Seq<char>) -> Option<Seq<char>> {
    if s.len() >= 2 && s[0] == '*' && s[1] == '/' {
        Some(s.skip(2))
    } else {
        None
    }
}

/// The interval in seconds of a "*/N" schedule.
pub open spec fn interval_secs(s: Seq<char>) -> Option<nat> {
    match interval_part(s) {
        Some(rest) => parse_unsigned_spec(rest, u64::MAX as nat),
        None => None,
    }
}

fn strip_interval(s: &str) -> (r: Option<&str>)
    ensures
        match interval_part(s@) {
            Some(rest) => r matches Some(x) && x@ == rest,
            None => r is None,
        },
{
    let n = s.unicode_len();
    if n >= 2 && s.get_char(0) == '*' && s.get_char(1) == '/' {
        Some(s.substring_char(2, n))
    } else {
        None
    }
}

/// The run time given by croner's answer `found` (in seconds) at `now`:
/// that second in ms when croner found one that fits, else one minute
/// later.
pub open spec fn run_from_match(now: u64, found: Option<i64>) -> int {
    match found {
        Some(t) => if 0 <= t && t * 1000 <= u64::MAX { t * 1000 } else { now + CRON_FALLBACK_MS },
        None => now + CRON_FALLBACK_MS,
    }
}

/// The next run of schedule `s` after `now`: every N seconds for "*/N",
/// else the next match of the cron expression (whole seconds, see
/// [`run_from_match`]), else one minute later.
pub open spec fn next_cron_run(s: Seq<char>, now: u64) -> int {
    match interval_secs(s) {
        Some(n) => now + n * 1000,
        None => run_from_match(now, cron_next_second(s, (now / 1000) as i64)),
    }
}

/// The next run of schedule `s` can be computed at `now`: an interval can
/// be added to `now`, and a cron expression is searched from a time before
/// the year 5000.
pub open spec fn schedule_in_range(s: Seq<char>, now: u64) -> bool {
    match interval_secs(s) {
        Some(n) => now + n * 1000 <= u64::MAX,
        None => now < YEAR_5000_MS,
    }
}

/// The run time given by croner's answer `found` at `now` (see
/// [`run_from_match`]).
pub fn next_run_from_match(now: u64, found: Option<i64>) -> (r: u64)
    requires
        now <= MAX_TIME,
    ensures
        r == run_from_match(now, found),
{
    match found {
        Some(t) => {
            if t >= 0 && (t as u64) <= u64::MAX / 1000 {
                (t as u64) * 1000
            } else {
                now + CRON_FALLBACK_MS
            }
        },
        None => now + CRON_FALLBACK_MS,
    }
}

/// A cron job of the NATS backend is due at `now`: its run time has come
/// and it has not reached its execution limit.
pub open spec fn nats_cron_is_due(c: CronJob, now: u64) -> bool {
    c.next_run <= now && !(c.limit matches Some(l) && c.executions >= l)
}

/// Decides [`nats_cron_is_due`].
pub fn nats_cron_due(cron: &CronJob, now: u64) -> (r: bool)
    ensures
        r == nats_cron_is_due(*cron, now),
{
    if cron.next_run > now {
        return false;
    }
    match cron.limit {
        Some(l) => cron.executions < l,
        None => true,
    }
}

/// The job the NATS backend pushes for a run of cron job `c` at `now`,
/// with ID `id`: the cron job's queue, payload and priority, runnable at
/// once, three attempts with a one second backoff, a 30 s timeout, tagged
/// "cron" and the cron job's name, and removed once completed.
pub open spec fn nats_cron_job_view(c: CronJob, id: u64, now: u64) -> crate::job::JobView {
    crate::job::JobView {
        id,
        queue: c.queue@,
        data: c.data@,
        priority: c.priority,
        created_at: now,
        run_at: now,
        started_at: 0,
        attempts: 0,
        max_attempts: 3,
        backoff: 1000,
        ttl: 0,
        timeout: 30000,
        unique_key: None,
        depends_on: Seq::empty(),
        progress: 0,
        progress_msg: None,
        tags: seq!["cron"@, c.name@],
        lifo: false,
        remove_on_complete: true,
        remove_on_fail: false,
        last_heartbeat: 0,
        stall_timeout: 0,
        stall_count: 0,
        parent_id: None,
        children_ids: Seq::empty(),
        children_completed: 0,
        custom_id: None,
        keep_completed_age: 0,
        keep_completed_count: 0,
        completed_at: 0,
        group_id: None,
    }
}

/// Builds the job of a run of `cron` (see [`nats_cron_job_view`]).
pub fn nats_cron_job(cron: &CronJob, id: u64, now: u64) -> (r: Job)
    ensures
        r@ == nats_cron_job_view(*cron, id, now),
{
    let mut tags: Vec<String> = Vec::new();
    tags.push(String::from_str("cron"));
    tags.push(cron.name.clone());
    let j = Job {
        id,
        queue: cron.queue.clone(),
        data: cron.data.clone(),
        priority: cron.priority,
        created_at: now,
        run_at: now,
        started_at: 0,
        attempts: 0,
        max_attempts: 3,
        backoff: 1000,
        ttl: 0,
        timeout: 30000,
        unique_key: None,
        depends_on: Vec::new(),
        progress: 0,
        progress_msg: None,
        tags,
        lifo: false,
        remove_on_complete: true,
        remove_on_fail: false,
        last_heartbeat: 0,
        stall_timeout: 0,
        stall_count: 0,
        parent_id: None,
        children_ids: Vec::new(),
        children_completed: 0,
        custom_id: None,
        keep_completed_age: 0,
        keep_completed_count: 0,
        completed_at: 0,
        group_id: None,
    };
    proof {
        assert(crate::job::strings_view(j.tags@) =~= seq!["cron"@, cron.name@]);
        assert(j.depends_on@ =~= Seq::<u64>::empty());
        assert(j.children_ids@ =~= Seq::<u64>::empty());
    }
    j
}

/// Cron job `cron` after a run at `now`: one more execution, and its next
/// run (see [`nats_cron_next_time`]).
pub fn nats_cron_advanced(cron: &CronJob, now: u64) -> (r: CronJob)
    requires
        now <= MAX_TIME,
        cron.repeat_every matches Some(i) ==> i <= MAX_TIME,
        cron.executions < u64::MAX,
    ensures
        cron_view(r) == (cron.name@, cron.queue@, cron.data@, crate::job::opt_view(cron.schedule), cron.repeat_every,
            cron.priority, nats_cron_next_time(*cron, now) as u64, (cron.executions + 1) as u64, cron.limit),
{
    let next_run = calculate_next_run(cron, now);
    CronJob {
        name: cron.name.clone(),
        queue: cron.queue.clone(),
        data: cron.data.clone(),
        schedule: match &cron.schedule {
            Some(s) => Some(s.clone()),
            None => None,
        },
        repeat_every: cron.repeat_every,
        priority: cron.priority,
        next_run,
        executions: cron.executions + 1,
        limit: cron.limit,
    }
}

/// The next run of a cron job: its repeat interval after `now`, else its
/// schedule's next run (see [`next_cron_run`]), else one minute later.
pub open spec fn cron_next_time(c: CronJob, now: u64) -> int {
    match c.repeat_every {
        Some(i) => now + i,
        None => match c.schedule {
            Some(s) => next_cron_run(s@, now),
            None => now + CRON_FALLBACK_MS,
        },
    }
}

/// The message of an over-long schedule.
pub open spec fn too_long_msg(len: nat) -> Seq<char> {
    "Cron schedule too long ("@ + decimal(len) + " chars, max 256 chars)"@
}

/// What validating a schedule gives: an over-long schedule, a "*/N"
/// schedule whose N is not a number, or an expression croner refuses is
/// an error.
pub open spec fn cron_check(s: Seq<char>) -> Result<(), Seq<char>> {
    let len = vstd::utf8::encode_utf8(s).len() as usize;
    if len > MAX_CRON_SCHEDULE_LENGTH {
        Err(too_long_msg(len as nat))
    } else {
        match interval_part(s) {
            Some(rest) => if parse_unsigned_spec(rest, u64::MAX as nat) is Some {
                Ok(())
            } else {
                Err("Invalid interval format: "@ + s)
            },
            None => match cron_parse_error(s) {
                None => Ok(()),
                Some(e) => Err("Invalid cron expression '"@ + s + "': "@ + e),
            },
        }
    }
}

/// The next run of schedule `schedule` after `now` (see
/// [`next_cron_run`]).
pub fn parse_next_cron_run(schedule: &str, now: u64) -> (r: u64)
    requires
        now <= MAX_TIME,
        schedule_in_range(schedule@, now),
    ensures
        r == next_cron_run(schedule@, now),
{
    match strip_interval(schedule) {
        Some(rest) => {
            match parse_unsigned(rest, u64::MAX) {
                Some(secs) => {
                    return now + secs * 1000;
                },
                None => {},
            }
        },
        None => {},
    }
    let now_secs = (now / 1000) as i64;
    let found = croner_next_second(schedule, now_secs);
    next_run_from_match(now, found)
}

/// Checks a schedule (see [`cron_check`]).
pub fn validate_cron(schedule: &str) -> (r: Result<(), String>)
    ensures
        match cron_check(schedule@) {
            Ok(()) => r is Ok,
            Err(e) => r matches Err(m) && m@ == e,
        },
{
    let len = schedule.len();
    if len > MAX_CRON_SCHEDULE_LENGTH {
        let mut m = String::from_str("Cron schedule too long (");
        let d = u64_to_decimal(len as u64);
        m.append(d.as_str());
        m.append(" chars, max 256 chars)");
        assert(m@ == too_long_msg(len as nat));
        return Err(m);
    }
    match strip_interval(schedule) {
        Some(rest) => {
            match parse_unsigned(rest, u64::MAX) {
                Some(_) => Ok(()),
                None => {
                    let mut m = String::from_str("Invalid interval format: ");
                    m.append(schedule);
                    Err(m)
                },
            }
        },
        None => {
            match croner_parse_error(schedule) {
                None => Ok(()),
                Some(e) => {
                    let mut m = String::from_str("Invalid cron expression '");
                    m.append(schedule);
                    m.append("': ");
                    m.append(e.as_str());
                    Err(m)
                },
            }
        },
    }
}

/// The next run of a NATS cron job after `now`: its repeat interval, else
/// one minute later. A schedule is handed to croner by `str::parse`, which
/// leaves the pattern unparsed, so it never gives a time.
pub open spec fn nats_cron_next_time(c: CronJob, now: u64) -> int {
    match c.repeat_every {
        Some(i) => now + i,
        None => now + CRON_FALLBACK_MS,
    }
}

/// The next run of a cron job of the NATS backend (see
/// [`nats_cron_next_time`]).
pub fn calculate_next_run(cron: &CronJob, now: u64) -> (r: u64)
    requires
        now <= MAX_TIME,
        cron.repeat_every matches Some(i) ==> i <= MAX_TIME,
    ensures
        r == nats_cron_next_time(*cron, now),
{
    match cron.repeat_every {
        Some(i) => {
            return now + i;
        },
        None => {},
    }
    match &cron.schedule {
        Some(s) => {
            match croner_next_millis_unparsed(s.as_str(), now as i64) {
                Some(t) => {
                    return t as u64;
                },
                None => {},
            }
        },
        None => {},
    }
    now + CRON_FALLBACK_MS
}

/// A job pushed by a cron job: its queue, payload and priority.
pub open spec fn fire_of(c: CronJob) -> (Seq<char>, Seq<char>, i32) {
    (c.queue@, c.data@, c.priority)
}

/// A cron job as a value, with the fields a run changes.
pub open spec fn cron_view(c: CronJob) -> (Seq<char>, Seq<char>, Seq<char>, Option<Seq<char>>, Option<u64>, i32, u64, u64, Option<u64>) {
    (c.name@, c.queue@, c.data@, crate::job::opt_view(c.schedule), c.repeat_every, c.priority, c.next_run, c.executions, c.limit)
}

/// The cron jobs `cs` at `now`: the jobs kept (a due one counts an
/// execution and gets its next run), and the jobs to push. A due job that
/// reached its execution limit is removed and pushes nothing.
pub open spec fn cron_run(cs: Seq<CronJob>, now: u64) -> (Seq<(Seq<char>, Seq<char>, Seq<char>, Option<Seq<char>>, Option<u64>, i32, u64, u64, Option<u64>)>, Seq<(Seq<char>, Seq<char>, i32)>)
    decreases cs.len(),
{
    if cs.len() == 0 {
        (Seq::empty(), Seq::empty())
    } else {
        let (kept, fires) = cron_run(cs.drop_last(), now);
        let c = cs.last();
        if c.next_run > now {
            (kept.push(cron_view(c)), fires)
        } else if c.limit matches Some(l) && c.executions >= l {
            (kept, fires)
        } else {
            let v = cron_view(c);
            let updated = (v.0, v.1, v.2, v.3, v.4, v.5, cron_next_time(c, now) as u64, (c.executions + 1) as u64, v.8);
            (kept.push(updated), fires.push(fire_of(c)))
        }
    }
}

/// `j` is the job pushed with ID `id` at `now` for the run `f`.
pub open spec fn pushed_as(j: crate::job::JobView, id: int, f: (Seq<char>, Seq<char>, i32), now: u64) -> bool {
    &&& j.id == id
    &&& j.queue == f.0 && j.data == f.1 && j.priority == f.2
    &&& j.created_at == now && j.run_at == now
}

/// Every cron job's next run can be computed at `now` and its count grow.
pub open spec fn crons_in_range(cs: Seq<CronJob>, now: u64) -> bool {
    forall|i: int| 0 <= i < cs.len() ==> {
        &&& (#[trigger] cs[i]).executions < u64::MAX
        &&& cs[i].repeat_every matches Some(r) ==> r <= MAX_TIME
        &&& cs[i].schedule matches Some(s) ==> schedule_in_range(s@, now)
    }
}

pub proof fn lemma_cron_run_len(cs: Seq<CronJob>, now: u64)
    ensures
        cron_run(cs, now).1.len() <= cs.len(),
    decreases cs.len(),
{
    if cs.len() > 0 {
        lemma_cron_run_len(cs.drop_last(), now);
    }
}

impl QueueManager {
    /// Advances the cron jobs that are due at `now`, as [`cron_run`]
    /// states, and returns the (queue, payload, priority) of the jobs to
    /// push, in order.
    pub fn advance_crons(&mut self, now: u64) -> (r: Vec<(String, String, i32)>)
        requires
            now <= MAX_TIME,
            crons_in_range(old(self).cron_jobs@, now),
        ensures
            final(self).cron_jobs@.map_values(|c: CronJob| cron_view(c)) == cron_run(old(self).cron_jobs@, now).0,
            r@.map_values(|f: (String, String, i32)| (f.0@, f.1@, f.2)) == cron_run(old(self).cron_jobs@, now).1,
            final(self).waiting == old(self).waiting,
            final(self).waiting_deps == old(self).waiting_deps,
            final(self).processing == old(self).processing,
            final(self).dlq == old(self).dlq,
            final(self).next_id == old(self).next_id,
            final(self).clock == old(self).clock,
            final(self).debounce == old(self).debounce,
            final(self).stalled_counts == old(self).stalled_counts,
    {
        let ghost orig = self.cron_jobs@;
        let mut rest: Vec<CronJob> = Vec::new();
        std::mem::swap(&mut rest, &mut self.cron_jobs);
        let mut kept: Vec<CronJob> = Vec::new();
        let mut fires: Vec<(String, String, i32)> = Vec::new();
        let ghost mut done: int = 0;
        assert(orig.take(0) =~= Seq::<CronJob>::empty());
        assert(kept@.map_values(|c: CronJob| cron_view(c)) =~= cron_run(orig.take(0), now).0);
        assert(fires@.map_values(|f: (String, String, i32)| (f.0@, f.1@, f.2)) =~= cron_run(orig.take(0), now).1);
        while rest.len() > 0
            invariant
                0 <= done <= orig.len(),
                rest@ == orig.skip(done),
                now <= MAX_TIME,
                crons_in_range(orig, now),
                kept@.map_values(|c: CronJob| cron_view(c)) == cron_run(orig.take(done), now).0,
                fires@.map_values(|f: (String, String, i32)| (f.0@, f.1@, f.2)) == cron_run(orig.take(done), now).1,
            decreases rest.len(),
        {
            let ghost r0 = rest@;
            let ghost k0 = kept@.map_values(|c: CronJob| cron_view(c));
            let ghost f0 = fires@.map_values(|f: (String, String, i32)| (f.0@, f.1@, f.2));
            let mut c = rest.remove(0);
            proof {
                assert(orig.skip(done)[0] == orig[done]);
                assert(c == orig[done]);
                assert(rest@ =~= orig.skip(done + 1));
                assert(orig.take(done + 1).drop_last() =~= orig.take(done));
                assert(orig.take(done + 1).last() == c);
            }
            if c.next_run > now {
                kept.push(c);
                assert(kept@.map_values(|c: CronJob| cron_view(c)) =~= k0.push(cron_view(orig[done])));
            } else {
                let at_limit = match c.limit {
                    Some(l) => c.executions >= l,
                    None => false,
                };
                if !at_limit {
                    let ghost c0 = c;
                    let next = match c.repeat_every {
                        Some(i) => now + i,
                        None => match &c.schedule {
                            Some(s) => parse_next_cron_run(s.as_str(), now),
                            None => now + CRON_FALLBACK_MS,
                        },
                    };
                    let fire = (c.queue.clone(), c.data.clone(), c.priority);
                    fires.push(fire);
                    c.executions = c.executions + 1;
                    c.next_run = next;
                    kept.push(c);
                    assert(kept@.map_values(|c: CronJob| cron_view(c)) =~= k0.push(
                        (c0.name@, c0.queue@, c0.data@, crate::job::opt_view(c0.schedule), c0.repeat_every, c0.priority,
                            cron_next_time(c0, now) as u64, (c0.executions + 1) as u64, c0.limit)));
                    assert(fires@.map_values(|f: (String, String, i32)| (f.0@, f.1@, f.2)) =~= f0.push(fire_of(c0)));
                }
            }
            proof {
                done = done + 1;
            }
        }
        assert(orig.take(done) =~= orig);
        self.cron_jobs = kept;
        fires
    }

    /// Runs the cron jobs that are due at `now`: advances them (see
    /// [`QueueManager::advance_crons`]) and pushes one job per run, with
    /// the cron job's payload and priority and no other option. Returns
    /// how many jobs were pushed.
    pub fn run_cron_jobs(&mut self, now: u64) -> (r: usize)
        requires
            old(self).wf(),
            old(self).clock <= now <= MAX_TIME,
            crons_in_range(old(self).cron_jobs@, now),
            old(self).next_id + old(self).cron_jobs@.len() < u64::MAX,
        ensures
            final(self).wf(),
            final(self).cron_jobs@.map_values(|c: CronJob| cron_view(c)) == cron_run(old(self).cron_jobs@, now).0,
            r == cron_run(old(self).cron_jobs@, now).1.len(),
            final(self).next_id == old(self).next_id + r,
            final(self).waiting@.len() == old(self).waiting@.len() + r,
            final(self).waiting@.take(old(self).waiting@.len() as int) == old(self).waiting@,
            forall|k: int| 0 <= k < r ==> pushed_as(final(self).waiting@[old(self).waiting@.len() + k]@,
                old(self).next_id + k, #[trigger] cron_run(old(self).cron_jobs@, now).1[k], now),
            final(self).processing == old(self).processing,
            final(self).dlq == old(self).dlq,
            final(self).waiting_deps == old(self).waiting_deps,
            final(self).clock == now,
    {
        let ghost pre = *self;
        proof {
            lemma_cron_run_len(self.cron_jobs@, now);
        }
        let fires = self.advance_crons(now);
        let ghost fs = fires@.map_values(|f: (String, String, i32)| (f.0@, f.1@, f.2));
        let ghost mid = *self;
        let mut fires = fires;
        let mut n: usize = 0;
        let total = fires.len();
        proof {
            crate::manager::lemma_created_by(self.waiting@, self.clock, now);
            crate::manager::lemma_created_by(self.waiting_deps@, self.clock, now);
            crate::manager::lemma_created_by(self.processing@, self.clock, now);
            crate::manager::lemma_created_by(self.dlq@, self.clock, now);
        }
        self.clock = now;
        assert(self.waiting@.take(pre.waiting@.len() as int) =~= pre.waiting@);
        while fires.len() > 0
            invariant
                n <= total,
                total == fs.len(),
                fires@.map_values(|f: (String, String, i32)| (f.0@, f.1@, f.2)) == fs.skip(n as int),
                fires@.len() == total - n,
                self.wf(),
                self.clock == now,
                now <= MAX_TIME,
                pre.next_id + total < u64::MAX,
                self.next_id == pre.next_id + n,
                self.waiting@.len() == pre.waiting@.len() + n,
                self.waiting@.take(pre.waiting@.len() as int) == pre.waiting@,
                forall|k: int| 0 <= k < n ==> pushed_as(self.waiting@[pre.waiting@.len() + k]@, pre.next_id + k, #[trigger] fs[k], now),
                self.cron_jobs@ == mid.cron_jobs@,
                self.processing == pre.processing,
                self.dlq == pre.dlq,
                self.waiting_deps == pre.waiting_deps,
            decreases fires.len(),
        {
            let ghost fv = fires@.map_values(|f: (String, String, i32)| (f.0@, f.1@, f.2));
            let ghost w0 = self.waiting@;
            let ghost fr0 = fires@;
            let (q, data, priority) = fires.remove(0);
            proof {
                assert(fv[0] == (q@, data@, priority));
                assert(fs.skip(n as int)[0] == fs[n as int]);
                assert(fires@.map_values(|f: (String, String, i32)| (f.0@, f.1@, f.2)) =~= fv.skip(1));
                assert(fs.skip(n as int).skip(1) =~= fs.skip(n + 1));
            }
            let input = JobInput::new(data).with_priority(priority);
            let ghost iv = input;
            let ghost m0 = *self;
            let ghost qv = q@;
            let _ = self.push(q, input, now);
            proof {
                let jv = crate::push::input_job((pre.next_id + n) as u64, qv, iv, now);
                assert(!crate::push::debounced(m0, qv, iv, now));
                assert(crate::push::existing_custom(m0, iv) is None);
                assert(!crate::push::key_taken(m0, qv, iv));
                assert(jv.depends_on =~= Seq::<u64>::empty());
                assert(!crate::push::deps_pending(jv.depends_on, m0.completed@));
                assert(crate::push::appended(w0, self.waiting@, jv));
                assert(self.waiting@.last()@ == jv);
                assert(jv.queue == fs[n as int].0 && jv.data == fs[n as int].1 && jv.priority == fs[n as int].2);
                assert(self.waiting@.take(w0.len() as int) == w0);
                assert forall|k: int| 0 <= k < n + 1 implies pushed_as(self.waiting@[pre.waiting@.len() + k]@, pre.next_id + k, #[trigger] fs[k], now) by {
                    if k < n {
                        assert(self.waiting@[pre.waiting@.len() + k] == self.waiting@.take(w0.len() as int)[pre.waiting@.len() + k]);
                        assert(w0[pre.waiting@.len() + k] == self.waiting@[pre.waiting@.len() + k]);
                        assert(pushed_as(w0[pre.waiting@.len() + k]@, pre.next_id + k, fs[k], now));
                    } else {
                        assert(self.waiting@[pre.waiting@.len() + k] == self.waiting@.last());
                        assert(pushed_as(jv, pre.next_id + k, fs[k], now));
                    }
                }
                assert(self.waiting@.take(pre.waiting@.len() as int) =~= w0.take(pre.waiting@.len() as int));
            }
            n = n + 1;
        }
        n
    }
}

impl QueueManager {
    /// Registers cron job `name` pushing `data` with `priority` to `queue`
    /// on `schedule`, at `now`. An invalid schedule gives the error of
    /// [`cron_check`] and changes nothing. A valid one gives a cron job
    /// whose first run is the schedule's next run after `now` (see
    /// [`next_cron_run`]), with no executions and no limit; it replaces the
    /// cron job of the same name, or is added after the others.
    pub fn add_cron(&mut self, name: String, queue: String, data: String, schedule: String, priority: i32, now: u64) -> (r: Result<(), String>)
        requires
            now <= MAX_TIME,
            schedule_in_range(schedule@, now),
        ensures
            cron_check(schedule@) matches Err(e) ==> (r matches Err(m) && m@ == e) && final(self).cron_jobs == old(self).cron_jobs,
            cron_check(schedule@) is Ok ==> {
                let v = (name@, queue@, data@, Some(schedule@), None::<u64>, priority, next_cron_run(schedule@, now) as u64, 0u64, None::<u64>);
                &&& r is Ok
                &&& match crate::recovery::cron_index(old(self).cron_jobs@, name@) {
                    Some(i) => final(self).cron_jobs@.len() == old(self).cron_jobs@.len()
                        && cron_view(final(self).cron_jobs@[i]) == v
                        && forall|k: int| 0 <= k < old(self).cron_jobs@.len() && k != i ==> final(self).cron_jobs@[k] == old(self).cron_jobs@[k],
                    None => final(self).cron_jobs@.len() == old(self).cron_jobs@.len() + 1
                        && cron_view(final(self).cron_jobs@.last()) == v
                        && final(self).cron_jobs@.take(old(self).cron_jobs@.len() as int) == old(self).cron_jobs@,
                }
            },
            final(self).waiting == old(self).waiting,
            final(self).waiting_deps == old(self).waiting_deps,
            final(self).processing == old(self).processing,
            final(self).dlq == old(self).dlq,
            final(self).next_id == old(self).next_id,
            final(self).clock == old(self).clock,
            final(self).debounce == old(self).debounce,
            final(self).stalled_counts == old(self).stalled_counts,
    {
        match validate_cron(schedule.as_str()) {
            Err(e) => {
                return Err(e);
            },
            Ok(()) => {},
        }
        let next_run = parse_next_cron_run(schedule.as_str(), now);
        let c = CronJob {
            name,
            queue,
            data,
            schedule: Some(schedule),
            repeat_every: None,
            priority,
            next_run,
            executions: 0,
            limit: None,
        };
        let ghost pre = self.cron_jobs@;
        let ghost cv = c;
        crate::recovery::upsert_cron(&mut self.cron_jobs, c);
        proof {
            crate::recovery::lemma_cron_index(pre, cv.name@);
            match crate::recovery::cron_index(pre, cv.name@) {
                Some(i) => {
                    assert(self.cron_jobs@[i] == cv);
                },
                None => {
                    assert(self.cron_jobs@.last() == cv);
                    assert(self.cron_jobs@.take(pre.len() as int) =~= pre);
                },
            }
        }
        Ok(())
    }

    /// Removes the cron job named `name`; returns whether there was one.
    pub fn delete_cron(&mut self, name: &str) -> (r: bool)
        ensures
            r == crate::recovery::cron_index(old(self).cron_jobs@, name@) is Some,
            match crate::recovery::cron_index(old(self).cron_jobs@, name@) {
                Some(i) => final(self).cron_jobs@ == old(self).cron_jobs@.remove(i),
                None => final(self).cron_jobs@ == old(self).cron_jobs@,
            },
            final(self).waiting == old(self).waiting,
            final(self).waiting_deps == old(self).waiting_deps,
            final(self).processing == old(self).processing,
            final(self).dlq == old(self).dlq,
            final(self).next_id == old(self).next_id,
            final(self).clock == old(self).clock,
            final(self).debounce == old(self).debounce,
            final(self).stalled_counts == old(self).stalled_counts,
    {
        let n = name.to_owned();
        proof {
            crate::recovery::lemma_cron_index(self.cron_jobs@, name@);
        }
        match crate::recovery::find_cron(&self.cron_jobs, &n) {
            Some(i) => {
                self.cron_jobs.remove(i);
                true
            },
            None => false,
        }
    }
}

/// The schedule "*/N" for `n`.
pub open spec fn interval_text(n: u64) -> Seq<char> {
    seq!['*', '/'] + decimal(n as nat)
}

/// A "*/N" schedule reads as an interval of N seconds.
pub proof fn lemma_interval_schedule(n: u64)
    ensures
        interval_secs(interval_text(n)) == Some(n as nat),
{
    crate::text::lemma_decimal_reads_back(n as nat);
    let s = interval_text(n);
    assert(s[0] == '*' && s[1] == '/');
    assert(s.skip(2) =~= decimal(n as nat));
}

/// A cron job due at `now` (`next_run <= now`) and not at its execution
/// limit, run after the jobs `cs`: it pushes one job with its queue,
/// payload and priority, counts one execution, and its next run is `now`
/// plus its repeat interval; else, with a schedule, the schedule's next run
/// after `now` as [`parse_next_cron_run`] computes it (for "*/N", `now`
/// plus N seconds); else one minute after `now`. The jobs before it are
/// handled as without it.
pub proof fn law_cron_next_run(cs: Seq<CronJob>, c: CronJob, now: u64)
    requires
        now <= MAX_TIME,
        c.next_run <= now,
        !(c.limit is Some && c.executions >= c.limit.unwrap()),
        c.executions < u64::MAX,
        c.repeat_every is Some ==> c.repeat_every.unwrap() <= MAX_TIME,
        c.schedule is Some ==> schedule_in_range(c.schedule.unwrap()@, now),
    ensures
        ({
            let (kept, fires) = cron_run(cs.push(c), now);
            let (k0, f0) = cron_run(cs, now);
            &&& kept == k0.push(kept.last())
            &&& fires == f0.push((c.queue@, c.data@, c.priority))
            &&& kept.last().0 == c.name@ && kept.last().7 == c.executions + 1
            &&& (c.repeat_every is Some ==> kept.last().6 == now + c.repeat_every.unwrap())
            &&& (c.repeat_every is None && c.schedule is None ==> kept.last().6 == now + 60000)
            &&& (c.repeat_every is None && c.schedule is Some ==> kept.last().6 == next_cron_run(c.schedule.unwrap()@, now))
            &&& forall|n: u64| #![trigger interval_text(n)] c.repeat_every is None && c.schedule is Some
                && c.schedule.unwrap()@ == interval_text(n) ==> kept.last().6 == now + n * 1000
        }),
{
    let all = cs.push(c);
    assert(all.drop_last() =~= cs);
    assert(all.last() == c);
    assert forall|n: u64| #![trigger interval_text(n)] c.repeat_every is None && c.schedule is Some
        && c.schedule.unwrap()@ == interval_text(n) implies cron_run(all, now).0.last().6 == now + n * 1000 by {
        lemma_interval_schedule(n);
    }
    match c.schedule {
        Some(s) => {
            match interval_secs(s@) {
                Some(n) => {},
                None => {
                    let found = cron_next_second(s@, (now / 1000) as i64);
                    assert(run_from_match(now, found) <= u64::MAX);
                },
            }
        },
        None => {},
    }
}

/// A cron job not yet due at `now` stays as it is and pushes nothing; a
/// due one that reached its execution limit is removed and pushes nothing.
pub proof fn law_cron_not_run(cs: Seq<CronJob>, c: CronJob, now: u64)
    ensures
        ({
            let (kept, fires) = cron_run(cs.push(c), now);
            let (k0, f0) = cron_run(cs, now);
            &&& c.next_run > now ==> kept == k0.push(cron_view(c)) && fires == f0
            &&& c.next_run <= now && c.limit is Some && c.executions >= c.limit.unwrap() ==> kept == k0 && fires == f0
        }),
{
    let all = cs.push(c);
    assert(all.drop_last() =~= cs);
    assert(all.last() == c);
}

} // verus!
