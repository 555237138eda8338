//! When interval jobs are due, and what each scheduler tick decides.
use vstd::prelude::*;

use crate::types::{valid_time, ScrapeJob, Timestamp};

verus! {

/// Integer division rounding toward zero, as Rust's `/` on integers does.
pub open spec fn div_toward_zero(a: int, b: int) -> int
    recommends
        b > 0,
{
    if a >= 0 {
        a / b
    } else {
        -((-a) / b)
    }
}

/// Whole seconds from `last` to `now`, as chrono's `Duration::num_seconds`
/// gives them: the difference is normalised to whole seconds and a
/// non-negative nanosecond part, and rounded toward zero.
pub open spec fn whole_seconds(now: (int, int), last: (int, int)) -> int {
    let frac = now.1 - last.1;
    let secs = now.0 - last.0 + if frac < 0 {
        -1int
    } else {
        0int
    };
    let nanos = if frac < 0 {
        frac + 1_000_000_000
    } else {
        frac
    };
    if secs < 0 && nanos > 0 {
        secs + 1
    } else {
        secs
    }
}

/// Whole minutes from `last` to `now`, as chrono computes
/// `(now - last).num_minutes()`: whole seconds divided by 60, rounding toward
/// zero.
pub open spec fn minutes_between(now: (int, int), last: (int, int)) -> int {
    div_toward_zero(whole_seconds(now, last), 60)
}

proof fn lemma_whole_seconds_monotone(last: (int, int), now: (int, int), later: (int, int))
    requires
        0 <= last.1 < 1_000_000_000,
        0 <= now.1 < 1_000_000_000,
        0 <= later.1 < 1_000_000_000,
        now.0 < later.0 || (now.0 == later.0 && now.1 <= later.1),
    ensures
        whole_seconds(now, last) <= whole_seconds(later, last),
{
}

/// A job last run at `last` (the epoch meaning never) is due at `now` when it
/// never ran or at least `interval_minutes` whole minutes have passed.
pub open spec fn is_due_spec(last: (int, int), now: (int, int), interval_minutes: int) -> bool {
    last == (0int, 0int) || minutes_between(now, last) >= interval_minutes
}

/// Whether a job last run at `last` is due at `now`.
pub fn is_due(last: Timestamp, now: Timestamp, interval_minutes: i64) -> (r: bool)
    ensures
        r == is_due_spec(last@, now@, interval_minutes as int),
{
    let ls = last.secs();
    let ln = last.nanos();
    let ns = now.secs();
    let nn = now.nanos();
    if ls == 0 && ln == 0 {
        return true;
    }
    let frac: i64 = (nn as i64) - (ln as i64);
    let mut secs: i64 = ns - ls;
    let mut nanos: i64 = frac;
    if frac < 0 {
        secs = secs - 1;
        nanos = frac + 1_000_000_000;
    }
    let whole: i64 = if secs < 0 && nanos > 0 {
        secs + 1
    } else {
        secs
    };
    // Rust's `/` on `i64` rounds toward zero.
    let minutes: i64 = if whole >= 0 {
        whole / 60
    } else {
        -((-whole) / 60)
    };
    minutes >= interval_minutes
}

// ---------------------------------------------------------------------------
// The run log and a scheduler tick.
// ---------------------------------------------------------------------------

/// Abstract run log: (job id, time of the last scheduled run) pairs.
pub type LogView = Seq<(Seq<char>, (int, int))>;

/// Index of the entry for `id`, or -1.
pub open spec fn log_find(log: LogView, id: Seq<char>) -> int
    decreases log.len(),
{
    if log.len() == 0 {
        -1
    } else {
        let r = log_find(log.drop_last(), id);
        if r >= 0 {
            r
        } else if log.last().0 == id {
            log.len() - 1
        } else {
            -1
        }
    }
}

/// The last run recorded for `id`, the epoch when there is none.
pub open spec fn log_get(log: LogView, id: Seq<char>) -> (int, int) {
    let i = log_find(log, id);
    if i >= 0 {
        log[i].1
    } else {
        (0int, 0int)
    }
}

/// The log with `t` recorded for `id`.
pub open spec fn log_set(log: LogView, id: Seq<char>, t: (int, int)) -> LogView {
    let i = log_find(log, id);
    if i >= 0 {
        log.update(i, (id, t))
    } else {
        log.push((id, t))
    }
}

/// `id` is the id of one of `jobs`.
pub open spec fn has_job(jobs: Seq<ScrapeJob>, id: Seq<char>) -> bool {
    exists|j: int| 0 <= j < jobs.len() && (#[trigger] jobs[j]).id@ == id
}

/// The entries of `log` whose job still exists, in order.
pub open spec fn log_retain(log: LogView, jobs: Seq<ScrapeJob>) -> LogView
    decreases log.len(),
{
    if log.len() == 0 {
        Seq::empty()
    } else if has_job(jobs, log.last().0) {
        log_retain(log.drop_last(), jobs).push(log.last())
    } else {
        log_retain(log.drop_last(), jobs)
    }
}

/// A job takes part in scheduling when it is enabled and has a positive
/// interval.
pub open spec fn scheduled(job: ScrapeJob) -> bool {
    job.enabled && match job.interval_minutes {
        Some(m) => m > 0,
        None => false,
    }
}

/// The interval as the scheduler compares it: minutes cast to `i64`.
pub open spec fn interval_of(job: ScrapeJob) -> int {
    match job.interval_minutes {
        Some(m) => (m as i64) as int,
        None => 0,
    }
}

/// The log and the indices of jobs to run after considering the first `k`
/// jobs of a tick at `now`, starting from the pruned log: each scheduled job
/// that is due runs, and `now` is recorded for it.
pub open spec fn tick_upto(log: LogView, jobs: Seq<ScrapeJob>, now: (int, int), k: int) -> (
    LogView,
    Seq<int>,
)
    decreases k,
{
    if k <= 0 {
        (log_retain(log, jobs), Seq::empty())
    } else {
        let (l, runs) = tick_upto(log, jobs, now, k - 1);
        let job = jobs[k - 1];
        if scheduled(job) && is_due_spec(log_get(l, job.id@), now, interval_of(job)) {
            (log_set(l, job.id@, now), runs.push(k - 1))
        } else {
            (l, runs)
        }
    }
}

/// The outcome of a whole tick.
pub open spec fn tick_spec(log: LogView, jobs: Seq<ScrapeJob>, now: (int, int)) -> (LogView, Seq<int>) {
    tick_upto(log, jobs, now, jobs.len() as int)
}

/// What the scheduler remembers between ticks: when each interval job last
/// ran.
pub struct ScheduleState {
    last_runs: Vec<(String, Timestamp)>,
}

impl View for ScheduleState {
    type V = LogView;

    closed spec fn view(&self) -> LogView {
        self.last_runs@.map_values(|e: (String, Timestamp)| (e.0@, e.1@))
    }
}

impl ScheduleState {
    /// A scheduler that has run nothing yet.
    pub fn new() -> (s: ScheduleState)
        ensures
            s@ == Seq::<(Seq<char>, (int, int))>::empty(),
    {
        let s = ScheduleState { last_runs: Vec::new() };
        assert(s@ =~= Seq::<(Seq<char>, (int, int))>::empty());
        s
    }

    /// Number of jobs with a recorded run.
    pub fn len(&self) -> (n: usize)
        ensures
            n == self@.len(),
    {
        self.last_runs.len()
    }

    /// The recorded last run of `id` (the epoch when there is none).
    pub fn last_run(&self, id: &str) -> (t: Timestamp)
        ensures
            t@ == log_get(self@, id@),
    {
        match self.find(id) {
            Some(i) => {
                assert(self@[i as int] == (self.last_runs@[i as int].0@, self.last_runs@[i as int].1@));
                self.last_runs[i].1
            },
            None => Timestamp::epoch(),
        }
    }

    fn find(&self, id: &str) -> (r: Option<usize>)
        ensures
            match r {
                Some(i) => log_find(self@, id@) == i as int && i < self@.len(),
                None => log_find(self@, id@) == -1,
            },
    {
        proof {
            lemma_log_find(self@, id@);
        }
        let n = self.last_runs.len();
        let mut i: usize = 0;
        while i < n
            invariant
                n == self@.len(),
                i <= n,
                forall|j: int| 0 <= j < i ==> self@[j].0 != id@,
                -1 <= log_find(self@, id@) < self@.len(),
                log_find(self@, id@) >= 0 ==> self@[log_find(self@, id@)].0 == id@,
                log_find(self@, id@) >= 0 ==> forall|j: int|
                    0 <= j < log_find(self@, id@) ==> self@[j].0 != id@,
                log_find(self@, id@) == -1 <==> forall|j: int| 0 <= j < n ==> self@[j].0 != id@,
            decreases n - i,
        {
            assert(self@[i as int] == (self.last_runs@[i as int].0@, self.last_runs@[i as int].1@));
            if crate::field_map::str_equal(self.last_runs[i].0.as_str(), id) {
                return Some(i);
            }
            i = i + 1;
        }
        None
    }

    fn set(&mut self, id: &str, t: Timestamp)
        ensures
            final(self)@ == log_set(old(self)@, id@, t@),
    {
        let pos = self.find(id);
        let ghost v0 = self@;
        match pos {
            Some(i) => {
                self.last_runs.set(i, (String::from_str(id), t));
            },
            None => {
                self.last_runs.push((String::from_str(id), t));
            },
        }
        assert(self@ =~= log_set(v0, id@, t@));
    }

    /// Drops the entries of jobs that no longer exist.
    fn retain_jobs(&mut self, jobs: &Vec<ScrapeJob>)
        ensures
            final(self)@ == log_retain(old(self)@, jobs@),
    {
        let ghost v0 = self@;
        let mut kept: Vec<(String, Timestamp)> = Vec::new();
        let mut i: usize = 0;
        while i < self.last_runs.len()
            invariant
                v0 == self@,
                i <= v0.len(),
                kept@.map_values(|e: (String, Timestamp)| (e.0@, e.1@)) =~= log_retain(
                    v0.take(i as int),
                    jobs@,
                ),
            decreases self.last_runs.len() - i,
        {
            assert(v0[i as int] == (self.last_runs@[i as int].0@, self.last_runs@[i as int].1@));
            assert(v0.take(i + 1).drop_last() =~= v0.take(i as int));
            assert(v0.take(i + 1).last() == v0[i as int]);
            let e = &self.last_runs[i];
            if job_exists(jobs, e.0.as_str()) {
                kept.push((e.0.clone(), e.1));
            }
            i = i + 1;
        }
        assert(v0.take(v0.len() as int) =~= v0);
        self.last_runs = kept;
    }

    /// One scheduler tick at `now` over the current jobs: forgets jobs that
    /// no longer exist, then, in job order, marks every enabled job with a
    /// positive interval that is due as run at `now`. Returns the indices of
    /// the jobs to start.
    pub fn tick(&mut self, jobs: &Vec<ScrapeJob>, now: Timestamp) -> (runs: Vec<usize>)
        ensures
            final(self)@ == tick_spec(old(self)@, jobs@, now@).0,
            runs@.map_values(|i: usize| i as int) == tick_spec(old(self)@, jobs@, now@).1,
    {
        let ghost v0 = self@;
        self.retain_jobs(jobs);
        let mut runs: Vec<usize> = Vec::new();
        let mut k: usize = 0;
        assert(runs@.map_values(|i: usize| i as int) =~= Seq::<int>::empty());
        while k < jobs.len()
            invariant
                k <= jobs@.len(),
                self@ == tick_upto(v0, jobs@, now@, k as int).0,
                runs@.map_values(|i: usize| i as int) == tick_upto(v0, jobs@, now@, k as int).1,
            decreases jobs.len() - k,
        {
            let job = &jobs[k];
            let minutes: u64 = match job.interval_minutes {
                Some(m) => m,
                None => 0,
            };
            if job.enabled && minutes > 0 {
                let last = self.last_run(job.id.as_str());
                let due = is_due(last, now, minutes as i64);
                if due {
                    self.set(job.id.as_str(), now);
                    let ghost r0 = runs@;
                    runs.push(k);
                    assert(runs@.map_values(|i: usize| i as int) =~= r0.map_values(
                        |i: usize| i as int,
                    ).push(k as int));
                }
            }
            k = k + 1;
        }
        runs
    }
}

/// Whether some job has id `id`.
fn job_exists(jobs: &Vec<ScrapeJob>, id: &str) -> (r: bool)
    ensures
        r == has_job(jobs@, id@),
{
    let mut i: usize = 0;
    while i < jobs.len()
        invariant
            i <= jobs@.len(),
            forall|j: int| 0 <= j < i ==> jobs@[j].id@ != id@,
        decreases jobs.len() - i,
    {
        if crate::field_map::str_equal(jobs[i].id.as_str(), id) {
            return true;
        }
        i = i + 1;
    }
    false
}

pub proof fn lemma_log_find(log: LogView, id: Seq<char>)
    ensures
        -1 <= log_find(log, id) < log.len(),
        log_find(log, id) >= 0 ==> log[log_find(log, id)].0 == id,
        log_find(log, id) >= 0 ==> forall|j: int| 0 <= j < log_find(log, id) ==> log[j].0 != id,
        log_find(log, id) == -1 <==> forall|j: int| 0 <= j < log.len() ==> log[j].0 != id,
    decreases log.len(),
{
    if log.len() > 0 {
        lemma_log_find(log.drop_last(), id);
        assert forall|j: int| 0 <= j < log.len() - 1 implies log.drop_last()[j] == log[j] by {}
    }
}

/// Recording a run for one job leaves every other job's last run as it was.
pub proof fn lemma_log_set_get(log: LogView, id: Seq<char>, t: (int, int), other: Seq<char>)
    ensures
        log_get(log_set(log, id, t), id) == t,
        other != id ==> log_get(log_set(log, id, t), other) == log_get(log, other),
{
    lemma_log_find(log, id);
    lemma_log_find(log, other);
    let l2 = log_set(log, id, t);
    lemma_log_find(l2, id);
    lemma_log_find(l2, other);
    if log_find(log, id) >= 0 {
        assert(l2[log_find(log, id)].0 == id);
    } else {
        assert(l2[log.len() as int].0 == id);
    }
    if other != id {
        if log_find(log, other) >= 0 {
            assert(l2[log_find(log, other)].0 == other);
        }
        if log_find(l2, other) >= 0 {
            assert(log[log_find(l2, other)].0 == other);
        }
    }
}

/// A job that never ran is due, whatever its interval.
pub proof fn law_never_run_is_due(now: (int, int), interval_minutes: int)
    ensures
        is_due_spec((0int, 0int), now, interval_minutes),
{
}

/// A job with a positive interval that ran at `now` is not due again at the
/// same instant (unless `now` is the epoch, which stands for "never").
pub proof fn law_not_due_at_same_instant(now: (int, int), interval_minutes: int)
    requires
        interval_minutes > 0,
        now != (0int, 0int),
    ensures
        !is_due_spec(now, now, interval_minutes),
{
}

/// A job that is due stays due as time goes on, until it runs: for valid
/// times `now <= later`, due at `now` means due at `later`.
pub proof fn law_due_stays_due(last: (int, int), now: (int, int), later: (int, int), interval_minutes: int)
    requires
        0 <= last.1 < 1_000_000_000,
        0 <= now.1 < 1_000_000_000,
        0 <= later.1 < 1_000_000_000,
        now.0 < later.0 || (now.0 == later.0 && now.1 <= later.1),
        is_due_spec(last, now, interval_minutes),
    ensures
        is_due_spec(last, later, interval_minutes),
{
    if last != (0int, 0int) {
        lemma_whole_seconds_monotone(last, now, later);
        let w1 = whole_seconds(now, last);
        let w2 = whole_seconds(later, last);
        assert(minutes_between(now, last) == div_toward_zero(w1, 60));
        assert(minutes_between(later, last) == div_toward_zero(w2, 60));
        lemma_div_toward_zero_monotone(w1, w2);
    }
}

proof fn lemma_div_toward_zero_monotone(a: int, b: int)
    requires
        a <= b,
    ensures
        div_toward_zero(a, 60) <= div_toward_zero(b, 60),
{
    if a >= 0 {
        vstd::arithmetic::div_mod::lemma_div_is_ordered(a, b, 60);
    } else if b >= 0 {
        vstd::arithmetic::div_mod::lemma_div_pos_is_pos(-a, 60);
        vstd::arithmetic::div_mod::lemma_div_pos_is_pos(b, 60);
    } else {
        vstd::arithmetic::div_mod::lemma_div_is_ordered(-b, -a, 60);
    }
}

/// After a tick, every job it started has `now` as its last run.
pub proof fn law_tick_records_now(log: LogView, jobs: Seq<ScrapeJob>, now: (int, int), m: int)
    requires
        0 <= m < tick_spec(log, jobs, now).1.len(),
    ensures
        0 <= tick_spec(log, jobs, now).1[m] < jobs.len(),
        log_get(tick_spec(log, jobs, now).0, jobs[tick_spec(log, jobs, now).1[m]].id@) == now,
{
    lemma_tick_upto_records(log, jobs, now, jobs.len() as int);
}

/// No two jobs share an id.
pub open spec fn distinct_ids(jobs: Seq<ScrapeJob>) -> bool {
    forall|a: int, b: int| 0 <= a < b < jobs.len() ==> (#[trigger] jobs[a]).id@ != (#[trigger] jobs[b]).id@
}

/// Among the first `k` jobs, the indices, in order, of those a tick at `now`
/// starts when the run log (after forgetting deleted jobs) is `pruned`: the
/// enabled jobs with a positive interval that are due by `pruned`.
pub open spec fn due_indices(pruned: LogView, jobs: Seq<ScrapeJob>, now: (int, int), k: int) -> Seq<int>
    decreases k,
{
    if k <= 0 {
        Seq::empty()
    } else if scheduled(jobs[k - 1]) && is_due_spec(log_get(pruned, jobs[k - 1].id@), now, interval_of(jobs[k - 1])) {
        due_indices(pruned, jobs, now, k - 1).push(k - 1)
    } else {
        due_indices(pruned, jobs, now, k - 1)
    }
}

/// What a tick does, job by job, when no two jobs share an id: the jobs it
/// starts are exactly the enabled jobs with a positive interval that are due
/// by the log of the jobs that still exist, in job order; afterwards each
/// started job's last run is `now`, every other existing job keeps its last
/// run, and deleted jobs are forgotten.
pub proof fn law_tick_starts_due_jobs(log: LogView, jobs: Seq<ScrapeJob>, now: (int, int), id: Seq<char>)
    requires
        distinct_ids(jobs),
    ensures
        tick_spec(log, jobs, now).1 == due_indices(log_retain(log, jobs), jobs, now, jobs.len() as int),
        log_get(tick_spec(log, jobs, now).0, id) == if exists|m: int|
            0 <= m < tick_spec(log, jobs, now).1.len() && #[trigger] jobs[tick_spec(log, jobs, now).1[m]].id@ == id {
            now
        } else if has_job(jobs, id) {
            log_get(log, id)
        } else {
            (0int, 0int)
        },
{
    lemma_tick_upto_due(log, jobs, now, jobs.len() as int, id);
    lemma_retain_get(log, jobs, id);
}

proof fn lemma_tick_upto_due(log: LogView, jobs: Seq<ScrapeJob>, now: (int, int), k: int, id: Seq<char>)
    requires
        distinct_ids(jobs),
        0 <= k <= jobs.len(),
    ensures
        tick_upto(log, jobs, now, k).1 == due_indices(log_retain(log, jobs), jobs, now, k),
        forall|m: int| 0 <= m < tick_upto(log, jobs, now, k).1.len() ==> 0 <= #[trigger] tick_upto(log, jobs, now, k).1[m] < k,
        forall|x: Seq<char>| (forall|j: int| 0 <= j < k ==> (#[trigger] jobs[j]).id@ != x) ==> log_get(tick_upto(log, jobs, now, k).0, x) == log_get(log_retain(log, jobs), x),
        log_get(tick_upto(log, jobs, now, k).0, id) == if exists|m: int|
            0 <= m < tick_upto(log, jobs, now, k).1.len() && #[trigger] jobs[tick_upto(log, jobs, now, k).1[m]].id@ == id {
            now
        } else {
            log_get(log_retain(log, jobs), id)
        },
    decreases k,
{
    if k > 0 {
        lemma_tick_upto_due(log, jobs, now, k - 1, id);
        let (l, runs) = tick_upto(log, jobs, now, k - 1);
        let job = jobs[k - 1];
        let pruned = log_retain(log, jobs);
        assert forall|j: int| 0 <= j < k - 1 implies (#[trigger] jobs[j]).id@ != job.id@ by {
            assert(jobs[j].id@ != jobs[k - 1].id@);
        }
        assert(log_get(l, job.id@) == log_get(pruned, job.id@));
        let (l2, runs2) = tick_upto(log, jobs, now, k);
        if scheduled(job) && is_due_spec(log_get(l, job.id@), now, interval_of(job)) {
            assert(runs2 == runs.push(k - 1));
            assert forall|x: Seq<char>| (forall|j: int| 0 <= j < k ==> (#[trigger] jobs[j]).id@ != x) implies log_get(l2, x) == log_get(pruned, x) by {
                assert(jobs[k - 1].id@ != x);
                lemma_log_set_get(l, job.id@, now, x);
            }
            lemma_log_set_get(l, job.id@, now, id);
            if job.id@ == id {
                assert(jobs[runs2[runs.len() as int]].id@ == id);
            } else {
                if exists|m: int| 0 <= m < runs2.len() && #[trigger] jobs[runs2[m]].id@ == id {
                    let m = choose|m: int| 0 <= m < runs2.len() && #[trigger] jobs[runs2[m]].id@ == id;
                    assert(m < runs.len());
                    assert(runs2[m] == runs[m]);
                }
                if exists|m: int| 0 <= m < runs.len() && #[trigger] jobs[runs[m]].id@ == id {
                    let m = choose|m: int| 0 <= m < runs.len() && #[trigger] jobs[runs[m]].id@ == id;
                    assert(runs2[m] == runs[m]);
                }
            }
        }
    }
}

/// Forgetting deleted jobs keeps the last run of every job that exists and
/// drops the others.
proof fn lemma_retain_get(log: LogView, jobs: Seq<ScrapeJob>, id: Seq<char>)
    ensures
        has_job(jobs, id) ==> (log_find(log_retain(log, jobs), id) >= 0) == (log_find(log, id) >= 0),
        !has_job(jobs, id) ==> log_find(log_retain(log, jobs), id) == -1,
        log_get(log_retain(log, jobs), id) == if has_job(jobs, id) {
            log_get(log, id)
        } else {
            (0int, 0int)
        },
    decreases log.len(),
{
    if log.len() > 0 {
        let prev = log.drop_last();
        let last = log.last();
        lemma_retain_get(prev, jobs, id);
        let rp = log_retain(prev, jobs);
        let r = log_retain(log, jobs);
        lemma_log_find(rp, id);
        lemma_log_find(prev, id);
        lemma_log_find(log, id);
        lemma_log_find(r, id);
        if log_find(prev, id) >= 0 {
            assert(log[log_find(prev, id)] == prev[log_find(prev, id)]);
        }
        if has_job(jobs, last.0) {
            assert(r == rp.push(last));
            assert(r.drop_last() =~= rp);
            assert(r.last() == last);
            if log_find(rp, id) >= 0 {
                assert(r[log_find(rp, id)] == rp[log_find(rp, id)]);
            }
        } else {
            assert(r == rp);
            if last.0 == id {
                assert(!has_job(jobs, id));
            }
        }
    }
}

/// After a tick, a job that no longer exists has no recorded run: the
/// scheduler forgets deleted jobs, so one re-created under the same id counts
/// as never run.
pub proof fn law_tick_forgets_deleted(log: LogView, jobs: Seq<ScrapeJob>, now: (int, int), id: Seq<char>)
    requires
        !has_job(jobs, id),
    ensures
        log_get(tick_spec(log, jobs, now).0, id) == (0int, 0int),
{
    lemma_tick_upto_forgets(log, jobs, now, id, jobs.len() as int);
}

proof fn lemma_retain_kept(log: LogView, jobs: Seq<ScrapeJob>)
    ensures
        forall|i: int| 0 <= i < log_retain(log, jobs).len() ==> has_job(jobs, #[trigger] log_retain(log, jobs)[i].0),
    decreases log.len(),
{
    if log.len() > 0 {
        lemma_retain_kept(log.drop_last(), jobs);
        let prev = log_retain(log.drop_last(), jobs);
        let cur = log_retain(log, jobs);
        assert forall|i: int| 0 <= i < cur.len() implies has_job(jobs, #[trigger] cur[i].0) by {
            if i < prev.len() {
                assert(cur[i] == prev[i]);
            }
        }
    }
}

proof fn lemma_tick_upto_forgets(log: LogView, jobs: Seq<ScrapeJob>, now: (int, int), id: Seq<char>, k: int)
    requires
        !has_job(jobs, id),
        k <= jobs.len(),
    ensures
        log_get(tick_upto(log, jobs, now, k).0, id) == (0int, 0int),
    decreases k,
{
    if k <= 0 {
        let l = log_retain(log, jobs);
        lemma_retain_kept(log, jobs);
        lemma_log_find(l, id);
        if log_find(l, id) >= 0 {
            assert(has_job(jobs, l[log_find(l, id)].0));
        }
    } else {
        lemma_tick_upto_forgets(log, jobs, now, id, k - 1);
        let (l, runs) = tick_upto(log, jobs, now, k - 1);
        let job = jobs[k - 1];
        assert(has_job(jobs, job.id@));
        lemma_log_set_get(l, job.id@, now, id);
    }
}

proof fn lemma_tick_upto_records(log: LogView, jobs: Seq<ScrapeJob>, now: (int, int), k: int)
    requires
        k <= jobs.len(),
    ensures
        forall|m: int| 0 <= m < tick_upto(log, jobs, now, k).1.len() ==> 0 <= #[trigger] tick_upto(log, jobs, now, k).1[m] < k,
        forall|m: int| 0 <= m < tick_upto(log, jobs, now, k).1.len() ==> log_get(tick_upto(log, jobs, now, k).0, jobs[#[trigger] tick_upto(log, jobs, now, k).1[m]].id@) == now,
    decreases k,
{
    if k > 0 {
        lemma_tick_upto_records(log, jobs, now, k - 1);
        let (l, runs) = tick_upto(log, jobs, now, k - 1);
        let job = jobs[k - 1];
        if scheduled(job) && is_due_spec(log_get(l, job.id@), now, interval_of(job)) {
            let l2 = log_set(l, job.id@, now);
            let r2 = runs.push(k - 1);
            assert forall|m: int| 0 <= m < r2.len() implies log_get(l2, jobs[#[trigger] r2[m]].id@) == now by {
                lemma_log_set_get(l, job.id@, now, jobs[r2[m]].id@);
                if m < runs.len() {
                    assert(r2[m] == runs[m]);
                }
            }
            assert forall|m: int| 0 <= m < r2.len() implies 0 <= #[trigger] r2[m] < k by {
                if m < runs.len() {
                    assert(r2[m] == runs[m]);
                }
            }
        }
    }
}

} // verus!
