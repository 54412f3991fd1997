//! A cron job with the runs of the jobs it created, latest first.
use vstd::prelude::*;
use crate::model::{OwnerRef, opt_view, unwrap_or_empty, unwrap_or_str, clone_opt};
use crate::benchmark::opt_seq;
use crate::age::{age_text, format_age};
use crate::clock::{rfc3339_text, rfc3339_seconds, to_rfc3339, parse_rfc3339};
use crate::order::{Ordered, sort_ordered, sort_stable};
use crate::text::{int_repr, dec_repr, seq_lt, str_lt, lemma_seq_lt_total, lemma_seq_lt_transitive, string_of, str_eq, append_i64};

verus! {

/// One run of a job.
#[derive(Debug)]
pub struct JobRun {
    pub name: String,
    pub namespace: String,
    /// `Running`, `Succeeded`, `Failed` or `Unknown`.
    pub status: String,
    pub start_time: Option<String>,
    pub completion_time: Option<String>,
    pub duration_secs: Option<i64>,
    /// `succeeded/desired`.
    pub completions: String,
    pub parallelism: i32,
    pub active: i32,
    pub succeeded: i32,
    pub failed: i32,
    pub age: String,
}

/// A cron job and its runs.
#[derive(Debug)]
pub struct CronJobDetail {
    pub name: String,
    pub namespace: String,
    pub schedule: String,
    pub suspend: bool,
    pub active_count: i32,
    pub last_schedule_time: Option<String>,
    pub last_successful_time: Option<String>,
    pub concurrency_policy: String,
    pub jobs: Vec<JobRun>,
    pub age: String,
}

/// What the detail view reads of a job; times in Unix seconds.
#[derive(Debug)]
pub struct JobInfo {
    pub name: Option<String>,
    pub namespace: Option<String>,
    pub owner_references: Option<Vec<OwnerRef>>,
    pub creation_timestamp: Option<i64>,
    pub start_time: Option<i64>,
    pub completion_time: Option<i64>,
    pub active: Option<i32>,
    pub succeeded: Option<i32>,
    pub failed: Option<i32>,
    pub completions: Option<i32>,
    pub parallelism: Option<i32>,
}

/// What the detail view reads of a cron job; times in Unix seconds.
#[derive(Debug)]
pub struct CronJobInfo {
    pub name: String,
    pub namespace: String,
    pub schedule: Option<String>,
    pub suspend: Option<bool>,
    pub concurrency_policy: Option<String>,
    /// The number of active jobs the status lists, when it lists them.
    pub active_jobs: Option<usize>,
    pub last_schedule_time: Option<i64>,
    pub last_successful_time: Option<i64>,
    pub creation_timestamp: Option<i64>,
}

/// Whether some owner in `rs` is the cron job named `name`.
pub open spec fn has_cronjob_owner(rs: Seq<OwnerRef>, name: Seq<char>) -> bool
    decreases rs.len(),
{
    if rs.len() == 0 {
        false
    } else {
        (rs.last().kind@ == "CronJob"@ && rs.last().name@ == name) || has_cronjob_owner(rs.drop_last(), name)
    }
}

/// Whether some owner of a job is the cron job named `name`.
pub open spec fn owned_by_cronjob(refs: Option<Vec<OwnerRef>>, name: Seq<char>) -> bool {
    match refs {
        Some(rs) => has_cronjob_owner(rs@, name),
        None => false,
    }
}

fn is_owned(refs: &Option<Vec<OwnerRef>>, name: &str) -> (r: bool)
    ensures
        r == owned_by_cronjob(*refs, name@),
{
    match refs {
        Some(rs) => {
            let mut i: usize = 0;
            let mut found = false;
            while i < rs.len()
                invariant
                    i <= rs@.len(),
                    found == has_cronjob_owner(rs@.subrange(0, i as int), name@),
                decreases rs@.len() - i,
            {
                proof {
                    assert(rs@.subrange(0, i + 1).drop_last() =~= rs@.subrange(0, i as int));
                    assert(rs@.subrange(0, i + 1).last() == rs@[i as int]);
                }
                if str_eq(rs[i].kind.as_str(), "CronJob") && str_eq(rs[i].name.as_str(), name) {
                    found = true;
                }
                i = i + 1;
            }
            assert(rs@.subrange(0, rs@.len() as int) =~= rs@);
            found
        },
        None => false,
    }
}

/// The state of a job: running while it has active pods, succeeded once
/// enough completed, else failed when some failed.
pub open spec fn job_status_text(active: i32, succeeded: i32, failed: i32, desired: i32) -> Seq<char> {
    if active > 0 {
        "Running"@
    } else if succeeded >= desired {
        "Succeeded"@
    } else if failed > 0 {
        "Failed"@
    } else {
        "Unknown"@
    }
}

/// The RFC 3339 text of an optional time.
pub open spec fn time_text(t: Option<i64>) -> Option<Seq<char>> {
    match t {
        Some(s) => rfc3339_text(s),
        None => None,
    }
}

/// The seconds between the start and completion texts, read back.
pub open spec fn duration_of(start: Option<Seq<char>>, end: Option<Seq<char>>) -> Option<i64> {
    match (start, end) {
        (Some(s), Some(e)) => match (rfc3339_seconds(s), rfc3339_seconds(e)) {
            (Some(a), Some(b)) => if i64::MIN <= b - a <= i64::MAX { Some((b - a) as i64) } else { None },
            _ => None,
        },
        _ => None,
    }
}

/// An age of `now - created`, `?` without a creation time.
pub open spec fn age_or_unknown(created: Option<i64>, now: i64) -> Seq<char> {
    match created {
        Some(c) => age_text(now - c),
        None => "?"@,
    }
}

/// `now - created` fits in an `i64`.
pub open spec fn age_fits(created: Option<i64>, now: i64) -> bool {
    created matches Some(c) ==> i64::MIN <= now - c <= i64::MAX
}

/// `r` describes the run of job `j` at `now`.
pub open spec fn job_run_of(r: JobRun, j: JobInfo, now: i64) -> bool {
    let active = match j.active { Some(n) => n, None => 0 };
    let succeeded = match j.succeeded { Some(n) => n, None => 0 };
    let failed = match j.failed { Some(n) => n, None => 0 };
    let desired = match j.completions { Some(n) => n, None => 1 };
    &&& r.name@ == opt_view(j.name)
    &&& r.namespace@ == opt_view(j.namespace)
    &&& r.status@ == job_status_text(active, succeeded, failed, desired)
    &&& opt_seq(r.start_time) == time_text(j.start_time)
    &&& opt_seq(r.completion_time) == time_text(j.completion_time)
    &&& r.duration_secs == duration_of(time_text(j.start_time), time_text(j.completion_time))
    &&& r.completions@ == int_repr(succeeded as int) + seq!['/'] + int_repr(desired as int)
    &&& r.parallelism == (match j.parallelism { Some(n) => n, None => 1 })
    &&& r.active == active
    &&& r.succeeded == succeeded
    &&& r.failed == failed
    &&& r.age@ == age_or_unknown(j.creation_timestamp, now)
}

fn time_string(t: Option<i64>) -> (r: Option<String>)
    ensures
        opt_seq(r) == time_text(t),
{
    match t {
        Some(s) => to_rfc3339(s),
        None => None,
    }
}

fn age_string(created: Option<i64>, now: i64) -> (r: String)
    requires
        age_fits(created, now),
    ensures
        r@ == age_or_unknown(created, now),
{
    match created {
        Some(c) => format_age(now - c),
        None => string_of("?"),
    }
}

/// Describes the run of job `j` at Unix time `now`.
pub fn job_run(j: &JobInfo, now: i64) -> (r: JobRun)
    requires
        age_fits(j.creation_timestamp, now),
    ensures
        job_run_of(r, *j, now),
{
    let start_time = time_string(j.start_time);
    let completion_time = time_string(j.completion_time);
    let duration_secs = match (&start_time, &completion_time) {
        (Some(s), Some(c)) => match (parse_rfc3339(s.as_str()), parse_rfc3339(c.as_str())) {
            (Some(a), Some(b)) => {
                if (b as i128) - (a as i128) >= i64::MIN as i128 && (b as i128) - (a as i128) <= i64::MAX as i128 {
                    Some(b - a)
                } else {
                    None
                }
            },
            _ => None,
        },
        _ => None,
    };
    let active = match j.active { Some(n) => n, None => 0 };
    let succeeded = match j.succeeded { Some(n) => n, None => 0 };
    let failed = match j.failed { Some(n) => n, None => 0 };
    let desired = match j.completions { Some(n) => n, None => 1 };
    let parallelism = match j.parallelism { Some(n) => n, None => 1 };
    let status = if active > 0 {
        string_of("Running")
    } else if succeeded >= desired {
        string_of("Succeeded")
    } else if failed > 0 {
        string_of("Failed")
    } else {
        string_of("Unknown")
    };
    let mut completions = String::new();
    append_i64(&mut completions, succeeded as i64);
    completions.append("/");
    append_i64(&mut completions, desired as i64);
    proof {
        reveal_strlit("/");
        assert(completions@ =~= int_repr(succeeded as int) + seq!['/'] + int_repr(desired as int));
    }
    JobRun {
        name: unwrap_or_empty(&j.name),
        namespace: unwrap_or_empty(&j.namespace),
        status,
        start_time,
        completion_time,
        duration_secs,
        completions,
        parallelism,
        active,
        succeeded,
        failed,
        age: age_string(j.creation_timestamp, now),
    }
}

/// The start time of a run as text, empty when unknown.
pub open spec fn start_text(r: JobRun) -> Seq<char> {
    match r.start_time {
        Some(s) => s@,
        None => Seq::empty(),
    }
}

impl Ordered for JobRun {
    /// Later start times first, compared as text.
    open spec fn before(a: JobRun, b: JobRun) -> bool {
        seq_lt(start_text(b), start_text(a))
    }

    proof fn lemma_asymmetric(a: JobRun, b: JobRun) {
        lemma_seq_lt_total(start_text(a), start_text(b));
    }

    proof fn lemma_not_before_transitive(a: JobRun, b: JobRun, c: JobRun) {
        let (x, y, z) = (start_text(a), start_text(b), start_text(c));
        lemma_seq_lt_total(x, y);
        lemma_seq_lt_total(y, z);
        lemma_seq_lt_total(x, z);
        if seq_lt(x, z) {
            if seq_lt(y, x) {
                lemma_seq_lt_transitive(y, x, z);
            }
        }
    }

    fn is_before(&self, other: &JobRun) -> (r: bool) {
        let a: &str = match &self.start_time {
            Some(s) => s.as_str(),
            None => "",
        };
        let b: &str = match &other.start_time {
            Some(s) => s.as_str(),
            None => "",
        };
        proof {
            reveal_strlit("");
            assert(""@ =~= Seq::<char>::empty());
        }
        str_lt(b, a)
    }
}

/// The jobs of `jobs` owned by the cron job named `name`, in order.
pub open spec fn owned_jobs(jobs: Seq<JobInfo>, name: Seq<char>) -> Seq<JobInfo>
    decreases jobs.len(),
{
    if jobs.len() == 0 {
        Seq::empty()
    } else {
        let r = owned_jobs(jobs.drop_last(), name);
        if owned_by_cronjob(jobs.last().owner_references, name) { r.push(jobs.last()) } else { r }
    }
}

/// Every job's age can be computed at `now`.
pub open spec fn ages_fit(jobs: Seq<JobInfo>, now: i64) -> bool {
    forall|i: int| 0 <= i < jobs.len() ==> age_fits(#[trigger] jobs[i].creation_timestamp, now)
}

/// The detail of cron job `cj` with the runs of the jobs among `jobs` that
/// it owns, latest start first (ties in list order), at Unix time `now`.
pub fn cronjob_detail(cj: &CronJobInfo, jobs: &Vec<JobInfo>, now: i64) -> (r: CronJobDetail)
    requires
        age_fits(cj.creation_timestamp, now),
        ages_fit(jobs@, now),
    ensures
        r.name@ == cj.name@,
        r.namespace@ == cj.namespace@,
        r.schedule@ == opt_view(cj.schedule),
        r.suspend == (cj.suspend == Some(true)),
        r.active_count == (match cj.active_jobs { Some(n) => n as i32, None => 0 }),
        opt_seq(r.last_schedule_time) == time_text(cj.last_schedule_time),
        opt_seq(r.last_successful_time) == time_text(cj.last_successful_time),
        r.concurrency_policy@ == (match cj.concurrency_policy { Some(p) => p@, None => "Allow"@ }),
        r.age@ == age_or_unknown(cj.creation_timestamp, now),
        exists|runs: Seq<JobRun>| #![trigger sort_ordered(runs)] {
            let owned = owned_jobs(jobs@, cj.name@);
            &&& runs.len() == owned.len()
            &&& forall|i: int| 0 <= i < owned.len() ==> job_run_of(#[trigger] runs[i], owned[i], now)
            &&& r.jobs@ == sort_ordered(runs)
        },
{
    let mut runs: Vec<JobRun> = Vec::new();
    let mut i: usize = 0;
    while i < jobs.len()
        invariant
            i <= jobs@.len(),
            ages_fit(jobs@, now),
            runs@.len() == owned_jobs(jobs@.subrange(0, i as int), cj.name@).len(),
            forall|k: int| 0 <= k < runs@.len() ==>
                job_run_of(#[trigger] runs@[k], owned_jobs(jobs@.subrange(0, i as int), cj.name@)[k], now),
        decreases jobs@.len() - i,
    {
        let ghost prev = owned_jobs(jobs@.subrange(0, i as int), cj.name@);
        proof {
            assert(jobs@.subrange(0, i + 1).drop_last() =~= jobs@.subrange(0, i as int));
            assert(jobs@.subrange(0, i + 1).last() == jobs@[i as int]);
            assert(age_fits(jobs@[i as int].creation_timestamp, now));
        }
        if is_owned(&jobs[i].owner_references, cj.name.as_str()) {
            let run = job_run(&jobs[i], now);
            runs.push(run);
            proof {
                assert(owned_jobs(jobs@.subrange(0, i + 1), cj.name@) == prev.push(jobs@[i as int]));
            }
        }
        i = i + 1;
    }
    proof {
        assert(jobs@.subrange(0, jobs@.len() as int) =~= jobs@);
    }
    let ghost rv = runs@;
    let sorted = sort_stable(runs);
    CronJobDetail {
        name: cj.name.clone(),
        namespace: cj.namespace.clone(),
        schedule: unwrap_or_empty(&cj.schedule),
        suspend: match cj.suspend { Some(b) => b, None => false },
        active_count: match cj.active_jobs { Some(n) => n as i32, None => 0 },
        last_schedule_time: time_string(cj.last_schedule_time),
        last_successful_time: time_string(cj.last_successful_time),
        concurrency_policy: unwrap_or_str(&cj.concurrency_policy, "Allow"),
        jobs: sorted,
        age: age_string(cj.creation_timestamp, now),
    }
}

/// The name of a job started by hand from cron job `name` at Unix time
/// `now`: `<name>-manual-<now>`.
pub fn manual_job_name(name: &str, now: i64) -> (r: String)
    ensures
        r@ == name@ + "-manual-"@ + int_repr(now as int),
{
    let mut s = string_of(name);
    s.append("-manual-");
    append_i64(&mut s, now);
    s
}

} // verus!
