//! The decisions of creating a GitHub issue from a failed workflow run.
use vstd::prelude::*;

pub mod log_archive;
pub mod util;

use crate::ci_provider::util::{
    DateFilter, LabelFilter, date_filter_text, label_filter_text,
};
use crate::config::commands::{LEVENSHTEIN_THRESHOLD, WorkflowKind};
use crate::err_parse::{parse_error_message, prepared_message, summary_of, log_of};
use crate::issue::{FailedJob, texts};
use crate::text::{byte_len, chars_of, decimal, decimal_string, digit_char, str_byte_len};
use crate::unicode::{ascii_digit, is_ascii_digit};
use crate::util::{
    lemma_smallest_distance_zero, smallest_distance, spec_ensure_https_prefix,
    spec_remove_timestamps_and_ids,
};
use self::util::{JobErrorLog, concat_contents, job_url, run_url_to_job_url};

verus! {

/// A step of a workflow job: its name and whether it failed.
#[derive(Debug)]
pub struct WorkflowStep {
    pub name: String,
    pub failed: bool,
}

/// A job of a workflow run: its ID, its name, the attempt of the run that it belongs to,
/// whether it failed, and its steps.
#[derive(Debug)]
pub struct WorkflowJob {
    pub id: u64,
    pub name: String,
    pub run_attempt: u32,
    pub failed: bool,
    pub steps: Vec<WorkflowStep>,
}

/// The highest run attempt among `jobs` (0 for no jobs).
pub open spec fn latest_attempt(jobs: Seq<WorkflowJob>) -> u32
    decreases jobs.len(),
{
    if jobs.len() == 0 {
        0
    } else {
        let prev = latest_attempt(jobs.drop_last());
        if jobs.last().run_attempt > prev {
            jobs.last().run_attempt
        } else {
            prev
        }
    }
}

/// The failed jobs among `jobs` that belong to the run attempt `attempt`, in order.
pub open spec fn failed_jobs_of_attempt(jobs: Seq<WorkflowJob>, attempt: u32) -> Seq<WorkflowJob>
    decreases jobs.len(),
{
    if jobs.len() == 0 {
        Seq::empty()
    } else {
        let prev = failed_jobs_of_attempt(jobs.drop_last(), attempt);
        if jobs.last().run_attempt == attempt && jobs.last().failed {
            prev.push(jobs.last())
        } else {
            prev
        }
    }
}

/// The failed jobs of the latest attempt of a run.
pub open spec fn failed_latest_jobs(jobs: Seq<WorkflowJob>) -> Seq<WorkflowJob> {
    failed_jobs_of_attempt(jobs, latest_attempt(jobs))
}

/// The failed steps of `jobs`, job by job.
pub open spec fn failed_steps_of(jobs: Seq<WorkflowJob>) -> Seq<WorkflowStep>
    decreases jobs.len(),
{
    if jobs.len() == 0 {
        Seq::empty()
    } else {
        failed_steps_of(jobs.drop_last()) + failed_steps_in(jobs.last().steps@)
    }
}

/// The failed steps among `steps`, in order.
pub open spec fn failed_steps_in(steps: Seq<WorkflowStep>) -> Seq<WorkflowStep>
    decreases steps.len(),
{
    if steps.len() == 0 {
        Seq::empty()
    } else {
        let prev = failed_steps_in(steps.drop_last());
        if steps.last().failed {
            prev.push(steps.last())
        } else {
            prev
        }
    }
}

/// The latest attempt is the highest run attempt of all the jobs, failed or not: no job
/// has a later one, and, where there are jobs, one of them has it.
pub proof fn lemma_latest_attempt_is_highest(jobs: Seq<WorkflowJob>)
    ensures
        forall|i: int| 0 <= i < jobs.len() ==> (#[trigger] jobs[i]).run_attempt <= latest_attempt(jobs),
        jobs.len() > 0 ==> exists|i: int|
            0 <= i < jobs.len() && (#[trigger] jobs[i]).run_attempt == latest_attempt(jobs),
    decreases jobs.len(),
{
    if jobs.len() > 0 {
        let pj = jobs.drop_last();
        lemma_latest_attempt_is_highest(pj);
        assert forall|i: int| 0 <= i < jobs.len() implies (#[trigger] jobs[i]).run_attempt
            <= latest_attempt(jobs) by {
            if i < jobs.len() - 1 {
                assert(jobs[i] == pj[i]);
            }
        }
        if jobs.last().run_attempt > latest_attempt(pj) || pj.len() == 0 {
            assert(jobs[jobs.len() - 1].run_attempt == latest_attempt(jobs));
        } else {
            let i = choose|i: int| 0 <= i < pj.len() && (#[trigger] pj[i]).run_attempt == latest_attempt(pj);
            assert(jobs[i] == pj[i]);
        }
    }
}

proof fn lemma_failed_jobs_of_attempt(jobs: Seq<WorkflowJob>, attempt: u32)
    ensures
        forall|k: int|
            0 <= k < failed_jobs_of_attempt(jobs, attempt).len() ==> {
                let f = #[trigger] failed_jobs_of_attempt(jobs, attempt)[k];
                f.failed && f.run_attempt == attempt && jobs.contains(f)
            },
        forall|i: int|
            0 <= i < jobs.len() && (#[trigger] jobs[i]).failed && jobs[i].run_attempt == attempt
                ==> failed_jobs_of_attempt(jobs, attempt).contains(jobs[i]),
    decreases jobs.len(),
{
    if jobs.len() > 0 {
        let pj = jobs.drop_last();
        let prev = failed_jobs_of_attempt(pj, attempt);
        let r = failed_jobs_of_attempt(jobs, attempt);
        lemma_failed_jobs_of_attempt(pj, attempt);
        assert forall|k: int| 0 <= k < r.len() implies {
            let f = #[trigger] r[k];
            f.failed && f.run_attempt == attempt && jobs.contains(f)
        } by {
            if k < prev.len() {
                assert(r[k] == prev[k]);
                let f = prev[k];
                let j = choose|j: int| 0 <= j < pj.len() && pj[j] == f;
                assert(jobs[j] == pj[j]);
            } else {
                assert(r[k] == jobs[jobs.len() - 1]);
            }
        }
        assert forall|i: int|
            0 <= i < jobs.len() && (#[trigger] jobs[i]).failed && jobs[i].run_attempt == attempt
                implies r.contains(jobs[i]) by {
            if i < jobs.len() - 1 {
                assert(jobs[i] == pj[i]);
                assert(prev.contains(pj[i]));
                let k = choose|k: int| 0 <= k < prev.len() && prev[k] == pj[i];
                assert(r[k] == prev[k]);
            } else {
                assert(r[r.len() - 1] == jobs[i]);
            }
        }
    }
}

/// The failed jobs kept of a run are those of its latest attempt: each one failed, is one of
/// the jobs, and has a run attempt that no job of the run, failed or not, exceeds; and each
/// failed job whose attempt no job exceeds is kept.
pub proof fn lemma_failed_latest_jobs(jobs: Seq<WorkflowJob>)
    ensures
        forall|k: int|
            0 <= k < failed_latest_jobs(jobs).len() ==> (#[trigger] failed_latest_jobs(jobs)[k]).failed
                && jobs.contains(failed_latest_jobs(jobs)[k]),
        forall|k: int, i: int|
            0 <= k < failed_latest_jobs(jobs).len() && 0 <= i < jobs.len() ==> (#[trigger] jobs[i]).run_attempt
                <= (#[trigger] failed_latest_jobs(jobs)[k]).run_attempt,
        forall|i: int|
            0 <= i < jobs.len() && (#[trigger] jobs[i]).failed && (forall|j: int|
                0 <= j < jobs.len() ==> #[trigger] jobs[j].run_attempt <= jobs[i].run_attempt)
                ==> failed_latest_jobs(jobs).contains(jobs[i]),
{
    let a = latest_attempt(jobs);
    lemma_latest_attempt_is_highest(jobs);
    lemma_failed_jobs_of_attempt(jobs, a);
    assert forall|i: int|
        0 <= i < jobs.len() && (#[trigger] jobs[i]).failed && (forall|j: int|
            0 <= j < jobs.len() ==> #[trigger] jobs[j].run_attempt <= jobs[i].run_attempt)
            implies failed_latest_jobs(jobs).contains(jobs[i]) by {
        let w = choose|w: int| 0 <= w < jobs.len() && (#[trigger] jobs[w]).run_attempt == a;
        assert(jobs[w].run_attempt <= jobs[i].run_attempt);
        assert(jobs[i].run_attempt == a);
    }
}

fn latest_attempt_exec(jobs: &Vec<WorkflowJob>) -> (a: u32)
    ensures
        a == latest_attempt(jobs@),
{
    let mut max_attempt: u32 = 0;
    let mut i: usize = 0;
    while i < jobs.len()
        invariant
            i <= jobs@.len(),
            max_attempt == latest_attempt(jobs@.take(i as int)),
        decreases jobs@.len() - i,
    {
        assert(jobs@.take(i + 1).drop_last() =~= jobs@.take(i as int));
        assert(jobs@.take(i + 1).last() == jobs@[i as int]);
        if jobs[i].run_attempt > max_attempt {
            max_attempt = jobs[i].run_attempt;
        }
        i = i + 1;
    }
    assert(jobs@.take(jobs@.len() as int) =~= jobs@);
    max_attempt
}

fn push_failed_steps(out: &mut Vec<WorkflowStep>, steps: &Vec<WorkflowStep>)
    ensures
        final(out)@ == old(out)@ + failed_steps_in(steps@),
{
    let ghost start = out@;
    let mut i: usize = 0;
    while i < steps.len()
        invariant
            i <= steps@.len(),
            out@ == start + failed_steps_in(steps@.take(i as int)),
        decreases steps@.len() - i,
    {
        assert(steps@.take(i + 1).drop_last() =~= steps@.take(i as int));
        assert(steps@.take(i + 1).last() == steps@[i as int]);
        if steps[i].failed {
            let step = WorkflowStep { name: steps[i].name.clone(), failed: steps[i].failed };
            out.push(step);
            assert(out@ =~= start + failed_steps_in(steps@.take(i + 1)));
        }
        i = i + 1;
    }
    assert(steps@.take(steps@.len() as int) =~= steps@);
}

/// The failed jobs of the latest attempt of a run, and their failed steps. The jobs of
/// a run come from all its attempts; only those of the latest are kept.
pub fn select_failures(jobs: Vec<WorkflowJob>) -> (r: (Vec<WorkflowJob>, Vec<WorkflowStep>))
    ensures
        r.0@ == failed_latest_jobs(jobs@),
        r.1@ == failed_steps_of(failed_latest_jobs(jobs@)),
{
    let max_attempt = latest_attempt_exec(&jobs);
    let ghost all = jobs@;
    let n = jobs.len();
    let mut failed_jobs: Vec<WorkflowJob> = Vec::new();
    let mut failed_steps: Vec<WorkflowStep> = Vec::new();
    let mut i: usize = 0;
    let mut rest = jobs;
    let mut taken: Vec<WorkflowJob> = Vec::new();
    // Move the jobs out of `rest` front to back, keeping the failed ones of the latest attempt.
    while rest.len() > 0
        invariant
            i <= all.len(),
            i == all.len() - rest@.len(),
            rest@ == all.skip(i as int),
            max_attempt == latest_attempt(all),
            all.len() == n,
            failed_jobs@ == failed_jobs_of_attempt(all.take(i as int), max_attempt),
            failed_steps@ == failed_steps_of(failed_jobs_of_attempt(all.take(i as int), max_attempt)),
        decreases rest@.len(),
    {
        let job = rest.remove(0);
        assert(all.take(i + 1).drop_last() =~= all.take(i as int));
        assert(all.take(i + 1).last() == all[i as int]);
        assert(rest@ =~= all.skip(i + 1));
        assert(job == all[i as int]);
        if job.run_attempt == max_attempt && job.failed {
            let ghost prev = failed_jobs_of_attempt(all.take(i as int), max_attempt);
            assert(prev.push(job).drop_last() =~= prev);
            push_failed_steps(&mut failed_steps, &job.steps);
            failed_jobs.push(job);
        }
        i = i + 1;
    }
    assert(all.take(all.len() as int) =~= all);
    (failed_jobs, failed_steps)
}

// ---------------------------------------------------------------------------------------
// From error logs to failed jobs
// ---------------------------------------------------------------------------------------

/// `f` is the failed job that `e` describes, in a run at `run_url` of a workflow of
/// the kind `kind`: named after the job, with its ID, the URL of the job, its first
/// failed step, and its error message summarised from the contents of its step logs.
pub open spec fn describes_job_error(
    f: FailedJob,
    e: JobErrorLog,
    run_url: Seq<char>,
    kind: WorkflowKind,
    trim_timestamp: bool,
    trim_ansi_codes: bool,
) -> bool {
    &&& f.name@ == e.job_name@
    &&& f.id@ == decimal(e.job_id as nat)
    &&& f.url@ == spec_ensure_https_prefix(job_url(run_url, decimal(e.job_id as nat)))
    &&& f.failed_step@ == e.failed_step_logs@[0].step_name@
    &&& summary_of(f.error_message) == prepared_message(
        concat_contents(e.failed_step_logs@),
        trim_timestamp,
        trim_ansi_codes,
    )
    &&& log_of(f.error_message) is None
    &&& (kind == WorkflowKind::Yocto <==> f.error_message is Yocto)
    &&& f.markdown_formatted is None
}

/// Each job error log has the log of a step at least.
pub open spec fn every_job_has_step_log(logs: Seq<JobErrorLog>) -> bool {
    forall|i: int| 0 <= i < logs.len() ==> (#[trigger] logs[i]).failed_step_logs@.len() > 0
}

/// Whether each job error log has the log of a step at least.
pub fn all_jobs_have_step_logs(logs: &[JobErrorLog]) -> (b: bool)
    ensures
        b == every_job_has_step_log(logs@),
{
    let mut i: usize = 0;
    while i < logs.len()
        invariant
            i <= logs@.len(),
            forall|k: int| 0 <= k < i ==> (#[trigger] logs@[k]).failed_step_logs@.len() > 0,
        decreases logs@.len() - i,
    {
        if logs[i].failed_step_logs.len() == 0 {
            return false;
        }
        i = i + 1;
    }
    true
}

/// The failed jobs of an issue, one for each job error log (see `describes_job_error`).
/// Each job error log must hold a step log.
pub fn failed_jobs_from_error_logs(
    job_error_logs: &[JobErrorLog],
    run_url: &str,
    kind: WorkflowKind,
    trim_timestamp: bool,
    trim_ansi_codes: bool,
) -> (r: Vec<FailedJob>)
    requires
        every_job_has_step_log(job_error_logs@),
    ensures
        r@.len() == job_error_logs@.len(),
        forall|i: int|
            0 <= i < r@.len() ==> describes_job_error(
                #[trigger] r@[i],
                job_error_logs@[i],
                run_url@,
                kind,
                trim_timestamp,
                trim_ansi_codes,
            ),
{
    let mut r: Vec<FailedJob> = Vec::new();
    let mut i: usize = 0;
    while i < job_error_logs.len()
        invariant
            i <= job_error_logs@.len(),
            r@.len() == i,
            every_job_has_step_log(job_error_logs@),
            forall|k: int|
                0 <= k < i ==> describes_job_error(
                    #[trigger] r@[k],
                    job_error_logs@[k],
                    run_url@,
                    kind,
                    trim_timestamp,
                    trim_ansi_codes,
                ),
        decreases job_error_logs@.len() - i,
    {
        let job = &job_error_logs[i];
        assert(job.failed_step_logs@.len() > 0);
        let job_id_str = decimal_string(job.job_id);
        let job_url = run_url_to_job_url(run_url, job_id_str.as_str());
        let continuous_errorlog_msgs = job.logs_as_str();
        let first_failed_step = job.failed_step_logs[0].step_name.clone();
        let parsed_msg = parse_error_message(
            continuous_errorlog_msgs.as_str(),
            kind,
            trim_timestamp,
            trim_ansi_codes,
        );
        let failed = FailedJob::new(
            job.job_name.clone(),
            job_id_str,
            job_url,
            first_failed_step,
            parsed_msg,
        );
        r.push(failed);
        i = i + 1;
    }
    r
}

// ---------------------------------------------------------------------------------------
// The run and the issue search
// ---------------------------------------------------------------------------------------

/// The value of the decimal digits `s`.
pub open spec fn digits_value(s: Seq<char>) -> nat
    decreases s.len(),
{
    if s.len() == 0 {
        0
    } else {
        digits_value(s.drop_last()) * 10 + (s.last() as nat - '0' as nat) as nat
    }
}

/// `s` without a leading `+`.
pub open spec fn unsigned_digits(s: Seq<char>) -> Seq<char> {
    if s.len() > 0 && s[0] == '+' {
        s.skip(1)
    } else {
        s
    }
}

/// `s` consists of ASCII digits.
pub open spec fn all_ascii_digits(s: Seq<char>) -> bool {
    forall|i: int| 0 <= i < s.len() ==> is_ascii_digit(#[trigger] s[i])
}

/// The unsigned integer that `str::parse::<u64>` reads from `s`: an optional `+`, then
/// one ASCII digit or more whose value fits in 64 bits.
pub open spec fn spec_parse_u64(s: Seq<char>) -> Option<u64> {
    let digits = unsigned_digits(s);
    if digits.len() > 0 && all_ascii_digits(digits) && digits_value(digits) <= u64::MAX {
        Some(digits_value(digits) as u64)
    } else {
        None
    }
}

proof fn lemma_digits_value_monotone(s: Seq<char>, i: int)
    requires
        0 <= i <= s.len(),
        forall|k: int| 0 <= k < s.len() ==> is_ascii_digit(#[trigger] s[k]),
    ensures
        digits_value(s.take(i)) <= digits_value(s),
    decreases s.len() - i,
{
    if i < s.len() {
        lemma_digits_value_monotone(s, i + 1);
        assert(s.take(i + 1).drop_last() =~= s.take(i));
    } else {
        assert(s.take(i) =~= s);
    }
}

/// Why an issue could not be created.
#[derive(Debug, Clone, Copy, PartialEq, Eq, Structural)]
pub enum CreationError {
    /// The run ID is not an unsigned 64-bit integer.
    InvalidRunId,
    /// The issue body is longer than GitHub accepts.
    IssueBodyTooLong,
}

/// Parses a run ID the way `str::parse::<u64>` does (see `spec_parse_u64`).
pub fn parse_run_id(run_id: &str) -> (r: Result<u64, CreationError>)
    ensures
        match spec_parse_u64(run_id@) {
            Some(n) => r == Ok::<u64, CreationError>(n),
            None => r == Err::<u64, CreationError>(CreationError::InvalidRunId),
        },
{
    let t = chars_of(run_id);
    let start: usize = if t.len() > 0 && t[0] == '+' {
        1
    } else {
        0
    };
    let ghost digits = t@.skip(start as int);
    assert(digits =~= unsigned_digits(run_id@));
    if start >= t.len() {
        assert(digits.len() == 0);
        return Err(CreationError::InvalidRunId);
    }
    let mut value: u64 = 0;
    let mut i = start;
    while i < t.len()
        invariant
            start <= i <= t.len(),
            t@ == run_id@,
            digits == t@.skip(start as int),
            digits == unsigned_digits(run_id@),
            forall|k: int| start <= k < i ==> is_ascii_digit(#[trigger] t@[k]),
            value == digits_value(digits.take(i - start)),
        decreases t.len() - i,
    {
        if !ascii_digit(t[i]) {
            proof {
                assert(0 <= i - start < digits.len());
                assert(digits[i - start] == t@[i as int]);
                assert(!is_ascii_digit(digits[i - start]));
            }
            return Err(CreationError::InvalidRunId);
        }
        assert(digits.take(i + 1 - start).drop_last() =~= digits.take(i - start));
        assert(digits.take(i + 1 - start).last() == t@[i as int]);
        let d = (t[i] as u32 - '0' as u32) as u64;
        assert(d == (t@[i as int] as nat - '0' as nat) as nat);
        assert(digits_value(digits.take(i + 1 - start)) == digits_value(digits.take(i - start)) * 10 + d);
        match value.checked_mul(10) {
            Some(v) => match v.checked_add(d) {
                Some(w) => {
                    value = w;
                },
                None => {
                    proof {
                        if all_ascii_digits(digits) {
                            lemma_digits_value_monotone(digits, i + 1 - start);
                        }
                    }
                    return Err(CreationError::InvalidRunId);
                },
            },
            None => {
                proof {
                    if all_ascii_digits(digits) {
                        lemma_digits_value_monotone(digits, i + 1 - start);
                    }
                }
                return Err(CreationError::InvalidRunId);
            },
        }
        i = i + 1;
    }
    assert(digits.take(t@.len() - start) =~= digits);
    Ok(value)
}

/// The URL of the run `run_id` of the repository `owner/repo` on GitHub.
pub open spec fn github_run_url(owner: Seq<char>, repo: Seq<char>, run_id: Seq<char>) -> Seq<char> {
    "github.com/"@ + owner + "/"@ + repo + "/actions/runs/"@ + run_id
}

/// The URL of the run `run_id` of the repository `owner/repo` on GitHub.
pub fn run_url_for(owner: &str, repo: &str, run_id: &str) -> (r: String)
    ensures
        r@ == github_run_url(owner@, repo@, run_id@),
{
    let mut url = String::from_str("github.com/");
    url.append(owner);
    url.append("/");
    url.append(repo);
    let r = self::util::repo_url_to_run_url(url.as_str(), run_id);
    r
}

/// The route of the logs of the job `job_id` in the GitHub REST API.
pub open spec fn job_logs_route_text(owner: Seq<char>, repo: Seq<char>, job_id: u64) -> Seq<char> {
    "/repos/"@ + owner + "/"@ + repo + "/actions/jobs/"@ + decimal(job_id as nat) + "/logs"@
}

/// The route of the logs of the job `job_id` in the GitHub REST API.
pub fn job_logs_route(owner: &str, repo: &str, job_id: u64) -> (r: String)
    ensures
        r@ == job_logs_route_text(owner@, repo@, job_id),
{
    let mut r = String::from_str("/repos/");
    r.append(owner);
    r.append("/");
    r.append(repo);
    r.append("/actions/jobs/");
    let id = decimal_string(job_id);
    r.append(id.as_str());
    r.append("/logs");
    r
}

/// The state of the issues to search for.
#[derive(Debug, Clone, Copy, PartialEq, Eq, Structural)]
pub enum IssueState {
    Open,
    Closed,
    All,
}

/// The search qualifier of an issue state.
pub open spec fn issue_state_text(s: IssueState) -> Seq<char> {
    match s {
        IssueState::Open => "is:open"@,
        IssueState::Closed => "is:closed"@,
        IssueState::All => Seq::empty(),
    }
}

/// The search query for the issues of `owner/repo` in the state `state` that pass the
/// date and label filters.
pub open spec fn issue_query_text(
    owner: Seq<char>,
    repo: Seq<char>,
    state: IssueState,
    date: DateFilter,
    labels: LabelFilter,
) -> Seq<char> {
    "repo:"@ + owner + "/"@ + repo + " is:issue "@ + issue_state_text(state) + " "@
        + date_filter_text(date) + " "@ + label_filter_text(labels)
}

/// The search query for the issues of `owner/repo` in the state `state` that pass the
/// date and label filters.
pub fn issue_search_query(
    owner: &str,
    repo: &str,
    state: IssueState,
    date: &DateFilter,
    labels: &LabelFilter,
) -> (r: String)
    ensures
        r@ == issue_query_text(owner@, repo@, state, *date, *labels),
{
    let label_filter = labels.to_string();
    let date_filter = date.to_string();
    let issue_state = match state {
        IssueState::Open => "is:open",
        IssueState::Closed => "is:closed",
        IssueState::All => "",
    };
    let mut q = String::from_str("repo:");
    q.append(owner);
    q.append("/");
    q.append(repo);
    q.append(" is:issue ");
    q.append(issue_state);
    q.append(" ");
    q.append(date_filter.as_str());
    q.append(" ");
    q.append(label_filter.as_str());
    proof {
        if state == IssueState::All {
            assert(""@ =~= Seq::<char>::empty()) by {
                reveal_strlit("");
            }
        }
    }
    q
}

/// How close the issue to be created is to the open issues with its label.
#[derive(Debug, Clone, Copy, PartialEq, Eq, Structural)]
pub enum Similarity {
    /// An issue with the exact same body (timestamps and IDs aside) exists.
    Identical,
    /// An issue with a body closer than the threshold exists.
    Similar,
    /// No issue is that close.
    Distinct,
}

/// The similarity that the smallest distance to the open issues shows.
pub open spec fn spec_similarity(min_distance: int) -> Similarity {
    if min_distance == 0 {
        Similarity::Identical
    } else if min_distance < LEVENSHTEIN_THRESHOLD {
        Similarity::Similar
    } else {
        Similarity::Distinct
    }
}

/// The similarity that the smallest distance to the open issues shows.
pub fn similarity(min_distance: usize) -> (s: Similarity)
    ensures
        s == spec_similarity(min_distance as int),
{
    if min_distance == 0 {
        Similarity::Identical
    } else if min_distance < LEVENSHTEIN_THRESHOLD {
        Similarity::Similar
    } else {
        Similarity::Distinct
    }
}

/// The labels of `labels` that are not among `existing`, in order.
pub open spec fn missing_labels(labels: Seq<Seq<char>>, existing: Seq<Seq<char>>) -> Seq<Seq<char>>
    decreases labels.len(),
{
    if labels.len() == 0 {
        Seq::empty()
    } else {
        let prev = missing_labels(labels.drop_last(), existing);
        if existing.contains(labels.last()) {
            prev
        } else {
            prev.push(labels.last())
        }
    }
}

/// The labels of the issue that the repository does not have yet.
pub fn labels_to_create(issue_labels: &[String], existing: &[String]) -> (r: Vec<String>)
    ensures
        texts(r@) == missing_labels(texts(issue_labels@), texts(existing@)),
{
    let mut r: Vec<String> = Vec::new();
    let mut i: usize = 0;
    while i < issue_labels.len()
        invariant
            i <= issue_labels@.len(),
            texts(r@) == missing_labels(texts(issue_labels@.take(i as int)), texts(existing@)),
        decreases issue_labels@.len() - i,
    {
        assert(texts(issue_labels@.take(i + 1)).drop_last() =~= texts(issue_labels@.take(i as int)));
        assert(texts(issue_labels@.take(i + 1)).last() == issue_labels@[i as int]@);
        let mut found = false;
        let mut j: usize = 0;
        while j < existing.len()
            invariant
                i < issue_labels@.len(),
                j <= existing@.len(),
                found == exists|k: int| 0 <= k < j && existing@[k]@ == issue_labels@[i as int]@,
            decreases existing@.len() - j,
        {
            if existing[j] == issue_labels[i] {
                found = true;
            }
            j = j + 1;
        }
        proof {
            if found {
                let k = choose|k: int| 0 <= k < j && existing@[k]@ == issue_labels@[i as int]@;
                assert(texts(existing@)[k] == issue_labels@[i as int]@);
            } else if texts(existing@).contains(issue_labels@[i as int]@) {
                let k = choose|k: int|
                    0 <= k < texts(existing@).len() && texts(existing@)[k] == issue_labels@[i as int]@;
                assert(existing@[k]@ == issue_labels@[i as int]@);
            }
        }
        if !found {
            let ghost before = r@;
            r.push(issue_labels[i].clone());
            assert(texts(r@) =~= texts(before).push(issue_labels@[i as int]@));
        }
        i = i + 1;
    }
    assert(issue_labels@.take(issue_labels@.len() as int) =~= issue_labels@);
    r
}

/// The maximum size of the body of a GitHub issue, in bytes.
pub const GITHUB_ISSUE_BODY_MAX_LEN: usize = 65536;

/// Refuses an issue body longer than GitHub accepts.
pub fn check_issue_body_len(body: &str) -> (r: Result<(), CreationError>)
    ensures
        r is Ok <==> byte_len(body@) <= GITHUB_ISSUE_BODY_MAX_LEN,
        r is Err ==> r->Err_0 == CreationError::IssueBodyTooLong,
{
    if str_byte_len(body) > GITHUB_ISSUE_BODY_MAX_LEN {
        Err(CreationError::IssueBodyTooLong)
    } else {
        Ok(())
    }
}

// ---------------------------------------------------------------------------------------
// The steps of creating an issue from a run
// ---------------------------------------------------------------------------------------

/// What the creation of an issue learns from the work it asked for.
#[derive(Debug)]
pub enum CreationEvent {
    /// The issue has been built from the failed jobs of the run.
    IssueBuilt,
    /// The smallest distance of the issue body to the open issues with its label.
    DistanceToOpenIssues(usize),
    /// The names of the labels that the repository has.
    RepositoryLabels(Vec<String>),
}

/// What the creation of an issue does next.
#[derive(Debug)]
pub enum CreationAction {
    /// Fetch the open issues with the label, and measure the distance of the issue body
    /// to theirs.
    CheckOpenIssues,
    /// Fetch the labels of the repository.
    FetchLabels,
    /// Stop without creating the issue: an identical or a similar issue is open.
    Stop(Similarity),
    /// Show the issue that would be created, and the labels that would be created.
    ShowDryRun(Vec<String>),
    /// Create the labels that the repository lacks, then the issue.
    CreateLabelsAndIssue(Vec<String>),
}

/// The next step of creating an issue with the labels `issue_labels`, after `event`.
///
/// Once the issue is built, open issues are checked for duplicates where `no_duplicate`
/// asks for it; an identical or similar open issue stops the creation. Then the labels
/// of the repository are fetched, and the labels of the issue that it lacks are created
/// before the issue, or, in a dry run, only shown with it.
pub fn next_creation_action(
    no_duplicate: bool,
    dry_run: bool,
    issue_labels: &[String],
    event: CreationEvent,
) -> (a: CreationAction)
    ensures
        event is IssueBuilt && no_duplicate ==> a is CheckOpenIssues,
        event is IssueBuilt && !no_duplicate ==> a is FetchLabels,
        event matches CreationEvent::DistanceToOpenIssues(d) ==> (if spec_similarity(d as int)
            == Similarity::Distinct {
            a is FetchLabels
        } else {
            a == CreationAction::Stop(spec_similarity(d as int))
        }),
        event matches CreationEvent::RepositoryLabels(existing) ==> (if dry_run {
            a matches CreationAction::ShowDryRun(l) && texts(l@) == missing_labels(
                texts(issue_labels@),
                texts(existing@),
            )
        } else {
            a matches CreationAction::CreateLabelsAndIssue(l) && texts(l@) == missing_labels(
                texts(issue_labels@),
                texts(existing@),
            )
        }),
{
    match event {
        CreationEvent::IssueBuilt => {
            if no_duplicate {
                CreationAction::CheckOpenIssues
            } else {
                CreationAction::FetchLabels
            }
        },
        CreationEvent::DistanceToOpenIssues(d) => {
            match similarity(d) {
                Similarity::Distinct => CreationAction::FetchLabels,
                verdict => CreationAction::Stop(verdict),
            }
        },
        CreationEvent::RepositoryLabels(existing) => {
            let missing = labels_to_create(issue_labels, existing.as_slice());
            if dry_run {
                CreationAction::ShowDryRun(missing)
            } else {
                CreationAction::CreateLabelsAndIssue(missing)
            }
        },
    }
}

// ---------------------------------------------------------------------------------------
// Laws
// ---------------------------------------------------------------------------------------

proof fn lemma_digit_char_value(d: nat)
    requires
        d < 10,
    ensures
        is_ascii_digit(digit_char(d)),
        digit_char(d) as nat - '0' as nat == d,
{
}

proof fn lemma_decimal_digits(n: nat)
    ensures
        decimal(n).len() > 0,
        decimal(n)[0] != '+',
        all_ascii_digits(decimal(n)),
        digits_value(decimal(n)) == n,
    decreases n,
{
    lemma_digit_char_value(n % 10);
    if n < 10 {
        assert(n % 10 == n);
        assert(decimal(n) =~= seq![digit_char(n)]);
        assert(decimal(n).drop_last() =~= Seq::<char>::empty());
        assert(decimal(n).last() == digit_char(n));
        assert(digits_value(decimal(n)) == digits_value(Seq::<char>::empty()) * 10 + (
        digit_char(n) as nat - '0' as nat) as nat);
    }
    if n >= 10 {
        lemma_decimal_digits(n / 10);
        assert((n / 10) * 10 + n % 10 == n) by {
            vstd::arithmetic::div_mod::lemma_fundamental_div_mod(n as int, 10);
        }
        let d = decimal(n);
        let prev = decimal(n / 10);
        assert(d.drop_last() =~= prev);
        assert(d.last() == digit_char(n % 10));
        assert(digits_value(d) == digits_value(prev) * 10 + (d.last() as nat - '0' as nat) as nat);
        assert((d.last() as nat - '0' as nat) as nat == n % 10);
        assert(digits_value(prev) == n / 10);
        assert(digits_value(prev) * 10 == (n / 10) * 10);
        assert(d[0] == prev[0]);
        assert forall|i: int| 0 <= i < d.len() implies is_ascii_digit(#[trigger] d[i]) by {
            if i < d.len() - 1 {
                assert(d[i] == prev[i]);
            }
        }
    }
}

/// The decimal text of a run ID parses back to the same run ID.
pub proof fn lemma_run_id_round_trip(n: u64)
    ensures
        spec_parse_u64(decimal(n as nat)) == Some(n),
{
    lemma_decimal_digits(n as nat);
}

/// The labels to create are labels of the issue, in their order, that the repository
/// does not have.
pub proof fn lemma_missing_labels(labels: Seq<Seq<char>>, existing: Seq<Seq<char>>)
    ensures
        forall|i: int|
            0 <= i < missing_labels(labels, existing).len() ==> labels.contains(
                #[trigger] missing_labels(labels, existing)[i],
            ) && !existing.contains(missing_labels(labels, existing)[i]),
        forall|i: int|
            0 <= i < labels.len() && !existing.contains(#[trigger] labels[i]) ==> missing_labels(
                labels,
                existing,
            ).contains(labels[i]),
    decreases labels.len(),
{
    let m = missing_labels(labels, existing);
    if labels.len() > 0 {
        let pl = labels.drop_last();
        let pm = missing_labels(pl, existing);
        lemma_missing_labels(pl, existing);
        assert forall|i: int| 0 <= i < m.len() implies labels.contains(#[trigger] m[i])
            && !existing.contains(m[i]) by {
            if i < pm.len() {
                assert(m[i] == pm[i]);
                let k = choose|k: int| 0 <= k < pl.len() && pl[k] == pm[i];
                assert(labels[k] == pl[k]);
            } else {
                assert(m[i] == labels.last());
                assert(labels[labels.len() - 1] == labels.last());
            }
        }
        assert forall|i: int| 0 <= i < labels.len() && !existing.contains(#[trigger] labels[i])
            implies m.contains(labels[i]) by {
            if i < labels.len() - 1 {
                assert(pl[i] == labels[i]);
                let k = choose|k: int| 0 <= k < pm.len() && pm[k] == pl[i];
                assert(m[k] == pm[k]);
            } else {
                assert(m[m.len() - 1] == labels.last());
            }
        }
    }
}

/// When an open issue with the label has the same body as the new issue (timestamps and
/// IDs aside), the creation of the new issue stops as an identical one; when none does,
/// it does not stop as identical.
pub proof fn lemma_identical_issue_stops_creation(body: Seq<char>, open_bodies: Seq<Seq<char>>)
    ensures
        (exists|k: int|
            0 <= k < open_bodies.len() && spec_remove_timestamps_and_ids(#[trigger] open_bodies[k])
                == spec_remove_timestamps_and_ids(body)) <==> spec_similarity(
            smallest_distance(body, open_bodies),
        ) == Similarity::Identical,
{
    lemma_smallest_distance_zero(body, open_bodies);
}

} // verus!
