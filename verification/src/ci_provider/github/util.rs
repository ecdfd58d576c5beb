//! The error logs of failed jobs, and the URLs of runs and jobs.
use vstd::prelude::*;

use crate::ci_provider::github::WorkflowStep;
use crate::ci_provider::github::WorkflowJob;
use crate::ci_provider::util::JobLog;
use crate::text::{chars_of, contains_seq, contains_str};
use crate::util::{issue_text_similarity, smallest_distance};

verus! {

/// The error log of a failed job: the logs of its failed steps.
#[derive(Debug)]
pub struct JobErrorLog {
    pub job_id: u64,
    pub job_name: String,
    pub failed_step_logs: Vec<StepErrorLog>,
}

/// The log of a failed step.
#[derive(Debug)]
pub struct StepErrorLog {
    pub step_name: String,
    pub contents: String,
}

/// The contents of the step logs, one after the other.
pub open spec fn concat_contents(logs: Seq<StepErrorLog>) -> Seq<char>
    decreases logs.len(),
{
    if logs.len() == 0 {
        Seq::empty()
    } else {
        concat_contents(logs.drop_last()) + logs.last().contents@
    }
}

impl JobErrorLog {
    /// The error logs of the failed steps of one job.
    pub fn new(job_id: u64, job_name: String, logs: Vec<StepErrorLog>) -> (r: Self)
        ensures
            r.job_id == job_id,
            r.job_name == job_name,
            r.failed_step_logs == logs,
    {
        JobErrorLog { job_id, job_name, failed_step_logs: logs }
    }

    /// Returns the logs as a string
    pub fn logs_as_str(&self) -> (s: String)
        ensures
            s@ == concat_contents(self.failed_step_logs@),
    {
        let mut logs = String::new();
        let mut i: usize = 0;
        while i < self.failed_step_logs.len()
            invariant
                i <= self.failed_step_logs@.len(),
                logs@ == concat_contents(self.failed_step_logs@.take(i as int)),
            decreases self.failed_step_logs@.len() - i,
        {
            logs.append(self.failed_step_logs[i].contents());
            assert(self.failed_step_logs@.take(i + 1).drop_last() =~= self.failed_step_logs@.take(
                i as int,
            ));
            i = i + 1;
        }
        assert(self.failed_step_logs@.take(self.failed_step_logs@.len() as int)
            =~= self.failed_step_logs@);
        logs
    }
}

impl StepErrorLog {
    /// The error log of one failed step.
    pub fn new(step_name: String, error_log: String) -> (r: Self)
        ensures
            r.step_name == step_name,
            r.contents == error_log,
    {
        StepErrorLog { step_name, contents: error_log }
    }

    /// The step's error log.
    pub fn contents(&self) -> (s: &str)
        ensures
            s@ == self.contents@,
    {
        self.contents.as_str()
    }
}

/// `{repo_url}/actions/runs/{run_id}`
pub open spec fn run_url(repo_url: Seq<char>, run_id: Seq<char>) -> Seq<char> {
    repo_url + "/actions/runs/"@ + run_id
}

/// `{run_url}/job/{job_id}`
pub open spec fn job_url(run_url: Seq<char>, job_id: Seq<char>) -> Seq<char> {
    run_url + "/job/"@ + job_id
}

/// The URL of a job of a run: `{repo_url}/actions/runs/{run_id}/job/{job_id}`.
pub fn repo_url_to_job_url(repo_url: &str, run_id: &str, job_id: &str) -> (r: String)
    ensures
        r@ == job_url(run_url(repo_url@, run_id@), job_id@),
{
    let run_url = repo_url_to_run_url(repo_url, run_id);
    run_url_to_job_url(run_url.as_str(), job_id)
}

/// The URL of a workflow run: `{repo_url}/actions/runs/{run_id}`.
pub fn repo_url_to_run_url(repo_url: &str, run_id: &str) -> (r: String)
    ensures
        r@ == run_url(repo_url@, run_id@),
{
    let mut r = String::from_str(repo_url);
    r.append("/actions/runs/");
    r.append(run_id);
    r
}

/// The URL of a job from its run's URL: `{run_url}/job/{job_id}`.
pub fn run_url_to_job_url(run_url: &str, job_id: &str) -> (r: String)
    ensures
        r@ == job_url(run_url@, job_id@),
{
    let mut r = String::from_str(run_url);
    r.append("/job/");
    r.append(job_id);
    r
}

/// The bodies of issues, an issue without a body counting as an empty one.
pub open spec fn bodies_or_empty(bodies: Seq<Option<String>>) -> Seq<Seq<char>> {
    bodies.map_values(
        |b: Option<String>|
            match b {
                Some(s) => s@,
                None => Seq::empty(),
            },
    )
}

/// The smallest Levenshtein distance between `issue_body` and the bodies of other
/// issues (see `issue_text_similarity`).
pub fn distance_to_other_issues(issue_body: &str, other_issue_bodies: &[Option<String>]) -> (d:
    usize)
    ensures
        d == smallest_distance(issue_body@, bodies_or_empty(other_issue_bodies@)),
{
    let mut bodies: Vec<String> = Vec::new();
    let mut i: usize = 0;
    while i < other_issue_bodies.len()
        invariant
            i <= other_issue_bodies@.len(),
            bodies@.len() == i,
            bodies@.map_values(|o: String| o@) == bodies_or_empty(
                other_issue_bodies@.take(i as int),
            ),
        decreases other_issue_bodies@.len() - i,
    {
        let body = match &other_issue_bodies[i] {
            Some(b) => b.clone(),
            None => String::new(),
        };
        bodies.push(body);
        assert(bodies@.map_values(|o: String| o@) =~= bodies_or_empty(
            other_issue_bodies@.take(i + 1),
        )) by {
            let expected = bodies_or_empty(other_issue_bodies@.take(i + 1));
            let prev = bodies_or_empty(other_issue_bodies@.take(i as int));
            assert forall|j: int| 0 <= j < i implies expected[j] == prev[j] by {
                assert(other_issue_bodies@.take(i + 1)[j] == other_issue_bodies@.take(i as int)[j]);
            }
            assert(expected[i as int] == bodies@[i as int]@);
        }
        i = i + 1;
    }
    assert(other_issue_bodies@.take(other_issue_bodies@.len() as int) =~= other_issue_bodies@);
    issue_text_similarity(issue_body, bodies.as_slice())
}

/// The log is the one of the step `step_name` of the job `job_name`: its name contains
/// both.
pub open spec fn is_step_log(log: JobLog, job_name: Seq<char>, step_name: Seq<char>) -> bool {
    contains_seq(log.name@, step_name) && contains_seq(log.name@, job_name)
}

/// The first of `logs` that is the log of the step `step_name` of the job `job_name`.
pub open spec fn first_step_log(logs: Seq<JobLog>, job_name: Seq<char>, step_name: Seq<char>) -> Option<
    JobLog,
>
    decreases logs.len(),
{
    if logs.len() == 0 {
        None
    } else if is_step_log(logs[0], job_name, step_name) {
        Some(logs[0])
    } else {
        first_step_log(logs.drop_first(), job_name, step_name)
    }
}

/// The log found for a step is the earliest whose name contains both the step name and
/// the job name: it is one of the logs, its name contains both, and no log before it
/// does; where none is found, no log's name contains both.
pub proof fn lemma_first_step_log_is_earliest(
    logs: Seq<JobLog>,
    job_name: Seq<char>,
    step_name: Seq<char>,
)
    ensures
        first_step_log(logs, job_name, step_name) matches Some(found) ==> exists|k: int|
            0 <= k < logs.len() && logs[k] == found && contains_seq(logs[k].name@, step_name)
                && contains_seq(logs[k].name@, job_name) && forall|j: int|
                0 <= j < k ==> !(contains_seq((#[trigger] logs[j]).name@, step_name)
                    && contains_seq(logs[j].name@, job_name)),
        first_step_log(logs, job_name, step_name) is None ==> forall|j: int|
            0 <= j < logs.len() ==> !(contains_seq((#[trigger] logs[j]).name@, step_name)
                && contains_seq(logs[j].name@, job_name)),
    decreases logs.len(),
{
    if logs.len() > 0 && !is_step_log(logs[0], job_name, step_name) {
        let tail = logs.drop_first();
        lemma_first_step_log_is_earliest(tail, job_name, step_name);
        if first_step_log(tail, job_name, step_name) is Some {
            let k = choose|k: int|
                0 <= k < tail.len() && tail[k] == first_step_log(tail, job_name, step_name)->0
                    && contains_seq(tail[k].name@, step_name) && contains_seq(
                    tail[k].name@,
                    job_name,
                ) && forall|j: int|
                    0 <= j < k ==> !(contains_seq((#[trigger] tail[j]).name@, step_name)
                        && contains_seq(tail[j].name@, job_name));
            assert(logs[k + 1] == tail[k]);
            assert forall|j: int| 0 <= j < k + 1 implies !(contains_seq(
                (#[trigger] logs[j]).name@,
                step_name,
            ) && contains_seq(logs[j].name@, job_name)) by {
                if j > 0 {
                    assert(logs[j] == tail[j - 1]);
                }
            }
        } else {
            assert forall|j: int| 0 <= j < logs.len() implies !(contains_seq(
                (#[trigger] logs[j]).name@,
                step_name,
            ) && contains_seq(logs[j].name@, job_name)) by {
                if j > 0 {
                    assert(logs[j] == tail[j - 1]);
                }
            }
        }
    }
}

/// The step logs found for `steps` of the job `job_name`: for each step in order that
/// has a log, its name and the contents of its first log.
pub open spec fn step_logs_found(logs: Seq<JobLog>, job_name: Seq<char>, steps: Seq<WorkflowStep>) -> Seq<
    (Seq<char>, Seq<char>),
>
    decreases steps.len(),
{
    if steps.len() == 0 {
        Seq::empty()
    } else {
        let prev = step_logs_found(logs, job_name, steps.drop_last());
        match first_step_log(logs, job_name, steps.last().name@) {
            Some(log) => prev.push((steps.last().name@, log.content@)),
            None => prev,
        }
    }
}

/// The names and contents of step logs.
pub open spec fn step_log_texts(logs: Seq<StepErrorLog>) -> Seq<(Seq<char>, Seq<char>)> {
    logs.map_values(|l: StepErrorLog| (l.step_name@, l.contents@))
}

/// Finds the error log in the logs that contains the job name and the step name.
/// If no log is found, None is returned.
pub fn find_error_log<'j>(logs: &'j [JobLog], job_name: &str, step_name: &str) -> (r: Option<
    &'j JobLog,
>)
    ensures
        r is Some == first_step_log(logs@, job_name@, step_name@) is Some,
        r is Some ==> *r->0 == first_step_log(logs@, job_name@, step_name@)->0,
{
    let job = chars_of(job_name);
    let step = chars_of(step_name);
    let mut i: usize = 0;
    assert(logs@.skip(0) =~= logs@);
    while i < logs.len()
        invariant
            i <= logs@.len(),
            job@ == job_name@,
            step@ == step_name@,
            first_step_log(logs@.skip(i as int), job@, step@) == first_step_log(logs@, job@, step@),
        decreases logs@.len() - i,
    {
        let name = chars_of(logs[i].name.as_str());
        assert(logs@.skip(i as int).drop_first() =~= logs@.skip(i + 1));
        if contains_str(&name, &step) && contains_str(&name, &job) {
            return Some(&logs[i]);
        }
        i = i + 1;
    }
    None
}

/// Finds the error logs for each step in the job and returns a vector of [StepErrorLog].
pub fn find_error_logs_for_job_steps(logs: &[JobLog], job_name: &str, steps: &[WorkflowStep]) -> (r:
    Vec<StepErrorLog>)
    ensures
        step_log_texts(r@) == step_logs_found(logs@, job_name@, steps@),
{
    let mut r: Vec<StepErrorLog> = Vec::new();
    let mut i: usize = 0;
    while i < steps.len()
        invariant
            i <= steps@.len(),
            step_log_texts(r@) == step_logs_found(logs@, job_name@, steps@.take(i as int)),
        decreases steps@.len() - i,
    {
        assert(steps@.take(i + 1).drop_last() =~= steps@.take(i as int));
        assert(steps@.take(i + 1).last() == steps@[i as int]);
        match find_error_log(logs, job_name, steps[i].name.as_str()) {
            Some(log) => {
                let ghost before = r@;
                r.push(StepErrorLog::new(steps[i].name.clone(), log.content.clone()));
                assert(step_log_texts(r@) =~= step_log_texts(before).push(
                    (steps@[i as int].name@, log.content@),
                ));
            },
            None => {},
        }
        i = i + 1;
    }
    assert(steps@.take(steps@.len() as int) =~= steps@);
    r
}

/// The error logs of `failed_jobs`: for each job, its ID, its name and the logs found for
/// `failed_steps` (see `step_logs_found`).
pub open spec fn is_job_error_log(
    e: JobErrorLog,
    job: WorkflowJob,
    logs: Seq<JobLog>,
    failed_steps: Seq<WorkflowStep>,
) -> bool {
    &&& e.job_id == job.id
    &&& e.job_name@ == job.name@
    &&& step_log_texts(e.failed_step_logs@) == step_logs_found(logs, job.name@, failed_steps)
}

/// Extracts the error logs from the logs, failed jobs and failed steps
/// and returns a vector of [JobErrorLog].
///
/// The extraction is performed by taking the name of each failed step in each failed job
/// and searching for a log with a name that contains both the job name and the step name.
/// A step without such a log is left out.
pub fn job_error_logs_from_log_and_failed_jobs_and_steps(
    logs: &[JobLog],
    failed_jobs: &[WorkflowJob],
    failed_steps: &[WorkflowStep],
) -> (r: Vec<JobErrorLog>)
    ensures
        r@.len() == failed_jobs@.len(),
        forall|i: int|
            0 <= i < failed_jobs@.len() ==> is_job_error_log(
                #[trigger] r@[i],
                failed_jobs@[i],
                logs@,
                failed_steps@,
            ),
{
    let mut r: Vec<JobErrorLog> = Vec::new();
    let mut i: usize = 0;
    while i < failed_jobs.len()
        invariant
            i <= failed_jobs@.len(),
            r@.len() == i,
            forall|k: int|
                0 <= k < i ==> is_job_error_log(
                    #[trigger] r@[k],
                    failed_jobs@[k],
                    logs@,
                    failed_steps@,
                ),
        decreases failed_jobs@.len() - i,
    {
        let job = &failed_jobs[i];
        let name = job.name.clone();
        let step_error_logs = find_error_logs_for_job_steps(logs, name.as_str(), failed_steps);
        r.push(JobErrorLog::new(job.id, name, step_error_logs));
        i = i + 1;
    }
    r
}

} // verus!
