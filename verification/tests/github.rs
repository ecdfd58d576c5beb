use ci_manager::ci_provider::github::util::{
    distance_to_other_issues, find_error_log, find_error_logs_for_job_steps,
    job_error_logs_from_log_and_failed_jobs_and_steps, repo_url_to_job_url, repo_url_to_run_url,
    run_url_to_job_url, JobErrorLog, StepErrorLog,
};
use ci_manager::ci_provider::github::{
    all_jobs_have_step_logs, check_issue_body_len, failed_jobs_from_error_logs,
    issue_search_query, job_logs_route, labels_to_create, next_creation_action, parse_run_id,
    run_url_for, select_failures, similarity, CreationAction, CreationError, CreationEvent,
    IssueState, Similarity, WorkflowJob, WorkflowStep,
};
use ci_manager::ci_provider::util::{Date, DateFilter, JobLog, LabelFilter};
use ci_manager::config::commands::WorkflowKind;

fn step(name: &str, failed: bool) -> WorkflowStep {
    WorkflowStep { name: name.to_string(), failed }
}

fn job(id: u64, name: &str, attempt: u32, failed: bool, steps: Vec<WorkflowStep>) -> WorkflowJob {
    WorkflowJob { id, name: name.to_string(), run_attempt: attempt, failed, steps }
}

#[test]
fn urls_of_runs_and_jobs() {
    assert_eq!(repo_url_to_run_url("github.com/a/b", "7"), "github.com/a/b/actions/runs/7");
    assert_eq!(run_url_to_job_url("github.com/a/b/actions/runs/7", "9"), "github.com/a/b/actions/runs/7/job/9");
    assert_eq!(repo_url_to_job_url("github.com/a/b", "7", "9"), "github.com/a/b/actions/runs/7/job/9");
    assert_eq!(run_url_for("luftkode", "distro-template", "42"), "github.com/luftkode/distro-template/actions/runs/42");
    assert_eq!(job_logs_route("docker", "buildx", 22055505284), "/repos/docker/buildx/actions/jobs/22055505284/logs");
}

#[test]
fn run_ids_parse_as_unsigned_integers() {
    assert_eq!(parse_run_id("8302026485"), Ok(8302026485));
    assert_eq!(parse_run_id("+12"), Ok(12));
    assert_eq!(parse_run_id("18446744073709551615"), Ok(u64::MAX));
    assert_eq!(parse_run_id("18446744073709551616"), Err(CreationError::InvalidRunId));
    assert_eq!(parse_run_id(""), Err(CreationError::InvalidRunId));
    assert_eq!(parse_run_id("+"), Err(CreationError::InvalidRunId));
    assert_eq!(parse_run_id("-1"), Err(CreationError::InvalidRunId));
    assert_eq!(parse_run_id("12a"), Err(CreationError::InvalidRunId));
    for s in ["0", "007", "123456789", "99999999999999999999", "1 2", "٣"] {
        assert_eq!(parse_run_id(s).ok(), s.parse::<u64>().ok(), "input {s:?}");
    }
}

#[test]
fn issue_search_queries() {
    let q = issue_search_query(
        "docker",
        "buildx",
        IssueState::Closed,
        &DateFilter::Created(Date { year: 2019, month: 6, day: 2 }),
        &LabelFilter::none(),
    );
    assert_eq!(q, "repo:docker/buildx is:issue is:closed created:2019-06-02 ");
    let q = issue_search_query(
        "o",
        "r",
        IssueState::Open,
        &DateFilter::NoDate,
        &LabelFilter::All(vec!["bug".to_string()]),
    );
    assert_eq!(q, r#"repo:o/r is:issue is:open  label:"bug""#);
    let q = issue_search_query("o", "r", IssueState::All, &DateFilter::NoDate, &LabelFilter::NoLabels);
    assert_eq!(q, "repo:o/r is:issue   ");
}

#[test]
fn similarity_of_distances() {
    assert_eq!(similarity(0), Similarity::Identical);
    assert_eq!(similarity(1), Similarity::Similar);
    assert_eq!(similarity(99), Similarity::Similar);
    assert_eq!(similarity(100), Similarity::Distinct);
    assert_eq!(similarity(usize::MAX), Similarity::Distinct);
}

#[test]
fn labels_missing_from_the_repository() {
    let issue = vec!["bug".to_string(), "do_fetch".to_string(), "ci".to_string()];
    let existing = vec!["ci".to_string(), "bug".to_string(), "help wanted".to_string()];
    assert_eq!(labels_to_create(&issue, &existing), vec!["do_fetch".to_string()]);
    assert_eq!(labels_to_create(&issue, &[]), issue);
}

#[test]
fn issue_body_length_limit() {
    assert_eq!(check_issue_body_len(&"a".repeat(65536)), Ok(()));
    assert_eq!(check_issue_body_len(&"a".repeat(65537)), Err(CreationError::IssueBodyTooLong));
    // Bytes count, not characters.
    assert_eq!(check_issue_body_len(&"é".repeat(32769)), Err(CreationError::IssueBodyTooLong));
}

#[test]
fn failures_of_the_latest_attempt() {
    let jobs = vec![
        job(1, "build", 1, true, vec![step("compile", true)]),
        job(2, "build", 2, true, vec![step("setup", false), step("compile", true), step("test", true)]),
        job(3, "lint", 2, false, vec![step("lint", false)]),
        job(4, "docs", 2, true, vec![step("render", true)]),
    ];
    let (failed_jobs, failed_steps) = select_failures(jobs);
    let ids: Vec<u64> = failed_jobs.iter().map(|j| j.id).collect();
    assert_eq!(ids, vec![2, 4]);
    let names: Vec<&str> = failed_steps.iter().map(|s| s.name.as_str()).collect();
    assert_eq!(names, vec!["compile", "test", "render"]);
    assert_eq!(select_failures(vec![]).0.len(), 0);
}

#[test]
fn error_logs_of_failed_jobs() {
    let logs = vec![
        JobLog::new("build/2_compile.txt".to_string(), "compile error\n".to_string()),
        JobLog::new("build/3_test.txt".to_string(), "test error\n".to_string()),
        JobLog::new("docs/1_render.txt".to_string(), "render error\n".to_string()),
    ];
    let found = find_error_log(&logs, "build", "test").unwrap();
    assert_eq!(found.content, "test error\n");
    assert!(find_error_log(&logs, "docs", "test").is_none());
    let steps = vec![step("compile", true), step("test", true), step("render", true)];
    let step_logs = find_error_logs_for_job_steps(&logs, "build", &steps);
    let names: Vec<&str> = step_logs.iter().map(|s| s.step_name.as_str()).collect();
    assert_eq!(names, vec!["compile", "test"]);
    let jobs = vec![job(2, "build", 1, true, vec![]), job(4, "docs", 1, true, vec![]), job(5, "lint", 1, true, vec![])];
    let error_logs = job_error_logs_from_log_and_failed_jobs_and_steps(&logs, &jobs, &steps);
    assert_eq!(error_logs.len(), 3);
    assert_eq!(error_logs[0].job_id, 2);
    assert_eq!(error_logs[0].logs_as_str(), "compile error\ntest error\n");
    assert_eq!(error_logs[1].logs_as_str(), "render error\n");
    assert!(error_logs[2].failed_step_logs.is_empty());
    assert!(!all_jobs_have_step_logs(&error_logs));
    assert!(all_jobs_have_step_logs(&error_logs[..2]));
}

#[test]
fn failed_jobs_built_from_error_logs() {
    let error_logs = vec![JobErrorLog::new(
        22055505284,
        "Test template xilinx".to_string(),
        vec![
            StepErrorLog::new("Build".to_string(), "2024-02-28T00:03:46.0000000Z error A\n".to_string()),
            StepErrorLog::new("Deploy".to_string(), "error B\n".to_string()),
        ],
    )];
    let run_url = "github.com/luftkode/distro-template/actions/runs/8072883145";
    let jobs = failed_jobs_from_error_logs(&error_logs, run_url, WorkflowKind::Other, true, false);
    assert_eq!(jobs.len(), 1);
    assert_eq!(jobs[0].name, "Test template xilinx");
    assert_eq!(jobs[0].id, "22055505284");
    assert_eq!(jobs[0].url, "https://github.com/luftkode/distro-template/actions/runs/8072883145/job/22055505284");
    assert_eq!(jobs[0].failed_step, "Build");
    assert_eq!(jobs[0].error_message.summary(), "error A\nerror B\n");
    assert_eq!(jobs[0].failure_label(), None);
    let jobs = failed_jobs_from_error_logs(&error_logs, run_url, WorkflowKind::Yocto, false, false);
    assert_eq!(jobs[0].error_message.summary(), "2024-02-28T00:03:46.0000000Z error A\nerror B\n");
    assert_eq!(jobs[0].failure_label(), Some("misc".to_string()));
}

#[test]
fn failed_jobs_with_ansi_codes_trimmed() {
    let error_logs = vec![JobErrorLog::new(
        7,
        "j".to_string(),
        vec![StepErrorLog::new(
            "Build".to_string(),
            "2024-02-28T00:03:46.0000000Z \u{1b}[31merror\u{1b}[0m A\n".to_string(),
        )],
    )];
    let jobs = failed_jobs_from_error_logs(&error_logs, "github.com/o/r/actions/runs/1", WorkflowKind::Other, true, true);
    assert_eq!(jobs[0].error_message.summary(), "error A\n");
    let jobs = failed_jobs_from_error_logs(&error_logs, "github.com/o/r/actions/runs/1", WorkflowKind::Other, false, true);
    assert_eq!(jobs[0].error_message.summary(), "2024-02-28T00:03:46.0000000Z error A\n");
}

#[test]
fn distance_to_issues_without_bodies() {
    assert_eq!(distance_to_other_issues("abc", &[None, Some("abd".to_string())]), 1);
    assert_eq!(distance_to_other_issues("", &[None]), 0);
    assert_eq!(distance_to_other_issues("abc", &[]), usize::MAX);
}

#[test]
fn steps_of_creating_an_issue() {
    let labels = vec!["bug".to_string(), "do_fetch".to_string()];
    assert!(matches!(next_creation_action(true, false, &labels, CreationEvent::IssueBuilt), CreationAction::CheckOpenIssues));
    assert!(matches!(next_creation_action(false, false, &labels, CreationEvent::IssueBuilt), CreationAction::FetchLabels));
    assert!(matches!(
        next_creation_action(true, false, &labels, CreationEvent::DistanceToOpenIssues(0)),
        CreationAction::Stop(Similarity::Identical)
    ));
    assert!(matches!(
        next_creation_action(true, false, &labels, CreationEvent::DistanceToOpenIssues(42)),
        CreationAction::Stop(Similarity::Similar)
    ));
    assert!(matches!(
        next_creation_action(true, false, &labels, CreationEvent::DistanceToOpenIssues(100)),
        CreationAction::FetchLabels
    ));
    match next_creation_action(true, true, &labels, CreationEvent::RepositoryLabels(vec!["bug".to_string()])) {
        CreationAction::ShowDryRun(l) => assert_eq!(l, vec!["do_fetch".to_string()]),
        other => panic!("unexpected {other:?}"),
    }
    match next_creation_action(true, false, &labels, CreationEvent::RepositoryLabels(vec![])) {
        CreationAction::CreateLabelsAndIssue(l) => assert_eq!(l, labels),
        other => panic!("unexpected {other:?}"),
    }
}
