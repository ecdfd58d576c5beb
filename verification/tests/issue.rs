use ci_manager::err_parse::ErrorMessageSummary;
use ci_manager::issue::{FailedJob, Issue, IssueBody};

const EXAMPLE_ISSUE_BODY: &str = r#"**Run ID**: 7858139663 [LINK TO RUN]( https://github.com/luftkode/distro-template/actions/runs/7850874958)

**2 jobs failed:**
- **`Test template xilinx`**
- **`Test template raspberry`**

### `Test template xilinx` (ID 21442749267)
**Step failed:** `📦 Build yocto image`
\
**Log:** https://github.com/luftkode/distro-template/actions/runs/7850874958/job/21442749267
\
*Best effort error summary*:
```
Yocto error: ERROR: No recipes available for: ...
```
### `Test template raspberry` (ID 21442749166)
**Step failed:** `📦 Build yocto image`
\
**Log:** https://github.com/luftkode/distro-template/actions/runs/7850874958/job/21442749166
\
*Best effort error summary*:
```
Yocto error: ERROR: No recipes available for: ...
```"#;

#[test]
fn test_issue_new() {
    let run_id = "7858139663".to_string();
    let run_link =
        "https://github.com/luftkode/distro-template/actions/runs/7850874958".to_string();
    let failed_jobs = vec![
        FailedJob::new(
            "Test template xilinx".to_string(),
            "21442749267".to_string(),
            "https://github.com/luftkode/distro-template/actions/runs/7850874958/job/21442749267".to_string(),
            "📦 Build yocto image".to_string(),
            ErrorMessageSummary::Other("Yocto error: ERROR: No recipes available for: ...
".to_string()),
        ),
        FailedJob::new(
            "Test template raspberry".to_string(),
            "21442749166".to_string(),
            "https://github.com/luftkode/distro-template/actions/runs/7850874958/job/21442749166".to_string(),
            "📦 Build yocto image".to_string(),
            ErrorMessageSummary::Other("Yocto error: ERROR: No recipes available for: ...
".to_string()),
        ),
    ];
    let label = "bug".to_string();
    let issue = Issue::new(
        "Scheduled run failed".to_string(),
        run_id,
        run_link,
        failed_jobs,
        label,
    );
    assert_eq!(issue.title, "Scheduled run failed");
    assert_eq!(issue.labels, ["bug"]);
    assert_eq!(issue.body.failed_jobs.len(), 2);
    assert_eq!(issue.body.failed_jobs[0].id, "21442749267");
}

#[test]
fn test_issue_body_display() {
    let run_id = "7858139663".to_string();
    let run_link =
        " https://github.com/luftkode/distro-template/actions/runs/7850874958".to_string();
    let failed_jobs = vec![
        FailedJob::new(
            "Test template xilinx".to_string(),
            "21442749267".to_string(),
            "https://github.com/luftkode/distro-template/actions/runs/7850874958/job/21442749267".to_string(),
            "📦 Build yocto image".to_string(),
            ErrorMessageSummary::Other("Yocto error: ERROR: No recipes available for: ...
".to_string()),
        ),
        FailedJob::new(
            "Test template raspberry".to_string(),
            "21442749166".to_string(),
            "https://github.com/luftkode/distro-template/actions/runs/7850874958/job/21442749166".to_string(),
            "📦 Build yocto image".to_string(),
            ErrorMessageSummary::Other("Yocto error: ERROR: No recipes available for: ...
".to_string()),
        ),
        ];

    let mut issue_body = IssueBody::new(run_id, run_link, failed_jobs);
    assert_eq!(issue_body.to_markdown_string(), EXAMPLE_ISSUE_BODY);
}
