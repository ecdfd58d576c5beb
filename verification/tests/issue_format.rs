use ci_manager::err_parse::yocto::{YoctoError, YoctoFailureLog};
use ci_manager::err_parse::ErrorMessageSummary;
use ci_manager::issue::{FailedJob, Issue, IssueBody};

fn other_job(name: &str, summary: &str) -> FailedJob {
    FailedJob::new(
        name.to_string(),
        "21442749267".to_string(),
        "github.com/o/r/actions/runs/1/job/21442749267".to_string(),
        "📦 Build yocto image".to_string(),
        ErrorMessageSummary::Other(summary.to_string()),
    )
}

fn yocto_job(name: &str, kind: &str) -> FailedJob {
    FailedJob::new(
        name.to_string(),
        "7".to_string(),
        "https://x/job/7".to_string(),
        "build".to_string(),
        ErrorMessageSummary::Yocto(YoctoError::new(
            "ERROR: fetch failed\n".to_string(),
            kind.to_string(),
            Some(YoctoFailureLog::new("log.do_fetch".to_string(), "DEBUG: trying".to_string())),
        )),
    )
}

#[test]
fn failed_job_urls_get_https() {
    let job = other_job("a", "e");
    assert_eq!(job.url, "https://github.com/o/r/actions/runs/1/job/21442749267");
    assert!(job.markdown_formatted.is_none());
}

#[test]
fn full_markdown_of_a_job_with_a_log_file() {
    let mut job = yocto_job("Test template xilinx", "do_fetch");
    let expected = "
### `Test template xilinx` (ID 7)
**Step failed:** `build`
\\
**Log:** https://x/job/7
\\
*Best effort error summary*:
```
ERROR: fetch failed
```
<details>
<summary>log.do_fetch</summary>
<br>

```
DEBUG: trying
```
</details>";
    assert_eq!(job.to_display_string(), expected);
    assert_eq!(job.markdown_formatted_len(), expected.len());
    assert_eq!(job.to_markdown_formatted(), expected);
}

#[test]
fn limited_markdown_is_shortened_to_the_limit() {
    let summary = "x".repeat(500);
    let mut job = other_job("a job", &summary);
    let full = job.to_markdown_formatted_limit(100_000).to_string();
    assert!(full.ends_with(&format!("```\n{summary}```")));
    let mut job = other_job("a job", &summary);
    let limited = job.to_markdown_formatted_limit(300).to_string();
    assert_eq!(limited.len(), 300);
    assert!(limited.ends_with("x```"));
    // Already formatted markdown that fits is kept.
    assert_eq!(job.to_markdown_formatted_limit(400), limited);
    // Where the summary is shorter than the excess, a note replaces the error part.
    let mut job = other_job("a job", "short");
    let noted = job.to_markdown_formatted_limit(10).to_string();
    assert!(noted.ends_with("*Best effort error summary*:(content > max len)"));
}

#[test]
fn limited_markdown_of_a_yocto_job_shows_the_log_as_the_full_markdown_does() {
    let mut job = yocto_job("j", "do_fetch");
    let full = job.to_display_string();
    let md = job.to_markdown_formatted_limit(10_000).to_string();
    assert!(md.ends_with("```\n<details>\n<summary>log.do_fetch</summary>\n<br>\n\n```\nDEBUG: trying\n```\n</details>"));
    assert_eq!(md, full);
    assert!(job.limit_is_supported(10_000));
    assert_eq!(job.limited_markdown_len(10_000), md.len());
}

#[test]
fn issue_labels_hold_each_failure_label_once() {
    let jobs = vec![yocto_job("a", "do_fetch"), other_job("b", "e"), yocto_job("c", "do_fetch"), yocto_job("d", "bug")];
    let issue = Issue::new("t".to_string(), "1".to_string(), "github.com/o/r/actions/runs/1".to_string(), jobs, "bug".to_string());
    assert_eq!(issue.labels(), ["bug".to_string(), "do_fetch".to_string()]);
    assert_eq!(issue.title(), "t");
    assert_eq!(issue.body.run_link, "https://github.com/o/r/actions/runs/1");
}

#[test]
fn issue_body_fits_and_formats_the_same_twice() {
    let big = "y".repeat(70_000);
    let jobs = vec![other_job("one", &big), other_job("two", "short error\n")];
    let mut issue = Issue::new("t".to_string(), "1".to_string(), "https://r".to_string(), jobs, "bug".to_string());
    assert!(issue.body.formatting_supported());
    let first = issue.body();
    assert!(first.len() <= 65535);
    assert!(first.starts_with("**Run ID**: 1 [LINK TO RUN](https://r)\n\n**2 jobs failed:**\n- **`one`**\n- **`two`**\n"));
    assert!(first.contains("short error\n```"));
    assert!(issue.body.formatting_supported());
    assert_eq!(issue.body(), first);
}

#[test]
fn body_formatting_needs_a_failed_job() {
    let body = IssueBody::new("1".to_string(), "https://r".to_string(), vec![]);
    assert!(!body.formatting_supported());
    let mut body = IssueBody::new("1".to_string(), "https://r".to_string(), vec![other_job("one", "e")]);
    assert!(body.formatting_supported());
    assert!(body.to_markdown_string().starts_with("**Run ID**: 1 [LINK TO RUN](https://r)\n\n**1 job failed:**\n"));
}

#[test]
fn an_over_long_body_is_cut_to_the_maximum_size_at_a_character_boundary() {
    let name: String = "é".repeat(20_000);
    let mut body = IssueBody::new(
        "1".to_string(),
        "https://r".to_string(),
        vec![other_job(&name, "short")],
    );
    assert!(body.formatting_supported());
    let text = body.to_markdown_string();
    assert!(text.len() <= 65535);
    assert!(text.len() >= 65534);
    assert!(text.starts_with("**Run ID**: 1 [LINK TO RUN](https://r)\n\n**1 job failed:**\n- **`é"));
    let full_header_and_preface_start = format!("**Run ID**: 1 [LINK TO RUN](https://r)\n\n**1 job failed:**\n- **`{name}`**\n\n### `");
    assert!(text.starts_with(&full_header_and_preface_start));
    assert!(text.ends_with('é'));
    // Formatting again gives the same text.
    assert_eq!(body.to_markdown_string(), text);
}

#[test]
fn an_issue_with_an_over_long_body_gives_the_cut_text() {
    let name: String = "é".repeat(20_000);
    let mut issue = Issue::new(
        "t".to_string(),
        "1".to_string(),
        "r".to_string(),
        vec![other_job(&name, "short")],
        "bug".to_string(),
    );
    let text = issue.body();
    assert!(text.len() <= 65535);
    assert!(text.starts_with("**Run ID**: 1 [LINK TO RUN](https://r)\n"));
}
