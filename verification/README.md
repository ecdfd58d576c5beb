# ci-manager

Creates GitHub issues from failed workflow runs: it collects the failed jobs and steps of a
run, extracts their logs, summarises the errors, formats an issue body within GitHub's size
limit, and skips the issue when a similar one is already open.

## Layout

- `src/` is the library, verified with Verus:
  - `util.rs`: log clean-up (timestamps, IDs), repository URLs, path and job-line scanning,
    and the edit distance between issue texts;
  - `issue.rs`: the markdown of failed jobs and issue bodies, with the size limits;
  - `err_parse.rs`: error summaries of failed jobs;
  - `ci_provider/`: search filters, log timestamps and ordering, the zip archive of run logs,
    and the decisions of issue creation (`github.rs`, a state machine driven from outside);
  - `text.rs`, `unicode.rs`: string and character helpers with their specifications.
- `app/` is the command-line program: argument parsing, logging and the GitHub API calls.
- `tests/` run the library on concrete inputs.
