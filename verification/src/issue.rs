//! Contains the Issue struct and its associated methods.
//!
//! The Issue struct is used to represent a GitHub issue that will be created
//! in a repository. It contains a title, labels, and body. The body is a
//! collection of FailedJob structs, which contain information about the failed
//! jobs in a GitHub Actions workflow run.
use vstd::prelude::*;
use vstd::utf8::{
    decode_utf8, decode_utf8_encode_utf8, encode_utf8, encode_utf8_decode_utf8,
    encode_utf8_valid_utf8, is_char_boundary, valid_utf8_split,
};

use crate::err_parse::{
    ErrorMessageSummary, failure_label_of, log_of, logfile_name_of, summary_of,
};
use crate::text::{byte_len, decimal, decimal_string, lemma_byte_len_concat, str_byte_len};
use crate::util::{ensure_https_prefix, spec_ensure_https_prefix};

verus! {

/// The maximum size of a GitHub issue body, less one.
pub const ISSUE_BODY_MAX_LEN: usize = 65535;

/// A failed job of a workflow run, with the markdown that describes it once it has been
/// formatted.
#[derive(Debug)]
pub struct FailedJob {
    pub name: String,
    pub id: String,
    pub url: String,
    pub failed_step: String,
    pub error_message: ErrorMessageSummary,
    pub markdown_formatted: Option<String>,
}

/// The text that follows the first `d` bytes of the UTF-8 encoding of `s`.
pub open spec fn drop_bytes(s: Seq<char>, d: int) -> Seq<char> {
    decode_utf8(encode_utf8(s).subrange(d, encode_utf8(s).len() as int))
}

/// The `<details>` block with the log file of an error, if it comes with one.
pub open spec fn details_block(e: ErrorMessageSummary) -> Seq<char> {
    match (logfile_name_of(e), log_of(e)) {
        (Some(name), Some(contents)) => "\n<details>\n<summary>"@ + name
            + "</summary>\n<br>\n\n```\n"@ + contents + "\n```\n</details>"@,
        _ => Seq::empty(),
    }
}

/// The heading and links of a failed job, up to the error summary.
pub open spec fn job_preface(j: FailedJob) -> Seq<char> {
    "\n### `"@ + j.name@ + "` (ID "@ + j.id@ + ")\n**Step failed:** `"@ + j.failed_step@
        + "`\n\\\n**Log:** "@ + j.url@ + "\n\\\n*Best effort error summary*:"@
}

/// The full markdown of a failed job.
pub open spec fn job_markdown(j: FailedJob) -> Seq<char> {
    job_preface(j) + "\n```\n"@ + summary_of(j.error_message) + "```"@ + details_block(
        j.error_message,
    )
}

/// The error part of the length-limited markdown, with the first `d` bytes of the
/// error summary left out.
pub open spec fn error_block(j: FailedJob, d: int) -> Seq<char> {
    "\n```\n"@ + drop_bytes(summary_of(j.error_message), d) + "```"@ + details_block(j.error_message)
}

/// What stands in place of the error part when leaving out the whole summary is not
/// enough to meet the length limit.
pub open spec fn content_too_long() -> Seq<char> {
    "(content > max len)"@
}

/// Byte length of the length-limited markdown of `j` before any shortening.
pub open spec fn untruncated_len(j: FailedJob) -> int {
    (byte_len(job_preface(j)) + byte_len(error_block(j, 0))) as int
}

/// The number of leading bytes of the error summary that must go for the markdown of `j`
/// to fit in `max_len` bytes (0 when it fits).
pub open spec fn excess_len(j: FailedJob, max_len: int) -> int {
    if untruncated_len(j) > max_len {
        untruncated_len(j) - max_len
    } else {
        0
    }
}

/// The length-limited markdown of `j`, formatted anew: the preface and the error part;
/// where these exceed `max_len` bytes, the error summary loses as many leading bytes as
/// the excess, or, where it is shorter than that, the error part is replaced by a note.
pub open spec fn fresh_limited_markdown(j: FailedJob, max_len: int) -> Seq<char> {
    let d = excess_len(j, max_len);
    if d > 0 && byte_len(summary_of(j.error_message)) < d {
        job_preface(j) + content_too_long()
    } else {
        job_preface(j) + error_block(j, d)
    }
}

/// The already formatted markdown of `j` fits in `max_len` bytes.
pub open spec fn cached_fits(j: FailedJob, max_len: int) -> bool {
    j.markdown_formatted is Some && byte_len(j.markdown_formatted->0@) <= max_len
}

/// The markdown of `j` limited to `max_len`: the one already formatted where it fits,
/// else the one formatted anew.
pub open spec fn limited_markdown(j: FailedJob, max_len: int) -> Seq<char> {
    if cached_fits(j, max_len) {
        j.markdown_formatted->0@
    } else {
        fresh_limited_markdown(j, max_len)
    }
}

/// The summary can be shortened by the needed number of bytes: that number falls on a
/// character boundary of its UTF-8 encoding (else the shortening would panic).
pub open spec fn limit_supported(j: FailedJob, max_len: int) -> bool {
    let d = excess_len(j, max_len);
    cached_fits(j, max_len) || byte_len(summary_of(j.error_message)) < d || is_char_boundary(
        encode_utf8(summary_of(j.error_message)),
        d,
    )
}

/// `b` is `a` with only its formatted markdown replaced by `md`.
pub open spec fn same_job_with_markdown(a: FailedJob, b: FailedJob, md: Seq<char>) -> bool {
    &&& b.name == a.name
    &&& b.id == a.id
    &&& b.url == a.url
    &&& b.failed_step == a.failed_step
    &&& b.error_message == a.error_message
    &&& b.markdown_formatted is Some
    &&& b.markdown_formatted->0@ == md
}

fn details_exec(e: &ErrorMessageSummary) -> (r: String)
    ensures
        r@ == details_block(*e),
{
    match (e.logfile_name(), e.log()) {
        (Some(name), Some(contents)) => {
            let mut r = String::new();
            r.append("\n<details>\n<summary>");
            r.append(name);
            r.append("</summary>\n<br>\n\n```\n");
            r.append(contents);
            r.append("\n```\n</details>");
            r
        },
        _ => String::new(),
    }
}

impl FailedJob {
    /// A failed job record; the job's URL is given an `https://` prefix if it lacks one.
    pub fn new(
        name: String,
        id: String,
        url: String,
        failed_step: String,
        error_message: ErrorMessageSummary,
    ) -> (r: Self)
        ensures
            r.name == name,
            r.id == id,
            r.url@ == spec_ensure_https_prefix(url@),
            r.failed_step == failed_step,
            r.error_message == error_message,
            r.markdown_formatted is None,
    {
        let mut url = url;
        ensure_https_prefix(&mut url);
        Self { name, id, url, failed_step, error_message, markdown_formatted: None }
    }

    /// The label that the job's error summary asks for, if any.
    pub fn failure_label(&self) -> (l: Option<String>)
        ensures
            l.is_some() == failure_label_of(self.error_message).is_some(),
            l.is_some() ==> l.unwrap()@ == failure_label_of(self.error_message).unwrap(),
    {
        self.error_message.failure_label()
    }

    fn preface(&self) -> (r: String)
        ensures
            r@ == job_preface(*self),
    {
        let mut r = String::new();
        r.append("\n### `");
        r.append(self.name.as_str());
        r.append("` (ID ");
        r.append(self.id.as_str());
        r.append(")\n**Step failed:** `");
        r.append(self.failed_step.as_str());
        r.append("`\n\\\n**Log:** ");
        r.append(self.url.as_str());
        r.append("\n\\\n*Best effort error summary*:");
        r
    }

    /// The full markdown of the job (its `Display` form).
    pub fn to_display_string(&self) -> (r: String)
        ensures
            r@ == job_markdown(*self),
    {
        let mut r = self.preface();
        r.append("\n```\n");
        r.append(self.error_message.summary());
        r.append("```");
        let details = details_exec(&self.error_message);
        r.append(details.as_str());
        r
    }

    /// The byte length of the formatted markdown; formats the full markdown first if
    /// none is formatted yet.
    pub fn markdown_formatted_len(&mut self) -> (n: usize)
        ensures
            final(self).name == old(self).name,
            final(self).id == old(self).id,
            final(self).url == old(self).url,
            final(self).failed_step == old(self).failed_step,
            final(self).error_message == old(self).error_message,
            final(self).markdown_formatted == (match old(self).markdown_formatted {
                Some(md) => Some(md),
                None => Some(final(self).markdown_formatted->0),
            }),
            old(self).markdown_formatted is None ==> final(self).markdown_formatted->0@
                == job_markdown(*old(self)),
            n == byte_len(final(self).markdown_formatted->0@),
    {
        if self.markdown_formatted.is_none() {
            self.markdown_formatted = Some(self.to_display_string());
        }
        match &self.markdown_formatted {
            Some(md) => str_byte_len(md.as_str()),
            None => 0,
        }
    }

    /// The formatted markdown; formats the full markdown first if none is formatted yet.
    pub fn to_markdown_formatted(&mut self) -> (r: &str)
        ensures
            final(self).name == old(self).name,
            final(self).id == old(self).id,
            final(self).url == old(self).url,
            final(self).failed_step == old(self).failed_step,
            final(self).error_message == old(self).error_message,
            final(self).markdown_formatted is Some,
            r@ == final(self).markdown_formatted->0@,
            r@ == match old(self).markdown_formatted {
                Some(md) => md@,
                None => job_markdown(*old(self)),
            },
    {
        if self.markdown_formatted.is_none() {
            self.markdown_formatted = Some(self.to_display_string());
        }
        match &self.markdown_formatted {
            Some(md) => md.as_str(),
            None => "",
        }
    }

    /// The markdown of the job limited to `max_len` bytes: the already formatted
    /// markdown where it fits, else the markdown formatted anew within the limit (see
    /// `fresh_limited_markdown`), which then becomes the formatted markdown.
    pub fn to_markdown_formatted_limit(&mut self, max_len: usize) -> (r: &str)
        requires
            limit_supported(*old(self), max_len as int),
        ensures
            r@ == limited_markdown(*old(self), max_len as int),
            same_job_with_markdown(*old(self), *final(self), r@),
    {
        let fits = match &self.markdown_formatted {
            Some(md) => str_byte_len(md.as_str()) <= max_len,
            None => false,
        };
        if !fits {
            let mut md = self.preface();
            let optional_log = details_exec(&self.error_message);
            let summary = self.error_message.summary();
            let mut orig_err = String::new();
            orig_err.append("\n```\n");
            orig_err.append(summary);
            orig_err.append("```");
            orig_err.append(optional_log.as_str());
            proof {
                let s = summary_of(self.error_message);
                assert(encode_utf8(s).subrange(0, encode_utf8(s).len() as int) =~= encode_utf8(s));
                encode_utf8_decode_utf8(s);
                assert(orig_err@ == error_block(*self, 0));
            }
            let preface_len = str_byte_len(md.as_str());
            let err_len = str_byte_len(orig_err.as_str());
            let mkdown_len = preface_len + err_len;
            if mkdown_len > max_len {
                let len_diff = mkdown_len - max_len;
                if str_byte_len(summary) >= len_diff {
                    let (_, rest) = summary.split_at(len_diff);
                    proof {
                        encode_utf8_decode_utf8(rest@);
                    }
                    md.append("\n```\n");
                    md.append(rest);
                    md.append("```");
                    md.append(optional_log.as_str());
                } else {
                    md.append("(content > max len)");
                }
            } else {
                md.append(orig_err.as_str());
            }
            self.markdown_formatted = Some(md);
        }
        match &self.markdown_formatted {
            Some(md) => md.as_str(),
            None => "",
        }
    }
}

impl FailedJob {
    fn untruncated_lens(&self) -> (r: (usize, usize, usize))
        ensures
            r.0 == byte_len(job_preface(*self)),
            r.1 == byte_len(error_block(*self, 0)),
            r.2 == byte_len(summary_of(self.error_message)),
            r.0 <= isize::MAX,
            r.1 <= isize::MAX,
    {
        let preface = self.preface();
        let optional_log = details_exec(&self.error_message);
        let summary = self.error_message.summary();
        let mut orig_err = String::new();
        orig_err.append("\n```\n");
        orig_err.append(summary);
        orig_err.append("```");
        orig_err.append(optional_log.as_str());
        proof {
            let s = summary_of(self.error_message);
            assert(encode_utf8(s).subrange(0, encode_utf8(s).len() as int) =~= encode_utf8(s));
            encode_utf8_decode_utf8(s);
        }
        (str_byte_len(preface.as_str()), str_byte_len(orig_err.as_str()), str_byte_len(summary))
    }

    /// Whether the markdown of the job can be limited to `max_len` bytes (see
    /// `limit_supported`).
    pub fn limit_is_supported(&self, max_len: usize) -> (b: bool)
        ensures
            b == limit_supported(*self, max_len as int),
    {
        if let Some(md) = &self.markdown_formatted {
            if str_byte_len(md.as_str()) <= max_len {
                return true;
            }
        }
        let (preface_len, err_len, summary_len) = self.untruncated_lens();
        let total = preface_len + err_len;
        let d = if total > max_len {
            total - max_len
        } else {
            0
        };
        if summary_len < d {
            return true;
        }
        self.error_message.summary().is_char_boundary(d)
    }

    /// The byte length of the markdown of the job limited to `max_len` bytes, without
    /// formatting it.
    pub fn limited_markdown_len(&self, max_len: usize) -> (n: usize)
        requires
            limit_supported(*self, max_len as int),
        ensures
            n == byte_len(limited_markdown(*self, max_len as int)),
    {
        if let Some(md) = &self.markdown_formatted {
            let len = str_byte_len(md.as_str());
            if len <= max_len {
                return len;
            }
        }
        let (preface_len, err_len, summary_len) = self.untruncated_lens();
        let total = preface_len + err_len;
        if total <= max_len {
            proof {
                lemma_byte_len_concat(job_preface(*self), error_block(*self, 0));
                encode_utf8_valid_utf8(summary_of(self.error_message));
                vstd::utf8::is_char_boundary_start_end_of_seq(encode_utf8(summary_of(self.error_message)));
                lemma_drop_bytes(summary_of(self.error_message), 0);
            }
            return total;
        }
        let d = total - max_len;
        if summary_len < d {
            let note_len = str_byte_len("(content > max len)");
            proof {
                lemma_byte_len_concat(job_preface(*self), content_too_long());
            }
            return preface_len + note_len;
        }
        proof {
            lemma_fresh_limited_markdown_len(*self, max_len as int);
        }
        max_len
    }
}

/// The body of an issue: the run and its failed jobs.
#[derive(Debug)]
pub struct IssueBody {
    pub run_id: String,
    pub run_link: String,
    pub failed_jobs: Vec<FailedJob>,
}

/// "job" for one job, "jobs" otherwise.
pub open spec fn jobs_word(n: nat) -> Seq<char> {
    if n == 1 {
        "job"@
    } else {
        "jobs"@
    }
}

/// The bulleted list of the names of `jobs`.
pub open spec fn job_name_list(jobs: Seq<FailedJob>) -> Seq<char>
    decreases jobs.len(),
{
    if jobs.len() == 0 {
        Seq::empty()
    } else {
        job_name_list(jobs.drop_last()) + "- **`"@ + jobs.last().name@ + "`**\n"@
    }
}

/// The head of an issue body: the run, the number of failed jobs and their names.
pub open spec fn body_header(run_id: Seq<char>, run_link: Seq<char>, jobs: Seq<FailedJob>) -> Seq<
    char,
> {
    "**Run ID**: "@ + run_id + " [LINK TO RUN]("@ + run_link + ")\n\n**"@ + decimal(jobs.len())
        + " "@ + jobs_word(jobs.len()) + " failed:**\n"@ + job_name_list(jobs)
}

/// The head of the body `b`.
pub open spec fn header_of(b: IssueBody) -> Seq<char> {
    body_header(b.run_id@, b.run_link@, b.failed_jobs@)
}

/// The number of bytes that each failed job's markdown may take: what the head leaves
/// of the maximum body size, shared equally.
pub open spec fn per_job_budget(b: IssueBody) -> int {
    (ISSUE_BODY_MAX_LEN - byte_len(header_of(b))) / (b.failed_jobs@.len() as int)
}

/// The length-limited markdown of each of `jobs`, one after the other.
pub open spec fn limited_markdowns(jobs: Seq<FailedJob>, max_len: int) -> Seq<char>
    decreases jobs.len(),
{
    if jobs.len() == 0 {
        Seq::empty()
    } else {
        limited_markdowns(jobs.drop_last(), max_len) + limited_markdown(jobs.last(), max_len)
    }
}

/// The markdown of the body `b`: its head, then each failed job limited to its share.
pub open spec fn body_markdown(b: IssueBody) -> Seq<char> {
    header_of(b) + limited_markdowns(b.failed_jobs@, per_job_budget(b))
}

/// The largest character boundary of the UTF-8 text `bytes` that is at most `n`.
pub open spec fn boundary_at_most(bytes: Seq<u8>, n: int) -> int
    decreases n,
{
    if n <= 0 {
        0
    } else if is_char_boundary(bytes, n) {
        n
    } else {
        boundary_at_most(bytes, n - 1)
    }
}

/// `s` cut to the longest prefix whose UTF-8 encoding takes `n` bytes at most (cut at a
/// character boundary); `s` itself where it fits.
pub open spec fn truncate_to_bytes(s: Seq<char>, n: int) -> Seq<char> {
    if byte_len(s) <= n {
        s
    } else {
        decode_utf8(encode_utf8(s).subrange(0, boundary_at_most(encode_utf8(s), n)))
    }
}

/// The text of the body `b`: its markdown, cut to the maximum issue body size as a last
/// resort where it does not fit.
pub open spec fn body_text(b: IssueBody) -> Seq<char> {
    truncate_to_bytes(body_markdown(b), ISSUE_BODY_MAX_LEN as int)
}

/// The body can be formatted: it has a failed job, its head fits in the maximum size, and
/// each job can be shortened to its share (on other bodies the formatting panics).
pub open spec fn body_supported(b: IssueBody) -> bool {
    &&& b.failed_jobs@.len() > 0
    &&& byte_len(header_of(b)) <= ISSUE_BODY_MAX_LEN
    &&& forall|i: int|
        0 <= i < b.failed_jobs@.len() ==> limit_supported(
            #[trigger] b.failed_jobs@[i],
            per_job_budget(b),
        )
}

/// `b` is `a` after formatting: the same run, and each job with its markdown limited to
/// its share.
pub open spec fn body_after_formatting(a: IssueBody, b: IssueBody) -> bool {
    &&& b.run_id == a.run_id
    &&& b.run_link == a.run_link
    &&& b.failed_jobs@.len() == a.failed_jobs@.len()
    &&& forall|i: int|
        0 <= i < a.failed_jobs@.len() ==> same_job_with_markdown(
            #[trigger] a.failed_jobs@[i],
            b.failed_jobs@[i],
            limited_markdown(a.failed_jobs@[i], per_job_budget(a)),
        )
}

/// `s` cut to the maximum issue body size, at a character boundary (see
/// `truncate_to_bytes`).
fn truncate_to_max_len(s: String) -> (r: String)
    ensures
        r@ == truncate_to_bytes(s@, ISSUE_BODY_MAX_LEN as int),
{
    if str_byte_len(s.as_str()) <= ISSUE_BODY_MAX_LEN {
        return s;
    }
    let ghost bytes = encode_utf8(s@);
    proof {
        encode_utf8_valid_utf8(s@);
    }
    let mut k: usize = ISSUE_BODY_MAX_LEN;
    while k > 0 && !s.as_str().is_char_boundary(k)
        invariant
            k <= ISSUE_BODY_MAX_LEN,
            bytes == encode_utf8(s@),
            vstd::utf8::valid_utf8(bytes),
            boundary_at_most(bytes, k as int) == boundary_at_most(bytes, ISSUE_BODY_MAX_LEN as int),
        decreases k,
    {
        k = k - 1;
    }
    proof {
        vstd::utf8::is_char_boundary_start_end_of_seq(bytes);
    }
    assert(k == boundary_at_most(bytes, ISSUE_BODY_MAX_LEN as int));
    let (head, _) = s.as_str().split_at(k);
    proof {
        encode_utf8_decode_utf8(head@);
    }
    String::from_str(head)
}

impl IssueBody {
    /// An issue body for one workflow run and its failed jobs.
    pub fn new(run_id: String, run_link: String, failed_jobs: Vec<FailedJob>) -> (r: Self)
        ensures
            r.run_id == run_id,
            r.run_link == run_link,
            r.failed_jobs == failed_jobs,
    {
        Self { run_id, run_link, failed_jobs }
    }

    fn header(&self) -> (r: String)
        ensures
            r@ == header_of(*self),
    {
        let n = self.failed_jobs.len();
        let mut r = String::new();
        r.append("**Run ID**: ");
        r.append(self.run_id.as_str());
        r.append(" [LINK TO RUN](");
        r.append(self.run_link.as_str());
        r.append(")\n\n**");
        let count = decimal_string(n as u64);
        r.append(count.as_str());
        r.append(" ");
        if n == 1 {
            r.append("job");
        } else {
            r.append("jobs");
        }
        r.append(" failed:**\n");
        let ghost head = r@;
        let mut i: usize = 0;
        while i < n
            invariant
                n == self.failed_jobs@.len(),
                i <= n,
                r@ == head + job_name_list(self.failed_jobs@.take(i as int)),
            decreases n - i,
        {
            r.append("- **`");
            r.append(self.failed_jobs[i].name.as_str());
            r.append("`**\n");
            assert(self.failed_jobs@.take(i + 1).drop_last() =~= self.failed_jobs@.take(i as int));
            i = i + 1;
        }
        assert(self.failed_jobs@.take(n as int) =~= self.failed_jobs@);
        r
    }

    /// Whether the body can be formatted (see `body_supported`); formatting it panics
    /// where it cannot.
    pub fn formatting_supported(&self) -> (b: bool)
        ensures
            b == body_supported(*self),
    {
        let n = self.failed_jobs.len();
        if n == 0 {
            return false;
        }
        let header = self.header();
        let header_len = str_byte_len(header.as_str());
        if header_len > ISSUE_BODY_MAX_LEN {
            return false;
        }
        let budget = (ISSUE_BODY_MAX_LEN - header_len) / n;
        let mut i: usize = 0;
        while i < n
            invariant
                n == self.failed_jobs@.len() > 0,
                i <= n,
                budget == per_job_budget(*self),
                forall|k: int|
                    0 <= k < i ==> limit_supported(#[trigger] self.failed_jobs@[k], budget as int),
            decreases n - i,
        {
            if !self.failed_jobs[i].limit_is_supported(budget) {
                return false;
            }
            i = i + 1;
        }
        true
    }

    /// The markdown of the body (see `body_markdown`). Each failed job is given an equal
    /// share of what the head leaves of the maximum issue body size, and keeps the
    /// markdown it was shortened to. Where the markdown still exceeds the maximum size,
    /// it is cut at the last character boundary within that size (see `body_text`).
    pub fn to_markdown_string(&mut self) -> (r: String)
        requires
            body_supported(*old(self)),
        ensures
            r@ == body_text(*old(self)),
            body_after_formatting(*old(self), *final(self)),
    {
        let mut output_str = self.header();
        let output_len = str_byte_len(output_str.as_str());
        let output_left_before_max = ISSUE_BODY_MAX_LEN - output_len;
        let n = self.failed_jobs.len();
        let available_len_per_job = output_left_before_max / n;
        let ghost old_jobs = self.failed_jobs@;
        let ghost budget = per_job_budget(*self);
        let mut failed_jobs_str = String::new();
        let mut i: usize = 0;
        while i < n
            invariant
                n == self.failed_jobs@.len() == old_jobs.len(),
                i <= n,
                available_len_per_job == budget,
                self.run_id == old(self).run_id,
                self.run_link == old(self).run_link,
                old_jobs == old(self).failed_jobs@,
                forall|k: int| 0 <= k < n ==> limit_supported(#[trigger] old_jobs[k], budget),
                forall|k: int|
                    0 <= k < i ==> same_job_with_markdown(
                        #[trigger] old_jobs[k],
                        self.failed_jobs@[k],
                        limited_markdown(old_jobs[k], budget),
                    ),
                forall|k: int| i <= k < n ==> #[trigger] self.failed_jobs@[k] == old_jobs[k],
                failed_jobs_str@ == limited_markdowns(old_jobs.take(i as int), budget),
            decreases n - i,
        {
            let part = self.failed_jobs[i].to_markdown_formatted_limit(available_len_per_job);
            failed_jobs_str.append(part);
            assert(old_jobs.take(i + 1).drop_last() =~= old_jobs.take(i as int));
            i = i + 1;
        }
        assert(old_jobs.take(n as int) =~= old_jobs);
        output_str.append(failed_jobs_str.as_str());
        truncate_to_max_len(output_str)
    }
}

/// The texts of a list of strings.
pub open spec fn texts(v: Seq<String>) -> Seq<Seq<char>> {
    v.map_values(|s: String| s@)
}

/// `labels` followed by the failure labels of `jobs` that are not among them yet, each
/// once, in the order of the jobs.
pub open spec fn with_failure_labels(labels: Seq<Seq<char>>, jobs: Seq<FailedJob>) -> Seq<
    Seq<char>,
>
    decreases jobs.len(),
{
    if jobs.len() == 0 {
        labels
    } else {
        let prev = with_failure_labels(labels, jobs.drop_last());
        match failure_label_of(jobs.last().error_message) {
            Some(l) => if prev.contains(l) {
                prev
            } else {
                prev.push(l)
            },
            None => prev,
        }
    }
}

/// An issue to be created: a title, its labels and its body.
#[derive(Debug)]
pub struct Issue {
    pub title: String,
    pub labels: Vec<String>,
    pub body: IssueBody,
}

fn contains_label(labels: &Vec<String>, label: &String) -> (b: bool)
    ensures
        b == texts(labels@).contains(label@),
{
    let mut i: usize = 0;
    while i < labels.len()
        invariant
            i <= labels.len(),
            forall|k: int| 0 <= k < i ==> labels@[k]@ != label@,
        decreases labels.len() - i,
    {
        if labels[i] == *label {
            assert(texts(labels@)[i as int] == label@);
            return true;
        }
        i = i + 1;
    }
    proof {
        if texts(labels@).contains(label@) {
            let k = choose|k: int| 0 <= k < texts(labels@).len() && texts(labels@)[k] == label@;
            assert(labels@[k]@ == label@);
        }
    }
    false
}

impl Issue {
    /// An issue with the given title, labelled with `label` and with the failure labels
    /// of the failed jobs, whose body links to the run (with `https://` added in front
    /// of the link where it is missing).
    pub fn new(
        title: String,
        run_id: String,
        run_link: String,
        failed_jobs: Vec<FailedJob>,
        label: String,
    ) -> (r: Self)
        ensures
            r.title == title,
            texts(r.labels@) == with_failure_labels(seq![label@], failed_jobs@),
            r.body.run_id == run_id,
            r.body.run_link@ == spec_ensure_https_prefix(run_link@),
            r.body.failed_jobs == failed_jobs,
    {
        let mut labels: Vec<String> = Vec::new();
        labels.push(label);
        proof {
            assert(texts(labels@) =~= seq![label@]);
        }
        let ghost first = texts(labels@);
        let mut i: usize = 0;
        while i < failed_jobs.len()
            invariant
                i <= failed_jobs.len(),
                texts(labels@) == with_failure_labels(first, failed_jobs@.take(i as int)),
            decreases failed_jobs.len() - i,
        {
            assert(failed_jobs@.take(i + 1).drop_last() =~= failed_jobs@.take(i as int));
            assert(failed_jobs@.take(i + 1).last() == failed_jobs@[i as int]);
            if let Some(failure_label) = failed_jobs[i].failure_label() {
                if !contains_label(&labels, &failure_label) {
                    let ghost before = labels@;
                    labels.push(failure_label);
                    assert(texts(labels@) =~= texts(before).push(failure_label@));
                }
            }
            i = i + 1;
        }
        assert(failed_jobs@.take(failed_jobs.len() as int) =~= failed_jobs@);
        let mut run_link = run_link;
        ensure_https_prefix(&mut run_link);
        Self { title, labels, body: IssueBody::new(run_id, run_link, failed_jobs) }
    }

    /// The issue's title.
    pub fn title(&self) -> (s: &str)
        ensures
            s@ == self.title@,
    {
        self.title.as_str()
    }

    /// The issue's labels, in the order they were given.
    pub fn labels(&self) -> (l: &[String])
        ensures
            l@ == self.labels@,
    {
        self.labels.as_slice()
    }

    /// The text of the body (see `IssueBody::to_markdown_string`).
    pub fn body(&mut self) -> (r: String)
        requires
            body_supported(old(self).body),
        ensures
            r@ == body_text(old(self).body),
            final(self).title == old(self).title,
            final(self).labels == old(self).labels,
            body_after_formatting(old(self).body, final(self).body),
    {
        self.body.to_markdown_string()
    }
}

// ---------------------------------------------------------------------------------------
// Laws of the issue formatting
// ---------------------------------------------------------------------------------------

/// Leaving out the first `d` bytes of a text, where `d` falls on a character boundary,
/// leaves a text `d` bytes shorter; leaving out none leaves the text as it is.
pub proof fn lemma_drop_bytes(s: Seq<char>, d: int)
    requires
        0 <= d <= byte_len(s),
        is_char_boundary(encode_utf8(s), d),
    ensures
        byte_len(drop_bytes(s, d)) == byte_len(s) - d,
        d == 0 ==> drop_bytes(s, d) == s,
{
    let b = encode_utf8(s);
    encode_utf8_valid_utf8(s);
    valid_utf8_split(b, d);
    decode_utf8_encode_utf8(b.subrange(d, b.len() as int));
    if d == 0 {
        assert(b.subrange(0, b.len() as int) =~= b);
        encode_utf8_decode_utf8(s);
    }
}

proof fn lemma_error_block_len(j: FailedJob, d: int)
    requires
        0 <= d <= byte_len(summary_of(j.error_message)),
        is_char_boundary(encode_utf8(summary_of(j.error_message)), d),
    ensures
        byte_len(error_block(j, d)) == byte_len(error_block(j, 0)) - d,
{
    let s = summary_of(j.error_message);
    let lit1 = "\n```\n"@;
    let lit2 = "```"@;
    let log = details_block(j.error_message);
    lemma_drop_bytes(s, d);
    encode_utf8_valid_utf8(s);
    vstd::utf8::is_char_boundary_start_end_of_seq(encode_utf8(s));
    lemma_drop_bytes(s, 0);
    lemma_byte_len_concat(lit1, drop_bytes(s, d));
    lemma_byte_len_concat(lit1 + drop_bytes(s, d), lit2);
    lemma_byte_len_concat(lit1 + drop_bytes(s, d) + lit2, log);
    lemma_byte_len_concat(lit1, s);
    lemma_byte_len_concat(lit1 + s, lit2);
    lemma_byte_len_concat(lit1 + s + lit2, log);
}

/// Where the markdown of a job has to be shortened and its error summary is at least as
/// long as the excess, the shortened markdown takes exactly `max_len` bytes; where it
/// does not have to be shortened, it is the preface and the whole error part.
pub proof fn lemma_fresh_limited_markdown_len(j: FailedJob, max_len: int)
    requires
        0 <= max_len,
        excess_len(j, max_len) <= byte_len(summary_of(j.error_message)),
        is_char_boundary(encode_utf8(summary_of(j.error_message)), excess_len(j, max_len)),
    ensures
        untruncated_len(j) > max_len ==> byte_len(fresh_limited_markdown(j, max_len)) == max_len,
        untruncated_len(j) <= max_len ==> fresh_limited_markdown(j, max_len) == job_preface(j)
            + error_block(j, 0) && byte_len(fresh_limited_markdown(j, max_len))
            == untruncated_len(j),
        byte_len(fresh_limited_markdown(j, max_len)) <= max_len,
{
    let d = excess_len(j, max_len);
    lemma_error_block_len(j, d);
    lemma_byte_len_concat(job_preface(j), error_block(j, d));
}

/// The markdown of a job limited to `max_len` bytes takes `max_len` bytes at most,
/// unless it has to be shortened by more than its error summary holds (then the note
/// that replaces the error part may not fit).
pub proof fn lemma_limited_markdown_fits(j: FailedJob, max_len: int)
    requires
        0 <= max_len,
        limit_supported(j, max_len),
        cached_fits(j, max_len) || excess_len(j, max_len) <= byte_len(
            summary_of(j.error_message),
        ),
    ensures
        byte_len(limited_markdown(j, max_len)) <= max_len,
{
    if !cached_fits(j, max_len) {
        if excess_len(j, max_len) == 0 {
            encode_utf8_valid_utf8(summary_of(j.error_message));
            vstd::utf8::is_char_boundary_start_end_of_seq(encode_utf8(summary_of(j.error_message)));
        }
        lemma_fresh_limited_markdown_len(j, max_len);
    }
}

/// For a job whose markdown fits in `max_len` bytes, the markdown limited to `max_len`
/// bytes and formatted anew is its full markdown.
pub proof fn lemma_fitting_markdown_is_full(j: FailedJob, max_len: int)
    requires
        untruncated_len(j) <= max_len,
    ensures
        fresh_limited_markdown(j, max_len) == job_markdown(j),
{
    let s = summary_of(j.error_message);
    encode_utf8_valid_utf8(s);
    vstd::utf8::is_char_boundary_start_end_of_seq(encode_utf8(s));
    lemma_drop_bytes(s, 0);
    assert(fresh_limited_markdown(j, max_len) =~= job_markdown(j));
}

proof fn lemma_limited_markdowns_len(jobs: Seq<FailedJob>, max_len: int)
    requires
        0 <= max_len,
        forall|i: int| 0 <= i < jobs.len() ==> byte_len(limited_markdown(#[trigger] jobs[i], max_len))
            <= max_len,
    ensures
        byte_len(limited_markdowns(jobs, max_len)) <= jobs.len() * max_len,
    decreases jobs.len(),
{
    if jobs.len() > 0 {
        let prev = jobs.drop_last();
        assert forall|i: int| 0 <= i < prev.len() implies byte_len(
            limited_markdown(#[trigger] prev[i], max_len),
        ) <= max_len by {
            assert(prev[i] == jobs[i]);
        }
        lemma_limited_markdowns_len(prev, max_len);
        lemma_byte_len_concat(limited_markdowns(prev, max_len), limited_markdown(jobs.last(), max_len));
        assert(byte_len(limited_markdown(jobs[jobs.len() - 1], max_len)) <= max_len);
        assert((jobs.len() - 1) * max_len + max_len == jobs.len() * max_len) by (nonlinear_arith);
    }
}

/// An issue body whose jobs' markdowns each fit in their share fits in the maximum issue
/// body size.
pub proof fn lemma_body_fits(b: IssueBody)
    requires
        b.failed_jobs@.len() > 0,
        byte_len(header_of(b)) <= ISSUE_BODY_MAX_LEN,
        forall|i: int|
            0 <= i < b.failed_jobs@.len() ==> byte_len(
                limited_markdown(#[trigger] b.failed_jobs@[i], per_job_budget(b)),
            ) <= per_job_budget(b),
    ensures
        byte_len(body_markdown(b)) <= ISSUE_BODY_MAX_LEN,
{
    let n = b.failed_jobs@.len() as int;
    let left = ISSUE_BODY_MAX_LEN - byte_len(header_of(b));
    let budget = per_job_budget(b);
    assert(budget == left / n);
    assert(0 <= budget) by {
        vstd::arithmetic::div_mod::lemma_div_pos_is_pos(left, n);
    }
    lemma_limited_markdowns_len(b.failed_jobs@, budget);
    assert(n * (left / n) <= left) by {
        vstd::arithmetic::div_mod::lemma_fundamental_div_mod(left, n);
        vstd::arithmetic::div_mod::lemma_mod_pos_bound(left, n);
    }
    lemma_byte_len_concat(header_of(b), limited_markdowns(b.failed_jobs@, budget));
}

proof fn lemma_job_name_list_same(a: Seq<FailedJob>, b: Seq<FailedJob>)
    requires
        a.len() == b.len(),
        forall|i: int| 0 <= i < a.len() ==> (#[trigger] a[i]).name == b[i].name,
    ensures
        job_name_list(a) == job_name_list(b),
    decreases a.len(),
{
    if a.len() > 0 {
        lemma_job_name_list_same(a.drop_last(), b.drop_last());
        assert(a[a.len() - 1].name == b[b.len() - 1].name);
    }
}

proof fn lemma_limited_markdowns_same(a: Seq<FailedJob>, b: Seq<FailedJob>, max_len: int)
    requires
        a.len() == b.len(),
        forall|i: int|
            0 <= i < a.len() ==> limited_markdown(#[trigger] a[i], max_len) == limited_markdown(
                b[i],
                max_len,
            ),
    ensures
        limited_markdowns(a, max_len) == limited_markdowns(b, max_len),
    decreases a.len(),
{
    if a.len() > 0 {
        let pa = a.drop_last();
        let pb = b.drop_last();
        assert forall|i: int| 0 <= i < pa.len() implies limited_markdown(#[trigger] pa[i], max_len)
            == limited_markdown(pb[i], max_len) by {
            assert(pa[i] == a[i] && pb[i] == b[i]);
        }
        lemma_limited_markdowns_same(pa, pb, max_len);
        assert(limited_markdown(a[a.len() - 1], max_len) == limited_markdown(b[b.len() - 1], max_len));
    }
}

/// Formatting an issue body again gives the same markdown: after a formatting, the body
/// can still be formatted, and its markdown is unchanged.
pub proof fn lemma_body_formatting_stable(a: IssueBody, b: IssueBody)
    requires
        body_supported(a),
        body_after_formatting(a, b),
    ensures
        body_supported(b),
        body_markdown(b) == body_markdown(a),
        body_text(b) == body_text(a),
{
    let ja = a.failed_jobs@;
    let jb = b.failed_jobs@;
    lemma_job_name_list_same(ja, jb);
    assert(header_of(b) == header_of(a));
    let budget = per_job_budget(a);
    assert(per_job_budget(b) == budget);
    assert forall|i: int| 0 <= i < ja.len() implies limited_markdown(#[trigger] jb[i], budget)
        == limited_markdown(ja[i], budget) && limit_supported(jb[i], budget) by {
        assert(same_job_with_markdown(ja[i], jb[i], limited_markdown(ja[i], budget)));
        assert(job_preface(jb[i]) == job_preface(ja[i]));
        assert(error_block(jb[i], 0) == error_block(ja[i], 0));
        assert(untruncated_len(jb[i]) == untruncated_len(ja[i]));
        assert(excess_len(jb[i], budget) == excess_len(ja[i], budget));
        assert(fresh_limited_markdown(jb[i], budget) == fresh_limited_markdown(ja[i], budget));
    }
    lemma_limited_markdowns_same(jb, ja, budget);
    assert forall|i: int| 0 <= i < jb.len() implies limit_supported(#[trigger] jb[i], per_job_budget(b)) by {
        assert(limit_supported(jb[i], budget));
    }
}

proof fn lemma_boundary_at_most(bytes: Seq<u8>, n: int)
    requires
        vstd::utf8::valid_utf8(bytes),
        n <= bytes.len(),
    ensures
        0 <= boundary_at_most(bytes, n),
        n >= 0 ==> boundary_at_most(bytes, n) <= n,
        is_char_boundary(bytes, boundary_at_most(bytes, n)),
    decreases n,
{
    if n > 0 && !is_char_boundary(bytes, n) {
        lemma_boundary_at_most(bytes, n - 1);
    }
}

/// Cutting a text to `n` bytes gives a prefix of it that takes `n` bytes at most, and the
/// text itself where it fits.
pub proof fn lemma_truncate_to_bytes(s: Seq<char>, n: int)
    requires
        0 <= n,
    ensures
        byte_len(truncate_to_bytes(s, n)) <= n,
        truncate_to_bytes(s, n).is_prefix_of(s),
        byte_len(s) <= n ==> truncate_to_bytes(s, n) == s,
{
    let b = encode_utf8(s);
    if byte_len(s) > n {
        encode_utf8_valid_utf8(s);
        lemma_boundary_at_most(b, n);
        let k = boundary_at_most(b, n);
        valid_utf8_split(b, k);
        decode_utf8_encode_utf8(b.subrange(0, k));
        vstd::utf8::decode_utf8_split(b, k);
        encode_utf8_decode_utf8(s);
        let head = decode_utf8(b.subrange(0, k));
        assert(s == head + decode_utf8(b.subrange(k, b.len() as int)));
        assert(head.is_prefix_of(s)) by {
            assert(s.subrange(0, head.len() as int) =~= head);
        }
    } else {
        assert(s.subrange(0, s.len() as int) =~= s);
    }
}

/// The text of a formatted issue body always fits in the maximum issue body size.
pub proof fn lemma_body_text_fits(b: IssueBody)
    ensures
        byte_len(body_text(b)) <= ISSUE_BODY_MAX_LEN,
        byte_len(body_markdown(b)) <= ISSUE_BODY_MAX_LEN ==> body_text(b) == body_markdown(b),
{
    lemma_truncate_to_bytes(body_markdown(b), ISSUE_BODY_MAX_LEN as int);
}

/// The labels of a new issue: the given label first, no label twice, each job's failure
/// label among them, and no label that is neither the given one nor a job's failure label.
pub proof fn lemma_issue_labels(label: Seq<char>, jobs: Seq<FailedJob>)
    ensures
        with_failure_labels(seq![label], jobs).len() >= 1,
        with_failure_labels(seq![label], jobs)[0] == label,
        with_failure_labels(seq![label], jobs).no_duplicates(),
        forall|i: int|
            0 <= i < jobs.len() && (#[trigger] failure_label_of(jobs[i].error_message)) is Some
                ==> with_failure_labels(seq![label], jobs).contains(
                failure_label_of(jobs[i].error_message)->0,
            ),
        forall|k: int|
            #![trigger with_failure_labels(seq![label], jobs)[k]]
            1 <= k < with_failure_labels(seq![label], jobs).len() ==> exists|i: int|
                0 <= i < jobs.len() && failure_label_of(#[trigger] jobs[i].error_message) == Some(
                    with_failure_labels(seq![label], jobs)[k],
                ),
    decreases jobs.len(),
{
    let r = with_failure_labels(seq![label], jobs);
    if jobs.len() > 0 {
        let pj = jobs.drop_last();
        let prev = with_failure_labels(seq![label], pj);
        lemma_issue_labels(label, pj);
        assert forall|i: int|
            0 <= i < jobs.len() && (#[trigger] failure_label_of(jobs[i].error_message)) is Some
                implies r.contains(failure_label_of(jobs[i].error_message)->0) by {
            if i < jobs.len() - 1 {
                assert(jobs[i] == pj[i]);
                assert(failure_label_of(pj[i].error_message) is Some);
                let l = failure_label_of(jobs[i].error_message)->0;
                assert(prev.contains(l));
                let k = choose|k: int| 0 <= k < prev.len() && prev[k] == l;
                assert(r[k] == l);
            } else {
                let l = failure_label_of(jobs[i].error_message)->0;
                if !prev.contains(l) {
                    assert(r[r.len() - 1] == l);
                }
            }
        }
        assert forall|k: int| #![trigger r[k]] 1 <= k < r.len() implies exists|i: int|
            0 <= i < jobs.len() && failure_label_of(#[trigger] jobs[i].error_message) == Some(r[k]) by {
            if k < prev.len() {
                let i = choose|i: int|
                    0 <= i < pj.len() && failure_label_of(#[trigger] pj[i].error_message) == Some(prev[k]);
                assert(jobs[i] == pj[i]);
            } else {
                assert(failure_label_of(jobs[jobs.len() - 1].error_message) == Some(r[k]));
            }
        }
    }
}

/// The labels of a new issue after the given one come in the order in which the jobs first
/// give them: of two such labels, the earlier one is the failure label of a job that comes
/// before every job whose failure label is the later one.
pub proof fn lemma_issue_labels_in_first_occurrence_order(label: Seq<char>, jobs: Seq<FailedJob>)
    ensures
        forall|k1: int, k2: int|
            #![trigger with_failure_labels(seq![label], jobs)[k1], with_failure_labels(seq![label], jobs)[k2]]
            1 <= k1 < k2 < with_failure_labels(seq![label], jobs).len() ==> exists|i: int|
                0 <= i < jobs.len() && failure_label_of(#[trigger] jobs[i].error_message) == Some(
                    with_failure_labels(seq![label], jobs)[k1],
                ) && forall|j: int|
                    0 <= j <= i ==> failure_label_of(#[trigger] jobs[j].error_message) != Some(
                        with_failure_labels(seq![label], jobs)[k2],
                    ),
    decreases jobs.len(),
{
    let r = with_failure_labels(seq![label], jobs);
    if jobs.len() > 0 {
        let pj = jobs.drop_last();
        let prev = with_failure_labels(seq![label], pj);
        lemma_issue_labels_in_first_occurrence_order(label, pj);
        lemma_issue_labels(label, pj);
        assert forall|k1: int, k2: int|
            #![trigger r[k1], r[k2]]
            1 <= k1 < k2 < r.len() implies exists|i: int|
                0 <= i < jobs.len() && failure_label_of(#[trigger] jobs[i].error_message) == Some(
                    r[k1],
                ) && forall|j: int|
                    0 <= j <= i ==> failure_label_of(#[trigger] jobs[j].error_message) != Some(
                        r[k2],
                    ) by {
            assert(r.len() == prev.len() || r.len() == prev.len() + 1);
            assert(forall|k: int| 0 <= k < prev.len() ==> r[k] == prev[k]);
            if k2 < prev.len() {
                assert(prev[k1] == r[k1] && prev[k2] == r[k2]);
                let i = choose|i: int|
                    0 <= i < pj.len() && failure_label_of(#[trigger] pj[i].error_message) == Some(
                        prev[k1],
                    ) && forall|j: int|
                        0 <= j <= i ==> failure_label_of(#[trigger] pj[j].error_message) != Some(
                            prev[k2],
                        );
                assert(jobs[i] == pj[i]);
                assert forall|j: int| 0 <= j <= i implies failure_label_of(
                    #[trigger] jobs[j].error_message,
                ) != Some(r[k2]) by {
                    assert(jobs[j] == pj[j]);
                }
            } else {
                // r[k2] is the label of the last job, new to `prev`
                let l = r[k2];
                assert(!prev.contains(l));
                assert(prev[k1] == r[k1]);
                let i = choose|i: int|
                    0 <= i < pj.len() && failure_label_of(#[trigger] pj[i].error_message) == Some(
                        prev[k1],
                    );
                assert(jobs[i] == pj[i]);
                assert forall|j: int| 0 <= j <= i implies failure_label_of(
                    #[trigger] jobs[j].error_message,
                ) != Some(l) by {
                    assert(jobs[j] == pj[j]);
                    if failure_label_of(pj[j].error_message) == Some(l) {
                        assert(prev.contains(l));
                    }
                }
            }
        }
    }
}

/// The full markdowns of `jobs`, one after the other.
pub open spec fn job_markdowns(jobs: Seq<FailedJob>) -> Seq<char>
    decreases jobs.len(),
{
    if jobs.len() == 0 {
        Seq::empty()
    } else {
        job_markdowns(jobs.drop_last()) + job_markdown(jobs.last())
    }
}

proof fn lemma_untruncated_len_is_full_len(j: FailedJob)
    ensures
        untruncated_len(j) == byte_len(job_markdown(j)),
        error_block(j, 0) == "\n```\n"@ + summary_of(j.error_message) + "```"@ + details_block(
            j.error_message,
        ),
{
    let s = summary_of(j.error_message);
    encode_utf8_valid_utf8(s);
    vstd::utf8::is_char_boundary_start_end_of_seq(encode_utf8(s));
    lemma_drop_bytes(s, 0);
    let tail = "\n```\n"@ + s + "```"@ + details_block(j.error_message);
    assert(job_markdown(j) =~= job_preface(j) + tail);
    lemma_byte_len_concat(job_preface(j), tail);
}

proof fn lemma_limited_markdowns_full(jobs: Seq<FailedJob>, max_len: int)
    requires
        forall|i: int|
            0 <= i < jobs.len() ==> (#[trigger] jobs[i]).markdown_formatted is None && byte_len(
                job_markdown(jobs[i]),
            ) <= max_len,
    ensures
        limited_markdowns(jobs, max_len) == job_markdowns(jobs),
    decreases jobs.len(),
{
    if jobs.len() > 0 {
        let pj = jobs.drop_last();
        assert forall|i: int| 0 <= i < pj.len() implies (#[trigger] pj[i]).markdown_formatted is None
            && byte_len(job_markdown(pj[i])) <= max_len by {
            assert(pj[i] == jobs[i]);
        }
        lemma_limited_markdowns_full(pj, max_len);
        let j = jobs.last();
        assert(j == jobs[jobs.len() - 1]);
        lemma_untruncated_len_is_full_len(j);
        lemma_fitting_markdown_is_full(j, max_len);
    }
}

/// Each failed job gets an equal share of what the head leaves of the maximum body size:
/// where the full markdown of every job fits in that share (its length times the number
/// of jobs fits in what the head leaves), the body is its head followed by the full
/// markdown of each job, uncut. In particular, a body with one job whose head and full
/// markdown fit in the maximum size is exactly the two.
pub proof fn lemma_body_with_fitting_jobs_is_full(b: IssueBody)
    requires
        b.failed_jobs@.len() > 0,
        byte_len(header_of(b)) <= ISSUE_BODY_MAX_LEN,
        forall|i: int|
            0 <= i < b.failed_jobs@.len() ==> (#[trigger] b.failed_jobs@[i]).markdown_formatted
                is None && byte_len(job_markdown(b.failed_jobs@[i])) * b.failed_jobs@.len()
                <= ISSUE_BODY_MAX_LEN - byte_len(header_of(b)),
    ensures
        body_text(b) == header_of(b) + job_markdowns(b.failed_jobs@),
{
    let jobs = b.failed_jobs@;
    let n = jobs.len() as int;
    let left = ISSUE_BODY_MAX_LEN - byte_len(header_of(b));
    let budget = per_job_budget(b);
    assert forall|i: int| 0 <= i < jobs.len() implies (#[trigger] jobs[i]).markdown_formatted
        is None && byte_len(job_markdown(jobs[i])) <= budget by {
        let m = byte_len(job_markdown(jobs[i])) as int;
        assert(m * n <= left);
        assert(m <= left / n) by {
            vstd::arithmetic::div_mod::lemma_fundamental_div_mod(left, n);
            vstd::arithmetic::div_mod::lemma_mod_pos_bound(left, n);
            assert(m * n <= left && left == n * (left / n) + left % n && left % n < n && n > 0
                && m >= 0 ==> m <= left / n) by (nonlinear_arith);
        }
    }
    lemma_limited_markdowns_full(jobs, budget);
    assert forall|i: int| 0 <= i < jobs.len() implies byte_len(
        limited_markdown(#[trigger] jobs[i], budget),
    ) <= budget by {
        lemma_untruncated_len_is_full_len(jobs[i]);
        lemma_fitting_markdown_is_full(jobs[i], budget);
    }
    lemma_body_fits(b);
    lemma_body_text_fits(b);
}

} // verus!
