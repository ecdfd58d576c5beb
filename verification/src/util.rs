//! Utility functions for parsing and working with GitHub CLI output and other utility functions.
//!
//! The text patterns that the functions recognise are stated as spec functions over the
//! characters of the input. Where a function finds a pattern, the first match is the one
//! that starts leftmost, and among the matches that start there, the one that a
//! backtracking matcher with greedy repetition finds first.
use vstd::prelude::*;

use crate::text::{
    chars_of, contains_char, contains_seq, has_char, has_prefix, push_char, push_chars, replace, replace_all,
    starts_with, string_from_chars,
};
use crate::unicode::{
    ascii_digit, ascii_letter, decimal_digit, is_ascii_digit, is_ascii_letter, is_decimal_digit,
    is_white_space, white_space,
};

verus! {

// ---------------------------------------------------------------------------------------
// Line-prefixed ISO 8601 timestamps: `[\r\n]*\d{4}-\d{2}-\d{2}T\d{2}:\d{2}:\d{2}.\d{7}Z\s`
// ---------------------------------------------------------------------------------------

/// `\r` or `\n`.
pub open spec fn is_line_break(c: char) -> bool {
    c == '\r' || c == '\n'
}

/// The number of consecutive line breaks in `t` from index `i` on.
pub open spec fn line_break_count(t: Seq<char>, i: int) -> nat
    decreases t.len() - i,
{
    if 0 <= i < t.len() && is_line_break(t[i]) {
        1 + line_break_count(t, i + 1)
    } else {
        0
    }
}

/// A timestamp `YYYY-MM-DDTHH:MM:SS.FFFFFFFZ` followed by one white space character
/// starts at index `i` of `t` (`Y`, `M`, ... are Unicode decimal digits; the character
/// before the fraction is anything but `\n`).
pub open spec fn iso_timestamp_at(t: Seq<char>, i: int) -> bool {
    &&& 0 <= i
    &&& i + 29 <= t.len()
    &&& is_decimal_digit(t[i]) && is_decimal_digit(t[i + 1])
    &&& is_decimal_digit(t[i + 2]) && is_decimal_digit(t[i + 3])
    &&& t[i + 4] == '-'
    &&& is_decimal_digit(t[i + 5]) && is_decimal_digit(t[i + 6])
    &&& t[i + 7] == '-'
    &&& is_decimal_digit(t[i + 8]) && is_decimal_digit(t[i + 9])
    &&& t[i + 10] == 'T'
    &&& is_decimal_digit(t[i + 11]) && is_decimal_digit(t[i + 12])
    &&& t[i + 13] == ':'
    &&& is_decimal_digit(t[i + 14]) && is_decimal_digit(t[i + 15])
    &&& t[i + 16] == ':'
    &&& is_decimal_digit(t[i + 17]) && is_decimal_digit(t[i + 18])
    &&& t[i + 19] != '\n'
    &&& is_decimal_digit(t[i + 20]) && is_decimal_digit(t[i + 21])
    &&& is_decimal_digit(t[i + 22]) && is_decimal_digit(t[i + 23])
    &&& is_decimal_digit(t[i + 24]) && is_decimal_digit(t[i + 25])
    &&& is_decimal_digit(t[i + 26])
    &&& t[i + 27] == 'Z'
    &&& is_white_space(t[i + 28])
}

/// `t[i..]` with every line-prefix timestamp removed and the line breaks before it kept.
pub open spec fn strip_timestamp_prefixes_from(t: Seq<char>, i: int) -> Seq<char>
    decreases t.len() - i,
{
    if i < 0 || i >= t.len() {
        Seq::empty()
    } else {
        let m = i + line_break_count(t, i);
        if iso_timestamp_at(t, m) {
            t.subrange(i, m) + strip_timestamp_prefixes_from(t, m + 29)
        } else {
            seq![t[i]] + strip_timestamp_prefixes_from(t, i + 1)
        }
    }
}

/// The log `t` with its line-prefix timestamps removed.
pub open spec fn spec_remove_timestamp_prefixes(t: Seq<char>) -> Seq<char> {
    strip_timestamp_prefixes_from(t, 0)
}

fn iso_timestamp_at_exec(t: &Vec<char>, i: usize) -> (b: bool)
    ensures
        b == iso_timestamp_at(t@, i as int),
{
    if i > t.len() || t.len() - i < 29 {
        return false;
    }
    decimal_digit(t[i]) && decimal_digit(t[i + 1]) && decimal_digit(t[i + 2]) && decimal_digit(
        t[i + 3],
    ) && t[i + 4] == '-' && decimal_digit(t[i + 5]) && decimal_digit(t[i + 6]) && t[i + 7] == '-'
        && decimal_digit(t[i + 8]) && decimal_digit(t[i + 9]) && t[i + 10] == 'T' && decimal_digit(
        t[i + 11],
    ) && decimal_digit(t[i + 12]) && t[i + 13] == ':' && decimal_digit(t[i + 14])
        && decimal_digit(t[i + 15]) && t[i + 16] == ':' && decimal_digit(t[i + 17])
        && decimal_digit(t[i + 18]) && t[i + 19] != '\n' && decimal_digit(t[i + 20])
        && decimal_digit(t[i + 21]) && decimal_digit(t[i + 22]) && decimal_digit(t[i + 23])
        && decimal_digit(t[i + 24]) && decimal_digit(t[i + 25]) && decimal_digit(t[i + 26])
        && t[i + 27] == 'Z' && white_space(t[i + 28])
}

/// Parse a log and remove line-prefixed timestamps in the format
/// `YYYY-MM-DDTHH:MM:SS.0000000Z` (ISO 8601), together with the white space character
/// that follows each. The line breaks in front of a timestamp are kept, so the
/// function is agnostic to the kind of line break used in the log.
pub fn remove_timestamp_prefixes(log: &str) -> (r: String)
    ensures
        r@ == spec_remove_timestamp_prefixes(log@),
{
    let t = chars_of(log);
    let mut out = String::new();
    let mut i: usize = 0;
    while i < t.len()
        invariant
            i <= t.len(),
            out@ + strip_timestamp_prefixes_from(t@, i as int) == spec_remove_timestamp_prefixes(
                t@,
            ),
        decreases t.len() - i,
    {
        let mut m = i;
        while m < t.len() && (t[m] == '\r' || t[m] == '\n')
            invariant
                i <= m <= t.len(),
                m + line_break_count(t@, m as int) == i + line_break_count(t@, i as int),
            decreases t.len() - m,
        {
            m = m + 1;
        }
        let ghost old_out = out@;
        if iso_timestamp_at_exec(&t, m) {
            push_chars(&mut out, &t, i, m);
            let ghost rest = strip_timestamp_prefixes_from(t@, m + 29);
            assert(out@ + rest =~= old_out + (t@.subrange(i as int, m as int) + rest));
            i = m + 29;
        } else {
            push_char(&mut out, t[i]);
            let ghost rest = strip_timestamp_prefixes_from(t@, i + 1);
            assert(out@ + rest =~= old_out + (seq![t@[i as int]] + rest));
            i = i + 1;
        }
    }
    assert(out@ + Seq::<char>::empty() =~= out@);
    out
}

// ---------------------------------------------------------------------------------------
// ANSI escape codes (control sequences): `\x1b\[[\x30-\x3f]*[\x20-\x2f]*[\x40-\x7e]`
// ---------------------------------------------------------------------------------------

/// The code point of `c` lies in `lo..=hi`.
pub open spec fn char_in(c: char, lo: u32, hi: u32) -> bool {
    lo <= (c as u32) <= hi
}

/// Index just after the run of characters in `lo..=hi` that starts at index `j` of `t`.
pub open spec fn class_run_end(t: Seq<char>, j: int, lo: u32, hi: u32) -> int
    decreases t.len() - j,
{
    if 0 <= j < t.len() && char_in(t[j], lo, hi) {
        class_run_end(t, j + 1, lo, hi)
    } else {
        j
    }
}

/// Index just after the ANSI control sequence that starts at index `i` of `t`: `ESC [`,
/// then parameter characters (`0x30`-`0x3F`), intermediate characters (`0x20`-`0x2F`)
/// and one final character (`0x40`-`0x7E`); -1 where none starts there.
pub open spec fn ansi_sequence_end(t: Seq<char>, i: int) -> int {
    if 0 <= i && i + 1 < t.len() && t[i] == '\x1b' && t[i + 1] == '[' {
        let q = class_run_end(t, class_run_end(t, i + 2, 0x30, 0x3f), 0x20, 0x2f);
        if q < t.len() && char_in(t[q], 0x40, 0x7e) {
            q + 1
        } else {
            -1
        }
    } else {
        -1
    }
}

/// `t[i..]` with every ANSI control sequence removed, scanning from the left.
pub open spec fn strip_ansi_codes_from(t: Seq<char>, i: int) -> Seq<char>
    decreases t.len() - i,
{
    if i < 0 || i >= t.len() {
        Seq::empty()
    } else if ansi_sequence_end(t, i) > i {
        strip_ansi_codes_from(t, ansi_sequence_end(t, i))
    } else {
        seq![t[i]] + strip_ansi_codes_from(t, i + 1)
    }
}

/// The text `t` with its ANSI control sequences (colours, cursor movements) removed.
pub open spec fn spec_remove_ansi_codes(t: Seq<char>) -> Seq<char> {
    strip_ansi_codes_from(t, 0)
}

fn class_run_end_exec(t: &Vec<char>, j: usize, lo: u32, hi: u32) -> (e: usize)
    requires
        j <= t.len(),
    ensures
        e == class_run_end(t@, j as int, lo, hi),
        j <= e <= t.len(),
{
    let mut k = j;
    while k < t.len() && lo <= t[k] as u32 && t[k] as u32 <= hi
        invariant
            j <= k <= t.len(),
            class_run_end(t@, k as int, lo, hi) == class_run_end(t@, j as int, lo, hi),
        decreases t.len() - k,
    {
        k = k + 1;
    }
    k
}

fn ansi_sequence_end_exec(t: &Vec<char>, i: usize) -> (e: Option<usize>)
    requires
        i < t.len(),
    ensures
        e is Some <==> ansi_sequence_end(t@, i as int) > i,
        e matches Some(k) ==> k == ansi_sequence_end(t@, i as int) && k <= t.len(),
{
    if t.len() - i < 2 || t[i] != '\x1b' || t[i + 1] != '[' {
        return None;
    }
    let p = class_run_end_exec(t, i + 2, 0x30, 0x3f);
    let q = class_run_end_exec(t, p, 0x20, 0x2f);
    if q < t.len() && 0x40 <= t[q] as u32 && t[q] as u32 <= 0x7e {
        Some(q + 1)
    } else {
        None
    }
}

/// Removes the ANSI escape codes (control sequences such as colours) from a log.
pub fn remove_ansi_codes(text: &str) -> (r: String)
    ensures
        r@ == spec_remove_ansi_codes(text@),
{
    let t = chars_of(text);
    let mut out = String::new();
    let mut i: usize = 0;
    while i < t.len()
        invariant
            i <= t.len(),
            out@ + strip_ansi_codes_from(t@, i as int) == spec_remove_ansi_codes(t@),
        decreases t.len() - i,
    {
        match ansi_sequence_end_exec(&t, i) {
            Some(k) => {
                i = k;
            },
            None => {
                let ghost old_out = out@;
                push_char(&mut out, t[i]);
                let ghost rest = strip_ansi_codes_from(t@, i + 1);
                assert(out@ + rest =~= old_out + (seq![t@[i as int]] + rest));
                i = i + 1;
            },
        }
    }
    assert(out@ + Seq::<char>::empty() =~= out@);
    out
}

// ---------------------------------------------------------------------------------------
// Timestamps and IDs inside text:
// `([0-9]{4}-[0-9]{2}-[0-9]{2}\x20[0-9]{2}:[0-9]{2}:[0-9]{2})|[^a-zA-Z]([0-9]{10,11})[^a-zA-Z]`
// ---------------------------------------------------------------------------------------

/// `t[from..from + n]` lies in `t` and consists of ASCII digits.
pub open spec fn ascii_digits_at(t: Seq<char>, from: int, n: int) -> bool {
    0 <= from && from + n <= t.len() && forall|k: int| from <= k < from + n ==> is_ascii_digit(
        #[trigger] t[k],
    )
}

/// A date and time `YYYY-MM-DD HH:MM:SS` (ASCII digits) starts at index `i` of `t`.
pub open spec fn date_time_at(t: Seq<char>, i: int) -> bool {
    &&& ascii_digits_at(t, i, 4)
    &&& ascii_digits_at(t, i + 5, 2)
    &&& ascii_digits_at(t, i + 8, 2)
    &&& ascii_digits_at(t, i + 11, 2)
    &&& ascii_digits_at(t, i + 14, 2)
    &&& ascii_digits_at(t, i + 17, 2)
    &&& t[i + 4] == '-'
    &&& t[i + 7] == '-'
    &&& t[i + 10] == ' '
    &&& t[i + 13] == ':'
    &&& t[i + 16] == ':'
}

/// `t[i]` exists and is not an ASCII letter.
pub open spec fn non_letter_at(t: Seq<char>, i: int) -> bool {
    0 <= i < t.len() && !is_ascii_letter(t[i])
}

/// Length of the timestamp or ID that the pattern matches at index `i` of `t`, 0 where
/// it matches none: a date and time (19 characters); else an ID of 11, or failing that
/// 10, ASCII digits between two characters that are not ASCII letters (the two
/// characters included).
pub open spec fn timestamp_or_id_len(t: Seq<char>, i: int) -> int {
    if date_time_at(t, i) {
        19
    } else if non_letter_at(t, i) && ascii_digits_at(t, i + 1, 11) && non_letter_at(t, i + 12) {
        13
    } else if non_letter_at(t, i) && ascii_digits_at(t, i + 1, 10) && non_letter_at(t, i + 11) {
        12
    } else {
        0
    }
}

/// `t[i..]` with every timestamp and ID that the pattern matches removed.
pub open spec fn strip_timestamps_and_ids_from(t: Seq<char>, i: int) -> Seq<char>
    decreases t.len() - i,
{
    if i < 0 || i >= t.len() {
        Seq::empty()
    } else if timestamp_or_id_len(t, i) > 0 {
        strip_timestamps_and_ids_from(t, i + timestamp_or_id_len(t, i))
    } else {
        seq![t[i]] + strip_timestamps_and_ids_from(t, i + 1)
    }
}

/// The text `t` with its timestamps and IDs removed.
pub open spec fn spec_remove_timestamps_and_ids(t: Seq<char>) -> Seq<char> {
    strip_timestamps_and_ids_from(t, 0)
}

fn ascii_digits_at_exec(t: &Vec<char>, from: usize, n: usize) -> (b: bool)
    requires
        n <= 11,
    ensures
        b == ascii_digits_at(t@, from as int, n as int),
{
    if from > t.len() || t.len() - from < n {
        return false;
    }
    let mut k: usize = 0;
    while k < n
        invariant
            from + n <= t.len(),
            k <= n,
            forall|j: int| from <= j < from + k ==> is_ascii_digit(#[trigger] t@[j]),
        decreases n - k,
    {
        if !ascii_digit(t[from + k]) {
            return false;
        }
        k = k + 1;
    }
    true
}

fn non_letter_at_exec(t: &Vec<char>, i: usize) -> (b: bool)
    ensures
        b == non_letter_at(t@, i as int),
{
    i < t.len() && !ascii_letter(t[i])
}

fn timestamp_or_id_len_exec(t: &Vec<char>, i: usize) -> (n: usize)
    requires
        i < t.len(),
    ensures
        n == timestamp_or_id_len(t@, i as int),
{
    let date_time = t.len() >= 19 && i <= t.len() - 19 && ascii_digits_at_exec(t, i, 4) && ascii_digits_at_exec(
        t,
        i + 5,
        2,
    ) && ascii_digits_at_exec(t, i + 8, 2) && ascii_digits_at_exec(t, i + 11, 2)
        && ascii_digits_at_exec(t, i + 14, 2) && ascii_digits_at_exec(t, i + 17, 2) && t[i + 4]
        == '-' && t[i + 7] == '-' && t[i + 10] == ' ' && t[i + 13] == ':' && t[i + 16] == ':';
    if date_time {
        return 19;
    }
    proof {
        if t@.len() < i + 19 {
            assert(!ascii_digits_at(t@, i + 17, 2));
        }
    }
    if non_letter_at_exec(t, i) && i < t.len() - 1 && ascii_digits_at_exec(t, i + 1, 11)
        && non_letter_at_exec(t, i + 12) {
        return 13;
    }
    if non_letter_at_exec(t, i) && i < t.len() - 1 && ascii_digits_at_exec(t, i + 1, 10)
        && non_letter_at_exec(t, i + 11) {
        return 12;
    }
    0
}

/// Parse text for timestamps and IDs and remove them.
///
/// Timestamps are `YYYY-MM-DD HH:MM:SS`. IDs are runs of 10 or 11 digits, removed only
/// if they are preceded and followed by non-letter characters, which are removed with
/// them; this removes IDs between other symbols (e.g. `/83421321/`) but keeps commit
/// SHAs.
pub fn remove_timestamps_and_ids(text: &str) -> (r: String)
    ensures
        r@ == spec_remove_timestamps_and_ids(text@),
{
    let t = chars_of(text);
    let mut out = String::new();
    let mut i: usize = 0;
    while i < t.len()
        invariant
            i <= t.len(),
            out@ + strip_timestamps_and_ids_from(t@, i as int) == spec_remove_timestamps_and_ids(
                t@,
            ),
        decreases t.len() - i,
    {
        let n = timestamp_or_id_len_exec(&t, i);
        if n > 0 {
            i = i + n;
        } else {
            let ghost old_out = out@;
            push_char(&mut out, t[i]);
            let ghost rest = strip_timestamps_and_ids_from(t@, i + 1);
            assert(out@ + rest =~= old_out + (seq![t@[i as int]] + rest));
            i = i + 1;
        }
    }
    assert(out@ + Seq::<char>::empty() =~= out@);
    out
}

// ---------------------------------------------------------------------------------------
// URLs
// ---------------------------------------------------------------------------------------

/// `url` with `https://` in front, unless it starts with it already.
pub open spec fn spec_ensure_https_prefix(url: Seq<char>) -> Seq<char> {
    if has_prefix(url, "https://"@) {
        url
    } else {
        "https://"@ + url
    }
}

/// Add https:// to a URL if it is not already present
pub fn ensure_https_prefix(url: &mut String)
    ensures
        final(url)@ == spec_ensure_https_prefix(old(url)@),
{
    let prefix = chars_of("https://");
    if starts_with(&chars_of(url.as_str()), &prefix) {
        return;
    }
    let mut r = String::from_str("https://");
    r.append(url.as_str());
    *url = r;
}

/// The parts of a repository URL or an identifier up to the host, appended `.com` where
/// `host` has no top-level domain.
pub open spec fn host_with_tld(host: Seq<char>) -> Seq<char> {
    if has_char(host, '.') {
        host
    } else {
        host + ".com"@
    }
}

/// `https://{host}/`, the prefix of a canonical repository URL.
pub open spec fn canonical_prefix(host: Seq<char>) -> Seq<char> {
    "https://"@ + host_with_tld(host) + "/"@
}

/// The repository URL `repo` in the form `https://{host}/{repo}`.
pub open spec fn spec_canonicalize_repo_url(repo: Seq<char>, host: Seq<char>) -> Seq<char> {
    let h = host_with_tld(host);
    let prefix = canonical_prefix(host);
    if has_prefix(repo, "https://"@) {
        if has_prefix(repo, prefix) {
            repo
        } else {
            replace_all(repo, "https://"@, prefix)
        }
    } else if has_prefix(repo, h + "/"@) {
        replace_all(repo, h + "/"@, prefix)
    } else {
        prefix + repo
    }
}

/// Canonicalize a repository URL to the form `https://{host}/{repo}`
///
/// # Arguments
/// * `repo` - The repository URL e.g. `user1/user1-repo`
/// * `host` - The host for the repository e.g. `github.com`; `.com` is added where it has
///   no top-level domain
///
/// A URL that starts with `https://` but not with the canonical prefix has each
/// `https://` in it replaced by that prefix; one that starts with `{host}/` has each
/// `{host}/` replaced by it; any other gets the prefix in front.
pub fn canonicalize_repo_url(repo: &str, host: &str) -> (r: String)
    ensures
        r@ == spec_canonicalize_repo_url(repo@, host@),
{
    let host_chars = chars_of(host);
    let mut h = String::from_str(host);
    if !contains_char(&host_chars, '.') {
        h.append(".com");
    }
    let mut prefix = String::from_str("https://");
    prefix.append(h.as_str());
    prefix.append("/");
    let mut host_slash = h.clone();
    host_slash.append("/");
    let repo_chars = chars_of(repo);
    let prefix_chars = chars_of(prefix.as_str());
    let https = chars_of("https://");
    if starts_with(&repo_chars, &https) {
        if starts_with(&repo_chars, &prefix_chars) {
            String::from_str(repo)
        } else {
            replace(&repo_chars, &https, &prefix_chars)
        }
    } else {
        let host_slash_chars = chars_of(host_slash.as_str());
        if starts_with(&repo_chars, &host_slash_chars) {
            replace(&repo_chars, &host_slash_chars, &prefix_chars)
        } else {
            prefix.append(repo);
            prefix
        }
    }
}

/// Index of the last `c` in `s`, -1 where there is none.
pub open spec fn last_index_of(s: Seq<char>, c: char) -> int
    decreases s.len(),
{
    if s.len() == 0 {
        -1
    } else if s.last() == c {
        s.len() - 1
    } else {
        last_index_of(s.drop_last(), c)
    }
}

/// `last_index_of` is -1 or the index of the last occurrence.
pub proof fn lemma_last_index_of(s: Seq<char>, c: char)
    ensures
        -1 <= last_index_of(s, c) < s.len(),
        last_index_of(s, c) >= 0 ==> s[last_index_of(s, c)] == c,
        forall|j: int| last_index_of(s, c) < j < s.len() ==> s[j] != c,
    decreases s.len(),
{
    if s.len() > 0 && s.last() != c {
        lemma_last_index_of(s.drop_last(), c);
        assert forall|j: int| last_index_of(s, c) < j < s.len() implies s[j] != c by {
            if j < s.len() - 1 {
                assert(s.drop_last()[j] == s[j]);
            }
        }
    }
}

/// The last `/`-separated segment of `s`.
pub open spec fn last_segment(s: Seq<char>) -> Seq<char> {
    s.skip(last_index_of(s, '/') + 1)
}

/// A repository owner or name: not empty, and with neither spaces nor dots.
pub open spec fn valid_fragment(f: Seq<char>) -> bool {
    f.len() > 0 && !has_char(f, ' ') && !has_char(f, '.')
}

/// The owner and the repository named by a repository URL: its last two `/`-separated
/// segments, where it has two segments at least and both are valid fragments.
pub open spec fn spec_owner_repo(url: Seq<char>) -> Option<(Seq<char>, Seq<char>)> {
    let k = last_index_of(url, '/');
    let repo = url.skip(k + 1);
    let owner = last_segment(url.take(k));
    if k >= 0 && valid_fragment(owner) && valid_fragment(repo) {
        Some((owner, repo))
    } else {
        None
    }
}

/// Errors of the parsing helpers.
#[derive(Debug, Clone, Copy, PartialEq, Eq, Structural)]
pub enum ParseError {
    /// No path found in string
    NoPath,
    /// Path not found, no '/' in string
    NoAbsolutePath,
    /// Could not parse owner and repo from URL
    InvalidRepoUrl,
}

fn last_index_of_exec(s: &Vec<char>, end: usize, c: char) -> (k: Option<usize>)
    requires
        end <= s.len(),
    ensures
        k is None <==> last_index_of(s@.take(end as int), c) < 0,
        k is Some ==> k->0 == last_index_of(s@.take(end as int), c) && k->0 < end,
{
    proof {
        lemma_last_index_of(s@.take(end as int), c);
    }
    let mut i = end;
    while i > 0
        invariant
            i <= end <= s.len(),
            last_index_of(s@.take(i as int), c) == last_index_of(s@.take(end as int), c),
        decreases i,
    {
        assert(s@.take(i as int).drop_last() =~= s@.take(i - 1));
        if s[i - 1] == c {
            return Some(i - 1);
        }
        i = i - 1;
    }
    None
}

fn valid_fragment_exec(s: &Vec<char>, from: usize, to: usize) -> (b: bool)
    requires
        from <= to <= s.len(),
    ensures
        b == valid_fragment(s@.subrange(from as int, to as int)),
{
    let ghost f = s@.subrange(from as int, to as int);
    if from == to {
        return false;
    }
    let mut i = from;
    while i < to
        invariant
            from <= i <= to <= s.len(),
            f == s@.subrange(from as int, to as int),
            forall|j: int| from <= j < i ==> s@[j] != ' ' && s@[j] != '.',
        decreases to - i,
    {
        if s[i] == ' ' || s[i] == '.' {
            assert(f[i - from] == s@[i as int]);
            return false;
        }
        i = i + 1;
    }
    assert forall|j: int| 0 <= j < f.len() implies f[j] != ' ' && f[j] != '.' by {
        assert(f[j] == s@[from + j]);
    }
    true
}

/// Parse a repository URL/identifier to owner and repo fragments
///
/// # Errors
/// Returns an error if the URL cannot be parsed: it has no `/`, or one of its last two
/// segments is empty or holds a space or a dot.
pub fn repo_to_owner_repo_fragments(repo_url: &str) -> (r: Result<(String, String), ParseError>)
    ensures
        r is Ok <==> spec_owner_repo(repo_url@) is Some,
        r matches Ok((owner, repo)) ==> spec_owner_repo(repo_url@) == Some((owner@, repo@)),
        r is Err ==> r->Err_0 == ParseError::InvalidRepoUrl,
{
    let t = chars_of(repo_url);
    let n = t.len();
    assert(t@.take(n as int) =~= t@);
    let k = match last_index_of_exec(&t, n, '/') {
        Some(k) => k,
        None => return Err(ParseError::InvalidRepoUrl),
    };
    let owner_start: usize = match last_index_of_exec(&t, k, '/') {
        Some(k2) => k2 + 1,
        None => 0,
    };
    proof {
        let url = repo_url@;
        assert(k == last_index_of(url, '/'));
        lemma_last_index_of(url.take(k as int), '/');
        assert(owner_start == last_index_of(url.take(k as int), '/') + 1);
        assert(last_segment(url.take(k as int)) =~= t@.subrange(owner_start as int, k as int));
        assert(url.skip(k + 1) =~= t@.subrange(k + 1, n as int));
    }
    if !valid_fragment_exec(&t, owner_start, k) || !valid_fragment_exec(&t, k + 1, n) {
        return Err(ParseError::InvalidRepoUrl);
    }
    let owner = string_from_chars(&t, owner_start, k);
    let repo = string_from_chars(&t, k + 1, n);
    Ok((owner, repo))
}

// ---------------------------------------------------------------------------------------
// Paths: `[a-zA-Z0-9-_./]+/[a-zA-Z0-9-_.]+`
// ---------------------------------------------------------------------------------------

/// A character that may stand in a path segment: an ASCII letter or digit, `-`, `_` or `.`.
pub open spec fn is_segment_char(c: char) -> bool {
    is_ascii_letter(c) || is_ascii_digit(c) || c == '-' || c == '_' || c == '.'
}

/// A character that may stand in a path: a segment character or `/`.
pub open spec fn is_path_char(c: char) -> bool {
    is_segment_char(c) || c == '/'
}

/// A path can start at index `s` of `t` with its last separator at index `k`: the
/// characters from `s` to `k` are path characters, `t[k]` is `/`, and a segment
/// character follows it.
pub open spec fn path_split(t: Seq<char>, s: int, k: int) -> bool {
    &&& 0 <= s < k
    &&& k + 1 < t.len()
    &&& forall|j: int| s <= j < k ==> is_path_char(#[trigger] t[j])
    &&& t[k] == '/'
    &&& is_segment_char(t[k + 1])
}

/// Index just after the run of segment characters that starts at index `j` of `t`.
pub open spec fn segment_end(t: Seq<char>, j: int) -> int
    decreases t.len() - j,
{
    if 0 <= j < t.len() && is_segment_char(t[j]) {
        segment_end(t, j + 1)
    } else {
        j
    }
}

/// The first path in `t`: it starts at the first index where a path can start, its last
/// separator is the last one possible from there, and its last segment is as long as
/// it can be.
pub open spec fn is_first_path(t: Seq<char>, p: Seq<char>) -> bool {
    exists|s: int, k: int|
        {
            &&& #[trigger] path_split(t, s, k)
            &&& forall|s2: int, k2: int| s2 < s ==> !path_split(t, s2, k2)
            &&& forall|k2: int| k2 > k ==> !path_split(t, s, k2)
            &&& p == t.subrange(s, segment_end(t, k + 1))
        }
}

fn is_segment_char_exec(c: char) -> (b: bool)
    ensures
        b == is_segment_char(c),
{
    ascii_letter(c) || ascii_digit(c) || c == '-' || c == '_' || c == '.'
}

/// Parse a path from a string: the first run of path characters with a `/` in it that is
/// followed by a segment character (see `is_first_path`).
///
/// # Errors
/// This function returns an error if no valid path is found in the string
pub fn first_path_from_str(s: &str) -> (r: Result<String, ParseError>)
    ensures
        r is Ok <==> exists|a: int, k: int| path_split(s@, a, k),
        r is Ok ==> is_first_path(s@, r->Ok_0@),
        r is Err ==> r->Err_0 == ParseError::NoPath,
{
    let t = chars_of(s);
    let n = t.len();
    let mut a: usize = 0;
    while a < n
        invariant
            a <= n == t@.len(),
            t@ == s@,
            forall|s2: int, k2: int| s2 < a ==> !path_split(t@, s2, k2),
        decreases n - a,
    {
        let mut r = a;
        while r < n && (is_segment_char_exec(t[r]) || t[r] == '/')
            invariant
                a <= r <= n == t@.len(),
                forall|j: int| a <= j < r ==> is_path_char(#[trigger] t@[j]),
            decreases n - r,
        {
            r = r + 1;
        }
        let mut k = r;
        while k > a + 1
            invariant
                a < n,
                t@ == s@,
                forall|s2: int, k2: int| s2 < a ==> !path_split(t@, s2, k2),
                a <= k <= r <= n == t@.len(),
                forall|j: int| a <= j < r ==> is_path_char(#[trigger] t@[j]),
                r < n ==> !is_path_char(t@[r as int]),
                forall|k2: int| k2 >= k ==> !path_split(t@, a as int, k2),
            decreases k,
        {
            k = k - 1;
            if t[k] == '/' && k + 1 < n && is_segment_char_exec(t[k + 1]) {
                let mut e = k + 1;
                while e < n && is_segment_char_exec(t[e])
                    invariant
                        k + 1 <= e <= n == t@.len(),
                        segment_end(t@, e as int) == segment_end(t@, k + 1),
                    decreases n - e,
                {
                    e = e + 1;
                }
                assert(path_split(t@, a as int, k as int));
                let p = string_from_chars(&t, a, e);
                assert(is_first_path(s@, p@));
                return Ok(p);
            }
        }
        assert forall|k2: int| !path_split(t@, a as int, k2) by {
            if k2 > a && k2 < k {
                assert(k2 <= a + 1);
            }
            if k2 >= r && path_split(t@, a as int, k2) {
                if k2 > r {
                    assert(is_path_char(t@[r as int]));
                } else {
                    assert(is_path_char(t@[r as int]));
                }
            }
        }
        a = a + 1;
    }
    Err(ParseError::NoPath)
}

/// Parse an absolute path from a string: the text from the first `/` on.
///
/// # Errors
/// Returns an error if no '/' is found in the string.
pub fn first_abs_path_from_str(s: &str) -> (r: Result<String, ParseError>)
    ensures
        r is Ok <==> has_char(s@, '/'),
        r is Ok ==> exists|i: int|
            0 <= i < s@.len() && s@[i] == '/' && (forall|j: int| 0 <= j < i ==> s@[j] != '/')
                && r->Ok_0@ == s@.skip(i),
        r is Err ==> r->Err_0 == ParseError::NoAbsolutePath,
{
    let t = chars_of(s);
    let mut i: usize = 0;
    while i < t.len()
        invariant
            i <= t.len(),
            t@ == s@,
            forall|j: int| 0 <= j < i ==> t@[j] != '/',
        decreases t.len() - i,
    {
        if t[i] == '/' {
            let r = string_from_chars(&t, i, t.len());
            assert(r@ =~= s@.skip(i as int));
            return Ok(r);
        }
        i = i + 1;
    }
    Err(ParseError::NoAbsolutePath)
}

// ---------------------------------------------------------------------------------------
// Failed jobs in the output of `gh run view`: `X.*ID [0-9]*\)`, and job IDs: `ID ([0-9]*)`
// ---------------------------------------------------------------------------------------

/// Index just after the run of ASCII digits that starts at index `j` of `t`.
pub open spec fn digit_run_end(t: Seq<char>, j: int) -> int
    decreases t.len() - j,
{
    if 0 <= j < t.len() && is_ascii_digit(t[j]) {
        digit_run_end(t, j + 1)
    } else {
        j
    }
}

/// Index of the first `\n` at or after index `j` of `t`, or the length of `t`.
pub open spec fn line_end(t: Seq<char>, j: int) -> int
    decreases t.len() - j,
{
    if 0 <= j < t.len() && t[j] != '\n' {
        line_end(t, j + 1)
    } else {
        j
    }
}

/// `ID ` starts at index `p` of `t`.
pub open spec fn id_label_at(t: Seq<char>, p: int) -> bool {
    0 <= p && p + 3 <= t.len() && t[p] == 'I' && t[p + 1] == 'D' && t[p + 2] == ' '
}

/// Where `ID `, digits and `)` start at index `p` of `t`: the index after the `)`; else -1.
pub open spec fn id_paren_end(t: Seq<char>, p: int) -> int {
    if id_label_at(t, p) && digit_run_end(t, p + 3) < t.len() && t[digit_run_end(t, p + 3)]
        == ')' {
        digit_run_end(t, p + 3) + 1
    } else {
        -1
    }
}

/// `id_paren_end` at the last index from `p` down to `lo` where it is not -1; -1 if there
/// is none.
pub open spec fn last_id_paren_end(t: Seq<char>, lo: int, p: int) -> int
    decreases p - lo + 1,
{
    if p < lo {
        -1
    } else if id_paren_end(t, p) >= 0 {
        id_paren_end(t, p)
    } else {
        last_id_paren_end(t, lo, p - 1)
    }
}

/// End of the failed-job line match that starts at index `i` of `t` (an `X`, then on the
/// same line the last `ID `, digits and `)`); -1 where none starts there.
pub open spec fn failed_job_match_end(t: Seq<char>, i: int) -> int {
    if 0 <= i < t.len() && t[i] == 'X' {
        last_id_paren_end(t, i + 1, line_end(t, i + 1))
    } else {
        -1
    }
}

/// The failed-job line matches in `t[i..]`, from left to right, each search resuming
/// after the previous match.
pub open spec fn failed_job_lines_from(t: Seq<char>, i: int) -> Seq<Seq<char>>
    decreases t.len() - i,
{
    if i < 0 || i >= t.len() {
        Seq::empty()
    } else if failed_job_match_end(t, i) > i {
        proof {
            lemma_last_id_paren_end(t, i + 1, line_end(t, i + 1));
        }
        seq![t.subrange(i, failed_job_match_end(t, i))] + failed_job_lines_from(
            t,
            failed_job_match_end(t, i),
        )
    } else {
        failed_job_lines_from(t, i + 1)
    }
}

/// The digit run that starts at `j` ends within `t` and holds only digits.
pub proof fn lemma_digit_run_end(t: Seq<char>, j: int)
    requires
        0 <= j <= t.len(),
    ensures
        j <= digit_run_end(t, j) <= t.len(),
        forall|k: int| j <= k < digit_run_end(t, j) ==> is_ascii_digit(#[trigger] t[k]),
    decreases t.len() - j,
{
    if j < t.len() && is_ascii_digit(t[j]) {
        lemma_digit_run_end(t, j + 1);
    }
}

/// The end of the last `(ID N)` group at or before `p` lies after `lo`, or there is none.
pub proof fn lemma_last_id_paren_end(t: Seq<char>, lo: int, p: int)
    requires
        0 <= lo,
    ensures
        last_id_paren_end(t, lo, p) == -1 || last_id_paren_end(t, lo, p) > lo,
        last_id_paren_end(t, lo, p) <= t.len(),
    decreases p - lo + 1,
{
    if p >= lo {
        if id_paren_end(t, p) >= 0 {
            lemma_digit_run_end(t, p + 3);
        } else {
            lemma_last_id_paren_end(t, lo, p - 1);
        }
    }
}

fn digit_run_end_exec(t: &Vec<char>, j: usize) -> (e: usize)
    requires
        j <= t.len(),
    ensures
        e == digit_run_end(t@, j as int),
        j <= e <= t.len(),
{
    let mut e = j;
    while e < t.len() && ascii_digit(t[e])
        invariant
            j <= e <= t.len(),
            digit_run_end(t@, e as int) == digit_run_end(t@, j as int),
        decreases t.len() - e,
    {
        e = e + 1;
    }
    e
}

fn id_label_at_exec(t: &Vec<char>, p: usize) -> (b: bool)
    ensures
        b == id_label_at(t@, p as int),
{
    p < t.len() && t.len() - p >= 3 && t[p] == 'I' && t[p + 1] == 'D' && t[p + 2] == ' '
}

fn failed_job_match_end_exec(t: &Vec<char>, i: usize) -> (e: Option<usize>)
    requires
        i < t.len(),
    ensures
        e is None <==> failed_job_match_end(t@, i as int) < 0,
        e is Some ==> e->0 == failed_job_match_end(t@, i as int) && i < e->0 <= t.len(),
{
    proof {
        lemma_last_id_paren_end(t@, i + 1, line_end(t@, i + 1));
    }
    if t[i] != 'X' {
        return None;
    }
    let mut le = i + 1;
    while le < t.len() && t[le] != '\n'
        invariant
            i + 1 <= le <= t.len(),
            line_end(t@, le as int) == line_end(t@, i + 1),
        decreases t.len() - le,
    {
        le = le + 1;
    }
    let mut p = le;
    loop
        invariant
            i + 1 <= p <= le <= t.len(),
            last_id_paren_end(t@, i + 1, p as int) == failed_job_match_end(t@, i as int),
        decreases p,
    {
        if id_label_at_exec(t, p) {
            let q = digit_run_end_exec(t, p + 3);
            if q < t.len() && t[q] == ')' {
                return Some(q + 1);
            }
        }
        if p == i + 1 {
            assert(last_id_paren_end(t@, i + 1, i as int) == -1);
            return None;
        }
        p = p - 1;
    }
}

/// Take the lines with failed jobs from the output of `gh run view`: each match of an
/// `X` followed, on the same line, by `ID `, digits and `)` (the last such on the line).
pub fn take_lines_with_failed_jobs(output: String) -> (r: Vec<String>)
    ensures
        r@.map_values(|l: String| l@) == failed_job_lines_from(output@, 0),
{
    let t = chars_of(output.as_str());
    let mut out: Vec<String> = Vec::new();
    let mut i: usize = 0;
    while i < t.len()
        invariant
            i <= t.len(),
            t@ == output@,
            out@.map_values(|l: String| l@) + failed_job_lines_from(t@, i as int)
                == failed_job_lines_from(t@, 0),
        decreases t.len() - i,
    {
        match failed_job_match_end_exec(&t, i) {
            Some(e) => {
                let ghost before = out@.map_values(|l: String| l@);
                let line = string_from_chars(&t, i, e);
                out.push(line);
                let ghost rest = failed_job_lines_from(t@, e as int);
                assert(out@.map_values(|l: String| l@) =~= before.push(line@));
                assert(out@.map_values(|l: String| l@) + rest =~= before + (seq![line@] + rest));
                i = e;
            },
            None => {
                i = i + 1;
            },
        }
    }
    assert(out@.map_values(|l: String| l@) + Seq::<Seq<char>>::empty() =~= out@.map_values(
        |l: String| l@,
    ));
    out
}

/// `t` holds `ID ` somewhere.
pub open spec fn has_id_label(t: Seq<char>) -> bool {
    exists|p: int| id_label_at(t, p)
}

/// The digits right after the first `ID ` in `t`.
pub open spec fn job_id_of(t: Seq<char>) -> Seq<char> {
    let p = choose|p: int| id_label_at(t, p) && forall|q: int| 0 <= q < p ==> !id_label_at(t, q);
    t.subrange(p + 3, digit_run_end(t, p + 3))
}

fn job_id_of_line(line: &String) -> (id: String)
    requires
        has_id_label(line@),
    ensures
        id@ == job_id_of(line@),
{
    let t = chars_of(line.as_str());
    let mut p: usize = 0;
    while p < t.len()
        invariant
            p <= t.len(),
            t@ == line@,
            has_id_label(t@),
            forall|q: int| 0 <= q < p ==> !id_label_at(t@, q),
        decreases t.len() - p,
    {
        if id_label_at_exec(&t, p) {
            let e = digit_run_end_exec(&t, p + 3);
            proof {
                let c = choose|c: int|
                    id_label_at(t@, c) && forall|q: int| 0 <= q < c ==> !id_label_at(t@, q);
                assert(id_label_at(t@, p as int) && forall|q: int|
                    0 <= q < p ==> !id_label_at(t@, q));
                if c < p {
                } else if c > p {
                }
                assert(c == p);
            }
            return string_from_chars(&t, p + 3, e);
        }
        p = p + 1;
    }
    proof {
        let c = choose|c: int| id_label_at(t@, c);
        assert(c < t@.len());
    }
    String::new()
}

/// Extract the job IDs from the lines with job information: the digits after the first
/// `ID ` of each line. Each line must hold `ID `.
pub fn id_from_job_lines(lines: &[String]) -> (r: Vec<String>)
    requires
        forall|i: int| 0 <= i < lines@.len() ==> has_id_label(#[trigger] lines@[i]@),
    ensures
        r@.len() == lines@.len(),
        forall|i: int| 0 <= i < lines@.len() ==> #[trigger] r@[i]@ == job_id_of(lines@[i]@),
{
    let mut r: Vec<String> = Vec::new();
    let mut i: usize = 0;
    while i < lines.len()
        invariant
            i <= lines@.len(),
            r@.len() == i,
            forall|j: int| 0 <= j < lines@.len() ==> has_id_label(#[trigger] lines@[j]@),
            forall|k: int| 0 <= k < i ==> #[trigger] r@[k]@ == job_id_of(lines@[k]@),
        decreases lines@.len() - i,
    {
        let line = &lines[i];
        assert(has_id_label(lines@[i as int]@));
        let id = job_id_of_line(line);
        r.push(id);
        i = i + 1;
    }
    r
}

// ---------------------------------------------------------------------------------------
// Similarity of issue texts
// ---------------------------------------------------------------------------------------

/// The smallest of three numbers.
pub open spec fn min3(a: int, b: int, c: int) -> int {
    if a <= b && a <= c {
        a
    } else if b <= c {
        b
    } else {
        c
    }
}

/// The Levenshtein distance of `s` and `t`: the least number of single-character
/// insertions, deletions and substitutions that turn `s` into `t`, by the usual
/// recurrence on prefixes.
pub open spec fn edit_distance(s: Seq<char>, t: Seq<char>) -> nat
    decreases s.len() + t.len(),
{
    if s.len() == 0 {
        t.len()
    } else if t.len() == 0 {
        s.len()
    } else {
        min3(
            edit_distance(s.drop_last(), t) + 1int,
            edit_distance(s, t.drop_last()) + 1int,
            edit_distance(s.drop_last(), t.drop_last()) + if s.last() == t.last() {
                0int
            } else {
                1int
            },
        ) as nat
    }
}

/// Calls `distance::levenshtein`: the Levenshtein distance of the characters of `s` and
/// `t`, computed by the dynamic program over prefixes that `edit_distance` states.
#[verifier::external_body]
fn levenshtein(s: &str, t: &str) -> (d: usize)
    ensures
        d == edit_distance(s@, t@),
{
    distance::levenshtein(s, t)
}

/// The smallest Levenshtein distance between `body` and any of `others`, each with its
/// timestamps and IDs removed; `usize::MAX` where there are no others.
pub open spec fn smallest_distance(body: Seq<char>, others: Seq<Seq<char>>) -> int
    decreases others.len(),
{
    if others.len() == 0 {
        usize::MAX as int
    } else {
        let d = edit_distance(
            spec_remove_timestamps_and_ids(body),
            spec_remove_timestamps_and_ids(others.last()),
        ) as int;
        let rest = smallest_distance(body, others.drop_last());
        if d < rest {
            d
        } else {
            rest
        }
    }
}

/// Calculate the smallest levenshtein distance between an issue body and other issue
/// bodies, after removing timestamps and IDs from all of them.
pub fn issue_text_similarity(issue_body: &str, other_issues: &[String]) -> (d: usize)
    ensures
        d == smallest_distance(issue_body@, other_issues@.map_values(|o: String| o@)),
{
    let body = remove_timestamps_and_ids(issue_body);
    let ghost others = other_issues@.map_values(|o: String| o@);
    let mut smallest: usize = usize::MAX;
    let mut i: usize = 0;
    while i < other_issues.len()
        invariant
            i <= other_issues@.len(),
            others == other_issues@.map_values(|o: String| o@),
            body@ == spec_remove_timestamps_and_ids(issue_body@),
            smallest == smallest_distance(issue_body@, others.take(i as int)),
        decreases other_issues@.len() - i,
    {
        let other = remove_timestamps_and_ids(other_issues[i].as_str());
        let d = levenshtein(body.as_str(), other.as_str());
        assert(others.take(i + 1).drop_last() =~= others.take(i as int));
        assert(others.take(i + 1).last() == other_issues@[i as int]@);
        if d < smallest {
            smallest = d;
        }
        i = i + 1;
    }
    assert(others.take(other_issues@.len() as int) =~= others);
    smallest
}

// ---------------------------------------------------------------------------------------
// Laws
// ---------------------------------------------------------------------------------------

proof fn lemma_prefix_of_concat(a: Seq<char>, b: Seq<char>)
    ensures
        has_prefix(a + b, a),
{
    assert((a + b).subrange(0, a.len() as int) =~= a);
}

proof fn lemma_prefix_transitive(s: Seq<char>, p: Seq<char>, q: Seq<char>)
    requires
        has_prefix(s, p),
        has_prefix(p, q),
    ensures
        has_prefix(s, q),
{
    assert(s.subrange(0, q.len() as int) =~= p.subrange(0, q.len() as int));
}

proof fn lemma_replace_all_leading(s: Seq<char>, from: Seq<char>, to: Seq<char>)
    requires
        from.len() > 0,
        has_prefix(s, from),
    ensures
        has_prefix(replace_all(s, from, to), to),
{
    lemma_prefix_of_concat(to, replace_all(s.skip(from.len() as int), from, to));
}

/// A URL after `ensure_https_prefix` starts with `https://`, and a second call leaves it
/// as it is.
pub proof fn lemma_ensure_https_prefix(url: Seq<char>)
    ensures
        has_prefix(spec_ensure_https_prefix(url), "https://"@),
        spec_ensure_https_prefix(spec_ensure_https_prefix(url)) == spec_ensure_https_prefix(url),
{
    lemma_prefix_of_concat("https://"@, url);
}

/// A canonicalized repository URL starts with `https://{host}/` (`.com` added to a host
/// without a top-level domain), and canonicalizing it again leaves it as it is.
pub proof fn lemma_canonical_repo_url(repo: Seq<char>, host: Seq<char>)
    ensures
        has_prefix(spec_canonicalize_repo_url(repo, host), canonical_prefix(host)),
        spec_canonicalize_repo_url(spec_canonicalize_repo_url(repo, host), host)
            == spec_canonicalize_repo_url(repo, host),
{
    reveal_strlit("https://");
    reveal_strlit("/");
    let h = host_with_tld(host);
    let prefix = canonical_prefix(host);
    let r = spec_canonicalize_repo_url(repo, host);
    lemma_prefix_of_concat("https://"@, h + "/"@);
    assert(prefix =~= "https://"@ + (h + "/"@));
    if has_prefix(repo, "https://"@) {
        if !has_prefix(repo, prefix) {
            lemma_replace_all_leading(repo, "https://"@, prefix);
        }
    } else if has_prefix(repo, h + "/"@) {
        lemma_replace_all_leading(repo, h + "/"@, prefix);
    } else {
        lemma_prefix_of_concat(prefix, repo);
    }
    lemma_prefix_transitive(r, prefix, "https://"@);
}

proof fn lemma_last_index_of_concat(a: Seq<char>, b: Seq<char>, c: char)
    requires
        !has_char(b, c),
    ensures
        last_index_of(a + b, c) == last_index_of(a, c),
    decreases b.len(),
{
    if b.len() == 0 {
        assert(a + b =~= a);
    } else {
        assert((a + b).drop_last() =~= a + b.drop_last());
        assert((a + b).last() == b[b.len() - 1]);
        assert(!has_char(b.drop_last(), c)) by {
            if has_char(b.drop_last(), c) {
                let i = choose|i: int| 0 <= i < b.drop_last().len() && b.drop_last()[i] == c;
                assert(b[i] == c);
            }
        }
        lemma_last_index_of_concat(a, b.drop_last(), c);
    }
}

/// The owner and the repository are read back from any URL that ends with
/// `{owner}/{repo}` after a `/` or nothing, when both are valid fragments without `/`.
pub proof fn lemma_owner_repo_round_trip(prefix: Seq<char>, owner: Seq<char>, repo: Seq<char>)
    requires
        prefix.len() == 0 || prefix.last() == '/',
        valid_fragment(owner),
        valid_fragment(repo),
        !has_char(owner, '/'),
        !has_char(repo, '/'),
    ensures
        spec_owner_repo(prefix + owner + "/"@ + repo) == Some((owner, repo)),
{
    reveal_strlit("/");
    let url = prefix + owner + "/"@ + repo;
    let head = prefix + owner;
    lemma_last_index_of_concat(head + "/"@, repo, '/');
    assert((head + "/"@).last() == '/');
    let k = head.len() as int;
    assert(last_index_of(url, '/') == k);
    assert(url.skip(k + 1) =~= repo);
    assert(url.take(k) =~= head);
    lemma_last_index_of_concat(prefix, owner, '/');
    if prefix.len() == 0 {
        assert(last_index_of(prefix, '/') == -1);
        assert(head =~= owner);
        assert(head.skip(0) =~= owner);
    } else {
        assert(last_index_of(prefix, '/') == prefix.len() - 1);
        assert(head.skip(prefix.len() as int) =~= owner);
    }
}

/// Any non-empty owner and repository names without a space, a `.` or a `/` (names made
/// of letters, digits, `-` and `_`, for instance) are read back from a URL that ends with
/// `{owner}/{repo}` after a `/` or nothing.
pub proof fn lemma_owner_repo_of_names(prefix: Seq<char>, owner: Seq<char>, repo: Seq<char>)
    requires
        prefix.len() == 0 || prefix.last() == '/',
        owner.len() > 0,
        repo.len() > 0,
        forall|k: int|
            0 <= k < owner.len() ==> #[trigger] owner[k] != ' ' && owner[k] != '.' && owner[k]
                != '/',
        forall|k: int|
            0 <= k < repo.len() ==> #[trigger] repo[k] != ' ' && repo[k] != '.' && repo[k] != '/',
    ensures
        spec_owner_repo(prefix + owner + "/"@ + repo) == Some((owner, repo)),
{
    lemma_owner_repo_round_trip(prefix, owner, repo);
}

/// Index just after the timestamp prefixes are stripped from `t[i..]`: the stripped text
/// is not longer than `t[i..]`, and is `t[i..]` itself where no timestamp starts at or
/// after index `i`.
proof fn lemma_strip_timestamp_prefixes_from(t: Seq<char>, i: int)
    requires
        0 <= i <= t.len(),
    ensures
        strip_timestamp_prefixes_from(t, i).len() <= t.len() - i,
        (forall|j: int| i <= j < t.len() ==> !iso_timestamp_at(t, j))
            ==> strip_timestamp_prefixes_from(t, i) == t.skip(i),
    decreases t.len() - i,
{
    if i < t.len() {
        let m = i + line_break_count(t, i);
        lemma_line_break_count(t, i);
        if iso_timestamp_at(t, m) {
            lemma_strip_timestamp_prefixes_from(t, m + 29);
        } else {
            lemma_strip_timestamp_prefixes_from(t, i + 1);
            if forall|j: int| i <= j < t.len() ==> !iso_timestamp_at(t, j) {
                assert(t.skip(i) =~= seq![t[i]] + t.skip(i + 1));
            }
        }
    } else {
        assert(t.skip(i) =~= Seq::<char>::empty());
    }
}

proof fn lemma_line_break_count(t: Seq<char>, i: int)
    requires
        0 <= i <= t.len(),
    ensures
        i + line_break_count(t, i) <= t.len(),
    decreases t.len() - i,
{
    if i < t.len() && is_line_break(t[i]) {
        lemma_line_break_count(t, i + 1);
    }
}

/// Removing line-prefix timestamps never lengthens a log, and leaves a log without
/// timestamps as it is.
pub proof fn lemma_remove_timestamp_prefixes(t: Seq<char>)
    ensures
        spec_remove_timestamp_prefixes(t).len() <= t.len(),
        (forall|j: int| 0 <= j < t.len() ==> !iso_timestamp_at(t, j))
            ==> spec_remove_timestamp_prefixes(t) == t,
{
    lemma_strip_timestamp_prefixes_from(t, 0);
    assert(t.skip(0) =~= t);
}

proof fn lemma_strip_timestamps_and_ids_from(t: Seq<char>, i: int)
    requires
        0 <= i <= t.len(),
    ensures
        strip_timestamps_and_ids_from(t, i).len() <= t.len() - i,
        (forall|j: int| i <= j < t.len() ==> timestamp_or_id_len(t, j) == 0)
            ==> strip_timestamps_and_ids_from(t, i) == t.skip(i),
    decreases t.len() - i,
{
    if i < t.len() {
        let n = timestamp_or_id_len(t, i);
        if n > 0 {
            lemma_strip_timestamps_and_ids_from(t, i + n);
        } else {
            lemma_strip_timestamps_and_ids_from(t, i + 1);
            if forall|j: int| i <= j < t.len() ==> timestamp_or_id_len(t, j) == 0 {
                assert(t.skip(i) =~= seq![t[i]] + t.skip(i + 1));
            }
        }
    } else {
        assert(t.skip(i) =~= Seq::<char>::empty());
    }
}

proof fn lemma_strip_ansi_codes_from(t: Seq<char>, i: int)
    requires
        0 <= i <= t.len(),
    ensures
        strip_ansi_codes_from(t, i).len() <= t.len() - i,
        !t.skip(i).contains('\x1b') ==> strip_ansi_codes_from(t, i) == t.skip(i),
    decreases t.len() - i,
{
    if i < t.len() {
        let e = ansi_sequence_end(t, i);
        if e > i {
            lemma_strip_ansi_codes_from(t, e);
            assert(t.skip(i)[0] == t[i]);
        } else {
            lemma_strip_ansi_codes_from(t, i + 1);
            assert(t.skip(i) =~= seq![t[i]] + t.skip(i + 1));
            if !t.skip(i).contains('\x1b') {
                assert forall|k: int| 0 <= k < t.skip(i + 1).len() implies #[trigger] t.skip(i + 1)[k]
                    != '\x1b' by {
                    assert(t.skip(i + 1)[k] == t.skip(i)[k + 1]);
                }
            }
        }
    } else {
        assert(t.skip(i) =~= Seq::<char>::empty());
    }
}

/// Removing ANSI escape codes never lengthens a text, and leaves a text without an escape
/// character as it is.
pub proof fn lemma_remove_ansi_codes(t: Seq<char>)
    ensures
        spec_remove_ansi_codes(t).len() <= t.len(),
        !t.contains('\x1b') ==> spec_remove_ansi_codes(t) == t,
{
    lemma_strip_ansi_codes_from(t, 0);
    assert(t.skip(0) =~= t);
}

/// Removing timestamps and IDs never lengthens a text, and leaves a text with neither
/// as it is.
pub proof fn lemma_remove_timestamps_and_ids(t: Seq<char>)
    ensures
        spec_remove_timestamps_and_ids(t).len() <= t.len(),
        (forall|j: int| 0 <= j < t.len() ==> timestamp_or_id_len(t, j) == 0)
            ==> spec_remove_timestamps_and_ids(t) == t,
{
    lemma_strip_timestamps_and_ids_from(t, 0);
    assert(t.skip(0) =~= t);
}

/// The Levenshtein distance of two texts is 0 exactly when they are equal.
pub proof fn lemma_edit_distance_zero(s: Seq<char>, t: Seq<char>)
    ensures
        edit_distance(s, t) == 0 <==> s == t,
    decreases s.len() + t.len(),
{
    if s.len() > 0 && t.len() > 0 {
        lemma_edit_distance_zero(s.drop_last(), t.drop_last());
        if s == t {
            assert(s.drop_last() == t.drop_last());
        }
        if edit_distance(s, t) == 0 {
            assert(edit_distance(s.drop_last(), t.drop_last()) == 0);
            assert(s.last() == t.last());
            assert(s =~= s.drop_last().push(s.last()));
            assert(t =~= t.drop_last().push(t.last()));
        }
    } else if s.len() == 0 && t.len() == 0 {
        assert(s =~= t);
    }
}

/// The smallest distance of a body to others is 0 exactly when one of the others equals
/// the body once timestamps and IDs are removed from both: an issue with the same body is
/// always recognised.
pub proof fn lemma_smallest_distance_zero(body: Seq<char>, others: Seq<Seq<char>>)
    ensures
        smallest_distance(body, others) >= 0,
        smallest_distance(body, others) == 0 <==> exists|k: int|
            0 <= k < others.len() && spec_remove_timestamps_and_ids(#[trigger] others[k])
                == spec_remove_timestamps_and_ids(body),
    decreases others.len(),
{
    if others.len() > 0 {
        let prev = others.drop_last();
        lemma_smallest_distance_zero(body, prev);
        let b = spec_remove_timestamps_and_ids(body);
        let last = spec_remove_timestamps_and_ids(others.last());
        lemma_edit_distance_zero(b, last);
        if smallest_distance(body, others) == 0 {
            if edit_distance(b, last) == 0 {
                assert(others[others.len() - 1] == others.last());
            } else {
                let k = choose|k: int|
                    0 <= k < prev.len() && spec_remove_timestamps_and_ids(#[trigger] prev[k]) == b;
                assert(others[k] == prev[k]);
            }
        }
        if exists|k: int|
            0 <= k < others.len() && spec_remove_timestamps_and_ids(#[trigger] others[k]) == b {
            let k = choose|k: int|
                0 <= k < others.len() && spec_remove_timestamps_and_ids(#[trigger] others[k]) == b;
            if k < others.len() - 1 {
                assert(prev[k] == others[k]);
            }
        }
    }
}

proof fn lemma_line_end(t: Seq<char>, j: int)
    requires
        0 <= j <= t.len(),
    ensures
        j <= line_end(t, j) <= t.len(),
        forall|k: int| j <= k < line_end(t, j) ==> t[k] != '\n',
        line_end(t, j) < t.len() ==> t[line_end(t, j)] == '\n',
    decreases t.len() - j,
{
    if j < t.len() && t[j] != '\n' {
        lemma_line_end(t, j + 1);
    }
}

proof fn lemma_id_paren_match(t: Seq<char>, lo: int, p: int)
    requires
        0 <= lo,
        last_id_paren_end(t, lo, p) >= 0,
    ensures
        exists|q: int|
            lo <= q <= p && id_paren_end(t, q) == last_id_paren_end(t, lo, p) && #[trigger] id_label_at(t, q),
    decreases p - lo + 1,
{
    if id_paren_end(t, p) < 0 {
        lemma_id_paren_match(t, lo, p - 1);
    }
}

/// `line` is one line of output about a failed job: it starts with `X`, ends with `)`,
/// holds `ID ` and no line break.
pub open spec fn is_failed_job_line(line: Seq<char>) -> bool {
    &&& line.len() >= 5
    &&& line[0] == 'X'
    &&& line.last() == ')'
    &&& !has_char(line, '\n')
    &&& contains_seq(line, "ID "@)
}

/// A failed-job line match at index `i` of `t` is one line: an `X`, then text without
/// line breaks, `ID `, digits and a closing `)`.
proof fn lemma_failed_job_match_shape(t: Seq<char>, i: int)
    requires
        0 <= i < t.len(),
        failed_job_match_end(t, i) > i,
    ensures
        is_failed_job_line(t.subrange(i, failed_job_match_end(t, i))),
{
    reveal_strlit("ID ");
    let e = failed_job_match_end(t, i);
    let le = line_end(t, i + 1);
    lemma_line_end(t, i + 1);
    lemma_id_paren_match(t, i + 1, le);
    let q = choose|q: int|
        i + 1 <= q <= le && id_paren_end(t, q) == last_id_paren_end(t, i + 1, le) && #[trigger] id_label_at(
            t,
            q,
        );
    let d = digit_run_end(t, q + 3);
    lemma_digit_run_end(t, q + 3);
    assert(e == d + 1);
    let line = t.subrange(i, e);
    assert(q < le) by {
        if q == le {
            assert(t[q] == 'I');
        }
    }
    assert forall|k: int| 0 <= k < line.len() implies line[k] != '\n' by {
        let a = i + k;
        assert(line[k] == t[a]);
        if a > i && a < q {
            assert(t[a] != '\n');
        } else if q <= a && a < q + 3 {
        } else if q + 3 <= a && a < d {
            assert(is_ascii_digit(t[a]));
        }
    }
    assert(line.subrange(q - i, q - i + 3) =~= "ID "@);
}

/// Each line that `take_lines_with_failed_jobs` takes is one line of the output: it
/// starts with `X`, ends with `)`, holds `ID ` and no line break.
pub proof fn lemma_failed_job_lines(t: Seq<char>, i: int)
    requires
        0 <= i,
    ensures
        forall|k: int|
            0 <= k < failed_job_lines_from(t, i).len() ==> is_failed_job_line(
                #[trigger] failed_job_lines_from(t, i)[k],
            ),
    decreases t.len() - i,
{
    if i < t.len() {
        let e = failed_job_match_end(t, i);
        if e > i {
            lemma_last_id_paren_end(t, i + 1, line_end(t, i + 1));
            lemma_failed_job_lines(t, e);
            lemma_failed_job_match_shape(t, i);
            let r = failed_job_lines_from(t, i);
            let rest = failed_job_lines_from(t, e);
            assert(r == seq![t.subrange(i, e)] + rest);
            assert(r[0] == t.subrange(i, e));
            assert forall|k: int| 0 <= k < r.len() implies is_failed_job_line(#[trigger] r[k]) by {
                if k > 0 {
                    assert(r[k] == rest[k - 1]);
                }
            }
        } else {
            lemma_failed_job_lines(t, i + 1);
            assert(failed_job_lines_from(t, i) == failed_job_lines_from(t, i + 1));
        }
    } else {
        assert(failed_job_lines_from(t, i).len() == 0);
    }
}

} // verus!
