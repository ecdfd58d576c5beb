//! Filters of the issue search, and the logs of workflow jobs.
use vstd::prelude::*;

use crate::text::{chars_of, decimal, decimal_string, digit_char, push_char, string_from_chars};
use crate::unicode::{decimal_digit, is_decimal_digit};

verus! {

/// Type representing a date in the format `YYYY-MM-DD`.
#[derive(Debug, Clone, Copy, PartialEq, Eq, Structural)]
pub struct Date {
    pub year: u16,
    pub month: u8,
    pub day: u8,
}

/// `n` in decimal, padded with a zero in front to two digits at least.
pub open spec fn two_digits(n: nat) -> Seq<char> {
    if n < 10 {
        seq!['0'] + decimal(n)
    } else {
        decimal(n)
    }
}

/// `YYYY-MM-DD`: the year in decimal, the month and the day with two digits at least.
pub open spec fn date_text(d: Date) -> Seq<char> {
    decimal(d.year as nat) + "-"@ + two_digits(d.month as nat) + "-"@ + two_digits(d.day as nat)
}

/// The value of the ASCII digit `c`.
pub open spec fn digit_value(c: char) -> int {
    c as int - '0' as int
}

proof fn lemma_digit_char_value(d: nat)
    requires
        d < 10,
    ensures
        digit_value(digit_char(d)) == d,
        '0' <= digit_char(d) <= '9',
{
}

/// A month or a day below 100 takes exactly two ASCII digits, whose value it is.
pub proof fn lemma_two_digits(n: nat)
    requires
        n < 100,
    ensures
        two_digits(n).len() == 2,
        '0' <= two_digits(n)[0] <= '9' && '0' <= two_digits(n)[1] <= '9',
        10 * digit_value(two_digits(n)[0]) + digit_value(two_digits(n)[1]) == n,
{
    if n < 10 {
        lemma_digit_char_value(n);
        assert(two_digits(n) =~= seq!['0', digit_char(n)]);
    } else {
        lemma_digit_char_value(n / 10);
        lemma_digit_char_value(n % 10);
        assert(decimal(n / 10) == seq![digit_char(n / 10)]);
        assert(two_digits(n) =~= seq![digit_char(n / 10), digit_char(n % 10)]);
    }
}

/// A date with a four-digit year and a month and a day below 100 reads `YYYY-MM-DD`: ten
/// characters, with `-` at indices 4 and 7 and the month and the day as two digits each.
pub proof fn lemma_date_text(d: Date)
    requires
        1000 <= d.year <= 9999,
        d.month < 100,
        d.day < 100,
    ensures
        date_text(d).len() == 10,
        date_text(d)[4] == '-' && date_text(d)[7] == '-',
        10 * digit_value(date_text(d)[5]) + digit_value(date_text(d)[6]) == d.month,
        10 * digit_value(date_text(d)[8]) + digit_value(date_text(d)[9]) == d.day,
{
    reveal_strlit("-");
    let y = d.year as nat;
    assert(decimal(y / 1000) == seq![digit_char(y / 1000)]);
    assert(decimal(y / 100).len() == 2);
    assert(decimal(y / 10).len() == 3);
    assert(decimal(y).len() == 4);
    lemma_two_digits(d.month as nat);
    lemma_two_digits(d.day as nat);
    let t = decimal(y) + "-"@ + two_digits(d.month as nat) + "-"@ + two_digits(d.day as nat);
    assert(t[5] == two_digits(d.month as nat)[0]);
    assert(t[6] == two_digits(d.month as nat)[1]);
    assert(t[8] == two_digits(d.day as nat)[0]);
    assert(t[9] == two_digits(d.day as nat)[1]);
}

fn push_two_digits(s: &mut String, n: u8)
    ensures
        final(s)@ == old(s)@ + two_digits(n as nat),
{
    if n < 10 {
        push_char(s, '0');
    }
    let digits = decimal_string(n as u64);
    s.append(digits.as_str());
}

impl Date {
    /// The date as `YYYY-MM-DD` (its `Display` form).
    pub fn to_string(&self) -> (s: String)
        ensures
            s@ == date_text(*self),
    {
        let mut s = decimal_string(self.year as u64);
        s.append("-");
        push_two_digits(&mut s, self.month);
        s.append("-");
        push_two_digits(&mut s, self.day);
        s
    }
}

/// Filter an element by its creation or update date.
#[derive(Debug, Clone, Copy, PartialEq, Eq, Structural)]
pub enum DateFilter {
    Created(Date),
    Updated(Date),
    /// No date filter.
    NoDate,
}

/// The search qualifier of a date filter.
pub open spec fn date_filter_text(f: DateFilter) -> Seq<char> {
    match f {
        DateFilter::Created(d) => "created:"@ + date_text(d),
        DateFilter::Updated(d) => "updated:"@ + date_text(d),
        DateFilter::NoDate => Seq::empty(),
    }
}

impl DateFilter {
    /// The search qualifier of the filter (its `Display` form).
    pub fn to_string(&self) -> (s: String)
        ensures
            s@ == date_filter_text(*self),
    {
        match self {
            DateFilter::Created(date) => {
                let mut s = String::from_str("created:");
                let d = date.to_string();
                s.append(d.as_str());
                s
            },
            DateFilter::Updated(date) => {
                let mut s = String::from_str("updated:");
                let d = date.to_string();
                s.append(d.as_str());
                s
            },
            DateFilter::NoDate => String::new(),  // No date filter
        }
    }
}

/// Filter an element by its labels. This is a type-safe way to create a filter string for
/// the GitHub API.
#[derive(Debug, Clone, PartialEq, Eq)]
pub enum LabelFilter {
    /// Any of the labels must be present.
    Any(Vec<String>),
    /// All labels must be present.
    All(Vec<String>),
    /// No label filter.
    NoLabels,
}

/// The items of `labels`, each put between `before` and `after`, joined by `sep`.
pub open spec fn join_wrapped(
    labels: Seq<Seq<char>>,
    before: Seq<char>,
    after: Seq<char>,
    sep: Seq<char>,
) -> Seq<char>
    decreases labels.len(),
{
    if labels.len() == 0 {
        Seq::empty()
    } else if labels.len() == 1 {
        before + labels[0] + after
    } else {
        join_wrapped(labels.drop_last(), before, after, sep) + sep + before + labels.last() + after
    }
}

/// The search qualifier of a label filter: `label:"a","b"` for any of the labels,
/// `label:"a" label:"b"` for all of them, nothing for no filter.
pub open spec fn label_filter_text(f: LabelFilter) -> Seq<char> {
    match f {
        LabelFilter::Any(labels) => "label:"@ + join_wrapped(
            labels@.map_values(|l: String| l@),
            "\""@,
            "\""@,
            ","@,
        ),
        LabelFilter::All(labels) => join_wrapped(
            labels@.map_values(|l: String| l@),
            "label:\""@,
            "\""@,
            " "@,
        ),
        LabelFilter::NoLabels => Seq::empty(),
    }
}

fn push_joined(s: &mut String, labels: &Vec<String>, before: &str, after: &str, sep: &str)
    ensures
        final(s)@ == old(s)@ + join_wrapped(
            labels@.map_values(|l: String| l@),
            before@,
            after@,
            sep@,
        ),
{
    let ghost texts = labels@.map_values(|l: String| l@);
    let ghost start = s@;
    let mut i: usize = 0;
    while i < labels.len()
        invariant
            i <= labels@.len(),
            texts == labels@.map_values(|l: String| l@),
            s@ == start + join_wrapped(texts.take(i as int), before@, after@, sep@),
        decreases labels@.len() - i,
    {
        if i > 0 {
            s.append(sep);
        }
        s.append(before);
        s.append(labels[i].as_str());
        s.append(after);
        assert(texts.take(i + 1).drop_last() =~= texts.take(i as int));
        proof {
            if i == 0 {
                assert(texts.take(1)[0] == labels@[0]@);
            } else {
                assert(texts.take(i + 1).last() == labels@[i as int]@);
            }
        }
        i = i + 1;
    }
    assert(texts.take(labels@.len() as int) =~= texts);
}

impl LabelFilter {
    /// Default label filter, does not filter by labels
    pub fn none() -> (f: Self)
        ensures
            f == LabelFilter::NoLabels,
    {
        LabelFilter::NoLabels
    }

    /// The search qualifier of the filter (its `Display` form).
    pub fn to_string(&self) -> (s: String)
        ensures
            s@ == label_filter_text(*self),
    {
        match self {
            LabelFilter::Any(labels) => {
                let mut s = String::from_str("label:");
                push_joined(&mut s, labels, "\"", "\"", ",");
                s
            },
            LabelFilter::All(labels) => {
                let mut s = String::new();
                push_joined(&mut s, labels, "label:\"", "\"", " ");
                s
            },
            LabelFilter::NoLabels => String::new(),  // No label filter
        }
    }
}

/// A log of a workflow job.
#[derive(Debug, Clone, PartialEq, Eq)]
pub struct JobLog {
    pub name: String,
    pub content: String,
}

impl JobLog {
    /// The log of one job: its name and its full text.
    pub fn new(name: String, content: String) -> (r: Self)
        ensures
            r.name == name,
            r.content == content,
    {
        Self { name, content }
    }
}

// ---------------------------------------------------------------------------------------
// Timestamps in logs: `\d{4}-\d{2}-\d{2}T\d{2}:\d{2}:\d{2}\.\d+Z`
// ---------------------------------------------------------------------------------------

/// Index just after the run of Unicode decimal digits that starts at index `j` of `t`.
pub open spec fn decimal_run_end(t: Seq<char>, j: int) -> int
    decreases t.len() - j,
{
    if 0 <= j < t.len() && is_decimal_digit(t[j]) {
        decimal_run_end(t, j + 1)
    } else {
        j
    }
}

/// Where a timestamp `YYYY-MM-DDTHH:MM:SS.F...Z` (Unicode decimal digits, with at least
/// one fraction digit) starts at index `i` of `t`: the index after its `Z`; else -1.
pub open spec fn log_timestamp_end(t: Seq<char>, i: int) -> int {
    if 0 <= i && i + 21 <= t.len() && is_decimal_digit(t[i]) && is_decimal_digit(t[i + 1])
        && is_decimal_digit(t[i + 2]) && is_decimal_digit(t[i + 3]) && t[i + 4] == '-'
        && is_decimal_digit(t[i + 5]) && is_decimal_digit(t[i + 6]) && t[i + 7] == '-'
        && is_decimal_digit(t[i + 8]) && is_decimal_digit(t[i + 9]) && t[i + 10] == 'T'
        && is_decimal_digit(t[i + 11]) && is_decimal_digit(t[i + 12]) && t[i + 13] == ':'
        && is_decimal_digit(t[i + 14]) && is_decimal_digit(t[i + 15]) && t[i + 16] == ':'
        && is_decimal_digit(t[i + 17]) && is_decimal_digit(t[i + 18]) && t[i + 19] == '.'
        && is_decimal_digit(t[i + 20]) && decimal_run_end(t, i + 20) < t.len() && t[decimal_run_end(
        t,
        i + 20,
    )] == 'Z' {
        decimal_run_end(t, i + 20) + 1
    } else {
        -1
    }
}

/// The first timestamp in the log `t`, if it holds one.
pub open spec fn first_log_timestamp(t: Seq<char>) -> Option<Seq<char>> {
    if exists|i: int| log_timestamp_end(t, i) >= 0 {
        let i = choose|i: int|
            log_timestamp_end(t, i) >= 0 && forall|j: int| j < i ==> log_timestamp_end(t, j) < 0;
        Some(t.subrange(i, log_timestamp_end(t, i)))
    } else {
        None
    }
}

/// The instant that `time::OffsetDateTime::parse` reads from `text` in the ISO 8601
/// format, as nanoseconds since the Unix epoch; `None` where it reads none.
pub uninterp spec fn iso8601_unix_nanos(text: Seq<char>) -> Option<i128>;

/// Calls `time::OffsetDateTime::parse` with the default ISO 8601 format description and
/// converts the result to nanoseconds since the Unix epoch (`unix_timestamp_nanos`).
/// Its result is named, not stated.
#[verifier::external_body]
fn parse_iso8601_unix_nanos(text: &str) -> (r: Option<i128>)
    ensures
        r == iso8601_unix_nanos(text@),
{
    match time::OffsetDateTime::parse(text, &time::format_description::well_known::Iso8601::DEFAULT) {
        Ok(t) => Some(t.unix_timestamp_nanos()),
        Err(_) => None,
    }
}

/// Why no timestamp could be taken from a log.
#[derive(Debug, Clone, Copy, PartialEq, Eq, Structural)]
pub enum TimestampError {
    /// Could not extract timestamp from log
    NotFound,
    /// Could not parse timestamp
    Unparsable,
}

fn decimal_run_end_exec(t: &Vec<char>, j: usize) -> (e: usize)
    requires
        j <= t.len(),
    ensures
        e == decimal_run_end(t@, j as int),
        j <= e <= t.len(),
{
    let mut e = j;
    while e < t.len() && decimal_digit(t[e])
        invariant
            j <= e <= t.len(),
            decimal_run_end(t@, e as int) == decimal_run_end(t@, j as int),
        decreases t.len() - e,
    {
        e = e + 1;
    }
    e
}

fn log_timestamp_end_exec(t: &Vec<char>, i: usize) -> (e: Option<usize>)
    ensures
        e is None <==> log_timestamp_end(t@, i as int) < 0,
        e is Some ==> e->0 == log_timestamp_end(t@, i as int) && i < e->0 <= t.len(),
{
    if i > t.len() || t.len() - i < 21 {
        return None;
    }
    let shape = decimal_digit(t[i]) && decimal_digit(t[i + 1]) && decimal_digit(t[i + 2])
        && decimal_digit(t[i + 3]) && t[i + 4] == '-' && decimal_digit(t[i + 5]) && decimal_digit(
        t[i + 6],
    ) && t[i + 7] == '-' && decimal_digit(t[i + 8]) && decimal_digit(t[i + 9]) && t[i + 10]
        == 'T' && decimal_digit(t[i + 11]) && decimal_digit(t[i + 12]) && t[i + 13] == ':'
        && decimal_digit(t[i + 14]) && decimal_digit(t[i + 15]) && t[i + 16] == ':'
        && decimal_digit(t[i + 17]) && decimal_digit(t[i + 18]) && t[i + 19] == '.'
        && decimal_digit(t[i + 20]);
    if !shape {
        return None;
    }
    let q = decimal_run_end_exec(t, i + 20);
    if q < t.len() && t[q] == 'Z' {
        Some(q + 1)
    } else {
        None
    }
}

/// Extract the timestamp from a log string, as nanoseconds since the Unix epoch: the
/// first `YYYY-MM-DDTHH:MM:SS.F...Z` in the log, read as ISO 8601.
///
/// # Errors
/// - If the timestamp could not be extracted from the log.
/// - If the timestamp could not be parsed.
pub fn timestamp_from_log(log: &str) -> (r: Result<i128, TimestampError>)
    ensures
        first_log_timestamp(log@) is None <==> r == Err::<i128, TimestampError>(
            TimestampError::NotFound,
        ),
        first_log_timestamp(log@) is Some ==> (match iso8601_unix_nanos(
            first_log_timestamp(log@)->0,
        ) {
            Some(n) => r == Ok::<i128, TimestampError>(n),
            None => r == Err::<i128, TimestampError>(TimestampError::Unparsable),
        }),
{
    let t = chars_of(log);
    let mut i: usize = 0;
    while i < t.len()
        invariant
            i <= t.len(),
            t@ == log@,
            forall|j: int| j < i ==> log_timestamp_end(t@, j) < 0,
        decreases t.len() - i,
    {
        if let Some(e) = log_timestamp_end_exec(&t, i) {
            let text = string_from_chars(&t, i, e);
            proof {
                let c = choose|c: int|
                    log_timestamp_end(t@, c) >= 0 && forall|j: int|
                        j < c ==> log_timestamp_end(t@, j) < 0;
                assert(log_timestamp_end(t@, i as int) >= 0);
                if c < i {
                } else if c > i {
                }
                assert(c == i);
            }
            return match parse_iso8601_unix_nanos(text.as_str()) {
                Some(n) => Ok(n),
                None => Err(TimestampError::Unparsable),
            };
        }
        i = i + 1;
    }
    assert forall|j: int| log_timestamp_end(t@, j) < 0 by {
        if j >= t.len() {
        }
    }
    Err(TimestampError::NotFound)
}

/// The instant of a log text: its first timestamp, read as ISO 8601 (see
/// `timestamp_from_log`).
#[verifier::opaque]
pub open spec fn text_time(content: Seq<char>) -> Option<i128> {
    match first_log_timestamp(content) {
        Some(ts) => iso8601_unix_nanos(ts),
        None => None,
    }
}

/// The instant of a log: that of its text.
pub open spec fn log_time(log: JobLog) -> Option<i128> {
    text_time(log.content@)
}

/// The logs are in the order of their instants.
pub open spec fn sorted_by_time(logs: Seq<JobLog>) -> bool {
    &&& forall|i: int| 0 <= i < logs.len() ==> (#[trigger] log_time(logs[i])) is Some
    &&& forall|i: int, j: int|
        0 <= i < j < logs.len() ==> log_time(#[trigger] logs[i])->0 <= log_time(#[trigger] logs[j])->0
}

proof fn lemma_insert_to_multiset(s: Seq<JobLog>, p: int, a: JobLog)
    requires
        0 <= p <= s.len(),
    ensures
        s.insert(p, a).to_multiset() =~= s.to_multiset().insert(a),
{
    broadcast use vstd::seq_lib::group_to_multiset_ensures, vstd::multiset::group_multiset_axioms;

    let t = s.insert(p, a);
    assert(t.remove(p) =~= s);
    assert(t[p] == a);
    assert(t.to_multiset().count(a) > 0) by {
        assert(t.contains(a));
    }
    assert(t.remove(p).to_multiset() =~= t.to_multiset().remove(a));
}

/// `keys` are the instants of `logs`, in order.
pub open spec fn keyed_in_order(logs: Seq<JobLog>, keys: Seq<i128>) -> bool {
    &&& keys.len() == logs.len()
    &&& forall|i: int| 0 <= i < logs.len() ==> log_time(#[trigger] logs[i]) == Some(keys[i])
    &&& forall|i: int, j: int| 0 <= i < j < keys.len() ==> keys[i] <= keys[j]
}

proof fn lemma_keyed_in_order_sorted(logs: Seq<JobLog>, keys: Seq<i128>)
    requires
        keyed_in_order(logs, keys),
    ensures
        sorted_by_time(logs),
{
    assert forall|i: int, j: int| 0 <= i < j < logs.len() implies log_time(#[trigger] logs[i])->0
        <= log_time(#[trigger] logs[j])->0 by {
        assert(log_time(logs[i]) == Some(keys[i]));
        assert(log_time(logs[j]) == Some(keys[j]));
    }
}

fn log_time_exec(log: &JobLog) -> (r: Option<i128>)
    ensures
        r == log_time(*log),
{
    reveal(text_time);
    match timestamp_from_log(log.content.as_str()) {
        Ok(k) => Some(k),
        Err(_) => None,
    }
}

fn insert_by_key(out: &mut Vec<JobLog>, keys: &mut Vec<i128>, log: JobLog, key: i128)
    requires
        keyed_in_order(old(out)@, old(keys)@),
        log_time(log) == Some(key),
    ensures
        keyed_in_order(final(out)@, final(keys)@),
        final(out)@.to_multiset() == old(out)@.to_multiset().insert(log),
{
    // the first position whose key is larger keeps equal keys in arrival order
    let mut p: usize = 0;
    while p < keys.len() && keys[p] <= key
        invariant
            p <= keys@.len(),
            forall|i: int| 0 <= i < p ==> keys@[i] <= key,
        decreases keys@.len() - p,
    {
        p = p + 1;
    }
    proof {
        lemma_insert_to_multiset(out@, p as int, log);
    }
    let ghost old_out = out@;
    let ghost old_keys = keys@;
    out.insert(p, log);
    keys.insert(p, key);
    assert forall|i: int| 0 <= i < out@.len() implies log_time(#[trigger] out@[i]) == Some(
        keys@[i],
    ) by {
        if i < p {
            assert(out@[i] == old_out[i] && keys@[i] == old_keys[i]);
        } else if i > p {
            assert(out@[i] == old_out[i - 1] && keys@[i] == old_keys[i - 1]);
        }
    }
    assert forall|i: int, j: int| 0 <= i < j < keys@.len() implies keys@[i] <= keys@[j] by {
        if j < p {
            assert(keys@[i] == old_keys[i] && keys@[j] == old_keys[j]);
        } else if j == p {
            assert(keys@[i] == old_keys[i]);
        } else if i < p {
            assert(keys@[i] == old_keys[i] && keys@[j] == old_keys[j - 1]);
        } else if i == p {
            assert(keys@[j] == old_keys[j - 1]);
        } else {
            assert(keys@[i] == old_keys[i - 1] && keys@[j] == old_keys[j - 1]);
        }
    }
}

/// The logs ordered by their instants (see `log_time`). A single log, or none, is
/// returned as it is, without reading any instant; of two logs or more, `None` where one
/// has no instant (where its first timestamp is missing or cannot be read). No order is
/// promised among logs with the same instant.
pub fn sort_logs_by_timestamp(logs: Vec<JobLog>) -> (r: Option<Vec<JobLog>>)
    ensures
        r is None <==> logs@.len() >= 2 && exists|i: int|
            0 <= i < logs@.len() && (#[trigger] log_time(logs@[i])) is None,
        logs@.len() <= 1 ==> r == Some(logs),
        r matches Some(sorted) ==> sorted@.to_multiset() == logs@.to_multiset() && (logs@.len()
            >= 2 ==> sorted_by_time(sorted@)),
{
    if logs.len() <= 1 {
        return Some(logs);
    }
    let ghost all = logs@;
    let n = logs.len();
    let mut rest = logs;
    let mut out: Vec<JobLog> = Vec::new();
    let mut keys: Vec<i128> = Vec::new();
    let mut done: usize = 0;
    assert(all.skip(0) =~= all);
    proof {
        broadcast use vstd::seq_lib::group_to_multiset_ensures, vstd::multiset::group_multiset_axioms;
        assert(out@.to_multiset().add(rest@.to_multiset()) =~= all.to_multiset());
    }
    while rest.len() > 0
        invariant
            all == logs@,
            all.len() == n,
            n >= 2,
            done <= all.len(),
            rest@ == all.skip(done as int),
            out@.to_multiset().add(rest@.to_multiset()) == all.to_multiset(),
            keyed_in_order(out@, keys@),
            forall|i: int| 0 <= i < done ==> (#[trigger] log_time(all[i])) is Some,
        decreases rest@.len(),
    {
        let ghost rest_before = rest@;
        let log = rest.remove(0);
        assert(log == all[done as int]);
        assert(rest@ =~= all.skip(done + 1));
        assert(rest_before.remove(0) =~= rest@);
        let key = match log_time_exec(&log) {
            Some(k) => k,
            None => {
                return None;
            },
        };
        insert_by_key(&mut out, &mut keys, log, key);
        proof {
            broadcast use vstd::seq_lib::group_to_multiset_ensures, vstd::multiset::group_multiset_axioms;
            assert(rest_before.remove(0).to_multiset() =~= rest_before.to_multiset().remove(log));
            assert(out@.to_multiset().add(rest@.to_multiset()) =~= all.to_multiset());
        }
        done = done + 1;
    }
    proof {
        broadcast use vstd::seq_lib::group_to_multiset_ensures, vstd::multiset::group_multiset_axioms;
        assert(rest@.len() == 0);
        assert(rest@.to_multiset() =~= vstd::multiset::Multiset::empty());
        assert(out@.to_multiset() =~= all.to_multiset());
        lemma_keyed_in_order_sorted(out@, keys@);
    }
    Some(out)
}

} // verus!
