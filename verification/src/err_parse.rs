//! Parsing error messages from the Yocto and other workflows
use vstd::prelude::*;

use crate::config::commands::WorkflowKind;
use crate::util::{
    remove_ansi_codes, remove_timestamp_prefixes, spec_remove_ansi_codes,
    spec_remove_timestamp_prefixes,
};

pub mod yocto;

use self::yocto::{YoctoError, unknown_failure_kind};

verus! {

/// Maximum size of a logfile we'll add to the issue body
///
/// The maximum size of a GitHub issue body is 65536
pub const LOGFILE_MAX_LEN: usize = 5000;

/// The summary of the error that made a job fail.
#[derive(Debug)]
pub enum ErrorMessageSummary {
    Yocto(YoctoError),
    Other(String),
}

/// The summary text of an error message.
pub open spec fn summary_of(e: ErrorMessageSummary) -> Seq<char> {
    match e {
        ErrorMessageSummary::Yocto(err) => err.summary@,
        ErrorMessageSummary::Other(o) => o@,
    }
}

/// The contents of the log file that comes with an error message, if any.
pub open spec fn log_of(e: ErrorMessageSummary) -> Option<Seq<char>> {
    match e {
        ErrorMessageSummary::Yocto(err) => match err.logfile {
            Some(log) => Some(log.contents@),
            None => None,
        },
        ErrorMessageSummary::Other(_) => None,
    }
}

/// The name of the log file that comes with an error message, if any.
pub open spec fn logfile_name_of(e: ErrorMessageSummary) -> Option<Seq<char>> {
    match e {
        ErrorMessageSummary::Yocto(err) => match err.logfile {
            Some(log) => Some(log.name@),
            None => None,
        },
        ErrorMessageSummary::Other(_) => None,
    }
}

/// The label that classifies the failure, if any.
pub open spec fn failure_label_of(e: ErrorMessageSummary) -> Option<Seq<char>> {
    match e {
        ErrorMessageSummary::Yocto(err) => Some(err.kind@),
        ErrorMessageSummary::Other(_) => None,
    }
}

impl ErrorMessageSummary {
    /// The summary of the error.
    pub fn summary(&self) -> (s: &str)
        ensures
            s@ == summary_of(*self),
    {
        match self {
            ErrorMessageSummary::Yocto(err) => err.summary(),
            ErrorMessageSummary::Other(o) => o.as_str(),
        }
    }

    /// The contents of the log file that comes with the error, if any.
    pub fn log(&self) -> (l: Option<&str>)
        ensures
            l.is_some() == log_of(*self).is_some(),
            l.is_some() ==> l.unwrap()@ == log_of(*self).unwrap(),
    {
        match self {
            ErrorMessageSummary::Yocto(err) => match err.logfile() {
                Some(log) => Some(log.contents.as_str()),
                None => None,
            },
            ErrorMessageSummary::Other(_) => None,  // Does not come with a log file
        }
    }

    /// The name of the log file that comes with the error, if any.
    pub fn logfile_name(&self) -> (l: Option<&str>)
        ensures
            l.is_some() == logfile_name_of(*self).is_some(),
            l.is_some() ==> l.unwrap()@ == logfile_name_of(*self).unwrap(),
    {
        match self {
            ErrorMessageSummary::Yocto(err) => match err.logfile() {
                Some(log) => Some(log.name.as_str()),
                None => None,
            },
            ErrorMessageSummary::Other(_) => None,  // Does not come with a log file
        }
    }

    /// The label that classifies the failure, if any.
    pub fn failure_label(&self) -> (l: Option<String>)
        ensures
            l.is_some() == failure_label_of(*self).is_some(),
            l.is_some() ==> l.unwrap()@ == failure_label_of(*self).unwrap(),
    {
        match self {
            ErrorMessageSummary::Yocto(err) => Some(String::from_str(err.kind())),
            ErrorMessageSummary::Other(_) => None,
        }
    }
}

/// The message after the optional removal of line-prefixed timestamps, then the optional
/// removal of ANSI escape codes.
pub open spec fn prepared_message(
    err_msg: Seq<char>,
    trim_timestamp: bool,
    trim_ansi_codes: bool,
) -> Seq<char> {
    let m = if trim_timestamp {
        spec_remove_timestamp_prefixes(err_msg)
    } else {
        err_msg
    };
    if trim_ansi_codes {
        spec_remove_ansi_codes(m)
    } else {
        m
    }
}

/// Summarises an error message of a failed job of the given kind of workflow.
///
/// With `trim_timestamp`, the timestamps that prefix the log lines are removed first;
/// with `trim_ansi_codes`, the ANSI escape codes are removed next. A Yocto message becomes
/// a Yocto error summary whose kind is not determined; any other message is kept as it
/// is.
pub fn parse_error_message(
    err_msg: &str,
    workflow: WorkflowKind,
    trim_timestamp: bool,
    trim_ansi_codes: bool,
) -> (r: ErrorMessageSummary)
    ensures
        summary_of(r) == prepared_message(err_msg@, trim_timestamp, trim_ansi_codes),
        log_of(r).is_none(),
        workflow == WorkflowKind::Yocto ==> r is Yocto && failure_label_of(r) == Some(
            unknown_failure_kind(),
        ),
        workflow == WorkflowKind::Other ==> r is Other,
{
    let err_msg = if trim_timestamp {
        remove_timestamp_prefixes(err_msg)
    } else {
        String::from_str(err_msg)
    };
    let err_msg = if trim_ansi_codes {
        remove_ansi_codes(err_msg.as_str())
    } else {
        err_msg
    };
    match workflow {
        WorkflowKind::Yocto => ErrorMessageSummary::Yocto(YoctoError::unparsed(err_msg)),
        WorkflowKind::Other => ErrorMessageSummary::Other(err_msg),
    }
}

} // verus!
