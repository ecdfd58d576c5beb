//! The error summary of a failed Yocto build.
use vstd::prelude::*;

verus! {

/// A log file of a failed Yocto task.
#[derive(Debug)]
pub struct YoctoFailureLog {
    pub name: String,
    pub contents: String,
}

/// The summary of a failed Yocto build: the error text, the kind of failure (as the
/// label it is shown with), and the log file of the failed task where one was found.
#[derive(Debug)]
pub struct YoctoError {
    pub summary: String,
    pub kind: String,
    pub logfile: Option<YoctoFailureLog>,
}

/// The label of a Yocto failure whose kind could not be determined.
pub open spec fn unknown_failure_kind() -> Seq<char> {
    "misc"@
}

impl YoctoFailureLog {
    /// A log file of a failed task: its name and contents.
    pub fn new(name: String, contents: String) -> (r: Self)
        ensures
            r.name == name,
            r.contents == contents,
    {
        YoctoFailureLog { name, contents }
    }
}

impl YoctoError {
    /// A Yocto error with the given summary, kind and log file.
    pub fn new(summary: String, kind: String, logfile: Option<YoctoFailureLog>) -> (r: Self)
        ensures
            r.summary == summary,
            r.kind == kind,
            r.logfile == logfile,
    {
        YoctoError { summary, kind, logfile }
    }

    /// A Yocto error whose kind and log file are not known: the whole message is the summary.
    pub fn unparsed(message: String) -> (r: Self)
        ensures
            r.summary == message,
            r.kind@ == unknown_failure_kind(),
            r.logfile.is_none(),
    {
        YoctoError { summary: message, kind: String::from_str("misc"), logfile: None }
    }

    /// The summary of the error.
    pub fn summary(&self) -> (s: &str)
        ensures
            s@ == self.summary@,
    {
        self.summary.as_str()
    }

    /// The kind of failure, used as its label.
    pub fn kind(&self) -> (s: &str)
        ensures
            s@ == self.kind@,
    {
        self.kind.as_str()
    }

    /// The log file of the failed task, if one was found.
    pub fn logfile(&self) -> (l: Option<&YoctoFailureLog>)
        ensures
            l == match &self.logfile {
                Some(log) => Some(log),
                None => None::<&YoctoFailureLog>,
            },
    {
        match &self.logfile {
            Some(log) => Some(log),
            None => None,
        }
    }
}

} // verus!
