//! The subcommands of the CLI and the kinds that they take.
use vstd::prelude::*;

verus! {

/// The maximum Levenshtein distance for issues to be considered similar.
pub const LEVENSHTEIN_THRESHOLD: usize = 100;

/// A subcommand of the CLI.
#[derive(Debug)]
#[allow(inconsistent_fields)]
pub enum Command {
    /// Create an issue from a failed CI run
    CreateIssueFromRun {
        /// The repository to parse
        repo: String,
        /// The workflow run ID
        run_id: String,
        /// The issue label
        label: String,
        /// The kind of workflow (e.g. Yocto)
        kind: WorkflowKind,
        /// Title of the issue
        title: String,
        /// Don't create the issue if a similar issue already exists
        no_duplicate: bool,
    },
    /// Locate the specific failure log in a failed build/test/other
    LocateFailureLog {
        /// The kind of CI step (e.g. Yocto)
        kind: StepKind,
        /// File to operate on (if not provided, reads from stdin)
        input_file: Option<String>,
    },
}

/// The kind of workflow (e.g. Yocto)
#[derive(Debug, Clone, Copy, PartialEq, Eq, Structural)]
pub enum WorkflowKind {
    Yocto,
    Other,
}

/// The kind of step in CI, e.g. Yocto, Pytest, Pre-commit, Docker build, etc.
///
/// This is used to take highly specific actions based on the kind of CI step that failed.
#[derive(Debug, Clone, Copy, PartialEq, Eq, Structural)]
pub enum StepKind {
    Yocto,
    Other,
}

/// The displayed name of a workflow kind.
pub open spec fn workflow_kind_name(k: WorkflowKind) -> Seq<char> {
    match k {
        WorkflowKind::Yocto => "Yocto"@,
        WorkflowKind::Other => "Other"@,
    }
}

/// The displayed name of a step kind.
pub open spec fn step_kind_name(k: StepKind) -> Seq<char> {
    match k {
        StepKind::Yocto => "Yocto"@,
        StepKind::Other => "Other"@,
    }
}

impl WorkflowKind {
    /// The name of the kind, as it is displayed.
    pub fn as_str(&self) -> (s: &'static str)
        ensures
            s@ == workflow_kind_name(*self),
    {
        match self {
            WorkflowKind::Yocto => "Yocto",
            WorkflowKind::Other => "Other",
        }
    }
}

impl StepKind {
    /// The name of the kind, as it is displayed.
    pub fn as_str(&self) -> (s: &'static str)
        ensures
            s@ == step_kind_name(*self),
    {
        match self {
            StepKind::Yocto => "Yocto",
            StepKind::Other => "Other",
        }
    }
}

} // verus!
