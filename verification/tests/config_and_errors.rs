use ci_manager::config::commands::{StepKind, WorkflowKind, LEVENSHTEIN_THRESHOLD};
use ci_manager::config::{log_level_for_verbosity, LogLevel};
use ci_manager::err_parse::yocto::{YoctoError, YoctoFailureLog};
use ci_manager::err_parse::{parse_error_message, ErrorMessageSummary};

#[test]
fn verbosity_levels() {
    assert_eq!(log_level_for_verbosity(0), (LogLevel::Error, false));
    assert_eq!(log_level_for_verbosity(1), (LogLevel::Warn, false));
    assert_eq!(log_level_for_verbosity(2), (LogLevel::Info, false));
    assert_eq!(log_level_for_verbosity(3), (LogLevel::Debug, false));
    assert_eq!(log_level_for_verbosity(4), (LogLevel::Trace, false));
    assert_eq!(log_level_for_verbosity(5), (LogLevel::Trace, true));
    assert_eq!(log_level_for_verbosity(255), (LogLevel::Trace, true));
}

#[test]
fn kind_names() {
    assert_eq!(WorkflowKind::Yocto.as_str(), "Yocto");
    assert_eq!(WorkflowKind::Other.as_str(), "Other");
    assert_eq!(StepKind::Yocto.as_str(), "Yocto");
    assert_eq!(StepKind::Other.as_str(), "Other");
    assert_eq!(LEVENSHTEIN_THRESHOLD, 100);
}

#[test]
fn error_message_summaries() {
    let other = ErrorMessageSummary::Other("boom".to_string());
    assert_eq!(other.summary(), "boom");
    assert_eq!(other.log(), None);
    assert_eq!(other.logfile_name(), None);
    assert_eq!(other.failure_label(), None);
    let yocto = ErrorMessageSummary::Yocto(YoctoError::new(
        "ERROR: fetch failed".to_string(),
        "do_fetch".to_string(),
        Some(YoctoFailureLog::new("log.do_fetch".to_string(), "DEBUG: x".to_string())),
    ));
    assert_eq!(yocto.summary(), "ERROR: fetch failed");
    assert_eq!(yocto.log(), Some("DEBUG: x"));
    assert_eq!(yocto.logfile_name(), Some("log.do_fetch"));
    assert_eq!(yocto.failure_label(), Some("do_fetch".to_string()));
}

#[test]
fn parsing_error_messages() {
    let log = "2024-02-28T00:03:46.0000000Z ERROR: a\n2024-02-28T00:03:47.0000000Z ERROR: b";
    let parsed = parse_error_message(log, WorkflowKind::Other, true, false);
    assert_eq!(parsed.summary(), "ERROR: a\nERROR: b");
    assert!(matches!(parsed, ErrorMessageSummary::Other(_)));
    let parsed = parse_error_message(log, WorkflowKind::Other, false, false);
    assert_eq!(parsed.summary(), log);
    let parsed = parse_error_message(log, WorkflowKind::Yocto, true, false);
    assert!(matches!(parsed, ErrorMessageSummary::Yocto(_)));
    assert_eq!(parsed.summary(), "ERROR: a\nERROR: b");
    assert_eq!(parsed.failure_label(), Some("misc".to_string()));
    assert_eq!(parsed.log(), None);
}

#[test]
fn parsing_error_messages_trims_timestamps_then_ansi_codes() {
    let log = "2024-02-28T00:03:46.0000000Z [INFO] x";
    let parsed = parse_error_message(log, WorkflowKind::Other, true, false);
    assert_eq!(parsed.summary(), "[INFO] x");
    let log = "2024-02-28T00:03:46.0000000Z \u{1b}[1;31mERROR\u{1b}[0m: \u{1b}[2Kfailed";
    let parsed = parse_error_message(log, WorkflowKind::Other, true, true);
    assert_eq!(parsed.summary(), "ERROR: failed");
    let parsed = parse_error_message(log, WorkflowKind::Other, false, true);
    assert_eq!(parsed.summary(), "2024-02-28T00:03:46.0000000Z ERROR: failed");
    let parsed = parse_error_message(log, WorkflowKind::Other, false, false);
    assert_eq!(parsed.summary(), log);
}
