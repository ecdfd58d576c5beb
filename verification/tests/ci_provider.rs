use ci_manager::ci_provider::util::{
    sort_logs_by_timestamp, timestamp_from_log, JobLog, LabelFilter, TimestampError,
};
use ci_manager::ci_provider::{CIProvider, ProviderError};

#[test]
fn provider_from_environment() {
    assert_eq!(CIProvider::from_enviroment(true), Ok(CIProvider::GitHub));
    assert_eq!(CIProvider::from_enviroment(false), Err(ProviderError::UnknownEnvironment));
    assert_eq!(CIProvider::GitHub.as_str(), "GitHub");
}

#[test]
fn label_filter_doc_examples() {
    assert_eq!(LabelFilter::Any(vec!["bug".to_string()]).to_string(), r#"label:"bug""#);
    assert_eq!(
        LabelFilter::All(vec!["bug".to_string(), "help wanted".to_string()]).to_string(),
        r#"label:"bug" label:"help wanted""#
    );
    assert_eq!(LabelFilter::none().to_string(), "");
}

#[test]
fn timestamp_of_a_log() {
    let log = "2024-01-17T11:23:18.0396058Z This is a log message";
    assert_eq!(timestamp_from_log(log), Ok(1705490598039605800));
    let log = "first line\nlater 2024-03-15T20:35:48.9824182Z and 2024-01-17T11:23:18.0396058Z";
    assert_eq!(timestamp_from_log(log), Ok(1710534948982418200));
    assert_eq!(timestamp_from_log("no timestamp"), Err(TimestampError::NotFound));
    assert_eq!(timestamp_from_log("2024-13-45T11:23:18.0Z"), Err(TimestampError::Unparsable));
}

#[test]
fn logs_sorted_by_timestamp() {
    let logs = vec![
        JobLog::new("b".to_string(), "2024-03-15T20:35:48.9824182Z b".to_string()),
        JobLog::new("a".to_string(), "2024-01-17T11:23:18.0396058Z a".to_string()),
        JobLog::new("c".to_string(), "2024-03-15T20:35:49.0000000Z c".to_string()),
    ];
    let sorted = sort_logs_by_timestamp(logs).unwrap();
    let names: Vec<&str> = sorted.iter().map(|l| l.name.as_str()).collect();
    assert_eq!(names, vec!["a", "b", "c"]);
    let logs = vec![
        JobLog::new("a".to_string(), "2024-01-17T11:23:18.0396058Z a".to_string()),
        JobLog::new("x".to_string(), "no time".to_string()),
    ];
    assert!(sort_logs_by_timestamp(logs).is_none());
    assert_eq!(sort_logs_by_timestamp(vec![]), Some(vec![]));
}

#[test]
fn a_single_log_needs_no_timestamp() {
    let logs = vec![JobLog::new("x".to_string(), "no time".to_string())];
    assert_eq!(sort_logs_by_timestamp(logs.clone()), Some(logs));
}
