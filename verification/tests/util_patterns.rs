use ci_manager::util::{
    canonicalize_repo_url, ensure_https_prefix, first_abs_path_from_str, first_path_from_str,
    id_from_job_lines, issue_text_similarity, remove_ansi_codes, remove_timestamp_prefixes,
    remove_timestamps_and_ids, repo_to_owner_repo_fragments, take_lines_with_failed_jobs,
    ParseError,
};
use regex::Regex;
use std::path::PathBuf;

const SAMPLES: &[&str] = &[
    "",
    "a",
    "/",
    "a/b",
    "foo app/3-_2/t/3 bar",
    "multi line\ntest string with/path/file.txt is\nvalid",
    "Random string with no path",
    " ERROR: Logfile of failure stored in: /app/yocto/build/tmp/work/x86_64-linux/sqlite3-native/3.43.2/temp/log.do_fetch.21616",
    "x// y/ z/a/ /b //c a//b",
    "ID 21442749267 ",
    "ID 21442749267\ndate: 2024-02-28 00:03:46\nother text",
    "/83421321/ abc1234567890def 123456789012 x123456789012y",
    "(12345678901)(1234567890)",
    "2024-02-28T00:03:46.0000000Z [INFO] This is a log message",
    "2024-02-28T00:03:46.0000000Z [INFO] a\n2024-03-15T20:35:48.9824182Z [ERROR] b",
    "\r\n\r\n2024-02-28T00:03:46.0000000Z\tx\n\n2024-02-28T00:03:46.0000000Zy",
    "X job (ID 1) X other (ID 22)\nX bad ID 3)\nnoX ID 4)\nX ID ) X ID 5) ID 6)",
    "✓ ok (ID 1)\nX fail one in 3s (ID 21442749267)\nX fail two (ID 2144) extra (ID 9)",
    "📦 Build yocto image ٣٤٥٦-٠١-١٧T11:23:18.0396058Z ok",
];

fn regex_first_path(s: &str) -> Option<String> {
    let re = Regex::new(r"[a-zA-Z0-9-_.\/]+\/[a-zA-Z0-9-_.]+").unwrap();
    re.find(s).map(|m| m.as_str().to_string())
}

#[test]
fn first_path_agrees_with_the_pattern() {
    for s in SAMPLES {
        assert_eq!(first_path_from_str(s).ok(), regex_first_path(s), "input {s:?}");
    }
}

#[test]
fn remove_timestamps_and_ids_agrees_with_the_pattern() {
    let re = Regex::new(
        r"(?x)
        ([0-9]{4}-[0-9]{2}-[0-9]{2}\x20[0-9]{2}:[0-9]{2}:[0-9]{2})
        |
        (?:[^[a-zA-Z]])([0-9]{10,11})(?:[^[a-zA-Z]])
    ",
    )
    .unwrap();
    for s in SAMPLES {
        assert_eq!(remove_timestamps_and_ids(s), re.replace_all(s, ""), "input {s:?}");
    }
}

#[test]
fn remove_timestamp_prefixes_agrees_with_the_pattern() {
    let re = Regex::new(r"([\r\n]*)\d{4}-\d{2}-\d{2}T\d{2}:\d{2}:\d{2}.\d{7}Z\s").unwrap();
    for s in SAMPLES {
        assert_eq!(remove_timestamp_prefixes(s), re.replace_all(s, "$1"), "input {s:?}");
    }
}

#[test]
fn take_lines_with_failed_jobs_agrees_with_the_pattern() {
    let re = Regex::new(r"X.*ID [0-9]*\)").unwrap();
    for s in SAMPLES {
        let expected: Vec<String> = re.find_iter(s).map(|m| m.as_str().to_owned()).collect();
        assert_eq!(take_lines_with_failed_jobs(s.to_string()), expected, "input {s:?}");
    }
}

#[test]
fn id_from_job_lines_agrees_with_the_pattern() {
    let re = Regex::new(r"ID (?<JOB_ID>[0-9]*)").unwrap();
    let lines: Vec<String> = vec![
        "X fail one in 3s (ID 21442749267)".to_string(),
        "ID 7 and ID 8".to_string(),
        "no digits ID x".to_string(),
        "IDID 42)".to_string(),
    ];
    let expected: Vec<String> = lines
        .iter()
        .map(|l| re.captures(l).unwrap().name("JOB_ID").unwrap().as_str().to_owned())
        .collect();
    assert_eq!(id_from_job_lines(&lines), expected);
    assert_eq!(id_from_job_lines(&lines[..1]), vec!["21442749267".to_string()]);
}

#[test]
fn first_path_doc_examples() {
    let haystack = "multi line\ntest string with/path/file.txt is\nvalid";
    assert_eq!(PathBuf::from(first_path_from_str(haystack).unwrap()), PathBuf::from("with/path/file.txt"));
    assert_eq!(first_path_from_str("Random string with no path"), Err(ParseError::NoPath));
    assert_eq!(first_path_from_str("foo app/3-_2/t/3 bar").unwrap(), "app/3-_2/t/3");
    let haystack = r#" ERROR: Logfile of failure stored in: /app/yocto/build/tmp/work/x86_64-linux/sqlite3-native/3.43.2/temp/log.do_fetch.21616"#;
    assert_eq!(
        first_path_from_str(haystack).unwrap(),
        "/app/yocto/build/tmp/work/x86_64-linux/sqlite3-native/3.43.2/temp/log.do_fetch.21616"
    );
}

#[test]
fn remove_timestamps_and_ids_doc_examples() {
    assert_eq!(remove_timestamps_and_ids("ID 21442749267 "), "ID");
    let test_str = "ID 21442749267\ndate: 2024-02-28 00:03:46\nother text";
    assert_eq!(remove_timestamps_and_ids(test_str), "IDdate: \nother text");
    // Text without timestamps or IDs is left as it is; commit SHAs are kept.
    let text = "commit abc1234567890def is fine";
    assert_eq!(remove_timestamps_and_ids(text), text);
}

#[test]
fn remove_timestamp_prefixes_doc_examples() {
    let test_str = "2024-02-28T00:03:46.0000000Z [INFO] This is a log message";
    assert_eq!(remove_timestamp_prefixes(test_str), "[INFO] This is a log message");
    let test_str = "\
2024-02-28T00:03:46.0000000Z [INFO] This is a log message
2024-03-15T20:35:48.9824182Z [ERROR] This is another log message";
    assert_eq!(
        remove_timestamp_prefixes(test_str),
        "\
[INFO] This is a log message
[ERROR] This is another log message"
    );
    // Line breaks in front of a timestamp are kept.
    assert_eq!(remove_timestamp_prefixes("a\r\n2024-02-28T00:03:46.0000000Z b"), "a\r\nb");
    // A log without timestamps is left as it is.
    assert_eq!(remove_timestamp_prefixes("no timestamps here"), "no timestamps here");
}

#[test]
fn first_abs_path_errors_without_slash() {
    assert_eq!(first_abs_path_from_str("no slash"), Err(ParseError::NoAbsolutePath));
    assert_eq!(first_abs_path_from_str("a/b/c").unwrap(), "/b/c");
}

#[test]
fn ensure_https_prefix_doc_examples() {
    let mut url = String::from("github.com/docker/buildx/issues");
    ensure_https_prefix(&mut url);
    assert_eq!(url, "https://github.com/docker/buildx/issues");
    let mut url = String::from("https://gitlab.com/foo-org/foo-repo");
    ensure_https_prefix(&mut url);
    assert_eq!(url, String::from("https://gitlab.com/foo-org/foo-repo"));
    // A second call leaves the URL as it is.
    let mut url = String::from("example.org");
    ensure_https_prefix(&mut url);
    ensure_https_prefix(&mut url);
    assert_eq!(url, "https://example.org");
}

#[test]
fn canonicalize_repo_url_doc_examples() {
    assert_eq!(canonicalize_repo_url("bob/bobbys-repo", "github"), "https://github.com/bob/bobbys-repo");
    assert_eq!(
        canonicalize_repo_url("github.com/lisa/lisas-repo", "github.com"),
        "https://github.com/lisa/lisas-repo"
    );
    let repo = "https://gitlab.com/foo-org/foo-repo";
    assert_eq!(canonicalize_repo_url(repo, "gitlab.com"), repo);
    // Another host after https:// is replaced, and canonical URLs stay as they are.
    let url = canonicalize_repo_url("https://other.org/a/b", "github.com");
    assert_eq!(url, "https://github.com/other.org/a/b");
    assert_eq!(canonicalize_repo_url(&url, "github.com"), url);
}

#[test]
fn repo_to_owner_repo_fragments_doc_examples() {
    let (owner, repo) = repo_to_owner_repo_fragments("github.com/luftkode/distro-template").unwrap();
    assert_eq!((owner.as_str(), repo.as_str()), ("luftkode", "distro-template"));
    let (owner, repo) = repo_to_owner_repo_fragments("luftkode/bifrost-app").unwrap();
    assert_eq!((owner.as_str(), repo.as_str()), ("luftkode", "bifrost-app"));
    assert_eq!(repo_to_owner_repo_fragments("github.com/luftkode"), Err(ParseError::InvalidRepoUrl));
    assert_eq!(repo_to_owner_repo_fragments("no-slash"), Err(ParseError::InvalidRepoUrl));
    assert_eq!(repo_to_owner_repo_fragments("a/b c"), Err(ParseError::InvalidRepoUrl));
    assert_eq!(repo_to_owner_repo_fragments("a/"), Err(ParseError::InvalidRepoUrl));
    // Canonical URLs keep their owner and repository.
    let url = canonicalize_repo_url("luftkode/distro-template", "github");
    let (owner, repo) = repo_to_owner_repo_fragments(&url).unwrap();
    assert_eq!((owner.as_str(), repo.as_str()), ("luftkode", "distro-template"));
}

#[test]
fn issue_text_similarity_measures_levenshtein_distance() {
    assert_eq!(issue_text_similarity("kitten", &["sitting".to_string()]), 3);
    assert_eq!(
        issue_text_similarity("book", &["back".to_string(), "table".to_string()]),
        2
    );
    assert_eq!(issue_text_similarity("anything", &[]), usize::MAX);
    // Bodies that differ only in IDs and timestamps are identical.
    assert_eq!(
        issue_text_similarity(
            "Run ID 8072883145 at 2024-02-28 00:03:46 failed",
            &["Run ID 1234567890 at 2023-01-01 10:00:00 failed".to_string()]
        ),
        0
    );
}

#[test]
fn ansi_code_removal_matches_the_control_sequence_pattern() {
    let re = Regex::new(r"\x1b\[[\x30-\x3f]*[\x20-\x2f]*[\x40-\x7e]").unwrap();
    let samples = [
        "",
        "plain text",
        "\u{1b}[31mred\u{1b}[0m",
        "\u{1b}[1;32;40mbold green\u{1b}[0m and \u{1b}[2K cleared",
        "\u{1b}[ unfinished",
        "\u{1b}\u{1b}[0m double escape",
        "\u{1b}[?25l hidden cursor \u{1b}[?25h",
        "\u{1b}[12 q space intermediate",
        "tail escape \u{1b}",
        "tail csi \u{1b}[",
        "\u{1b}[38;5;208mé\u{1b}[m",
    ];
    for sample in samples {
        assert_eq!(remove_ansi_codes(sample), re.replace_all(sample, "").to_string(), "{sample:?}");
    }
}
