use ci_manager::util::{canonicalize_repo_url, first_abs_path_from_str, remove_timestamps_and_ids};
use std::path::PathBuf;

#[test]
fn test_absolute_path_from_str() {
    let test_str = r#" ERROR: Logfile of failure stored in: /app/yocto/build/tmp/work/x86_64-linux/sqlite3-native/3.43.2/temp/log.do_fetch.21616"#;
    let path = PathBuf::from(first_abs_path_from_str(test_str).unwrap());
    assert_eq!(
        path,
        PathBuf::from("/app/yocto/build/tmp/work/x86_64-linux/sqlite3-native/3.43.2/temp/log.do_fetch.21616")
    );
}

#[test]
pub fn test_canonicalize_repo_url() {
    let repo = "luftkode/distro-template";
    let canonicalized = canonicalize_repo_url(repo, "github.com");
    assert_eq!(canonicalized, "https://github.com/luftkode/distro-template");
}

#[test]
pub fn test_remove_timestamps_and_ids() {
    let test_str = "ID 8072883145 ";
    let modified = remove_timestamps_and_ids(test_str);
    assert_eq!(modified, "ID");
}

#[test]
pub fn test_remove_timestamps_and_ids_log_text() {
    const LOG_TEXT: &'static str = r#"**Run ID**: 8072883145 [LINK TO RUN](https://github.com/luftkode/distro-template/actions/runs/8072883145)

        **1 job failed:**
        - **`Test template xilinx`**

        ### `Test template xilinx` (ID 22055505284)
        **Step failed:** `📦 Build yocto image`
        \
        **Log:** https://github.com/luftkode/distro-template/actions/runs/8072883145/job/22055505284
        "#;

    const EXPECTED_MODIFIED: &'static str = r#"**Run ID**:[LINK TO RUN](https://github.com/luftkode/distro-template/actions/runs

        **1 job failed:**
        - **`Test template xilinx`**

        ### `Test template xilinx` (ID
        **Step failed:** `📦 Build yocto image`
        \
        **Log:** https://github.com/luftkode/distro-template/actions/runsjob        "#;

    let modified = remove_timestamps_and_ids(LOG_TEXT);
    assert_eq!(
        modified, EXPECTED_MODIFIED,
        "Expected: {EXPECTED_MODIFIED}\nGot: {modified}"
    );
}
