use twig::output::{
    format_check_status, format_command, format_pr_review_status, format_repo_name, format_repo_path,
    format_timestamp,
};

#[test]
fn test_format_functions() {
    let path = format_repo_path("/test/path");
    assert!(!path.is_empty());

    let name = format_repo_name("test-repo");
    assert!(!name.is_empty());

    let timestamp = format_timestamp("2023-01-01");
    assert!(!timestamp.is_empty());

    let command = format_command("git status");
    assert!(!command.is_empty());
}

#[test]
fn test_pr_review_status_formatting() {
    assert!(!format_pr_review_status("APPROVED").is_empty());
    assert!(!format_pr_review_status("CHANGES_REQUESTED").is_empty());
    assert!(!format_pr_review_status("COMMENTED").is_empty());
    assert!(!format_pr_review_status("UNKNOWN").is_empty());
}

#[test]
fn test_check_status_formatting() {
    assert!(!format_check_status("completed", Some("success")).is_empty());
    assert!(!format_check_status("completed", Some("failure")).is_empty());
    assert!(!format_check_status("in_progress", None).is_empty());
    assert!(!format_check_status("queued", None).is_empty());
}

#[test]
fn output_exact_escape_sequences() {
    assert_eq!(format_repo_path("p"), "\x1b[92mp\x1b[39m");
    assert_eq!(format_repo_name("n"), "\x1b[1m\x1b[96mn\x1b[39m\x1b[0m");
    assert_eq!(format_timestamp("t"), "\x1b[33mt\x1b[39m");
    assert_eq!(format_command("c"), "\x1b[35mc\x1b[39m");
    assert_eq!(format_pr_review_status("APPROVED"), "\x1b[32mAPPROVED\x1b[39m");
    assert_eq!(format_pr_review_status("CHANGES_REQUESTED"), "\x1b[31mCHANGES_REQUESTED\x1b[39m");
    assert_eq!(format_pr_review_status("COMMENTED"), "\x1b[33mCOMMENTED\x1b[39m");
    assert_eq!(format_pr_review_status("UNKNOWN"), "UNKNOWN");
    assert_eq!(format_check_status("completed", Some("skipped")), "\x1b[90mskipped\x1b[39m");
    assert_eq!(format_check_status("completed", Some("cancelled")), "\x1b[33mcancelled\x1b[39m");
    assert_eq!(format_check_status("completed", Some("neutral")), "neutral");
    assert_eq!(format_check_status("completed", None), "completed");
    assert_eq!(format_check_status("queued", None), "\x1b[34mqueued\x1b[39m");
    assert_eq!(format_check_status("waiting", Some("success")), "waiting");
}
