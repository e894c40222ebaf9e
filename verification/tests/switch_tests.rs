use twig::github::GitHubPr;
use twig::jira::{JiraParsingConfig, JiraTicketParser};
use twig::switch::{
    derive_pr_branch_name, detect_switch_input, extract_jira_issue_from_url, parse_jira_issue_key,
    sanitize_remote_name, select_repo_url, ParentBranchOption, SwitchInput,
};

#[test]
fn detects_switch_inputs() {
    let parser = JiraTicketParser::new(JiraParsingConfig::default());
    assert_eq!(
        detect_switch_input(Some(&parser), "PROJ-123"),
        SwitchInput::JiraIssueKey("PROJ-123".to_string())
    );
    assert_eq!(
        detect_switch_input(Some(&parser), "https://company.atlassian.net/browse/PROJ-123"),
        SwitchInput::JiraIssueUrl("PROJ-123".to_string())
    );
    assert_eq!(
        detect_switch_input(Some(&parser), "https://github.com/owner/repo/pull/123"),
        SwitchInput::GitHubPrUrl(123)
    );
    assert_eq!(detect_switch_input(Some(&parser), "PR#42"), SwitchInput::GitHubPrId(42));
    assert_eq!(
        detect_switch_input(Some(&parser), "feature/branch"),
        SwitchInput::BranchName("feature/branch".to_string())
    );
}

#[test]
fn detect_switch_input_without_parser_and_hash_forms() {
    assert_eq!(detect_switch_input(None, "#7"), SwitchInput::GitHubPrId(7));
    assert_eq!(detect_switch_input(None, "15"), SwitchInput::GitHubPrId(15));
    assert_eq!(detect_switch_input(None, "PROJ-1"), SwitchInput::BranchName("PROJ-1".to_string()));
    let parser = JiraTicketParser::new_flexible();
    assert_eq!(detect_switch_input(Some(&parser), "proj1"), SwitchInput::JiraIssueKey("PROJ-1".to_string()));
}

#[test]
fn parses_jira_key_and_urls() {
    let parser = JiraTicketParser::new(JiraParsingConfig::default());
    assert_eq!(parse_jira_issue_key(&parser, "PROJ-123"), Some("PROJ-123".to_string()));
    assert_eq!(
        extract_jira_issue_from_url("https://example.atlassian.net/browse/PROJ-999"),
        Some("PROJ-999".to_string())
    );
    assert!(extract_jira_issue_from_url("https://example.com/other").is_none());
}

#[test]
fn extracts_pr_number_from_url() {
    let pr = GitHubPr::parse("https://github.com/owner/repo/pull/123").unwrap();
    assert_eq!(pr.number, 123);
    assert!(GitHubPr::parse("https://github.com/owner/repo").is_err());
}

#[test]
fn test_sanitize_remote_name() {
    assert_eq!(sanitize_remote_name("alice"), "alice");
    assert_eq!(sanitize_remote_name("alice-bob"), "alice-bob");
    assert_eq!(sanitize_remote_name("alice_bob"), "alice_bob");
    assert_eq!(sanitize_remote_name("alice.bob"), "alice-bob");
    assert_eq!(sanitize_remote_name("alice/bob"), "alice-bob");
    assert_eq!(sanitize_remote_name("@lice!"), "lice");
    assert_eq!(sanitize_remote_name("---"), "remote");
    assert_eq!(sanitize_remote_name(""), "remote");
}

#[test]
fn test_select_repo_url_prefers_ssh_for_ssh_origin() {
    let result = select_repo_url(
        Some("git@github.com:fork/repo.git"),
        Some("https://github.com/fork/repo.git"),
        "git@github.com:origin/repo.git",
    );
    assert_eq!(result.as_deref(), Some("git@github.com:fork/repo.git"));
}

#[test]
fn test_select_repo_url_prefers_https_for_https_origin() {
    let result = select_repo_url(
        Some("git@github.com:fork/repo.git"),
        Some("https://github.com/fork/repo.git"),
        "https://github.com/origin/repo.git",
    );
    assert_eq!(result.as_deref(), Some("https://github.com/fork/repo.git"));
}

#[test]
fn test_select_repo_url_falls_back() {
    let result = select_repo_url(Some("git@github.com:fork/repo.git"), None, "https://github.com/origin/repo.git");
    assert_eq!(result.as_deref(), Some("git@github.com:fork/repo.git"));
    let result = select_repo_url(None, Some("https://github.com/fork/repo.git"), "git@github.com:origin/repo.git");
    assert_eq!(result.as_deref(), Some("https://github.com/fork/repo.git"));
    assert_eq!(select_repo_url(None, None, "x"), None);
}

#[test]
fn parent_branch_option_from_cli_value() {
    assert_eq!(ParentBranchOption::from_cli_value(None), ParentBranchOption::Head);
    assert_eq!(ParentBranchOption::from_cli_value(Some("  ")), ParentBranchOption::Head);
    assert_eq!(ParentBranchOption::from_cli_value(Some("none")), ParentBranchOption::Head);
    assert_eq!(ParentBranchOption::from_cli_value(Some(" current ")), ParentBranchOption::CurrentBranch);
    assert_eq!(
        ParentBranchOption::from_cli_value(Some(" main ")),
        ParentBranchOption::Named("main".to_string())
    );
}

#[test]
fn derived_pr_branch_name() {
    assert_eq!(derive_pr_branch_name(0), "pr/0");
    assert_eq!(derive_pr_branch_name(4096), "pr/4096");
}

#[test]
fn jira_urls_and_pr_urls_with_digits_of_other_scripts() {
    assert_eq!(
        extract_jira_issue_from_url("https://example.atlassian.net/browse/PROJ-\u{0663}"),
        Some("PROJ-\u{0663}".to_string())
    );
    assert!(extract_jira_issue_from_url("https://example.atlassian.net/browse/proj-1").is_none());
    match GitHubPr::parse("https://github.com/owner/repo/pull/\u{0661}\u{0662}") {
        Err(e) => assert_eq!(e.message(), "Failed to parse PR number '\u{0661}\u{0662}' as a valid integer"),
        Ok(_) => panic!("digits of another script are not a u32"),
    }
}
