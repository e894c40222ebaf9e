use twig::state::BranchMetadata;
use twig::utils::{is_confirmation, resolve_repository_path, BranchAssociatedItem, RepoPathError};

// Test the BranchAssociatedItem enum
#[test]
fn test_branch_associated_item_variants() {
    let jira_item = BranchAssociatedItem::JiraIssue("ABC-123".to_string());
    let github_item = BranchAssociatedItem::GitHubPr(42);
    let none_item = BranchAssociatedItem::NoAssociation;

    match jira_item {
        BranchAssociatedItem::JiraIssue(key) => assert_eq!(key, "ABC-123"),
        _ => panic!("Expected JiraIssue variant"),
    }

    match github_item {
        BranchAssociatedItem::GitHubPr(num) => assert_eq!(num, 42),
        _ => panic!("Expected GitHubPr variant"),
    }

    match none_item {
        BranchAssociatedItem::NoAssociation => {}
        _ => panic!("Expected NoAssociation variant"),
    }
}

// The path does not exist, so no repository is looked for
#[test]
fn utils_test_resolve_repository_path_with_invalid_path() {
    let result = resolve_repository_path(Some("/path/that/does/not/exist"), false, None);
    assert!(result.is_err());
    assert!(result.unwrap_err().message().contains("Repository path does not exist"));
}

#[test]
fn mod_test_resolve_repository_path_with_invalid_path() {
    let result = resolve_repository_path(Some("/path/that/does/not/exist"), false, None);
    assert!(result.is_err());
    assert!(result.unwrap_err().message().contains("Repository path does not exist"));
}

#[test]
fn resolve_repository_path_cases() {
    assert_eq!(
        resolve_repository_path(Some("/tmp/x"), true, None),
        Err(RepoPathError::NotARepository("/tmp/x".to_string()))
    );
    assert_eq!(
        RepoPathError::NotARepository("/tmp/x".to_string()).message(),
        "Failed to detect repository at path: /tmp/x"
    );
    assert_eq!(
        resolve_repository_path(Some("/tmp/x"), true, Some("/tmp/x/".to_string())),
        Ok("/tmp/x/".to_string())
    );
    assert_eq!(resolve_repository_path(None, false, Some("/r".to_string())), Ok("/r".to_string()));
    assert_eq!(
        resolve_repository_path(None, false, None).unwrap_err().message(),
        "No repository specified and not in a git repository"
    );
}

// Test the direct conversion logic for get_current_branch_jira_issue
#[test]
fn test_get_current_branch_jira_issue_conversion() {
    let jira_key = "ABC-123".to_string();
    let result = BranchAssociatedItem::JiraIssue(jira_key.clone()).jira_issue();
    assert_eq!(result, Some(jira_key));

    let result = BranchAssociatedItem::GitHubPr(42).jira_issue();
    assert_eq!(result, None);

    let result = BranchAssociatedItem::NoAssociation.jira_issue();
    assert_eq!(result, None);
}

// Test the direct conversion logic for get_current_branch_github_pr
#[test]
fn test_get_current_branch_github_pr_conversion() {
    let pr_number = 42;
    let result = BranchAssociatedItem::GitHubPr(pr_number).github_pr();
    assert_eq!(result, Some(pr_number));

    let result = BranchAssociatedItem::JiraIssue("ABC-123".to_string()).github_pr();
    assert_eq!(result, None);

    let result = BranchAssociatedItem::NoAssociation.github_pr();
    assert_eq!(result, None);
}

#[test]
fn associated_item_prefers_jira() {
    let both = BranchMetadata {
        branch: "b".to_string(),
        jira_issue: Some("PROJ-1".to_string()),
        github_pr: Some(3),
        created_at: "t".to_string(),
    };
    assert_eq!(
        BranchAssociatedItem::for_record(Some(&both)),
        BranchAssociatedItem::JiraIssue("PROJ-1".to_string())
    );
    let pr_only = BranchMetadata { jira_issue: None, ..both.clone() };
    assert_eq!(BranchAssociatedItem::for_record(Some(&pr_only)), BranchAssociatedItem::GitHubPr(3));
    let bare = BranchMetadata { github_pr: None, ..pr_only };
    assert_eq!(BranchAssociatedItem::for_record(Some(&bare)), BranchAssociatedItem::NoAssociation);
    assert_eq!(BranchAssociatedItem::for_record(None), BranchAssociatedItem::NoAssociation);
}

#[test]
fn confirmation_answers() {
    assert!(is_confirmation("y"));
    assert!(is_confirmation("  YES \n"));
    assert!(is_confirmation("Yes"));
    assert!(!is_confirmation("n"));
    assert!(!is_confirmation(""));
    assert!(!is_confirmation("yeah"));
}
