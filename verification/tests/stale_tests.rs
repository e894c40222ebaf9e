use twig::repo_state::RepoState;
use twig::stale::{
    enhance_branch_info, short_hash, sort_by_name, stale_cutoff_secs, stale_entry, PruneSummary, StaleBranchInfo,
};
use twig::state::BranchMetadata;
use twig::stale::novel_commit;

fn info(name: &str, date: &str, hash: &str) -> StaleBranchInfo {
    StaleBranchInfo {
        name: name.to_string(),
        last_commit_date: date.to_string(),
        last_commit_hash: hash.to_string(),
        parent_branch: None,
        novel_commits: vec![],
        jira_issue: None,
        github_pr: None,
    }
}

#[test]
fn test_simple() {
    assert_eq!(2 + 2, 4);
}

#[test]
fn test_alphabetical_sorting() {
    let branches = vec![info("zebra", "2024-01-01", "abc123"), info("alpha", "2024-01-01", "def456")];

    let branches = sort_by_name(branches);

    assert_eq!(branches[0].name, "alpha");
    assert_eq!(branches[1].name, "zebra");
}

#[test]
fn sorting_keeps_equal_names_in_order() {
    let branches = vec![
        info("b", "1", "h1"),
        info("a", "2", "h2"),
        info("b", "3", "h3"),
        info("B", "4", "h4"),
    ];
    let sorted = sort_by_name(branches);
    let order: Vec<(&str, &str)> = sorted.iter().map(|b| (b.name.as_str(), b.last_commit_date.as_str())).collect();
    assert_eq!(order, vec![("B", "4"), ("a", "2"), ("b", "1"), ("b", "3")]);
}

#[test]
fn staleness_cutoff() {
    assert_eq!(stale_cutoff_secs(1_000_000, 10), 1_000_000 - 864_000);
    assert_eq!(stale_cutoff_secs(86_400, 1), 0);
    assert_eq!(short_hash("0123456789abcdef"), "01234567");
    let e = stale_entry(
        "old".to_string(),
        100,
        200,
        "1970-01-01 00:01:40".to_string(),
        "abcdef0123456789",
    )
    .unwrap();
    assert_eq!(e.last_commit_hash, "abcdef01");
    assert_eq!(e.name, "old");
    assert!(stale_entry("new".to_string(), 200, 200, "d".to_string(), "abcdef0123456789").is_none());
    let s = PruneSummary::default();
    assert_eq!(s.total_stale, 0);
    assert!(s.deleted.is_empty() && s.skipped.is_empty() && s.errors.is_empty());
}

#[test]
fn enhancing_from_state() {
    let mut state = RepoState::default();
    state.add_dependency("feat".to_string(), "main".to_string()).unwrap();
    state.add_dependency("feat".to_string(), "develop".to_string()).unwrap();
    state.add_branch_issue(BranchMetadata {
        branch: "feat".to_string(),
        jira_issue: Some("PROJ-9".to_string()),
        github_pr: Some(12),
        created_at: "t".to_string(),
    });
    let e = enhance_branch_info(&state, info("feat", "d", "h"));
    assert_eq!(e.parent_branch, Some("main".to_string()));
    assert_eq!(e.jira_issue, Some("PROJ-9".to_string()));
    assert_eq!(e.github_pr, Some(12));
    let lone = enhance_branch_info(&state, info("other", "d", "h"));
    assert_eq!(lone.parent_branch, None);
    assert_eq!(lone.jira_issue, None);
}

#[test]
fn novel_commits_show_summary_and_author() {
    let c = novel_commit("0123456789abcdef", "Fix parser\n\nLonger body", Some("Ada"), "2024-01-01 00:00:00".to_string());
    assert_eq!(c.hash, "01234567");
    assert_eq!(c.message, "Fix parser");
    assert_eq!(c.author, "Ada");
    let c = novel_commit("0123456789abcdef", "", None, "d".to_string());
    assert_eq!(c.message, "");
    assert_eq!(c.author, "Unknown");
}
