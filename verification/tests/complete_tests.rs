use twig::complete::{
    collect_branch_candidates, collect_candidates, collect_typed_candidates, filter_by_prefix, CandidateKind,
    TypedCandidate,
};

#[test]
fn filters_by_prefix_case_insensitive() {
    let candidates = vec![
        TypedCandidate::new("feature/alpha", CandidateKind::Branch),
        TypedCandidate::new("feature/beta", CandidateKind::Branch),
        TypedCandidate::new("Feature/gamma", CandidateKind::Branch),
        TypedCandidate::new("bugfix/delta", CandidateKind::Branch),
        TypedCandidate::new("PROJ-123", CandidateKind::JiraIssue),
    ];

    let filtered = filter_by_prefix(&candidates, "feat");
    assert_eq!(filtered.len(), 3);
    assert!(filtered.contains(&"feature/alpha".to_string()));
    assert!(filtered.contains(&"feature/beta".to_string()));
    assert!(filtered.contains(&"Feature/gamma".to_string()));

    let filtered = filter_by_prefix(&candidates, "FEAT");
    assert_eq!(filtered.len(), 3);

    let filtered = filter_by_prefix(&candidates, "proj");
    assert_eq!(filtered.len(), 1);
    assert!(filtered.contains(&"PROJ-123".to_string()));
}

#[test]
fn filters_pr_ids_with_hash() {
    let candidates = vec![
        TypedCandidate::new("main", CandidateKind::Branch),
        TypedCandidate::new("#123", CandidateKind::GitHubPr),
        TypedCandidate::new("#456", CandidateKind::GitHubPr),
        TypedCandidate::new("123", CandidateKind::GitHubPr),
    ];

    let filtered = filter_by_prefix(&candidates, "#");
    assert_eq!(filtered.len(), 2);
    assert!(filtered.contains(&"#123".to_string()));
    assert!(filtered.contains(&"#456".to_string()));

    let filtered = filter_by_prefix(&candidates, "#12");
    assert_eq!(filtered.len(), 1);
    assert!(filtered.contains(&"#123".to_string()));
}

#[test]
fn candidate_kind_help_text() {
    assert_eq!(CandidateKind::Branch.help_text(), "branch");
    assert_eq!(CandidateKind::JiraIssue.help_text(), "Jira issue");
    assert_eq!(CandidateKind::GitHubPr.help_text(), "GitHub PR");
}

#[test]
fn empty_prefix_matches_all() {
    let candidates = vec![
        TypedCandidate::new("feature/alpha", CandidateKind::Branch),
        TypedCandidate::new("bugfix/beta", CandidateKind::Branch),
        TypedCandidate::new("PROJ-123", CandidateKind::JiraIssue),
    ];

    let filtered = filter_by_prefix(&candidates, "");
    assert_eq!(filtered.len(), 3);
}

#[test]
fn no_matches_returns_empty() {
    let candidates = vec![
        TypedCandidate::new("feature/alpha", CandidateKind::Branch),
        TypedCandidate::new("bugfix/beta", CandidateKind::Branch),
    ];

    let filtered = filter_by_prefix(&candidates, "xyz");
    assert!(filtered.is_empty());
}

#[test]
fn collects_branches_issues_and_pull_requests_for_local_branches() {
    let branches = vec!["main".to_string(), "feat/x".to_string(), "main".to_string()];
    let jira = vec![
        ("PROJ-1".to_string(), "feat/x".to_string()),
        ("PROJ-2".to_string(), "gone".to_string()),
    ];
    let prs = vec![
        ("feat/x".to_string(), Some(42)),
        ("gone".to_string(), Some(7)),
        ("main".to_string(), None),
    ];
    let typed = collect_typed_candidates(&branches, &jira, &prs);
    let values: Vec<&str> = typed.iter().map(|c| c.value.as_str()).collect();
    assert_eq!(values, vec!["#42", "42", "PROJ-1", "feat/x", "main"]);
    assert_eq!(typed[0].kind, CandidateKind::GitHubPr);
    assert_eq!(typed[2].kind, CandidateKind::JiraIssue);
    assert_eq!(typed[3].kind, CandidateKind::Branch);
    assert_eq!(collect_candidates(&branches, &jira, &prs), vec!["#42", "42", "PROJ-1", "feat/x", "main"]);
    let only_branches = collect_branch_candidates(&branches);
    assert_eq!(only_branches.len(), 2);
    assert_eq!(only_branches[0].value, "feat/x");
    assert!(only_branches[1].matches_prefix("ma"));
}

#[test]
fn a_branch_named_like_an_issue_keeps_the_branch_kind() {
    let branches = vec!["PROJ-1".to_string(), "work".to_string()];
    let jira = vec![("PROJ-1".to_string(), "work".to_string())];
    let typed = collect_typed_candidates(&branches, &jira, &Vec::new());
    assert_eq!(typed.len(), 2);
    assert_eq!(typed[0].value, "PROJ-1");
    assert_eq!(typed[0].kind, CandidateKind::Branch);
}
