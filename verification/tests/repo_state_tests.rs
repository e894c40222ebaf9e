use twig::repo_state::{gitignore_with_state_dir, RepoState, RepoStateError};
use twig::state::{BranchMetadata, Worktree};

fn worktree(name: &str, path: &str, branch: &str, created_at: &str) -> Worktree {
    Worktree {
        name: name.to_string(),
        path: path.to_string(),
        branch: branch.to_string(),
        created_at: created_at.to_string(),
    }
}

#[test]
fn test_add_worktree() {
    let mut state = RepoState::default();

    let worktree = worktree("test-worktree", "/path/to/worktree", "feature-branch", "2023-01-01T00:00:00Z");

    state.add_worktree(worktree);
    assert_eq!(state.worktrees.len(), 1);
    assert_eq!(state.worktrees[0].name, "test-worktree");
}

#[test]
fn test_add_duplicate_worktree() {
    let mut state = RepoState::default();

    let worktree1 = worktree("test-worktree", "/path/to/worktree1", "branch1", "2023-01-01T00:00:00Z");
    let worktree2 = worktree("test-worktree", "/path/to/worktree2", "branch2", "2023-01-02T00:00:00Z");

    state.add_worktree(worktree1);
    state.add_worktree(worktree2);

    // Should only have one worktree (the newer one)
    assert_eq!(state.worktrees.len(), 1);
    assert_eq!(state.worktrees[0].path, "/path/to/worktree2");
}

#[test]
fn test_remove_worktree() {
    let mut state = RepoState::default();

    let worktree = worktree("test-worktree", "/path/to/worktree", "feature-branch", "2023-01-01T00:00:00Z");

    state.add_worktree(worktree);
    assert_eq!(state.worktrees.len(), 1);

    let removed = state.remove_worktree("test-worktree");
    assert!(removed);
    assert_eq!(state.worktrees.len(), 0);

    // Try removing non-existent worktree
    let removed = state.remove_worktree("nonexistent");
    assert!(!removed);
}

#[test]
fn test_set_branch_jira_issue() {
    let mut state = RepoState::default();

    let metadata = BranchMetadata {
        branch: "feature-branch".to_string(),
        jira_issue: Some("PROJ-123".to_string()),
        github_pr: None,
        created_at: chrono::Utc::now().to_rfc3339(),
    };
    state.add_branch_issue(metadata);

    assert_eq!(state.branches.len(), 1);
    assert!(state.get_branch_issue_by_branch("feature-branch").is_some());
    assert_eq!(
        state.get_branch_issue_by_branch("feature-branch").unwrap().jira_issue,
        Some("PROJ-123".to_string())
    );

    // The issue key leads back to the branch
    assert_eq!(
        state.get_branch_issue_by_jira("PROJ-123").map(|m| m.branch.clone()),
        Some("feature-branch".to_string())
    );
}

#[test]
fn test_set_branch_github_pr() {
    let mut state = RepoState::default();

    let metadata = BranchMetadata {
        branch: "feature-branch".to_string(),
        jira_issue: None,
        github_pr: Some(123),
        created_at: chrono::Utc::now().to_rfc3339(),
    };
    state.add_branch_issue(metadata);

    assert_eq!(state.branches.len(), 1);
    assert!(state.get_branch_issue_by_branch("feature-branch").is_some());
    assert_eq!(state.get_branch_issue_by_branch("feature-branch").unwrap().github_pr, Some(123));
}

#[test]
fn test_add_dependency() {
    let mut state = RepoState::default();

    state
        .add_dependency("child-branch".to_string(), "parent-branch".to_string())
        .unwrap();

    assert_eq!(state.dependencies.len(), 1);
    assert_eq!(state.dependencies[0].child, "child-branch");
    assert_eq!(state.dependencies[0].parent, "parent-branch");

    // Check lookups
    assert_eq!(state.get_dependency_children("parent-branch"), vec!["child-branch"]);
    assert_eq!(state.get_dependency_parents("child-branch"), vec!["parent-branch"]);
}

#[test]
fn test_remove_dependency() {
    let mut state = RepoState::default();

    state
        .add_dependency("child-branch".to_string(), "parent-branch".to_string())
        .unwrap();
    assert_eq!(state.dependencies.len(), 1);

    let removed = state.remove_dependency("child-branch", "parent-branch");
    assert!(removed);
    assert_eq!(state.dependencies.len(), 0);

    // Check lookups
    assert!(state.get_dependency_children("parent-branch").is_empty());
    assert!(state.get_dependency_parents("child-branch").is_empty());
}

#[test]
fn test_add_root_branch() {
    let mut state = RepoState::default();

    state.add_root("main".to_string(), true).unwrap();

    assert_eq!(state.root_branches.len(), 1);
    assert_eq!(state.root_branches[0].branch, "main");
    assert!(state.root_branches[0].is_default);
}

#[test]
fn test_multiple_root_branches_only_one_default() {
    let mut state = RepoState::default();

    state.add_root("main".to_string(), true).unwrap();
    state.add_root("develop".to_string(), true).unwrap(); // This should make main non-default

    assert_eq!(state.root_branches.len(), 2);

    let default_count = state.root_branches.iter().filter(|r| r.is_default).count();
    assert_eq!(default_count, 1);

    let default_branch = state.root_branches.iter().find(|r| r.is_default).unwrap();
    assert_eq!(default_branch.branch, "develop");
}

#[test]
fn test_remove_root_branch() {
    let mut state = RepoState::default();

    state.add_root("main".to_string(), true).unwrap();
    assert_eq!(state.root_branches.len(), 1);

    let removed = state.remove_root("main");
    assert!(removed);
    assert_eq!(state.root_branches.len(), 0);
}

#[test]
fn test_gitignore_creation() {
    // No .gitignore yet: the entry makes up the whole file
    let gitignore_content = gitignore_with_state_dir("").unwrap();
    assert!(gitignore_content.contains(".twig/"));
    assert_eq!(gitignore_content, ".twig/\n");
}

#[test]
fn test_gitignore_append() {
    let gitignore_content = gitignore_with_state_dir("*.log\ntarget/").unwrap();
    assert!(gitignore_content.contains("*.log"));
    assert!(gitignore_content.contains("target/"));
    assert!(gitignore_content.contains(".twig/"));
    assert_eq!(gitignore_content, "*.log\ntarget/\n.twig/\n");
}

#[test]
fn gitignore_already_ignoring_is_left_alone() {
    assert_eq!(gitignore_with_state_dir("target/\n  .twig/  \n"), None);
    assert_eq!(gitignore_with_state_dir(".twig/"), None);
    // A longer entry does not count
    assert_eq!(
        gitignore_with_state_dir(".twig/cache\n"),
        Some(".twig/cache\n.twig/\n".to_string())
    );
}

#[test]
fn duplicate_dependency_is_refused() {
    let mut state = RepoState::default();
    state.add_dependency("feature".to_string(), "main".to_string()).unwrap();
    let err = state
        .add_dependency("feature".to_string(), "main".to_string())
        .unwrap_err();
    assert_eq!(
        err,
        RepoStateError::DependencyExists {
            child: "feature".to_string(),
            parent: "main".to_string()
        }
    );
    assert_eq!(err.message(), "Dependency from 'feature' to 'main' already exists");
    assert_eq!(state.dependencies.len(), 1);
}

#[test]
fn cycles_are_refused() {
    let mut state = RepoState::default();
    state.add_dependency("b".to_string(), "a".to_string()).unwrap();
    state.add_dependency("c".to_string(), "b".to_string()).unwrap();
    // a -> c would close a -> c -> b -> a
    let err = state.add_dependency("a".to_string(), "c".to_string()).unwrap_err();
    assert_eq!(
        err.message(),
        "Adding dependency from 'a' to 'c' would create a circular dependency"
    );
    // a branch cannot depend on itself
    assert!(matches!(
        state.add_dependency("d".to_string(), "d".to_string()),
        Err(RepoStateError::WouldCreateCycle { .. })
    ));
    // a diamond is fine
    state.add_dependency("c".to_string(), "a".to_string()).unwrap();
    assert_eq!(state.get_dependency_parents("c"), vec!["b", "a"]);
    assert_eq!(state.get_children("a"), vec!["b", "c"]);
    assert_eq!(state.get_parents("b"), vec!["a"]);
    assert_eq!(state.dependencies.len(), 3);
}

#[test]
fn dependency_records_get_ids_and_times() {
    let mut state = RepoState::default();
    state.add_dependency("x".to_string(), "y".to_string()).unwrap();
    assert_eq!(state.dependencies[0].id.len(), 36);
    assert!(!state.dependencies[0].created_at.is_empty());
    state
        .add_dependency_at("z".to_string(), "y".to_string(), "id-1".to_string(), "2024-01-01T00:00:00+00:00".to_string())
        .unwrap();
    assert_eq!(state.dependencies[1].id, "id-1");
    assert_eq!(state.dependencies[1].created_at, "2024-01-01T00:00:00+00:00");
}

#[test]
fn removing_all_dependencies_of_a_branch() {
    let mut state = RepoState::default();
    state.add_dependency("b".to_string(), "a".to_string()).unwrap();
    state.add_dependency("c".to_string(), "b".to_string()).unwrap();
    state.add_dependency("d".to_string(), "a".to_string()).unwrap();
    assert!(state.has_user_defined_dependencies());
    assert_eq!(state.remove_all_dependencies_for_branch("b"), 2);
    assert_eq!(state.list_dependencies().len(), 1);
    assert_eq!(state.remove_all_dependencies_for_branch("b"), 0);
    assert!(!state.remove_dependency("c", "b"));
    assert!(state.remove_dependency("d", "a"));
    assert!(!state.has_user_defined_dependencies());
}

#[test]
fn default_root_management() {
    let mut state = RepoState::default();
    assert_eq!(state.get_default_root(), None);
    state.add_root("main".to_string(), false).unwrap();
    state.add_root("develop".to_string(), false).unwrap();
    assert_eq!(state.get_default_root(), None);
    assert!(state.is_root("develop"));
    assert!(!state.is_root("feature"));
    state.set_default_root("develop").unwrap();
    assert_eq!(state.get_default_root(), Some("develop"));
    // Re-adding an existing root as default moves the default
    state.add_root("main".to_string(), true).unwrap();
    assert_eq!(state.list_roots().len(), 2);
    assert_eq!(state.get_default_root(), Some("main"));
    assert_eq!(state.get_root_branches(), vec!["main".to_string(), "develop".to_string()]);
    let err = state.set_default_root("feature").unwrap_err();
    assert_eq!(err, RepoStateError::NotARoot("feature".to_string()));
    assert_eq!(err.message(), "Branch 'feature' is not marked as a root");
    // the refused call still cleared the default
    assert_eq!(state.get_default_root(), None);
}

#[test]
fn worktree_and_branch_lookups() {
    let mut state = RepoState::default();
    state.add_worktree(worktree("a", "/a", "feat/a", "t1"));
    state.add_worktree(worktree("b", "/b", "feat/b", "t2"));
    assert_eq!(state.get_worktree("b").map(|w| w.path.clone()), Some("/b".to_string()));
    assert!(state.get_worktree("c").is_none());
    assert_eq!(state.list_worktrees().len(), 2);

    state.add_branch_issue(BranchMetadata {
        branch: "feat/a".to_string(),
        jira_issue: Some("PROJ-1".to_string()),
        github_pr: None,
        created_at: "t".to_string(),
    });
    state.add_branch_issue(BranchMetadata {
        branch: "feat/a".to_string(),
        jira_issue: Some("PROJ-2".to_string()),
        github_pr: Some(7),
        created_at: "t".to_string(),
    });
    assert_eq!(state.list_branch_issues().len(), 1);
    assert!(state.get_branch_issue_by_jira("PROJ-1").is_none());
    assert_eq!(state.get_branch_issue_by_jira("PROJ-2").unwrap().github_pr, Some(7));
}

#[test]
fn initial_state_is_version_one() {
    let state = RepoState::initial("2024-01-01T00:00:00+00:00".to_string(), serde_json::Value::Null);
    assert_eq!(state.version, 1);
    assert!(state.worktrees.is_empty());
    assert!(state.branches.is_empty());
    assert!(state.dependencies.is_empty());
    assert!(state.root_branches.is_empty());
    let d = RepoState::default();
    assert_eq!(d.version, 0);
    assert_eq!(d.updated_at, "1970-01-01T00:00:00+00:00");
}

#[test]
fn new_records_get_an_id_and_a_utc_timestamp() {
    let mut state = RepoState::default();
    state.add_dependency("child".to_string(), "parent".to_string()).unwrap();
    let dep = &state.dependencies[0];
    assert_eq!(dep.id.chars().count(), 36);
    assert_eq!(dep.id.chars().nth(8), Some('-'));
    assert!(dep.created_at.chars().count() >= 25);
    assert!(dep.created_at.ends_with("+00:00"));
}
