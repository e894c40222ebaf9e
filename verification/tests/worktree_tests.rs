use twig::worktree::{
    safe_branch_name, worktree_conflict, worktree_record, worktrees_dir_name, WorktreeConflict, WorktreeSurroundings,
};

#[test]
fn branch_names_become_directory_names() {
    assert_eq!(safe_branch_name("feature/login/form"), "feature-login-form");
    assert_eq!(safe_branch_name("main"), "main");
    assert_eq!(safe_branch_name(""), "");
}

#[test]
fn worktrees_live_beside_the_repository() {
    assert_eq!(worktrees_dir_name(Some("twig")), "twig-worktrees");
    assert_eq!(worktrees_dir_name(None), "repo-worktrees");
}

#[test]
fn conflicts_are_checked_in_order() {
    let all = WorktreeSurroundings {
        directory_exists: true,
        worktree_registered: true,
        conflicting_branch_exists: true,
    };
    let err = worktree_conflict(all, "feature-x", "/tmp/r-worktrees/feature-x").unwrap_err();
    assert_eq!(err, WorktreeConflict::DirectoryExists("/tmp/r-worktrees/feature-x".to_string()));
    assert_eq!(
        err.message(),
        "Worktree directory already exists at /tmp/r-worktrees/feature-x. Please remove it or use a different branch name."
    );

    let registered = WorktreeSurroundings { directory_exists: false, ..all };
    let err = worktree_conflict(registered, "feature-x", "/p").unwrap_err();
    assert_eq!(err, WorktreeConflict::WorktreeExists("feature-x".to_string()));
    assert_eq!(
        err.message(),
        "A worktree named 'feature-x' already exists. This could be due to a previous attempt to create this worktree."
    );

    let branch = WorktreeSurroundings { worktree_registered: false, ..registered };
    let err = worktree_conflict(branch, "feature-x", "/p").unwrap_err();
    assert_eq!(err, WorktreeConflict::BranchConflict("feature-x".to_string()));
    assert!(err.message().starts_with("A branch named 'feature-x' already exists, which conflicts"));

    let clear = WorktreeSurroundings { conflicting_branch_exists: false, ..branch };
    assert_eq!(worktree_conflict(clear, "feature-x", "/p"), Ok(()));
}

#[test]
fn worktree_records_are_named_after_the_branch() {
    let w = worktree_record("feat/a", "/w/feat-a".to_string(), "2024-01-01T00:00:00+00:00".to_string());
    assert_eq!(w.name, "feat-a");
    assert_eq!(w.branch, "feat/a");
    assert_eq!(w.path, "/w/feat-a");
}
