use twig::user_experience::{levenshtein_distance, ColorOutput, UserHints};

#[test]
fn user_experience_test_levenshtein_distance() {
    assert_eq!(levenshtein_distance("", ""), 0);
    assert_eq!(levenshtein_distance("abc", "abc"), 0);
    assert_eq!(levenshtein_distance("abc", "ab"), 1);
    assert_eq!(levenshtein_distance("abc", "def"), 3);
    assert_eq!(levenshtein_distance("feature", "featrue"), 2);
}

#[test]
fn test_branch_name_suggestion() {
    let branches = vec!["feature/login".to_string(), "feature/signup".to_string(), "main".to_string()];

    assert_eq!(
        UserHints::suggest_branch_name("featrue/login", &branches),
        Some("feature/login".to_string())
    );
    assert_eq!(UserHints::suggest_branch_name("main", &branches), None);
    assert_eq!(UserHints::suggest_branch_name("completely-different", &branches), None);
}

#[test]
fn test_git_workflow_suggestions() {
    let suggestions = UserHints::suggest_git_workflow("not a git repository");
    assert!(suggestions.contains(&"git init".to_string()));

    let suggestions = UserHints::suggest_git_workflow("branch not found");
    assert!(suggestions.contains(&"git branch -a".to_string()));

    let suggestions = UserHints::suggest_git_workflow("merge conflict detected");
    assert!(suggestions.contains(&"git status".to_string()));
}

#[test]
fn workflow_suggestions_keep_their_order() {
    let suggestions = UserHints::suggest_git_workflow("merge conflict with uncommitted changes");
    assert_eq!(
        suggestions,
        vec!["git status", "git add .", "git rebase --continue", "git add .", "git commit -m 'WIP'", "git stash"]
    );
    assert!(UserHints::suggest_git_workflow("all good").is_empty());
}

#[test]
fn levenshtein_counts_characters() {
    assert_eq!(levenshtein_distance("héllo", "hello"), 1);
}

#[test]
fn branch_suggestion_prefers_the_first_closest() {
    let branches = vec!["mainx".to_string(), "maim".to_string(), "mai".to_string()];
    assert_eq!(UserHints::suggest_branch_name("main", &branches), Some("mainx".to_string()));
}

#[test]
fn help_hints_for_known_commands() {
    assert_eq!(
        UserHints::command_help_hint("tree", None),
        Some("Shows branch dependency tree. Use --max-depth to limit levels shown.".to_string())
    );
    assert!(UserHints::command_help_hint("branch", Some("depend")).unwrap().starts_with("Creates parent-child"));
    assert_eq!(UserHints::command_help_hint("branch", None), None);
    assert_eq!(UserHints::command_help_hint("tree", Some("x")), None);
}

#[test]
fn branch_names_are_marked_when_current() {
    let out = ColorOutput { colors_enabled: false };
    assert_eq!(out.format_branch_name("main", true), "* main");
    assert_eq!(out.format_branch_name("dev", false), "  dev");
    assert_eq!(out.format_git_status("M file"), "M file");
}
