use twig::output::ColorMode;
use twig::plugin::{
    candidate_filenames, color_mode_env, levenshtein_distance, plugin_binary_name, plugin_is_available, resolve_plugin_path_from_dirs, SearchDir,
    suggest_similar_commands,
};

#[test]
fn plugin_test_levenshtein_distance() {
    assert_eq!(levenshtein_distance("", ""), 0);
    assert_eq!(levenshtein_distance("abc", "abc"), 0);
    assert_eq!(levenshtein_distance("abc", "ab"), 1);
    assert_eq!(levenshtein_distance("abc", "def"), 3);
    assert_eq!(levenshtein_distance("branch", "brach"), 1);
    assert_eq!(levenshtein_distance("deploy", "deploi"), 1);
}

#[test]
fn test_suggest_similar_commands() {
    let plugins = vec!["deploy".to_string(), "backup".to_string()];

    let suggestions = suggest_similar_commands("deploi", &plugins);
    assert!(suggestions.contains(&"deploy".to_string()));

    let suggestions = suggest_similar_commands("brach", &plugins);
    assert!(suggestions.contains(&"branch".to_string()));
}

#[test]
fn levenshtein_with_an_empty_side_counts_bytes() {
    assert_eq!(levenshtein_distance("", "héllo"), 6);
    assert_eq!(levenshtein_distance("abcd", ""), 4);
}

#[test]
fn suggestions_are_sorted_distinct_and_capped_at_five() {
    let plugins: Vec<String> = ["synd", "syne", "synf", "syng", "synh", "sync"].iter().map(|s| s.to_string()).collect();
    let suggestions = suggest_similar_commands("sync", &plugins);
    assert_eq!(suggestions, vec!["sync", "synd", "syne", "synf", "syng"]);
}

#[test]
fn suggestions_fall_back_to_the_same_initial() {
    let plugins: Vec<String> = Vec::new();
    let suggestions = suggest_similar_commands("Wxyzzzzz", &plugins);
    assert_eq!(suggestions, vec!["worktree"]);
    let none = suggest_similar_commands("qqqqqqqq", &plugins);
    assert!(none.is_empty());
}

#[test]
fn plugin_names_and_environment() {
    assert_eq!(plugin_binary_name("flow"), "twig-flow");
    assert_eq!(candidate_filenames("twig-flow", true), vec!["twig-flow".to_string()]);
    assert_eq!(
        candidate_filenames("twig-flow", false),
        vec!["twig-flow".to_string(), "twig-flow.exe".to_string()]
    );
    assert_eq!(candidate_filenames("twig-x.EXE", false), vec!["twig-x.EXE".to_string()]);
    assert_eq!(color_mode_env(ColorMode::Yes), "yes");
    assert_eq!(color_mode_env(ColorMode::Always), "yes");
    assert_eq!(color_mode_env(ColorMode::No), "no");
    assert_eq!(color_mode_env(ColorMode::Never), "no");
    assert_eq!(color_mode_env(ColorMode::Auto), "auto");
}

fn dir(path: &str, exists: bool, files: &[(&str, bool)]) -> SearchDir {
    SearchDir {
        path: path.to_string(),
        exists,
        files: files.iter().map(|(n, x)| (n.to_string(), *x)).collect(),
    }
}

#[test]
fn plugins_are_found_in_search_path_order() {
    let dirs = vec![
        dir("", true, &[("twig-flow", true)]),
        dir("/gone", false, &[("twig-flow", true)]),
        dir("/a", true, &[("twig-flow", false)]),
        dir("/b", true, &[("twig-flow", true)]),
        dir("/c", true, &[("twig-flow", true)]),
    ];
    assert_eq!(resolve_plugin_path_from_dirs("twig-flow", &dirs, true), Some("/b/twig-flow".to_string()));
    assert!(plugin_is_available("flow", &dirs, true));
    assert!(!plugin_is_available("other", &dirs, true));
    let win = vec![dir("C:/bin", true, &[("twig-flow.exe", true)])];
    assert!(plugin_is_available("flow", &win, false));
    assert!(!plugin_is_available("flow", &win, true));
}
