use twig::complete::{BranchCompleter, CandidateKind, TargetCompleter, TypedCandidate};
use twig::git_commands::{branch_remote_key, resolve_branch_remote, GitCommandOutput};
use twig::jira::{create_jira_parser, JiraParsingConfig};
use twig::netrc::get_netrc_path;
use twig::nodejs::{NodeJsTooling, PackageJson, ProjectFiles};
use twig::output::ColorMode;
use twig::plugin_context::{
    colors_from_env, join_path_exec, plugin_config_dir, plugin_data_dir, verbosity_from_env, ConfigDirs,
    PluginContext,
};
use twig::renderer_config::{load_schema_from_path, FlowRendererColumnConfig, FlowRendererSchemaConfig};
use twig::repo_state::RepoState;
use twig::state::{BranchMetadata, Repository};
use twig::utils::{get_current_branch_associated_item, get_current_branch_github_pr, get_current_branch_jira_issue, BranchAssociatedItem};
use twig::plugin::{list_available_plugins_from_entries, PluginDirEntry};
use twig::user_experience::UserHints;

fn dirs() -> ConfigDirs {
    ConfigDirs {
        config_dir: "/home/u/.config/twig".to_string(),
        data_dir: "/home/u/.local/share/twig/".to_string(),
        cache_dir: None,
    }
}

#[test]
fn paths_join_like_path_join() {
    assert_eq!(join_path_exec("/a", "b"), "/a/b");
    assert_eq!(join_path_exec("/a/", "b"), "/a/b");
    assert_eq!(join_path_exec("/a", "/b"), "/b");
    assert_eq!(join_path_exec("", "b"), "b");
    assert_eq!(get_netrc_path("/home/u"), "/home/u/.netrc");
}

#[test]
fn plugin_directories_sit_below_plugins() {
    assert_eq!(plugin_config_dir(&dirs(), "flow"), "/home/u/.config/twig/plugins/flow");
    assert_eq!(plugin_data_dir(&dirs(), "flow"), "/home/u/.local/share/twig/plugins/flow");
    let ctx = PluginContext::from_environment(dirs(), None, None, Some("main".to_string()), None, None, None);
    assert_eq!(ctx.plugin_config_dir("x"), "/home/u/.config/twig/plugins/x");
    assert_eq!(ctx.plugin_data_dir("x"), "/home/u/.local/share/twig/plugins/x");
}

#[test]
fn plugin_context_reads_the_environment_values() {
    let ctx = PluginContext::from_environment(
        dirs(),
        Some("/repo".to_string()),
        Some("topic".to_string()),
        Some("main".to_string()),
        Some("YES".to_string()),
        Some("3".to_string()),
        Some("1.2.3".to_string()),
    );
    assert_eq!(ctx.current_branch.as_deref(), Some("topic"));
    assert_eq!(ctx.colors, ColorMode::Yes);
    assert_eq!(ctx.verbosity, 3);
    assert_eq!(ctx.version.as_deref(), Some("1.2.3"));

    let ctx = PluginContext::from_environment(dirs(), None, Some(String::new()), Some("main".to_string()), None, None, None);
    assert_eq!(ctx.current_branch.as_deref(), Some("main"));
    assert_eq!(ctx.colors, ColorMode::Auto);
    assert_eq!(ctx.verbosity, 0);

    assert_eq!(colors_from_env(Some("No")), ColorMode::No);
    assert_eq!(colors_from_env(Some("maybe")), ColorMode::Auto);
    assert_eq!(verbosity_from_env(Some("+7")), 7);
    assert_eq!(verbosity_from_env(Some("256")), 0);
    assert_eq!(verbosity_from_env(Some("x")), 0);

    let overridden = ConfigDirs::with_overrides(dirs(), Some("/c".to_string()), None);
    assert_eq!(overridden.config_dir, "/c");
    assert_eq!(overridden.data_dir, "/home/u/.local/share/twig/");
}

#[test]
fn git_output_combines_streams() {
    let o = GitCommandOutput::from_streams("out", "err", false);
    assert_eq!(o.output, "out\nerr");
    assert!(!o.success);
    assert_eq!(GitCommandOutput::from_streams("", "err", true).output, "err");
    assert_eq!(GitCommandOutput::from_streams("out", "", true).output, "out");
    assert_eq!(branch_remote_key("feature/x"), "branch.feature/x.remote");
    assert_eq!(resolve_branch_remote(true, " origin\n"), Some("origin".to_string()));
    assert_eq!(resolve_branch_remote(true, "  \n"), None);
    assert_eq!(resolve_branch_remote(false, "origin"), None);
}

#[test]
fn nodejs_scripts_and_detection() {
    let mut files = ProjectFiles::default();
    assert!(!NodeJsTooling::detect_project(&files));
    files.package_json = true;
    assert!(NodeJsTooling::detect_project(&files));

    let pkg = PackageJson {
        name: Some("app".to_string()),
        version: None,
        description: None,
        scripts: Some(vec![("build".to_string(), "tsc".to_string()), ("test".to_string(), "jest".to_string())]),
        dependencies: None,
        dev_dependencies: None,
        engines: None,
        main: None,
        package_type: None,
    };
    assert_eq!(
        NodeJsTooling::get_available_scripts(&pkg),
        vec![("build".to_string(), "tsc".to_string()), ("test".to_string(), "jest".to_string())]
    );
    let repeated = PackageJson {
        scripts: Some(vec![
            ("a".to_string(), "1".to_string()),
            ("b".to_string(), "2".to_string()),
            ("a".to_string(), "3".to_string()),
        ]),
        ..pkg.clone()
    };
    assert_eq!(
        NodeJsTooling::get_available_scripts(&repeated),
        vec![("a".to_string(), "3".to_string()), ("b".to_string(), "2".to_string())]
    );
    let empty = PackageJson { scripts: None, ..pkg };
    assert!(NodeJsTooling::get_available_scripts(&empty).is_empty());
}

#[test]
fn repositories_are_named_after_their_last_component() {
    let r = Repository::new("/home/u/src/twig");
    assert_eq!(r.name, "twig");
    assert_eq!(r.path, "/home/u/src/twig");
    assert!(r.last_fetch.is_none());
    assert_eq!(Repository::new("/").name, "unknown");
}

#[test]
fn current_branch_association_comes_from_the_state() {
    let mut state = RepoState::default();
    state.branches.push(BranchMetadata {
        branch: "feat".to_string(),
        jira_issue: Some("PROJ-1".to_string()),
        github_pr: Some(5),
        created_at: "t".to_string(),
    });
    state.branches.push(BranchMetadata {
        branch: "review".to_string(),
        jira_issue: None,
        github_pr: Some(9),
        created_at: "t".to_string(),
    });
    assert_eq!(
        get_current_branch_associated_item(Some("feat"), &state),
        BranchAssociatedItem::JiraIssue("PROJ-1".to_string())
    );
    assert_eq!(get_current_branch_jira_issue(Some("feat"), &state), Some("PROJ-1".to_string()));
    assert_eq!(get_current_branch_github_pr(Some("feat"), &state), None);
    assert_eq!(get_current_branch_github_pr(Some("review"), &state), Some(9));
    assert_eq!(get_current_branch_associated_item(None, &state), BranchAssociatedItem::NoAssociation);
    assert_eq!(get_current_branch_jira_issue(Some("other"), &state), None);
}

#[test]
fn completers_filter_by_lowercase_prefix() {
    let cands = vec![
        TypedCandidate::new("Feature/Login", CandidateKind::Branch),
        TypedCandidate::new("main", CandidateKind::Branch),
        TypedCandidate::new("PROJ-12", CandidateKind::JiraIssue),
    ];
    let r = TargetCompleter.complete(&cands, "FEAT");
    assert_eq!(r.len(), 1);
    assert_eq!(r[0].value, "Feature/Login");
    let r = BranchCompleter.complete(&cands, "");
    assert_eq!(r.len(), 3);
    let r = TargetCompleter.complete(&cands, "proj");
    assert_eq!(r[0].kind, CandidateKind::JiraIssue);
}

#[test]
fn schema_loading_and_parser_creation() {
    assert!(load_schema_from_path(None).unwrap().is_none());
    let config = FlowRendererSchemaConfig {
        columns: vec![FlowRendererColumnConfig::Branch { title: None, min_width: None }],
        ..Default::default()
    };
    assert!(load_schema_from_path(Some(config)).unwrap().is_some());
    let bad = FlowRendererSchemaConfig { columns: Vec::new(), ..Default::default() };
    assert!(load_schema_from_path(Some(bad)).is_err());

    assert!(create_jira_parser(None).is_none());
    let parser = create_jira_parser(Some(JiraParsingConfig::default())).unwrap();
    assert!(parser.is_valid("ME-1234"));
}

#[test]
fn plugins_are_grouped_by_name_in_path_order() {
    let e = |f: &str, p: &str, x: bool| PluginDirEntry { file_name: f.to_string(), path: p.to_string(), executable: x };
    let entries = vec![
        e("twig-flow", "/a/twig-flow", true),
        e("twig-beta", "/a/twig-beta", true),
        e("readme", "/a/readme", true),
        e("twig-gamma", "/a/twig-gamma", false),
        e("twig-flow", "/b/twig-flow", true),
        e("twig-flow", "/a/twig-flow", true),
    ];
    let plugins = list_available_plugins_from_entries(&entries);
    assert_eq!(plugins.len(), 2);
    assert_eq!(plugins[0].name, "beta");
    assert_eq!(plugins[1].name, "flow");
    assert_eq!(plugins[1].paths, vec!["/a/twig-flow".to_string(), "/b/twig-flow".to_string()]);
    assert!(plugins[1].size_in_bytes.is_none());
}

#[test]
fn repository_hints_follow_state_and_branches() {
    assert_eq!(
        UserHints::repository_state_hints(false, None),
        vec!["Run 'twig init' to initialize twig in this repository".to_string()]
    );
    let listing = "  develop\n* feature/login\n  other\n";
    assert_eq!(
        UserHints::repository_state_hints(true, Some(listing)),
        vec!["Consider setting up branch dependencies with 'twig branch depend'".to_string()]
    );
    assert!(UserHints::repository_state_hints(true, Some("* main\n  topic\n")).is_empty());
}

#[test]
fn default_renderer_columns() {
    let cols = FlowRendererSchemaConfig::default_columns();
    assert_eq!(cols.len(), 4);
    assert!(matches!(&cols[2], FlowRendererColumnConfig::Annotation { key, .. } if key == "twig.pr"));
    assert_eq!(FlowRendererSchemaConfig::default_placeholder(), "--");
}
