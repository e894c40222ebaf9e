use twig::dependency_resolver::UserDefinedDependencyResolver;
use twig::repo_state::{BranchDependency, RepoState, RootBranch};
use twig::tree_renderer::BranchNode;

fn create_test_repo_state() -> RepoState {
    let mut state = RepoState::default();
    state.dependencies.push(BranchDependency {
        id: "dep-1".to_string(),
        child: "feature/oauth".to_string(),
        parent: "feature/auth".to_string(),
        created_at: "2024-01-01T00:00:00Z".to_string(),
    });
    state.dependencies.push(BranchDependency {
        id: "dep-2".to_string(),
        child: "feature/2fa".to_string(),
        parent: "feature/auth".to_string(),
        created_at: "2024-01-01T00:00:00Z".to_string(),
    });
    state.root_branches.push(RootBranch {
        id: "root-1".to_string(),
        branch: "main".to_string(),
        is_default: true,
        created_at: "2024-01-01T00:00:00Z".to_string(),
    });
    state
}

fn node(name: &str, is_current: bool) -> BranchNode {
    BranchNode {
        name: name.to_string(),
        is_current,
        metadata: None,
        parents: Vec::new(),
        children: Vec::new(),
        commit_info: None,
    }
}

fn create_test_branch_nodes() -> Vec<BranchNode> {
    vec![
        node("main", false),
        node("feature/auth", false),
        node("feature/oauth", true),
        node("feature/2fa", false),
    ]
}

fn find<'a>(nodes: &'a [BranchNode], name: &str) -> &'a BranchNode {
    nodes.iter().find(|n| n.name == name).unwrap()
}

#[test]
fn test_build_dependencies_from_state() {
    let resolver = UserDefinedDependencyResolver;
    let repo_state = create_test_repo_state();
    let mut branch_nodes = create_test_branch_nodes();

    resolver.build_dependencies_from_state(&mut branch_nodes, &repo_state);

    let oauth_node = find(&branch_nodes, "feature/oauth");
    assert!(oauth_node.parents.contains(&"feature/auth".to_string()));

    let auth_node = find(&branch_nodes, "feature/auth");
    assert!(auth_node.children.contains(&"feature/oauth".to_string()));
    assert!(auth_node.children.contains(&"feature/2fa".to_string()));
}

#[test]
fn test_build_tree_from_user_dependencies() {
    let resolver = UserDefinedDependencyResolver;
    let repo_state = create_test_repo_state();
    let mut branch_nodes = create_test_branch_nodes();

    resolver.build_dependencies_from_state(&mut branch_nodes, &repo_state);
    resolver.attach_orphans_to_default_root(&mut branch_nodes, &repo_state);
    let (roots, orphaned) = resolver.build_tree_from_user_dependencies(&branch_nodes, &repo_state);

    assert!(roots.contains(&"main".to_string()));
    assert!(find(&branch_nodes, "main").children.contains(&"feature/auth".to_string()));
    assert!(find(&branch_nodes, "feature/auth").parents.contains(&"main".to_string()));
    assert!(!orphaned.contains(&"feature/auth".to_string()));
}

#[test]
fn test_get_or_suggest_default_root() {
    let resolver = UserDefinedDependencyResolver;
    let repo_state = create_test_repo_state();
    let branch_nodes = create_test_branch_nodes();

    let default_root = resolver.get_or_suggest_default_root(&repo_state, &branch_nodes);
    assert_eq!(default_root, Some("main".to_string()));
}

#[test]
fn dependencies_are_recorded_once_each() {
    let resolver = UserDefinedDependencyResolver;
    let mut repo_state = create_test_repo_state();
    repo_state.dependencies.push(BranchDependency {
        id: "dep-3".to_string(),
        child: "feature/oauth".to_string(),
        parent: "feature/auth".to_string(),
        created_at: "2024-01-01T00:00:00Z".to_string(),
    });
    repo_state.dependencies.push(BranchDependency {
        id: "dep-4".to_string(),
        child: "feature/gone".to_string(),
        parent: "feature/auth".to_string(),
        created_at: "2024-01-01T00:00:00Z".to_string(),
    });
    let mut branch_nodes = create_test_branch_nodes();
    resolver.build_dependencies_from_state(&mut branch_nodes, &repo_state);
    assert_eq!(find(&branch_nodes, "feature/oauth").parents, vec!["feature/auth".to_string()]);
    assert_eq!(
        find(&branch_nodes, "feature/auth").children,
        vec!["feature/oauth".to_string(), "feature/2fa".to_string()]
    );
}

#[test]
fn parentless_branches_without_roots_are_orphans() {
    let resolver = UserDefinedDependencyResolver;
    let mut repo_state = RepoState::default();
    let branch_nodes = vec![node("zeta", false), node("alpha", false)];
    let (roots, orphaned) = resolver.build_tree_from_user_dependencies(&branch_nodes, &repo_state);
    assert!(roots.is_empty());
    assert_eq!(orphaned, vec!["alpha".to_string(), "zeta".to_string()]);

    repo_state.root_branches.push(RootBranch {
        id: "root-1".to_string(),
        branch: "zeta".to_string(),
        is_default: false,
        created_at: "2024-01-01T00:00:00Z".to_string(),
    });
    let (roots, orphaned) = resolver.build_tree_from_user_dependencies(&branch_nodes, &repo_state);
    assert_eq!(roots, vec!["zeta".to_string()]);
    assert_eq!(orphaned, vec!["alpha".to_string()]);
}

#[test]
fn suggested_root_falls_back_in_order() {
    let resolver = UserDefinedDependencyResolver;
    let repo_state = RepoState::default();
    let nodes = vec![node("zeta", false), node("develop", false), node("master", false)];
    assert_eq!(resolver.get_or_suggest_default_root(&repo_state, &nodes), Some("master".to_string()));
    let nodes = vec![node("zeta", false), node("topic", true)];
    assert_eq!(resolver.get_or_suggest_default_root(&repo_state, &nodes), Some("topic".to_string()));
    let nodes = vec![node("zeta", false), node("beta", false)];
    assert_eq!(resolver.get_or_suggest_default_root(&repo_state, &nodes), Some("beta".to_string()));
    assert_eq!(resolver.get_or_suggest_default_root(&repo_state, &Vec::new()), None);
}

#[test]
fn resolve_user_dependencies_links_and_hangs_orphans() {
    let resolver = UserDefinedDependencyResolver;
    let repo_state = create_test_repo_state();
    let branches = vec![
        ("main".to_string(), false),
        ("feature/auth".to_string(), false),
        ("feature/oauth".to_string(), true),
        ("loose".to_string(), false),
    ];
    let nodes = resolver.resolve_user_dependencies(&branches, &repo_state);
    assert_eq!(nodes.len(), 4);
    assert_eq!(find(&nodes, "loose").parents, vec!["main".to_string()]);
    assert_eq!(find(&nodes, "feature/auth").parents, vec!["main".to_string()]);
    assert_eq!(
        find(&nodes, "main").children,
        vec!["feature/auth".to_string(), "loose".to_string()]
    );
    assert!(find(&nodes, "feature/oauth").is_current);
    assert!(resolver.validate_user_dependency_integrity(&repo_state).is_empty());
}
