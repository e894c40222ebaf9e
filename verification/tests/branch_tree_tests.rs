use twig::branch_graph::{BranchGraph, BranchHead, BranchNode, BranchNodeMetadata};
use twig::graph::{BranchEdge, BranchKind, BranchName, BranchTopology};
use twig::repo_state::RepoState;
use twig::tree::{
    annotate_orphaned_branches, attach_orphans_to_default_root, default_root_branch, determine_render_root,
    filter_branch_graph, find_orphaned_branches, sort_branch_names,
};

fn name(s: &str) -> BranchName {
    BranchName::new(s)
}

fn branch_node(n: &str) -> BranchNode {
    BranchNode {
        name: name(n),
        kind: BranchKind::Local,
        head: BranchHead {
            oid: "0123456789abcdef0123456789abcdef01234567".to_string(),
            summary: Some(format!("Summary for {n}")),
            author: Some("Twig Bot".to_string()),
            committed_at: None,
        },
        upstream: None,
        topology: BranchTopology::empty(),
        metadata: BranchNodeMetadata {
            is_current: false,
            stale_state: None,
            divergence: None,
            labels: vec![],
            annotations: vec![],
        },
    }
}

fn names(v: &[BranchName]) -> Vec<&str> {
    v.iter().map(|n| n.as_str()).collect()
}

#[test]
fn filter_keeps_matching_branches_and_ancestors() {
    let mut root = branch_node("main");
    let mut feature = branch_node("feature/payment");
    feature.topology.primary_parent = Some(root.name.copy());
    root.topology.children.push(feature.name.copy());

    let mut api = branch_node("feature/payment-api");
    api.topology.primary_parent = Some(feature.name.copy());
    feature.topology.children.push(api.name.copy());

    let mut ui = branch_node("feature/payment-ui");
    ui.topology.primary_parent = Some(feature.name.copy());
    feature.topology.children.push(ui.name.copy());

    let mut other = branch_node("feature/other");
    other.topology.primary_parent = Some(root.name.copy());
    root.topology.children.push(other.name.copy());

    let edges = vec![
        BranchEdge::new(root.name.copy(), feature.name.copy()),
        BranchEdge::new(feature.name.copy(), api.name.copy()),
        BranchEdge::new(feature.name.copy(), ui.name.copy()),
        BranchEdge::new(root.name.copy(), other.name.copy()),
    ];

    let graph = BranchGraph::from_parts(
        vec![root.clone(), feature.clone(), api.clone(), ui.clone(), other.clone()],
        edges,
        vec![root.name.copy()],
        Some(root.name.copy()),
    );

    let (filtered, matches) = filter_branch_graph(&graph, "api").expect("expected matches");

    assert!(matches.iter().any(|m| m.as_str() == api.name.as_str()));
    assert_eq!(matches.len(), 1);
    assert!(filtered.get(&api.name).is_some());
    assert!(filtered.get(&feature.name).is_some());
    assert!(filtered.get(&root.name).is_some());
    assert!(filtered.get(&ui.name).is_none());
    assert!(filtered.get(&other.name).is_none());

    let parent = filtered
        .get(&api.name)
        .and_then(|node| node.topology.primary_parent.as_ref())
        .expect("parent retained");
    assert_eq!(parent.as_str(), feature.name.as_str());

    // children, edges, roots and the current branch are cut down alike
    assert_eq!(names(&filtered.get(&feature.name).unwrap().topology.children), vec!["feature/payment-api"]);
    assert_eq!(filtered.edges().len(), 2);
    assert_eq!(names(filtered.root_candidates()), vec!["main"]);
    assert_eq!(filtered.current_branch().map(|c| c.as_str()), Some("main"));
    assert!(filter_branch_graph(&graph, "nothing-like-this").is_none());
    // matching ignores case
    let (_, upper) = filter_branch_graph(&graph, "PAYMENT").unwrap();
    assert_eq!(names(&upper), vec!["feature/payment", "feature/payment-api", "feature/payment-ui"]);
}

#[test]
fn find_orphaned_branches_returns_branches_without_parents() {
    let root = branch_node("main");
    let orphan = branch_node("orphan-branch");
    let child = branch_node("child-branch");

    let graph = BranchGraph::from_parts(vec![root.clone(), orphan.clone(), child.clone()], vec![], vec![root.name.copy()], None);

    let mut state = RepoState::default();
    state.add_root("main".to_string(), true).expect("add root");
    state.add_dependency("child-branch".to_string(), "main".to_string()).expect("add dep");

    let orphaned = find_orphaned_branches(&graph, &state);

    assert!(orphaned.iter().any(|b| b.as_str() == "orphan-branch"));
    assert!(!orphaned.iter().any(|b| b.as_str() == "main"));
    assert!(!orphaned.iter().any(|b| b.as_str() == "child-branch"));
}

#[test]
fn determine_render_root_uses_override_first() {
    let root = branch_node("main");
    let feature = branch_node("feature");

    let graph = BranchGraph::from_parts(vec![root.clone(), feature.clone()], vec![], vec![root.name.copy()], None);

    let state = RepoState::default();

    let result = determine_render_root(&graph, &state, Some("feature".to_string()));
    assert_eq!(result.map(|b| b.as_str().to_string()), Some("feature".to_string()));
}

#[test]
fn determine_render_root_falls_back_to_default_root() {
    let root = branch_node("main");
    let feature = branch_node("feature");

    let graph = BranchGraph::from_parts(vec![root.clone(), feature.clone()], vec![], vec![root.name.copy()], None);

    let mut state = RepoState::default();
    state.add_root("main".to_string(), true).expect("add root");

    let result = determine_render_root(&graph, &state, None);
    assert_eq!(result.map(|b| b.as_str().to_string()), Some("main".to_string()));
}

#[test]
fn render_root_fallbacks() {
    let graph = BranchGraph::from_parts(vec![branch_node("b"), branch_node("a")], vec![], vec![], Some(name("b")));
    let state = RepoState::default();
    // an override that is not a branch is ignored; no roots: the current branch
    assert_eq!(determine_render_root(&graph, &state, Some("zzz".to_string())).map(|b| b.as_str().to_string()), Some("b".to_string()));
    let graph = BranchGraph::from_parts(vec![branch_node("b"), branch_node("a")], vec![], vec![], None);
    // nothing else: the first branch in name order
    assert_eq!(determine_render_root(&graph, &state, None).map(|b| b.as_str().to_string()), Some("a".to_string()));
    assert!(determine_render_root(&BranchGraph::new(), &state, None).is_none());
}

#[test]
fn graph_keeps_one_node_per_name_in_order() {
    let mut second = branch_node("b");
    second.metadata.is_current = true;
    let graph = BranchGraph::from_parts(vec![branch_node("c"), branch_node("b"), branch_node("a"), second], vec![], vec![], None);
    assert_eq!(graph.len(), 3);
    let order: Vec<&str> = graph.iter().iter().map(|n| n.name.as_str()).collect();
    assert_eq!(order, vec!["a", "b", "c"]);
    assert!(graph.get(&name("b")).unwrap().is_current());
    assert!(!graph.is_empty());
}

#[test]
fn orphans_hang_below_the_default_root() {
    let mut main = branch_node("main");
    main.topology.children.push(name("zeta"));
    let mut zeta = branch_node("zeta");
    zeta.topology.primary_parent = Some(name("main"));
    let graph = BranchGraph::from_parts(
        vec![main, zeta, branch_node("stray"), branch_node("alpha"), branch_node("develop")],
        vec![],
        vec![name("main")],
        None,
    );
    let mut state = RepoState::default();
    state.add_root("main".to_string(), true).unwrap();
    state.add_root("develop".to_string(), false).unwrap();
    assert_eq!(default_root_branch(&state), Some("main".to_string()));
    let g = attach_orphans_to_default_root(graph, &state);
    assert_eq!(names(&g.get(&name("main")).unwrap().topology.children), vec!["alpha", "stray", "zeta"]);
    assert_eq!(g.get(&name("stray")).unwrap().topology.primary_parent.as_ref().map(|p| p.as_str()), Some("main"));
    assert!(g.get(&name("develop")).unwrap().topology.primary_parent.is_none());
    let edges: Vec<(&str, &str)> = g.edges().iter().map(|e| (e.from.as_str(), e.to.as_str())).collect();
    assert_eq!(edges, vec![("main", "alpha"), ("main", "stray")]);
}

#[test]
fn orphans_are_flagged() {
    let graph = BranchGraph::from_parts(vec![branch_node("a"), branch_node("b")], vec![], vec![], None);
    let g = annotate_orphaned_branches(graph, &vec![name("b")]);
    assert!(g.get(&name("a")).unwrap().metadata.annotations.is_empty());
    let anns = &g.get(&name("b")).unwrap().metadata.annotations;
    assert_eq!(anns.len(), 1);
    assert_eq!(anns[0].0, "twig.orphan");
    assert_eq!(sort_branch_names(vec![name("b"), name("a"), name("B")]).iter().map(|n| n.as_str()).collect::<Vec<_>>(), vec!["B", "a", "b"]);
}
