use twig::branch_graph::{BranchAnnotationValue, BranchHead, BranchNode, BranchNodeMetadata};
use twig::graph::{
    apply_branch_metadata, apply_dependencies, divergence_target, resolve_root_candidates, BranchGraphBuilder,
    BranchKind, BranchName, BranchTopology,
};
use twig::repo_state::RepoState;
use twig::state::BranchMetadata;
use twig::renderer::format_annotation_value;
use twig::branch_graph::BranchGraph;
use twig::renderer::table_graph;

fn node(n: &str) -> BranchNode {
    BranchNode {
        name: BranchName::new(n),
        kind: BranchKind::Local,
        head: BranchHead { oid: "abc".to_string(), summary: None, author: None, committed_at: None },
        upstream: None,
        topology: BranchTopology::empty(),
        metadata: BranchNodeMetadata {
            is_current: false,
            stale_state: None,
            divergence: None,
            labels: vec![],
            annotations: vec![],
        },
    }
}

fn collected(state: &RepoState, names: &[&str]) -> Vec<BranchNode> {
    names
        .iter()
        .map(|n| {
            let mut b = node(n);
            b.metadata = apply_branch_metadata(state, n, b.metadata.clone());
            b
        })
        .collect()
}

#[test]
fn builds_graph_with_dependencies_and_metadata() {
    let head_name = "main".to_string();
    let mut state = RepoState::default();
    state.add_root(head_name.clone(), true).unwrap();
    state.add_branch_issue(BranchMetadata {
        branch: "feature/payment".into(),
        jira_issue: Some("PROJ-123".into()),
        github_pr: Some(42),
        created_at: chrono::Utc::now().to_rfc3339(),
    });
    state.add_dependency("feature/payment".to_string(), head_name.clone()).unwrap();

    let nodes = collected(&state, &["feature/payment", "main"]);
    let graph = BranchGraphBuilder::new().assemble(nodes, &state, Some("main"));
    assert_eq!(graph.len(), 2);

    let root = graph.root_candidates().first().unwrap();
    assert_eq!(root.as_str(), head_name);

    let feature = graph.get(&BranchName::new("feature/payment")).unwrap();
    assert_eq!(feature.topology.primary_parent.as_ref().unwrap().as_str(), head_name);
    assert!(feature.metadata.labels.contains(&"PROJ-123".to_string()));
    match &feature.metadata.annotations.iter().find(|(k, _)| k == "twig.pr").unwrap().1 {
        BranchAnnotationValue::Numeric(value) => assert_eq!(*value, 42),
        other => panic!("unexpected annotation value: {other:?}"),
    }
    assert_eq!(graph.current_branch().map(|c| c.as_str()), Some("main"));
    let main = graph.get(&BranchName::new("main")).unwrap();
    assert_eq!(main.topology.children.iter().map(|c| c.as_str()).collect::<Vec<_>>(), vec!["feature/payment"]);
    assert_eq!(graph.edges().len(), 1);
}

#[test]
fn attaches_orphans_to_default_root_when_enabled() {
    let main_branch = "main".to_string();
    let mut state = RepoState::default();
    state.add_root(main_branch.clone(), true).unwrap();

    let nodes = collected(&state, &["main", "feature/stray"]);
    let graph = BranchGraphBuilder::new().with_orphan_parenting(true).assemble(nodes, &state, Some("main"));

    let root = graph.get(&BranchName::new(main_branch.as_str())).unwrap();
    assert!(root.topology.children.iter().any(|child| child.as_str() == "feature/stray"));

    let orphan = graph.get(&BranchName::new("feature/stray")).unwrap();
    assert_eq!(orphan.topology.primary_parent.as_ref().map(BranchName::as_str), Some(main_branch.as_str()));

    assert!(graph
        .edges()
        .iter()
        .any(|edge| edge.from.as_str() == main_branch && edge.to.as_str() == "feature/stray"));
}

#[test]
fn no_divergence_for_default_root_itself() {
    let main = node("main");
    // Default root should not be compared with itself
    assert_eq!(divergence_target(&main, Some("main")), None);
    let orphan = node("feature/orphan");
    assert_eq!(divergence_target(&orphan, Some("main")), Some("main".to_string()));
    let mut child = node("feature/delta");
    child.topology.primary_parent = Some(BranchName::new("develop"));
    assert_eq!(divergence_target(&child, Some("main")), Some("develop".to_string()));
    assert_eq!(divergence_target(&orphan, None), None);
}

#[test]
fn dependencies_set_parents_children_and_edges() {
    let mut state = RepoState::default();
    state.add_dependency("c".to_string(), "a".to_string()).unwrap();
    state.add_dependency("c".to_string(), "b".to_string()).unwrap();
    state.add_dependency("b".to_string(), "a".to_string()).unwrap();
    state.add_dependency("x".to_string(), "a".to_string()).unwrap();
    let (nodes, edges) = apply_dependencies(&state, vec![node("a"), node("b"), node("c")]);
    let kids: Vec<&str> = nodes[0].topology.children.iter().map(|c| c.as_str()).collect();
    assert_eq!(kids, vec!["b", "c"]);
    assert_eq!(nodes[2].topology.primary_parent.as_ref().map(|p| p.as_str()), Some("a"));
    assert_eq!(nodes[2].topology.secondary_parents.iter().map(|p| p.as_str()).collect::<Vec<_>>(), vec!["b"]);
    assert!(nodes[0].topology.primary_parent.is_none());
    let e: Vec<(&str, &str)> = edges.iter().map(|e| (e.from.as_str(), e.to.as_str())).collect();
    assert_eq!(e, vec![("a", "c"), ("b", "c"), ("a", "b")]);
}

#[test]
fn root_candidates_fall_back() {
    let mut state = RepoState::default();
    let nodes = vec![node("a"), node("b")];
    let names = |v: Vec<BranchName>| v.iter().map(|n| n.as_str().to_string()).collect::<Vec<_>>();
    assert_eq!(names(resolve_root_candidates(&state, &nodes, Some("b"))), vec!["b"]);
    assert_eq!(names(resolve_root_candidates(&state, &nodes, Some("zz"))), vec!["a"]);
    state.add_root("zz".to_string(), false).unwrap();
    state.add_root("b".to_string(), false).unwrap();
    state.add_root("a".to_string(), true).unwrap();
    assert_eq!(names(resolve_root_candidates(&state, &nodes, None)), vec!["b", "a"]);
    assert!(resolve_root_candidates(&RepoState::default(), &vec![], None).is_empty());
}

#[test]
fn annotation_values_are_written_as_text() {
    assert_eq!(format_annotation_value(&BranchAnnotationValue::Text("x".to_string())), "x");
    assert_eq!(format_annotation_value(&BranchAnnotationValue::Numeric(-42)), "-42");
    assert_eq!(format_annotation_value(&BranchAnnotationValue::Numeric(i64::MIN)), i64::MIN.to_string());
    assert_eq!(format_annotation_value(&BranchAnnotationValue::Numeric(7)), "7");
    assert_eq!(format_annotation_value(&BranchAnnotationValue::Flag(true)), "true");
    assert_eq!(
        format_annotation_value(&BranchAnnotationValue::Timestamp("2024-01-01T00:00:00+00:00".to_string())),
        "2024-01-01T00:00:00+00:00"
    );
}

#[test]
fn table_graph_mirrors_the_branch_graph() {
    let mut main = node("main");
    main.topology.children.push(BranchName::new("feature"));
    main.metadata.annotations.push(("twig.pr".to_string(), BranchAnnotationValue::Numeric(12)));
    let mut feature = node("feature");
    feature.metadata.is_current = true;
    let graph = BranchGraph::from_parts(vec![main, feature], Vec::new(), Vec::new(), Some(BranchName::new("feature")));
    let t = table_graph(&graph);
    assert_eq!(t.nodes.len(), 2);
    let m = t.nodes.iter().find(|n| n.name.as_str() == "main").unwrap();
    assert_eq!(m.children.len(), 1);
    assert_eq!(m.annotations, vec![("twig.pr".to_string(), "12".to_string())]);
    assert_eq!(t.current.as_ref().map(|b| b.as_str()), Some("feature"));
}
