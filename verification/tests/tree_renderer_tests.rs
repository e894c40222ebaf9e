use twig::state::BranchMetadata;
use twig::tree_renderer::{BranchNode, CommitInfo, TreeRenderer};

fn create_test_branch(name: &str, is_current: bool, parents: Vec<String>, children: Vec<String>) -> BranchNode {
    BranchNode { name: name.to_string(), is_current, metadata: None, parents, children, commit_info: None }
}

fn with_metadata(name: &str, jira: Option<&str>, pr: Option<u32>) -> BranchNode {
    BranchNode {
        name: name.to_string(),
        is_current: false,
        metadata: Some(BranchMetadata {
            branch: name.to_string(),
            jira_issue: jira.map(|s| s.to_string()),
            github_pr: pr,
            created_at: "2023-01-01T00:00:00Z".to_string(),
        }),
        parents: vec![],
        children: vec![],
        commit_info: None,
    }
}

fn bare_renderer(nodes: Vec<BranchNode>, max_depth: Option<u32>, tree_width: usize) -> TreeRenderer {
    TreeRenderer { branch_nodes: nodes, visited: Vec::new(), cross_refs: Vec::new(), max_depth, no_color: true, tree_width }
}

#[test]
fn tree_renderer_test_build_cross_references_single_parent() {
    let nodes = vec![
        create_test_branch("main", true, vec![], vec!["feature1".to_string()]),
        create_test_branch("feature1", false, vec!["main".to_string()], vec![]),
    ];
    let mut renderer = bare_renderer(nodes, None, 0);
    renderer.build_cross_references();
    assert!(renderer.cross_refs.is_empty());
}

#[test]
fn tree_renderer_test_build_cross_references_multiple_parents() {
    let nodes = vec![
        create_test_branch("main", false, vec![], vec!["feature1".to_string()]),
        create_test_branch("develop", false, vec![], vec!["feature1".to_string()]),
        create_test_branch("feature1", true, vec!["main".to_string(), "develop".to_string()], vec![]),
    ];
    let mut renderer = bare_renderer(nodes, None, 0);
    renderer.build_cross_references();
    assert_eq!(renderer.cross_refs.len(), 1);
    assert_eq!(renderer.cross_refs[0].0, "feature1");
    let parents = &renderer.cross_refs[0].1;
    assert_eq!(parents.len(), 2);
    assert!(parents.contains(&"main".to_string()));
    assert!(parents.contains(&"develop".to_string()));
}

#[test]
fn tree_renderer_test_calculate_max_tree_width_simple() {
    let nodes = vec![
        create_test_branch("main", true, vec![], vec!["feature1".to_string()]),
        create_test_branch("feature1", false, vec!["main".to_string()], vec![]),
    ];
    let renderer = bare_renderer(nodes, None, 0);
    let width = renderer.calculate_max_tree_width(&vec!["main".to_string()]);
    assert!(width > 0);
    assert!(width > "main (current)".len());
    assert_eq!(width, 16);
}

#[test]
fn tree_renderer_test_calculate_max_tree_width_with_depth() {
    let nodes = vec![
        create_test_branch("main", false, vec![], vec!["feature1".to_string()]),
        create_test_branch("feature1", false, vec!["main".to_string()], vec!["subfeature".to_string()]),
        create_test_branch("subfeature", true, vec!["feature1".to_string()], vec![]),
    ];
    let roots = vec!["main".to_string()];
    let limited = bare_renderer(nodes.clone(), Some(1), 0).calculate_max_tree_width(&roots);
    let unlimited = bare_renderer(nodes, None, 0).calculate_max_tree_width(&roots);
    assert!(limited > 0);
    assert!(unlimited > 0);
    assert_eq!(limited, 14);
    assert_eq!(unlimited, 30);
}

#[test]
fn tree_renderer_test_display_width_no_color() {
    let renderer = bare_renderer(Vec::new(), None, 0);
    assert_eq!(renderer.display_width("hello world"), 11);
}

#[test]
fn display_width_ignores_escape_sequences_with_colors() {
    let mut renderer = bare_renderer(Vec::new(), None, 0);
    renderer.no_color = false;
    assert_eq!(renderer.display_width("\u{1b}[32mhello\u{1b}[39m"), 5);
}

#[test]
fn tree_renderer_test_render_tree_visits_branches() {
    let nodes = vec![
        create_test_branch("main", true, vec![], vec!["feature1".to_string()]),
        create_test_branch("feature1", false, vec!["main".to_string()], vec![]),
    ];
    let mut renderer = bare_renderer(nodes, None, 20);
    let out = renderer.render_tree("main", 0, &Vec::new(), true);
    assert!(renderer.visited.contains(&"main".to_string()));
    assert!(renderer.visited.contains(&"feature1".to_string()));
    assert_eq!(out, "main (current)\n└── feature1\n");
}

#[test]
fn tree_renderer_test_render_tree_respects_max_depth() {
    let nodes = vec![
        create_test_branch("main", false, vec![], vec!["feature1".to_string()]),
        create_test_branch("feature1", false, vec!["main".to_string()], vec!["subfeature".to_string()]),
        create_test_branch("subfeature", false, vec!["feature1".to_string()], vec![]),
    ];
    let mut renderer = bare_renderer(nodes, Some(1), 20);
    renderer.render_tree("main", 0, &Vec::new(), true);
    assert!(renderer.visited.contains(&"main".to_string()));
    assert!(renderer.visited.contains(&"feature1".to_string()));
    assert!(!renderer.visited.contains(&"subfeature".to_string()));
}

#[test]
fn tree_renderer_test_render_tree_avoids_revisiting() {
    let nodes = vec![
        create_test_branch("main", false, vec![], vec!["feature1".to_string()]),
        create_test_branch("feature1", false, vec!["main".to_string()], vec![]),
    ];
    let mut renderer = bare_renderer(nodes, None, 20);
    renderer.visited.push("feature1".to_string());
    let out = renderer.render_tree("main", 0, &Vec::new(), true);
    assert!(renderer.visited.contains(&"main".to_string()));
    assert!(renderer.visited.contains(&"feature1".to_string()));
    assert_eq!(renderer.visited.len(), 2);
    assert_eq!(out, "main\n");
}

#[test]
fn tree_renderer_test_new_initializes_correctly() {
    let nodes = vec![
        create_test_branch("main", true, vec![], vec!["feature1".to_string()]),
        create_test_branch("feature1", false, vec!["main".to_string()], vec![]),
    ];
    let renderer = TreeRenderer::new(nodes, &vec!["main".to_string()], Some(5), false);
    assert_eq!(renderer.max_depth, Some(5));
    assert!(!renderer.no_color);
    assert!(renderer.tree_width > 0);
    assert!(renderer.visited.is_empty());
    assert!(renderer.cross_refs.is_empty());
}

#[test]
fn tree_renderer_test_new_with_cross_references() {
    let nodes = vec![
        create_test_branch("main", false, vec![], vec!["feature1".to_string()]),
        create_test_branch("develop", false, vec![], vec!["feature1".to_string()]),
        create_test_branch("feature1", true, vec!["main".to_string(), "develop".to_string()], vec![]),
    ];
    let roots = vec!["main".to_string(), "develop".to_string()];
    let renderer = TreeRenderer::new(nodes, &roots, None, true);
    assert!(renderer.no_color);
    assert!(!renderer.cross_refs.is_empty());
    assert!(renderer.cross_refs.iter().any(|(name, _)| name == "feature1"));
}

#[test]
fn tree_renderer_test_print_branch_github_pr_only_padding() {
    let node = with_metadata("feature-branch", None, Some(123));
    let renderer = TreeRenderer::new(vec![node.clone()], &vec!["feature-branch".to_string()], None, true);
    let out = renderer.print_branch(&node, 0, &Vec::new(), true);
    assert!(out.contains("#123"));
    assert!(!out.contains("PROJ-"));
    assert!(!out.contains("ABC-"));
    assert!(out.contains("[PR#123]"));
    assert_eq!(out, format!("feature-branch{}[PR#123]", " ".repeat(14)));
}

#[test]
fn tree_renderer_test_print_branch_both_jira_and_github() {
    let node = with_metadata("PROJ-123/feature-branch", Some("PROJ-123"), Some(456));
    let renderer = TreeRenderer::new(vec![node.clone()], &vec!["PROJ-123/feature-branch".to_string()], None, true);
    let out = renderer.print_branch(&node, 0, &Vec::new(), true);
    assert!(out.contains("PROJ-123"));
    assert!(out.contains("#456"));
    assert!(out.contains("[PROJ-123]"));
    assert!(out.contains("[PR#456]"));
    assert_eq!(out, "PROJ-123/feature-branch  [PROJ-123]  [PR#456]");
}

#[test]
fn tree_renderer_test_print_branch_padding_alignment() {
    let long = with_metadata("ABC-456/long-branch-name", Some("ABC-456"), Some(789));
    let short = with_metadata("short", None, Some(321));
    let roots = vec!["ABC-456/long-branch-name".to_string(), "short".to_string()];
    let renderer = TreeRenderer::new(vec![long.clone(), short.clone()], &roots, None, true);
    let out1 = renderer.print_branch(&long, 0, &Vec::new(), true);
    let out2 = renderer.print_branch(&short, 0, &Vec::new(), true);
    assert!(out1.contains("[PR#789]"));
    assert!(out2.contains("[PR#321]"));
    let pr_position = out2.find("[PR#321]").unwrap();
    assert!(pr_position > "short".len() + 5);
    assert_eq!(pr_position, out1.find("[PR#789]").unwrap());
}

#[test]
fn print_branch_draws_connectors_and_commit_counts() {
    let mut node = create_test_branch("feat", false, vec![], vec![]);
    node.commit_info = Some(CommitInfo { ahead: 2, behind: 1 });
    let renderer = bare_renderer(vec![node.clone()], None, 10);
    let prefix = vec!["│   ".to_string()];
    let out = renderer.print_branch(&node, 2, &prefix, false);
    assert_eq!(out, "│   ├── feat  [↑2 ↓1]");
}

#[test]
fn print_branch_lists_other_parents() {
    let mut node = create_test_branch("child", false, vec!["a".to_string()], vec![]);
    node.parents = vec!["a".to_string()];
    let mut renderer = bare_renderer(vec![node.clone()], None, 0);
    renderer.cross_refs = vec![("child".to_string(), vec!["a".to_string(), "b".to_string(), "c".to_string()])];
    let out = renderer.print_branch(&node, 0, &Vec::new(), true);
    assert_eq!(out, format!("child{}[also: b, c]", " ".repeat(26)));
}

#[test]
fn colored_current_branch_is_bold_green() {
    let node = create_test_branch("main", true, vec![], vec![]);
    let mut renderer = bare_renderer(vec![node.clone()], None, 0);
    renderer.no_color = false;
    let out = renderer.print_branch(&node, 0, &Vec::new(), true);
    assert_eq!(out, "\u{1b}[1m\u{1b}[32mmain\u{1b}[39m\u{1b}[0m (current)");
}

#[test]
fn render_draws_each_root_once_with_delimiters() {
    let nodes = vec![
        create_test_branch("main", false, vec![], vec!["a".to_string(), "b".to_string()]),
        create_test_branch("a", false, vec!["main".to_string()], vec!["c".to_string()]),
        create_test_branch("b", false, vec!["main".to_string()], vec![]),
        create_test_branch("c", false, vec!["a".to_string()], vec![]),
        create_test_branch("dev", false, vec![], vec!["b".to_string()]),
    ];
    let mut renderer = bare_renderer(nodes, None, 0);
    let roots = vec!["main".to_string(), "dev".to_string()];
    let out = renderer.render(&roots, Some("--\n"));
    assert_eq!(out, "main\n├── a\n│   └── c\n└── b\n--\ndev\n");
}
