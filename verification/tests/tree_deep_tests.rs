use twig::tree_renderer::{BranchNode, DeepNestingConfig, TreeRenderer};

fn create_test_branch(name: &str, is_current: bool, parents: Vec<String>, children: Vec<String>) -> BranchNode {
    BranchNode { name: name.to_string(), is_current, metadata: None, parents, children, commit_info: None }
}

fn config(max_depth: Option<u32>, pagination: bool, page_size: usize, pruning: bool) -> DeepNestingConfig {
    DeepNestingConfig {
        max_depth,
        max_branches_per_level: Some(50),
        enable_pagination: pagination,
        page_size,
        enable_pruning: pruning,
        prune_threshold: 100,
        show_depth_indicators: true,
    }
}

fn chain(names: &[&str]) -> Vec<BranchNode> {
    let mut nodes = Vec::new();
    for (i, name) in names.iter().enumerate() {
        let parents = if i == 0 { vec![] } else { vec![names[i - 1].to_string()] };
        let children = if i + 1 < names.len() { vec![names[i + 1].to_string()] } else { vec![] };
        nodes.push(create_test_branch(name, false, parents, children));
    }
    nodes
}

fn fan(n: usize) -> Vec<BranchNode> {
    let mut nodes = Vec::new();
    let mut children = Vec::new();
    for i in 1..=n {
        let child_name = format!("child{}", i);
        children.push(child_name.clone());
        nodes.push(create_test_branch(&child_name, false, vec!["main".to_string()], vec![]));
    }
    nodes.push(create_test_branch("main", false, vec![], children));
    nodes
}

#[test]
fn test_deep_nesting_basic_rendering() {
    let nodes = chain(&["main", "level1", "level2", "level3"]);
    let roots = vec!["main".to_string()];
    let mut renderer = TreeRenderer::new(nodes, &roots, None, true);
    let (output_str, stats) = renderer.render_with_deep_nesting(&roots, &config(Some(10), false, 10, false));

    assert!(output_str.contains("main"));
    assert!(output_str.contains("level1"));
    assert!(output_str.contains("level2"));
    assert!(output_str.contains("level3"));

    assert!(output_str.contains("[depth:1]"));
    assert!(output_str.contains("[depth:2]"));
    assert!(output_str.contains("[depth:3]"));

    assert_eq!(stats.total_branches, 4);
    assert_eq!(stats.max_depth_reached, 3);
    assert_eq!(stats.branches_pruned, 0);
}

#[test]
fn test_deep_nesting_with_depth_limit() {
    let nodes = chain(&["main", "level1", "level2", "level3", "level4"]);
    let roots = vec!["main".to_string()];
    let mut renderer = TreeRenderer::new(nodes, &roots, None, true);
    let (output_str, stats) = renderer.render_with_deep_nesting(&roots, &config(Some(2), false, 10, false));

    assert!(output_str.contains("truncated at depth 2"));
    assert!(output_str.contains("main"));
    assert!(output_str.contains("level1"));
    assert!(output_str.contains("level2"));
    assert!(!output_str.contains("level4") || output_str.contains("truncated"));
    assert!(stats.branches_pruned > 0);
}

#[test]
fn test_deep_nesting_with_pagination() {
    let nodes = fan(15);
    let roots = vec!["main".to_string()];
    let mut renderer = TreeRenderer::new(nodes, &roots, None, true);
    let (output_str, stats) = renderer.render_with_deep_nesting(&roots, &config(Some(10), true, 5, false));

    assert!(output_str.contains("Page 2") || output_str.contains("Page 3"));
    assert!(output_str.contains("child1"));
    assert!(output_str.contains("child15"));
    assert_eq!(stats.total_branches, 16);
}

#[test]
fn test_deep_nesting_with_pruning() {
    let nodes = fan(120);
    let roots = vec!["main".to_string()];
    let mut renderer = TreeRenderer::new(nodes, &roots, None, true);
    let (output_str, stats) = renderer.render_with_deep_nesting(&roots, &config(Some(10), false, 10, true));

    assert!(output_str.contains("Large tree detected") && output_str.contains("pruning"));
    assert_eq!(stats.total_branches, 121);
}

#[test]
fn test_deep_nesting_with_circular_dependencies() {
    let nodes = vec![
        create_test_branch("main", false, vec![], vec!["feature".to_string()]),
        create_test_branch("feature", false, vec!["main".to_string()], vec!["hotfix".to_string()]),
        create_test_branch("hotfix", false, vec!["feature".to_string()], vec!["main".to_string()]),
    ];
    let roots = vec!["main".to_string()];
    let mut renderer = TreeRenderer::new(nodes, &roots, None, true);
    let (output_str, stats) = renderer.render_with_deep_nesting(&roots, &config(Some(10), false, 10, false));

    assert!(output_str.contains("circular dependencies detected"));
    assert!(output_str.contains("[CIRCULAR]") || output_str.contains("🔄"));
    assert!(stats.circular_deps_detected > 0);
}

#[test]
fn test_deep_nesting_memory_estimation() {
    let nodes = vec![
        create_test_branch("main", false, vec![], vec!["feature1".to_string(), "feature2".to_string()]),
        create_test_branch("feature1", false, vec!["main".to_string()], vec![]),
        create_test_branch("feature2", false, vec!["main".to_string()], vec![]),
    ];
    let roots = vec!["main".to_string()];
    let mut renderer = TreeRenderer::new(nodes, &roots, None, true);
    let (output_str, stats) = renderer.render_with_deep_nesting(&roots, &config(Some(10), false, 10, false));

    assert!(stats.memory_usage_estimate > 0);
    assert!(stats.memory_usage_estimate < 10000);
    assert!(output_str.contains("Memory estimate:"));
}

#[test]
fn deep_nesting_draws_the_exact_text() {
    let nodes = chain(&["main", "level1", "level2", "level3"]);
    let roots = vec!["main".to_string()];
    let mut renderer = TreeRenderer::new(nodes, &roots, None, true);
    let (out, stats) = renderer.render_with_deep_nesting(&roots, &config(Some(10), false, 10, false));
    assert_eq!(
        out,
        "main\n└── level1 [depth:1]\n    └── level2 [depth:2]\n        └── level3 [depth:3]\n\n📊 Rendering Statistics:\n  Total branches: 4\n  Max depth reached: 3\n  Memory estimate: 334 bytes\n"
    );
    assert_eq!(stats.memory_usage_estimate, 334);
    assert_eq!(renderer.visited.len(), 4);
}

#[test]
fn deep_nesting_truncates_below_the_limit_and_counts_it() {
    let nodes = chain(&["main", "a", "b", "c"]);
    let roots = vec!["main".to_string()];
    let mut renderer = TreeRenderer::new(nodes, &roots, None, true);
    let mut cfg = config(Some(1), false, 10, false);
    cfg.show_depth_indicators = false;
    let (out, stats) = renderer.render_with_deep_nesting(&roots, &cfg);
    assert_eq!(out, "main\n└── a\n    └── ... [truncated at depth 1] ...\n");
    assert_eq!(stats.branches_pruned, 1);
    assert_eq!(stats.max_depth_reached, 2);
}

#[test]
fn deep_nesting_pages_open_with_separators() {
    let nodes = fan(5);
    let roots = vec!["main".to_string()];
    let mut renderer = TreeRenderer::new(nodes, &roots, None, true);
    let mut cfg = config(None, true, 2, false);
    cfg.show_depth_indicators = false;
    let (out, _) = renderer.render_with_deep_nesting(&roots, &cfg);
    assert_eq!(
        out,
        "main\n├── child1\n├── child2\n├── ... Page 2 (3-4 of 5) ...\n├── child3\n├── child4\n├── ... Page 3 (5-5 of 5) ...\n└── child5\n"
    );
}

#[test]
fn deep_nesting_prunes_wide_levels() {
    let nodes = fan(3);
    let roots = vec!["main".to_string()];
    let mut renderer = TreeRenderer::new(nodes, &roots, None, true);
    let mut cfg = config(None, false, 10, true);
    cfg.max_branches_per_level = Some(2);
    cfg.show_depth_indicators = false;
    let (out, stats) = renderer.render_with_deep_nesting(&roots, &cfg);
    assert_eq!(out, "└── main ... [pruned subtree with 3 children] ...\n");
    assert_eq!(stats.branches_pruned, 4);
}

#[test]
fn subtree_size_counts_each_branch_once_and_stops_past_a_thousand() {
    let nodes = vec![
        create_test_branch("main", false, vec![], vec!["a".to_string(), "b".to_string(), "gone".to_string()]),
        create_test_branch("a", false, vec![], vec!["b".to_string(), "main".to_string()]),
        create_test_branch("b", false, vec![], vec!["a".to_string()]),
    ];
    let renderer = TreeRenderer::new(nodes.clone(), &vec!["main".to_string()], None, true);
    assert_eq!(renderer.count_subtree_size(&nodes[0]), 4);
    assert_eq!(renderer.count_subtree_size(&nodes[2]), 4);

    let wide = fan(1500);
    let big = TreeRenderer::new(wide.clone(), &vec!["main".to_string()], None, true);
    assert_eq!(big.count_subtree_size(&wide[1500]), 1001);
}
