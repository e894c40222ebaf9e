use twig::tree_renderer::{BranchNode, TreeRenderer};

fn create_test_branch(name: &str, is_current: bool, parents: Vec<String>, children: Vec<String>) -> BranchNode {
    BranchNode { name: name.to_string(), is_current, metadata: None, parents, children, commit_info: None }
}

fn s(v: &[&str]) -> Vec<String> {
    v.iter().map(|x| x.to_string()).collect()
}

#[test]
fn test_circular_dependency_detection() {
    // Create a circular dependency: A -> B -> C -> A
    let branches = vec![
        create_test_branch("A", false, s(&["C"]), s(&["B"])),
        create_test_branch("B", false, s(&["A"]), s(&["C"])),
        create_test_branch("C", false, s(&["B"]), s(&["A"])),
    ];

    let roots = s(&["A"]);
    let renderer = TreeRenderer::new(branches, &roots, None, true);

    let circular_deps = renderer.detect_circular_dependencies();
    assert!(!circular_deps.is_empty(), "Should detect circular dependency");

    let cycle = &circular_deps[0];
    assert!(cycle.len() >= 3, "Cycle should contain at least 3 branches");
    assert!(cycle.contains(&"A".to_string()));
    assert!(cycle.contains(&"B".to_string()));
    assert!(cycle.contains(&"C".to_string()));
    assert_eq!(cycle, &s(&["A", "B", "C", "A"]));
}

#[test]
fn test_enhanced_cross_reference_rendering() {
    let branches = vec![
        create_test_branch("main", false, vec![], s(&["feature1", "feature2"])),
        create_test_branch("feature1", false, s(&["main"]), s(&["merge"])),
        create_test_branch("feature2", false, s(&["main"]), s(&["merge"])),
        create_test_branch("merge", false, s(&["feature1", "feature2"]), vec![]),
    ];

    let roots = s(&["main"]);
    let mut renderer = TreeRenderer::new(branches, &roots, None, true);

    let output_str = renderer.render_with_enhanced_cross_refs(&roots, None, true, Some(10));

    assert!(output_str.contains("Cross-references summary"));
    assert!(output_str.contains("merge"));
}

#[test]
fn enhanced_cross_reference_rendering_exact_output() {
    let branches = vec![
        create_test_branch("main", true, vec![], s(&["feature1", "feature2"])),
        create_test_branch("feature1", false, s(&["main"]), s(&["merge"])),
        create_test_branch("feature2", false, s(&["main"]), s(&["merge"])),
        create_test_branch("merge", false, s(&["feature1", "feature2"]), vec![]),
    ];
    let roots = s(&["main"]);
    let mut renderer = TreeRenderer::new(branches, &roots, None, true);
    renderer.tree_width = 0;
    let out = renderer.render_with_enhanced_cross_refs(&roots, None, true, None);
    let expected = [
        "main (current)\n",
        "├── feature1\n",
        "│   └◈─ merge [refs:2]\n",
        "└── feature2\n",
        "    └→─ merge (see above)\n",
        "\n",
        "📎 Cross-references summary:\n",
        "  merge ← feature1, feature2\n",
    ]
    .concat();
    assert_eq!(out, expected);

    // Past the reference depth, branches with several parents are left out
    let mut renderer = TreeRenderer::new(
        vec![
            create_test_branch("main", false, vec![], s(&["feature1", "feature2"])),
            create_test_branch("feature1", false, s(&["main"]), s(&["merge"])),
            create_test_branch("feature2", false, s(&["main"]), s(&["merge"])),
            create_test_branch("merge", false, s(&["feature1", "feature2"]), vec![]),
        ],
        &roots,
        None,
        true,
    );
    renderer.tree_width = 0;
    let out = renderer.render_with_enhanced_cross_refs(&roots, None, false, Some(1));
    assert_eq!(out, "main\n├── feature1\n└── feature2\n");
}

#[test]
fn cycles_are_listed_and_flagged() {
    let branches = vec![
        create_test_branch("A", false, s(&["C"]), s(&["B"])),
        create_test_branch("B", false, s(&["A"]), s(&["C"])),
        create_test_branch("C", false, s(&["B"]), s(&["A"])),
    ];
    let roots = s(&["A"]);
    let mut renderer = TreeRenderer::new(branches, &roots, None, true);
    renderer.tree_width = 0;
    let out = renderer.render_with_enhanced_cross_refs(&roots, None, true, None);
    let expected = [
        "⚠️  Circular dependencies detected:\n",
        "  Cycle 1: A → B → C → A\n",
        "\n",
        "A [CIRCULAR]\n",
        "└🔄─ B [CIRCULAR]\n",
        "    └🔄─ C [CIRCULAR]\n",
        "        └🔄─ A (see above) [CIRCULAR]\n",
    ]
    .concat();
    assert_eq!(out, expected);
}

#[test]
fn test_branch_reference_indicators() {
    let branches = vec![
        create_test_branch("main", false, vec![], s(&["feature1"])),
        create_test_branch("feature1", false, s(&["main"]), s(&["sub1", "sub2"])),
        create_test_branch("sub1", false, s(&["feature1"]), s(&["common"])),
        create_test_branch("sub2", false, s(&["feature1"]), s(&["common"])),
        create_test_branch("common", false, s(&["sub1", "sub2"]), vec![]),
    ];

    let roots = s(&["main"]);
    let renderer = TreeRenderer::new(branches, &roots, None, true);

    let common_refs = renderer.count_branch_references("common");
    assert_eq!(common_refs, 2, "Common branch should have 2 references");

    let feature1_refs = renderer.count_branch_references("feature1");
    assert_eq!(feature1_refs, 1, "Feature1 branch should have 1 reference");
}

#[test]
fn test_no_circular_dependency_in_normal_tree() {
    let branches = vec![
        create_test_branch("main", false, vec![], s(&["feature1", "feature2"])),
        create_test_branch("feature1", false, s(&["main"]), vec![]),
        create_test_branch("feature2", false, s(&["main"]), vec![]),
    ];

    let roots = s(&["main"]);
    let renderer = TreeRenderer::new(branches, &roots, None, true);

    let circular_deps = renderer.detect_circular_dependencies();
    assert!(circular_deps.is_empty(), "Normal tree should have no circular dependencies");
}
