use twig::graph::{BranchDivergence, BranchName};
use twig::renderer::{
    BranchTableColorMode, BranchTableColumn, BranchTableColumnKind, BranchTableRenderError, BranchTableRenderer,
    BranchTableSchema, BranchTableStyle, TableGraph, TableNode,
};

fn node(name: &str) -> TableNode {
    TableNode {
        name: BranchName::new(name),
        children: Vec::new(),
        is_current: false,
        labels: Vec::new(),
        annotations: Vec::new(),
        divergence: None,
    }
}

fn sample_graph() -> (TableGraph, BranchName) {
    let mut main = node("main");
    main.is_current = true;
    let mut auth = node("feature/auth-refresh");
    auth.labels.push("PROJ-451".to_string());
    let mut auth_ui = node("feature/auth-refresh-ui");
    auth_ui.labels.push("PROJ-451".to_string());
    auth_ui.annotations.push(("twig.pr".to_string(), "#982".to_string()));
    let mut payment = node("feature/payment-refactor");
    payment.annotations.push(("twig.pr".to_string(), "draft".to_string()));
    let mut api = node("feature/payment-api");
    let mut ui = node("feature/payment-ui");
    main.children = vec![auth.name.clone(), payment.name.clone()];
    auth.children = vec![auth_ui.name.clone()];
    payment.children = vec![api.name.clone(), ui.name.clone()];
    auth.annotations.push(("twig.lifecycle".to_string(), "active".to_string()));
    payment.annotations.push(("twig.lifecycle".to_string(), "stale".to_string()));
    ui.annotations.push(("twig.lifecycle".to_string(), "ready".to_string()));
    auth.divergence = Some(BranchDivergence { ahead: 3, behind: 0 });
    auth_ui.divergence = Some(BranchDivergence { ahead: 1, behind: 1 });
    payment.divergence = Some(BranchDivergence { ahead: 0, behind: 2 });
    api.divergence = Some(BranchDivergence { ahead: 1, behind: 0 });
    ui.divergence = Some(BranchDivergence { ahead: 2, behind: 0 });
    let root = main.name.clone();
    let graph = TableGraph { nodes: vec![main, auth, auth_ui, payment, api, ui], current: Some(root.clone()) };
    (graph, root)
}

fn minimal_graph() -> (TableGraph, BranchName) {
    let mut root = node("main");
    root.is_current = true;
    let name = root.name.clone();
    (TableGraph { nodes: vec![root], current: Some(name.clone()) }, name)
}

fn plain_rows(widths: [usize; 3], rows: &[[&str; 3]]) -> String {
    let mut out = String::new();
    for row in rows {
        out.push_str(&format!("{:<w0$}  {:<w1$}  {:<w2$}\n", row[0], row[1], row[2], w0 = widths[0], w1 = widths[1], w2 = widths[2]));
    }
    out
}

#[test]
fn falls_back_to_plain_text_when_colors_disabled() {
    let (graph, root) = sample_graph();
    let output = BranchTableRenderer::default()
        .with_style(BranchTableStyle::new(BranchTableColorMode::Never))
        .render(&graph, &root)
        .unwrap();
    let expected = plain_rows(
        [37, 8, 6],
        &[
            ["Branch", "Story", "PR"],
            ["* main", "--", "--"],
            ["├─ feature/auth-refresh (+3/-0)", "PROJ-451", "--"],
            ["│  └─ feature/auth-refresh-ui (+1/-1)", "PROJ-451", "#982"],
            ["└─ feature/payment-refactor (+0/-2)", "--", "draft"],
            ["   ├─ feature/payment-api (+1/-0)", "--", "--"],
            ["   └─ feature/payment-ui (+2/-0)", "--", "--"],
        ],
    );
    assert_eq!(output, expected);
}

#[test]
fn renders_without_header_when_disabled() {
    let (graph, root) = sample_graph();
    let output = BranchTableRenderer::new(BranchTableSchema::default().with_header(false))
        .with_style(BranchTableStyle::new(BranchTableColorMode::Always))
        .render(&graph, &root)
        .unwrap();
    let plain = BranchTableRenderer::new(BranchTableSchema::default().with_header(false))
        .with_style(BranchTableStyle::new(BranchTableColorMode::Never))
        .render(&graph, &root)
        .unwrap();
    let with_header = BranchTableRenderer::new(BranchTableSchema::default())
        .with_style(BranchTableStyle::new(BranchTableColorMode::Never))
        .render(&graph, &root)
        .unwrap();
    assert!(output.contains('\x1b'));
    assert_eq!(strip_escapes(&output), plain);
    assert!(plain.starts_with("* main"));
    assert_eq!(plain.lines().count(), 6);
    let header_lines: Vec<&str> = with_header.lines().collect();
    let body: Vec<&str> = plain.lines().collect();
    assert_eq!(header_lines.len(), body.len() + 1);
    assert!(header_lines[0].contains("Branch"));
    assert!(body.iter().all(|l| !l.contains("Branch")));
}

/// The text without its ANSI SGR escape sequences.
fn strip_escapes(s: &str) -> String {
    let mut out = String::new();
    let mut chars = s.chars();
    while let Some(c) = chars.next() {
        if c == '\x1b' {
            for d in chars.by_ref() {
                if d == 'm' {
                    break;
                }
            }
        } else {
            out.push(c);
        }
    }
    out
}

#[test]
fn validates_branch_column_presence() {
    let schema = BranchTableSchema::new(vec![BranchTableColumn::story()]);
    let renderer = BranchTableRenderer::new(schema);
    let (graph, root) = minimal_graph();
    let err = renderer.render(&graph, &root).unwrap_err();
    assert!(matches!(err, BranchTableRenderError::MissingBranchColumn));
}

#[test]
fn rejects_an_empty_schema_and_unknown_branches() {
    let (graph, _) = minimal_graph();
    let err = BranchTableRenderer::new(BranchTableSchema::new(Vec::new()))
        .render(&graph, &BranchName::new("main"))
        .unwrap_err();
    assert!(matches!(err, BranchTableRenderError::EmptySchema));
    let err = BranchTableRenderer::default().render(&graph, &BranchName::new("nope")).unwrap_err();
    match err {
        BranchTableRenderError::UnknownBranch(name) => assert_eq!(name.as_str(), "nope"),
        other => panic!("unexpected error {other:?}"),
    }
}

#[test]
fn uses_placeholder_for_missing_values() {
    let (graph, root) = minimal_graph();
    let output = BranchTableRenderer::default()
        .with_style(BranchTableStyle::new(BranchTableColorMode::Always))
        .render(&graph, &root)
        .unwrap();
    let header = "\u{1b}[97;1mBranch\u{1b}[0m    \u{1b}[97;1mStory\u{1b}[0m     \u{1b}[97;1mPR\u{1b}[0m    \n";
    let row = "\u{1b}[92;1m*\u{1b}[0m \u{1b}[92;1mmain\u{1b}[0m    \u{1b}[90m--\u{1b}[0m        \u{1b}[90m--\u{1b}[0m    \n";
    assert_eq!(output, format!("{header}{row}"));
}

#[test]
fn renders_custom_schema_with_additional_columns() {
    let (graph, root) = sample_graph();
    let schema = BranchTableSchema::new(vec![
        BranchTableColumn::branch().with_min_width(10),
        BranchTableColumn::story(),
        BranchTableColumn::pull_request(),
        BranchTableColumn::new("Lifecycle", BranchTableColumnKind::Annotation { key: "twig.lifecycle".to_string() })
            .with_min_width(10),
    ])
    .with_placeholder("—")
    .with_column_spacing(3);
    let output = BranchTableRenderer::new(schema)
        .with_style(BranchTableStyle::new(BranchTableColorMode::Never))
        .render(&graph, &root)
        .unwrap();
    let first = output.lines().nth(1).unwrap();
    assert_eq!(first, format!("{:<37}   {:<8}   {:<5}   {:<10}", "* main", "—", "—", "—"));
    let third = output.lines().nth(2).unwrap();
    assert!(third.ends_with("active    "));
}

#[test]
fn schema_and_style_builders_record_their_settings() {
    let schema = BranchTableSchema::default().with_placeholder("n/a").with_column_spacing(4).with_header(false);
    assert_eq!(schema.placeholder(), "n/a");
    assert_eq!(schema.column_spacing(), 4);
    assert!(!schema.show_header());
    assert_eq!(schema.columns().len(), 3);
    assert_eq!(schema.columns()[0].title(), "Branch");
    assert_eq!(schema.columns()[0].min_width(), 8);
    assert_eq!(schema.columns()[2].kind(), &BranchTableColumnKind::Annotation { key: "twig.pr".to_string() });
    let mut schema = schema;
    schema.columns_mut()[1] = BranchTableColumn::new("Label", BranchTableColumnKind::FirstLabel);
    assert_eq!(schema.columns()[1].title(), "Label");
    let style = BranchTableStyle::default()
        .with_color_mode(BranchTableColorMode::Never)
        .with_dim_placeholders(false)
        .with_bold_headers(false)
        .with_dim_connectors(false);
    let (graph, root) = minimal_graph();
    let out = BranchTableRenderer::default().with_style(style).render(&graph, &root).unwrap();
    assert!(out.starts_with("Branch"));
}

#[test]
fn first_label_is_the_least() {
    let mut root = node("main");
    root.labels = vec!["ZED-1".to_string(), "ABC-9".to_string(), "MID-3".to_string()];
    let name = root.name.clone();
    let graph = TableGraph { nodes: vec![root], current: None };
    let out = BranchTableRenderer::new(BranchTableSchema::default().with_header(false))
        .with_style(BranchTableStyle::new(BranchTableColorMode::Never))
        .render(&graph, &name)
        .unwrap();
    assert_eq!(out, "main      ABC-9     --    \n");
}
