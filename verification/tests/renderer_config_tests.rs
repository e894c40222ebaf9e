use twig::renderer::BranchTableColumnKind;
use twig::renderer_config::{FlowRendererColumnConfig, FlowRendererSchemaConfig, FlowRendererSchemaError};

#[test]
fn converts_config_to_schema() {
    let config = FlowRendererSchemaConfig {
        columns: vec![
            FlowRendererColumnConfig::Branch { title: Some("Branches".into()), min_width: Some(12) },
            FlowRendererColumnConfig::Annotation {
                key: "twig.story".into(),
                title: Some("Story".into()),
                min_width: Some(6),
            },
        ],
        placeholder: "—".into(),
        column_spacing: 1,
        show_header: true,
    };

    assert!(config.to_schema().is_ok());
    let schema = config.to_schema().unwrap();
    assert_eq!(schema.columns()[0].title(), "Branches");
    assert_eq!(schema.columns()[0].min_width(), 12);
    assert_eq!(schema.columns()[1].kind(), &BranchTableColumnKind::Annotation { key: "twig.story".to_string() });
    assert_eq!(schema.placeholder(), "—");
    assert_eq!(schema.column_spacing(), 1);
}

#[test]
fn rejects_schema_without_branch_column() {
    let config = FlowRendererSchemaConfig {
        columns: vec![FlowRendererColumnConfig::Notes { title: None, min_width: None }],
        ..Default::default()
    };

    let err = config.to_schema().unwrap_err();
    assert!(matches!(err, FlowRendererSchemaError::MissingBranchColumn));
}

#[test]
fn rejects_empty_config_and_fills_default_titles() {
    let config = FlowRendererSchemaConfig { columns: Vec::new(), ..Default::default() };
    assert_eq!(config.to_schema().unwrap_err(), FlowRendererSchemaError::EmptyColumns);
    assert_eq!(
        FlowRendererSchemaError::EmptyColumns.message(),
        "flow renderer config must declare at least one column"
    );
    let schema = FlowRendererSchemaConfig::default().to_schema().unwrap();
    let titles: Vec<&str> = schema.columns().iter().map(|c| c.title()).collect();
    assert_eq!(titles, vec!["Branch", "Story", "PR", "Notes"]);
    assert_eq!(schema.columns()[3].min_width(), 8);
    assert_eq!(schema.columns()[3].kind(), &BranchTableColumnKind::Annotation { key: "twig.notes".to_string() });
}
