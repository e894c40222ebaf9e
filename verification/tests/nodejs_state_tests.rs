use twig::nodejs::{NodeJsTooling, PackageManager, ProjectFiles};
use twig::state::{Registry, RegistryError, Repository};

fn repo(path: &str, name: &str) -> Repository {
    Repository { path: path.to_string(), name: name.to_string(), last_fetch: None }
}

#[test]
fn test_detect_package_manager() {
    let none = ProjectFiles::default();
    assert_eq!(NodeJsTooling::detect_package_manager(&none), None);
    let npm = ProjectFiles { package_json: true, ..Default::default() };
    assert_eq!(NodeJsTooling::detect_package_manager(&npm), Some(PackageManager::Npm));
    let yarn = ProjectFiles { package_json: true, yarn_lock: true, ..Default::default() };
    assert_eq!(NodeJsTooling::detect_package_manager(&yarn), Some(PackageManager::Yarn));
    let pnpm = ProjectFiles { package_json: true, yarn_lock: true, pnpm_lock: true, ..Default::default() };
    assert_eq!(NodeJsTooling::detect_package_manager(&pnpm), Some(PackageManager::Pnpm));
    let lock_beats_config = ProjectFiles { npm_lock: true, yarnrc: true, pnpmfile: true, ..Default::default() };
    assert_eq!(NodeJsTooling::detect_package_manager(&lock_beats_config), Some(PackageManager::Npm));
    let workspace = ProjectFiles { pnpm_workspace: true, ..Default::default() };
    assert_eq!(NodeJsTooling::detect_package_manager(&workspace), Some(PackageManager::Pnpm));
}

#[test]
fn gitignore_patterns_start_with_node_modules() {
    let patterns = NodeJsTooling::get_nodejs_gitignore_patterns();
    assert_eq!(patterns[0], "# Node.js dependencies");
    assert_eq!(patterns[1], "node_modules/");
    assert_eq!(patterns.len(), 54);
    assert_eq!(*patterns.last().unwrap(), "Thumbs.db");
}

#[test]
fn test_enhance_gitignore() {
    let content = NodeJsTooling::enhance_gitignore_content("").unwrap();
    assert!(content.contains("node_modules/"));
    assert!(content.contains("# Node.js dependencies"));
    assert!(content.starts_with("# Node.js dependencies\nnode_modules/\n"));
    assert!(content.ends_with("Thumbs.db\n"));
    assert_eq!(NodeJsTooling::enhance_gitignore_content(&content), None);
}

#[test]
fn test_enhance_gitignore_existing_file() {
    let content = NodeJsTooling::enhance_gitignore_content("# Existing content\n*.log\n").unwrap();
    assert!(content.contains("# Existing content"));
    assert!(content.contains("*.log"));
    assert!(content.contains("node_modules/"));
    assert!(content.starts_with("# Existing content\n*.log\n"));
    let content = NodeJsTooling::enhance_gitignore_content("target/").unwrap();
    assert!(content.starts_with("target/\n\n# Node.js dependencies\n"));
    let content = NodeJsTooling::enhance_gitignore_content("target/\n").unwrap();
    assert!(content.starts_with("target/\n\n# Node.js dependencies\n"));
    assert_eq!(NodeJsTooling::enhance_gitignore_content("dist/\nnode_modules/\n"), None);
    assert_eq!(NodeJsTooling::enhance_gitignore_content("# Node.js dependencies"), None);
}

#[test]
fn registry_adds_each_path_once() {
    let mut registry = Registry::empty();
    registry.add(repo("/work/a", "a"));
    registry.add(repo("/work/b", "b"));
    registry.add(repo("/work/a", "a-again"));
    assert_eq!(registry.list().len(), 2);
    assert_eq!(registry.list()[0].name, "a");
    assert!(registry.contains_path("/work/b"));
}

#[test]
fn registry_removes_and_updates_by_path() {
    let mut registry = Registry::from_repositories(vec![repo("/x", "x"), repo("/y", "y"), repo("/x", "dup")]);
    assert_eq!(registry.list().len(), 2);
    registry.update_fetch_time("/y", "2024-01-01".to_string()).unwrap();
    assert_eq!(registry.list()[1].last_fetch.as_deref(), Some("2024-01-01"));
    let err = registry.update_fetch_time("/z", "t".to_string()).unwrap_err();
    assert_eq!(err, RegistryError::NotFound("/z".to_string()));
    assert_eq!(err.message(), "Repository not found in registry: /z");
    registry.remove("/x");
    assert_eq!(registry.list().len(), 1);
    assert_eq!(registry.list()[0].path, "/y");
}
