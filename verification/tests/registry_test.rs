use tforge::registry::expand_required_templates;
use tforge::registry::Registry;
use tforge::remote::search_templates;
use tforge::toolcheck::install_hint;
use tforge::types::Dependencies;
use tforge::types::Provider;
use tforge::types::TemplateInfo;
use tforge::types::TemplateManifest;

fn make(name: &str, category: &str, description: &str, requires: Vec<&str>) -> TemplateManifest {
    TemplateManifest {
        template: TemplateInfo {
            name: name.to_string(),
            description: description.to_string(),
            category: category.to_string(),
            provider: Provider::Command,
        },
        dependencies: Dependencies {
            required_tools: vec![],
            requires_templates: requires.iter().map(|r| r.to_string()).collect(),
        },
        parameters: vec![],
        steps: vec![],
    }
}

#[test]
fn test_find_template_by_name() {
    let registry = Registry::from_templates(vec![
        make("flutter-app", "mobile", "a flutter app", vec![]),
        make("axum-server", "backend", "an axum server", vec![]),
    ]);
    assert!(registry.find("flutter-app").is_some());
    assert_eq!(registry.find("flutter-app").unwrap().template.category, "mobile");
}

#[test]
fn test_find_nonexistent_template() {
    let registry = Registry::from_templates(vec![make("a", "x", "d", vec![])]);
    assert!(registry.find("nonexistent").is_none());
}

#[test]
fn test_filter_by_category() {
    let registry = Registry::from_templates(vec![
        make("flutter-app", "mobile", "d", vec![]),
        make("axum-server", "backend", "d", vec![]),
        make("react-native", "mobile", "d", vec![]),
    ]);
    let mobile = registry.by_category("mobile");
    assert_eq!(mobile.len(), 2);
    assert!(mobile.iter().all(|t| t.template.category == "mobile"));
}

#[test]
fn test_categories_sorted_distinct() {
    let registry = Registry::from_templates(vec![
        make("c", "integration", "d", vec![]),
        make("a", "mobile", "d", vec![]),
        make("b", "mobile", "d", vec![]),
    ]);
    assert_eq!(registry.categories(), vec!["integration", "mobile"]);
}

#[test]
fn test_registry_merge_deduplicates() {
    let mut registry = Registry::from_templates(vec![make("a", "x", "mine", vec![])]);
    let other = Registry::from_templates(vec![
        make("a", "x", "theirs", vec![]),
        make("b", "x", "new", vec![]),
    ]);
    registry.merge(other);
    assert_eq!(registry.templates().len(), 2);
    // the held entry wins over the merged one
    assert_eq!(registry.find("a").unwrap().template.description, "mine");
}

#[test]
fn test_expand_required_templates_pulls_dependencies() {
    let registry = Registry::from_templates(vec![
        make("flutter-app", "mobile", "d", vec![]),
        make("firebase-flutter", "integration", "d", vec!["flutter-app"]),
        make("gcp-project", "cloud", "d", vec![]),
    ]);
    let selected = vec![make("firebase-flutter", "integration", "d", vec!["flutter-app"])];
    let expanded = expand_required_templates(&selected, &registry).unwrap();
    let names: Vec<String> = expanded.iter().map(|t| t.template.name.clone()).collect();
    assert!(names.contains(&"firebase-flutter".to_string()));
    assert!(names.contains(&"flutter-app".to_string()));
    assert_eq!(names.len(), 2);
}

#[test]
fn test_expand_required_templates_missing_dependency() {
    let registry = Registry::from_templates(vec![make("a", "x", "d", vec![])]);
    let selected = vec![make("a", "x", "d", vec!["nowhere"])];
    assert!(expand_required_templates(&selected, &registry).is_err());
}

#[test]
fn test_resolve_recipe_templates() {
    let registry = Registry::from_templates(vec![
        make("a", "x", "d", vec![]),
        make("b", "x", "d", vec![]),
    ]);
    let names = vec!["b".to_string(), "a".to_string(), "b".to_string()];
    let resolved = registry.resolve_recipe_templates(&names).unwrap();
    assert_eq!(resolved.len(), 2);
    assert!(registry
        .resolve_recipe_templates(&vec!["missing".to_string()])
        .is_err());
}

#[test]
fn test_search_templates_matches() {
    let registry = Registry::from_templates(vec![
        make("flutter-app", "mobile", "Flutter scaffold", vec![]),
        make("axum-server", "backend", "Rust API", vec![]),
    ]);
    let results = search_templates(&registry, "flutter");
    assert!(!results.is_empty());
    assert!(results.iter().any(|t| t.template.name.contains("flutter")));
}

#[test]
fn test_search_templates_case_insensitive() {
    let registry = Registry::from_templates(vec![make(
        "flutter-app",
        "mobile",
        "Flutter scaffold",
        vec![],
    )]);
    let results = search_templates(&registry, "FLUTTER");
    assert!(!results.is_empty());
}

#[test]
fn test_search_templates_no_match() {
    let registry = Registry::from_templates(vec![make("a", "x", "d", vec![])]);
    let results = search_templates(&registry, "zzz_nonexistent_zzz");
    assert!(results.is_empty());
}

#[test]
fn test_install_hint_known_and_unknown() {
    assert!(install_hint("flutter").contains("Install Flutter"));
    assert!(install_hint("docker").contains("Install Docker"));
    assert_eq!(install_hint("left-pad"), "Please install this tool and try again");
}
