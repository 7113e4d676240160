use tforge::resolver::resolve_order;
use tforge::types::Dependencies;
use tforge::types::Provider;
use tforge::types::StepDef;
use tforge::types::TemplateInfo;
use tforge::types::TemplateManifest;

fn make_manifest(name: &str, requires: Vec<&str>) -> TemplateManifest {
    TemplateManifest {
        template: TemplateInfo {
            name: name.to_string(),
            description: "test".to_string(),
            category: "test".to_string(),
            provider: Provider::Command,
        },
        dependencies: Dependencies {
            required_tools: vec![],
            requires_templates: requires.iter().map(|r| r.to_string()).collect(),
        },
        parameters: vec![],
        steps: vec![StepDef {
            step_type: "command".to_string(),
            command: Some(format!("echo {name}")),
            condition: None,
            check: None,
            working_dir: None,
            action: None,
            source: None,
            url: None,
        }],
    }
}

#[test]
fn test_no_dependencies() {
    let templates = vec![make_manifest("a", vec![])];
    let order = resolve_order(&templates).unwrap();
    assert_eq!(order, vec!["a"]);
}

#[test]
fn test_simple_dependency() {
    let templates = vec![
        make_manifest("firebase-flutter", vec!["flutter-app"]),
        make_manifest("flutter-app", vec![]),
    ];
    let order = resolve_order(&templates).unwrap();
    let a_pos = order.iter().position(|n| n == "flutter-app").unwrap();
    let b_pos = order.iter().position(|n| n == "firebase-flutter").unwrap();
    assert!(a_pos < b_pos);
}

#[test]
fn test_chain_dependency() {
    let templates = vec![
        make_manifest("gcp-cloudsql", vec!["gcp-project"]),
        make_manifest("gcp-project", vec![]),
        make_manifest("axum-server", vec![]),
    ];
    let order = resolve_order(&templates).unwrap();
    let proj_pos = order.iter().position(|n| n == "gcp-project").unwrap();
    let sql_pos = order.iter().position(|n| n == "gcp-cloudsql").unwrap();
    assert!(proj_pos < sql_pos);
}

#[test]
fn test_circular_dependency_errors() {
    let templates = vec![make_manifest("a", vec!["b"]), make_manifest("b", vec!["a"])];
    let result = resolve_order(&templates);
    assert!(result.is_err());
    let err = result.unwrap_err();
    assert!(err.message().contains("circular dependency detected involving"));
}

#[test]
fn test_outside_dependency_is_ignored() {
    let templates = vec![make_manifest("a", vec!["somewhere-else"])];
    let order = resolve_order(&templates).unwrap();
    assert_eq!(order, vec!["a"]);
}

#[test]
fn test_cycle_error_names_a_cycle_member() {
    let templates = vec![
        make_manifest("standalone", vec![]),
        make_manifest("a", vec!["b"]),
        make_manifest("b", vec!["a"]),
    ];
    let err = resolve_order(&templates).unwrap_err();
    assert!(err.name == "a" || err.name == "b");
}
