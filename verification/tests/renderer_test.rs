use tforge::renderer::Renderer;
use tforge::vars::VarMap;

#[test]
fn test_render_simple_variable() {
    let mut vars = VarMap::new();
    vars.insert("project_name".into(), "my-app".into());
    let renderer = Renderer::new();
    let out = renderer.render_string("hello {{project_name}}", &vars).unwrap();
    assert_eq!(out, "hello my-app");
}

#[test]
fn test_render_multiple_variables() {
    let mut vars = VarMap::new();
    vars.insert("org".into(), "com.example".into());
    vars.insert("project_name".into(), "my-app".into());
    let renderer = Renderer::new();
    let out = renderer
        .render_string("flutter create --org {{org}} {{project_name}}", &vars)
        .unwrap();
    assert_eq!(out, "flutter create --org com.example my-app");
}

#[test]
fn test_render_with_join_filter() {
    let mut vars = VarMap::new();
    vars.insert("platforms".into(), "ios,android".into());
    let renderer = Renderer::new();
    let out = renderer.render_string("--platforms {{platforms}}", &vars).unwrap();
    assert_eq!(out, "--platforms ios,android");
}

#[test]
fn test_render_missing_variable_errors() {
    let vars = VarMap::new();
    let renderer = Renderer::new();
    let result = renderer.render_string("hello {{missing}}", &vars);
    assert!(result.is_err());
}
