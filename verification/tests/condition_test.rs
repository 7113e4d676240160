use tforge::condition::evaluate_condition;
use tforge::vars::VarMap;

#[test]
fn test_contains_true() {
    let mut vars = VarMap::new();
    vars.insert("services".into(), "crashlytics,auth,analytics".into());
    assert!(evaluate_condition("services contains 'crashlytics'", &vars).unwrap());
}

#[test]
fn test_contains_false() {
    let mut vars = VarMap::new();
    vars.insert("services".into(), "auth,analytics".into());
    assert!(!evaluate_condition("services contains 'crashlytics'", &vars).unwrap());
}

#[test]
fn test_contains_leading_item() {
    let mut vars = VarMap::new();
    vars.insert("services".into(), "crashlytics,auth".into());
    assert!(evaluate_condition("services contains 'crashlytics'", &vars).unwrap());
}

#[test]
fn test_equals_true() {
    let mut vars = VarMap::new();
    vars.insert("db_engine".into(), "mysql-9.0".into());
    assert!(evaluate_condition("db_engine == 'mysql-9.0'", &vars).unwrap());
}

#[test]
fn test_equals_false() {
    let mut vars = VarMap::new();
    vars.insert("db_engine".into(), "postgres-16".into());
    assert!(!evaluate_condition("db_engine == 'mysql-9.0'", &vars).unwrap());
}

#[test]
fn test_not_equals() {
    let mut vars = VarMap::new();
    vars.insert("db_engine".into(), "postgres-16".into());
    assert!(evaluate_condition("db_engine != 'mysql-9.0'", &vars).unwrap());
    assert!(!evaluate_condition("db_engine != 'postgres-16'", &vars).unwrap());
}

#[test]
fn test_missing_variable() {
    let vars = VarMap::new();
    let result = evaluate_condition("missing contains 'x'", &vars);
    assert!(result.is_err());
    let err = result.unwrap_err();
    assert!(err.message().contains("variable 'missing' not found"));
}

#[test]
fn test_unsupported_syntax() {
    let mut vars = VarMap::new();
    vars.insert("x".into(), "1".into());
    let err = evaluate_condition("x greater 1", &vars).unwrap_err();
    assert!(err.message().contains("unsupported condition syntax"));
}

#[test]
fn test_double_quoted_value() {
    let mut vars = VarMap::new();
    vars.insert("target".into(), "prod".into());
    assert!(evaluate_condition("target == \"prod\"", &vars).unwrap());
}

#[test]
fn test_contains_trims_pieces() {
    let mut vars = VarMap::new();
    vars.insert("services".into(), " auth , analytics ".into());
    assert!(evaluate_condition("services contains 'analytics'", &vars).unwrap());
}
