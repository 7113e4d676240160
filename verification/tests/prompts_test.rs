use tforge::prompts::parameter_keys_in_prompt_order;
use tforge::prompts::should_prompt_parameter;
use tforge::types::Dependencies;
use tforge::types::ParamDef;
use tforge::types::ParamType;
use tforge::types::ParamValue;
use tforge::types::Provider;
use tforge::types::TemplateInfo;
use tforge::types::TemplateManifest;
use tforge::vars::VarMap;

fn info(name: &str) -> TemplateInfo {
    TemplateInfo {
        name: name.to_string(),
        description: "test".to_string(),
        category: "test".to_string(),
        provider: Provider::Command,
    }
}

fn string_param(prompt: &str) -> ParamDef {
    ParamDef {
        param_type: ParamType::String,
        prompt: prompt.to_string(),
        default: None,
        options: vec![],
        when: None,
    }
}

#[test]
fn test_parameter_prompt_order_is_lexical() {
    let manifest = TemplateManifest {
        template: info("ordered"),
        dependencies: Dependencies { required_tools: vec![], requires_templates: vec![] },
        parameters: vec![
            ("zeta".to_string(), string_param("z")),
            ("alpha".to_string(), string_param("a")),
            ("beta".to_string(), string_param("b")),
        ],
        steps: vec![],
    };

    assert_eq!(parameter_keys_in_prompt_order(&manifest), vec!["alpha", "beta", "zeta"]);
}

#[test]
fn test_prompt_condition_respects_current_vars() {
    let promote_traffic = ParamDef {
        param_type: ParamType::Bool,
        prompt: "Promote traffic?".to_string(),
        default: Some(ParamValue::Flag(true)),
        options: vec![],
        when: Some("deploy_now == 'true'".to_string()),
    };

    let mut vars = VarMap::new();
    vars.insert("deploy_now".to_string(), "false".to_string());
    assert!(
        !should_prompt_parameter("gcp-appengine", "promote_traffic", &promote_traffic, &vars)
            .unwrap()
    );

    vars.insert("deploy_now".to_string(), "true".to_string());
    assert!(
        should_prompt_parameter("gcp-appengine", "promote_traffic", &promote_traffic, &vars)
            .unwrap()
    );
}

#[test]
fn test_prompt_condition_missing_variable_returns_contextual_error() {
    let runtime_standard = ParamDef {
        param_type: ParamType::Select,
        prompt: "Runtime".to_string(),
        default: None,
        options: vec!["python312".to_string()],
        when: Some("appengine_environment == 'standard'".to_string()),
    };

    let err = should_prompt_parameter(
        "gcp-appengine",
        "runtime_standard",
        &runtime_standard,
        &VarMap::new(),
    )
    .unwrap_err();
    let err_msg = err.message();

    assert!(err_msg.contains("template 'gcp-appengine' parameter 'runtime_standard'"));
    assert!(err_msg.contains("variable 'appengine_environment' not found"));
}

#[test]
fn test_prompt_without_condition_is_asked() {
    let plain = string_param("Organization?");
    assert!(should_prompt_parameter("t", "org", &plain, &VarMap::new()).unwrap());
}
