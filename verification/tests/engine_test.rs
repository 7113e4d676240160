use tempfile::TempDir;
use tforge::engine::Engine;
use tforge::engine::EngineAction;
use tforge::engine::PipelineRun;
use tforge::executor::RunOutcome;
use tforge::state::PipelineState;
use tforge::state::StepState;
use tforge::types::Dependencies;
use tforge::types::Provider;
use tforge::types::StepDef;
use tforge::types::TemplateInfo;
use tforge::types::TemplateManifest;
use tforge::vars::VarMap;

fn make_manifest(name: &str, requires: Vec<&str>, steps: Vec<StepDef>) -> TemplateManifest {
    TemplateManifest {
        template: TemplateInfo {
            name: name.to_string(),
            description: name.to_string(),
            category: "test".to_string(),
            provider: Provider::Command,
        },
        dependencies: Dependencies {
            required_tools: vec![],
            requires_templates: requires.iter().map(|r| r.to_string()).collect(),
        },
        parameters: vec![],
        steps,
    }
}

fn step(command: &str) -> StepDef {
    StepDef {
        step_type: "command".to_string(),
        command: Some(command.to_string()),
        condition: None,
        check: None,
        working_dir: None,
        action: None,
        source: None,
        url: None,
    }
}

fn sh_passes(command: &str, dir: &str) -> bool {
    duct::cmd("sh", vec!["-c".to_string(), command.to_string()])
        .dir(dir)
        .stdout_capture()
        .stderr_capture()
        .unchecked()
        .run()
        .map(|o| o.status.success())
        .unwrap_or(false)
}

fn sh_outcome(command: &str, dir: &str) -> RunOutcome {
    match duct::cmd("sh", vec!["-c".to_string(), command.to_string()])
        .dir(dir)
        .stdout_capture()
        .stderr_capture()
        .unchecked()
        .run()
    {
        Ok(o) => RunOutcome::Ran {
            success: o.status.success(),
            stderr: String::from_utf8_lossy(&o.stderr).into_owned(),
        },
        Err(e) => RunOutcome::LaunchFailed { message: e.to_string() },
    }
}

/// Drive a run to its end, performing its actions through a real shell.
/// Returns the terminal result and the last persisted state record.
fn drive(run: &mut PipelineRun) -> (Result<(), String>, Option<String>) {
    let mut persisted: Option<String> = None;
    let mut action = run.next_action();
    loop {
        match action {
            EngineAction::RunCheck { command, working_dir } => {
                let passed = sh_passes(&command, &working_dir);
                action = run.check_done(passed);
            }
            EngineAction::RunCommand { command, working_dir } => {
                let outcome = sh_outcome(&command, &working_dir);
                action = run.main_done(outcome);
            }
            EngineAction::RunClone { url, .. } => {
                let outcome = RunOutcome::Ran {
                    success: false,
                    stderr: format!("no cloning of {url} in tests"),
                };
                action = run.main_done(outcome);
            }
            EngineAction::PersistState { content } => {
                persisted = Some(content);
                action = run.persist_done(true);
            }
            EngineAction::Done { result } => {
                return (result.map_err(|e| e.message()), persisted);
            }
        }
    }
}

fn file_exists(dir: &str, rel: &str) -> bool {
    sh_passes(&format!("test -f '{rel}'"), dir)
}

fn read_file(dir: &str, rel: &str) -> String {
    duct::cmd("sh", vec!["-c".to_string(), format!("cat '{rel}'")])
        .dir(dir)
        .read()
        .unwrap()
}

#[test]
fn test_engine_runs_single_template() {
    let tmp = TempDir::new().unwrap();
    let dir = tmp.path().to_str().unwrap().to_string();
    let manifest = make_manifest(
        "test",
        vec![],
        vec![step("mkdir -p app && echo 'hello' > app/README.md")],
    );

    let mut vars = VarMap::new();
    vars.insert("project_name".into(), "test-project".into());

    let engine = Engine::new(dir.clone());
    let mut run = engine.run(vec![manifest], vars).unwrap();
    let (result, _) = drive(&mut run);
    result.unwrap();

    assert!(file_exists(&dir, "app/README.md"));
}

#[test]
fn test_engine_respects_dependency_order() {
    let tmp = TempDir::new().unwrap();
    let dir = tmp.path().to_str().unwrap().to_string();

    let first = make_manifest("base", vec![], vec![step("echo 'first' > order.txt")]);
    let second = make_manifest("addon", vec!["base"], vec![step("echo 'second' >> order.txt")]);

    let engine = Engine::new(dir.clone());
    let mut run = engine.run(vec![second, first], VarMap::new()).unwrap();
    let (result, _) = drive(&mut run);
    result.unwrap();

    let content = read_file(&dir, "order.txt");
    assert!(content.contains("first"));
    assert!(content.contains("second"));
    let first_pos = content.find("first").unwrap();
    let second_pos = content.find("second").unwrap();
    assert!(first_pos < second_pos);
}

#[test]
fn test_engine_skips_conditional_steps() {
    let tmp = TempDir::new().unwrap();
    let dir = tmp.path().to_str().unwrap().to_string();

    let mut step_a = step("touch a.txt");
    step_a.condition = Some("services contains 'a'".to_string());
    let mut step_b = step("touch b.txt");
    step_b.condition = Some("services contains 'b'".to_string());
    let manifest = make_manifest("cond", vec![], vec![step_a, step_b]);

    let mut vars = VarMap::new();
    vars.insert("services".into(), "a".into());

    let engine = Engine::new(dir.clone());
    let mut run = engine.run(vec![manifest], vars).unwrap();
    let (result, _) = drive(&mut run);
    result.unwrap();

    assert!(file_exists(&dir, "a.txt"));
    assert!(!file_exists(&dir, "b.txt"));
}

#[test]
fn test_engine_maps_appengine_target_directory() {
    let tmp = TempDir::new().unwrap();
    let dir = tmp.path().to_str().unwrap().to_string();

    let script = "TARGET_DIR=\".\"\n\
        if [ \"{{deploy_target}}\" = \"flutter-app\" ]; then\n\
          TARGET_DIR=\"{{project_name}}\"\n\
        elif [ \"{{deploy_target}}\" = \"axum-server\" ]; then\n\
          TARGET_DIR=\"{{project_name}}-server\"\n\
        elif [ \"{{deploy_target}}\" = \"custom-path\" ]; then\n\
          TARGET_DIR=\"{{deploy_target_path}}\"\n\
        fi\n\
        mkdir -p \"$TARGET_DIR\"\n\
        echo \"runtime: python312\" > \"$TARGET_DIR/app.yaml\"\n";
    let manifest = make_manifest("appengine-target", vec![], vec![step(script)]);

    let mut vars = VarMap::new();
    vars.insert("project_name".into(), "demo".into());
    vars.insert("deploy_target".into(), "axum-server".into());
    vars.insert("deploy_target_path".into(), "custom/api".into());

    let engine = Engine::new(dir.clone());
    let mut run = engine.run(vec![manifest], vars).unwrap();
    let (result, _) = drive(&mut run);
    result.unwrap();

    assert!(file_exists(&dir, "demo-server/app.yaml"));
}

#[test]
fn test_engine_respects_deploy_profile_condition() {
    let mut gated = step("touch deployed.txt");
    gated.condition = Some("deploy_now == 'true'".to_string());
    let manifest = make_manifest("appengine-deploy", vec![], vec![gated]);

    let tmp_false = TempDir::new().unwrap();
    let dir_false = tmp_false.path().to_str().unwrap().to_string();
    let mut vars_false = VarMap::new();
    vars_false.insert("deploy_now".into(), "false".into());
    let mut run = Engine::new(dir_false.clone())
        .run(vec![manifest.duplicate()], vars_false)
        .unwrap();
    drive(&mut run).0.unwrap();
    assert!(!file_exists(&dir_false, "deployed.txt"));

    let tmp_true = TempDir::new().unwrap();
    let dir_true = tmp_true.path().to_str().unwrap().to_string();
    let mut vars_true = VarMap::new();
    vars_true.insert("deploy_now".into(), "true".into());
    let mut run = Engine::new(dir_true.clone()).run(vec![manifest], vars_true).unwrap();
    drive(&mut run).0.unwrap();
    assert!(file_exists(&dir_true, "deployed.txt"));
}

#[test]
fn test_engine_resume_skips_completed_steps() {
    let tmp = TempDir::new().unwrap();
    let dir = tmp.path().to_str().unwrap().to_string();

    let manifest = make_manifest(
        "t",
        vec![],
        vec![step("touch ran_first.txt"), step("touch ran_second.txt")],
    );

    // step 0 is already recorded Completed: resuming must not re-run it,
    // so its side effect never appears
    let mut state = PipelineState::new();
    state.mark_completed("t", 0);

    let engine = Engine::new(dir.clone());
    let mut run = engine.run_with_state(vec![manifest], VarMap::new(), state, true).unwrap();
    let (result, persisted) = drive(&mut run);
    result.unwrap();

    assert!(!file_exists(&dir, "ran_first.txt"));
    assert!(file_exists(&dir, "ran_second.txt"));

    let final_state = PipelineState::deserialize(persisted.unwrap().as_str()).unwrap();
    assert_eq!(final_state.get("t", 0), StepState::Completed);
    assert_eq!(final_state.get("t", 1), StepState::Completed);
}

#[test]
fn test_engine_check_skips_main_action() {
    let tmp = TempDir::new().unwrap();
    let dir = tmp.path().to_str().unwrap().to_string();
    sh_passes("touch exists.txt", &dir);

    let mut checked = step("touch should_not_appear.txt");
    checked.check = Some("test -f exists.txt".to_string());
    let manifest = make_manifest("t", vec![], vec![checked]);

    let engine = Engine::new(dir.clone());
    let mut run = engine.run(vec![manifest], VarMap::new()).unwrap();
    drive(&mut run).0.unwrap();

    assert!(!file_exists(&dir, "should_not_appear.txt"));
}

#[test]
fn test_engine_failure_halts_and_records() {
    let tmp = TempDir::new().unwrap();
    let dir = tmp.path().to_str().unwrap().to_string();

    let good = make_manifest("base", vec![], vec![step("touch before.txt")]);
    let bad = make_manifest(
        "breaks",
        vec!["base"],
        vec![step("false"), step("touch after.txt")],
    );

    let engine = Engine::new(dir.clone());
    let mut run = engine
        .run_with_state(vec![good, bad], VarMap::new(), PipelineState::new(), false)
        .unwrap();
    let (result, persisted) = drive(&mut run);
    let message = result.unwrap_err();
    assert!(message.contains("[breaks] step 1 (command) failed"));

    // the run aborted at the failing step: later steps never ran
    assert!(file_exists(&dir, "before.txt"));
    assert!(!file_exists(&dir, "after.txt"));

    let final_state = PipelineState::deserialize(persisted.unwrap().as_str()).unwrap();
    assert_eq!(final_state.get("base", 0), StepState::Completed);
    assert!(matches!(final_state.get("breaks", 0), StepState::Failed(_)));
    assert_eq!(final_state.get("breaks", 1), StepState::Pending);
}

#[test]
fn test_engine_bundled_step_is_a_no_op() {
    let tmp = TempDir::new().unwrap();
    let dir = tmp.path().to_str().unwrap().to_string();

    let mut bundled = step("ignored");
    bundled.step_type = "bundled".to_string();
    bundled.command = None;
    let manifest = make_manifest("t", vec![], vec![bundled, step("touch done.txt")]);

    let engine = Engine::new(dir.clone());
    let mut run = engine.run(vec![manifest], VarMap::new()).unwrap();
    drive(&mut run).0.unwrap();
    assert!(file_exists(&dir, "done.txt"));
}

#[test]
fn test_engine_unknown_step_type_fails() {
    let tmp = TempDir::new().unwrap();
    let dir = tmp.path().to_str().unwrap().to_string();

    let mut odd = step("echo hi");
    odd.step_type = "mystery".to_string();
    let manifest = make_manifest("t", vec![], vec![odd]);

    let engine = Engine::new(dir.clone());
    let mut run = engine.run(vec![manifest], VarMap::new()).unwrap();
    let (result, _) = drive(&mut run);
    let message = result.unwrap_err();
    assert!(message.contains("unknown step type: mystery"));
}

#[test]
fn test_engine_rejects_dependency_cycle() {
    let a = make_manifest("a", vec!["b"], vec![step("echo a")]);
    let b = make_manifest("b", vec!["a"], vec![step("echo b")]);
    let engine = Engine::new(".".to_string());
    let result = engine.run(vec![a, b], VarMap::new());
    assert!(result.is_err());
}

#[test]
fn test_engine_failed_state_write_halts() {
    let manifest = make_manifest("t", vec![], vec![step("echo hi")]);
    let engine = Engine::new(".".to_string());
    let mut run = engine
        .run_with_state(vec![manifest], VarMap::new(), PipelineState::new(), false)
        .unwrap();
    // a fresh persisted run writes its empty record first; refusing the
    // write ends the run at once
    match run.next_action() {
        EngineAction::PersistState { .. } => {}
        other => panic!("expected the initial state write, got {other:?}"),
    }
    match run.persist_done(false) {
        EngineAction::Done { result } => {
            let message = result.unwrap_err().message();
            assert!(message.contains("failed to save pipeline state"));
        }
        other => panic!("expected the run to end, got {other:?}"),
    }
}
