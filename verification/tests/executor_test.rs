use tempfile::TempDir;
use tforge::executor::interpret_check_outcome;
use tforge::executor::interpret_command_outcome;
use tforge::executor::plan_main_action;
use tforge::executor::MainAction;
use tforge::executor::RunOutcome;
use tforge::executor::StepContext;
use tforge::executor::StepResult;
use tforge::types::StepDef;
use tforge::vars::VarMap;

fn make_command_step(cmd: &str) -> StepDef {
    StepDef {
        step_type: "command".to_string(),
        command: Some(cmd.to_string()),
        condition: None,
        check: None,
        working_dir: None,
        action: None,
        source: None,
        url: None,
    }
}

fn sh_outcome(command: &str, dir: &str) -> RunOutcome {
    match duct::cmd("sh", vec!["-c".to_string(), command.to_string()])
        .dir(dir)
        .stdout_capture()
        .stderr_capture()
        .unchecked()
        .run()
    {
        Ok(o) => RunOutcome::Ran {
            success: o.status.success(),
            stderr: String::from_utf8_lossy(&o.stderr).into_owned(),
        },
        Err(e) => RunOutcome::LaunchFailed { message: e.to_string() },
    }
}

#[test]
fn test_execute_simple_command() {
    let tmp = TempDir::new().unwrap();
    let ctx = StepContext {
        project_dir: tmp.path().to_str().unwrap().to_string(),
        vars: VarMap::new(),
    };
    let step = make_command_step("echo hello");
    let (command, working_dir) = match plan_main_action(&step, &ctx).unwrap() {
        MainAction::RunCommand { command, working_dir } => (command, working_dir),
        other => panic!("expected a command action, got {other:?}"),
    };
    let result = interpret_command_outcome(&command, sh_outcome(&command, &working_dir));
    assert_eq!(result.unwrap(), StepResult::Executed);
}

#[test]
fn test_execute_command_with_working_dir() {
    let tmp = TempDir::new().unwrap();
    let root = tmp.path().to_str().unwrap().to_string();
    duct::cmd("sh", vec!["-c".to_string(), "mkdir subdir".to_string()])
        .dir(&root)
        .run()
        .unwrap();

    let ctx = StepContext { project_dir: root.clone(), vars: VarMap::new() };
    let mut step = make_command_step("pwd");
    step.working_dir = Some("subdir".to_string());
    let (command, working_dir) = match plan_main_action(&step, &ctx).unwrap() {
        MainAction::RunCommand { command, working_dir } => (command, working_dir),
        other => panic!("expected a command action, got {other:?}"),
    };
    assert_eq!(working_dir, format!("{root}/subdir"));
    let result = interpret_command_outcome(&command, sh_outcome(&command, &working_dir));
    assert!(result.is_ok());
}

#[test]
fn test_execute_failing_command() {
    let tmp = TempDir::new().unwrap();
    let ctx = StepContext {
        project_dir: tmp.path().to_str().unwrap().to_string(),
        vars: VarMap::new(),
    };
    let step = make_command_step("false");
    let (command, working_dir) = match plan_main_action(&step, &ctx).unwrap() {
        MainAction::RunCommand { command, working_dir } => (command, working_dir),
        other => panic!("expected a command action, got {other:?}"),
    };
    let result = interpret_command_outcome(&command, sh_outcome(&command, &working_dir));
    assert!(result.is_err());
}

#[test]
fn test_execute_with_check_skips() {
    let tmp = TempDir::new().unwrap();
    let dir = tmp.path().to_str().unwrap().to_string();
    duct::cmd("sh", vec!["-c".to_string(), "echo hi > exists.txt".to_string()])
        .dir(&dir)
        .run()
        .unwrap();

    // a passing idempotency check skips the main action entirely
    let check_passed = match sh_outcome("test -f exists.txt", &dir) {
        RunOutcome::Ran { success, .. } => success,
        RunOutcome::LaunchFailed { .. } => false,
    };
    assert_eq!(interpret_check_outcome(check_passed), Some(StepResult::Skipped));
}

#[test]
fn test_missing_command_field_fails_lazily() {
    let tmp = TempDir::new().unwrap();
    let ctx = StepContext {
        project_dir: tmp.path().to_str().unwrap().to_string(),
        vars: VarMap::new(),
    };
    let mut step = make_command_step("unused");
    step.command = None;
    let err = plan_main_action(&step, &ctx).unwrap_err();
    assert!(err.message().contains("command step missing 'command' field"));
}

#[test]
fn test_git_step_requires_url() {
    let tmp = TempDir::new().unwrap();
    let ctx = StepContext {
        project_dir: tmp.path().to_str().unwrap().to_string(),
        vars: VarMap::new(),
    };
    let mut step = make_command_step("unused");
    step.step_type = "git".to_string();
    step.command = None;
    let err = plan_main_action(&step, &ctx).unwrap_err();
    assert!(err.message().contains("git step missing 'url' field"));
}
