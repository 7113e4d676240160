//! Step executor logic: given one fully-rendered step, determine the
//! working directory and the external action its type tag calls for, honor
//! the optional idempotency check, and interpret the action's outcome.
//!
//! The process launches themselves are performed by the engine's driver;
//! this module decides what to run and what each result means.

use crate::strutil::str_eq;
use crate::types::StepDef;
use crate::vars::VarMap;
use vstd::prelude::*;

verus! {

/// Execution context for a step: the project root and the (read-only)
/// variable bindings.
pub struct StepContext {
    pub project_dir: String,
    pub vars: VarMap,
}

/// How a step concluded: its action ran, or the idempotency check already
/// passed and the action was skipped.
#[derive(Debug, PartialEq, Eq, Structural, Clone, Copy)]
pub enum StepResult {
    Executed,
    Skipped,
}

/// The external action a step's type tag calls for.
#[derive(Debug)]
pub enum MainAction {
    /// Run the command through a system shell in the working directory.
    RunCommand { command: String, working_dir: String },
    /// Shallow-clone the repository into the working directory.
    RunClone { url: String, working_dir: String },
    /// The reserved `bundled` stub: succeed with no action.
    NoAction,
}

/// An error from dispatching or running one step.
#[derive(Debug)]
pub enum StepError {
    /// A `command` step without a command body.
    MissingCommand,
    /// A `git` step without a repository URL.
    MissingUrl,
    /// A type tag outside the closed set.
    UnknownStepType { step_type: String },
    /// The command ran and exited non-zero; carries the captured stderr.
    CommandFailed { command: String, stderr: String },
    /// The clone ran and exited non-zero; carries the captured stderr.
    CloneFailed { url: String, stderr: String },
    /// The process could not be launched at all.
    LaunchFailed { message: String },
}

/// The joined working directory: the root itself without an override; an
/// absolute override stands alone, a relative one goes under the root.
pub open spec fn spec_join_path(base: Seq<char>, rel: Seq<char>) -> Seq<char> {
    if rel.len() > 0 && rel[0] == '/' {
        rel
    } else {
        base + seq!['/'] + rel
    }
}

/// Join a path onto a base directory.
pub fn join_path(base: &str, rel: &str) -> (r: String)
    ensures
        r@ == spec_join_path(base@, rel@),
{
    let rlen = rel.unicode_len();
    if rlen > 0 && rel.get_char(0) == '/' {
        return rel.to_owned();
    }
    let mut out = base.to_owned();
    out.append("/");
    out.append(rel);
    proof {
        reveal_strlit("/");
        assert("/"@ =~= seq!['/']);
        assert(out@ =~= spec_join_path(base@, rel@));
    }
    out
}

/// The working directory of a (rendered) step under the project root.
pub open spec fn spec_working_dir(project_dir: Seq<char>, working_dir: Option<String>) -> Seq<
    char,
> {
    match working_dir {
        Some(wd) => spec_join_path(project_dir, wd@),
        None => project_dir,
    }
}

/// Determine a step's working directory.
pub fn working_dir_of(step: &StepDef, ctx: &StepContext) -> (r: String)
    ensures
        r@ == spec_working_dir(ctx.project_dir@, step.working_dir),
{
    match &step.working_dir {
        Some(wd) => join_path(ctx.project_dir.as_str(), wd.as_str()),
        None => ctx.project_dir.clone(),
    }
}

/// What dispatching a step's type tag yields.
pub enum SpecPlan {
    Command(Seq<char>, Seq<char>),
    Clone(Seq<char>, Seq<char>),
    Nothing,
    MissingCommand,
    MissingUrl,
    Unknown,
}

/// The dispatch of a (rendered) step by its type tag, with the fields its
/// type requires validated lazily, at this point.
pub open spec fn spec_plan(step: StepDef, dir: Seq<char>) -> SpecPlan {
    if step.step_type@ == "command"@ {
        match step.command {
            Some(c) => SpecPlan::Command(c@, dir),
            None => SpecPlan::MissingCommand,
        }
    } else if step.step_type@ == "bundled"@ {
        SpecPlan::Nothing
    } else if step.step_type@ == "git"@ {
        match step.url {
            Some(u) => SpecPlan::Clone(u@, dir),
            None => SpecPlan::MissingUrl,
        }
    } else {
        SpecPlan::Unknown
    }
}

/// Dispatch a (rendered) step: the external action its type calls for, or
/// the validation error its type implies.
pub fn plan_main_action(step: &StepDef, ctx: &StepContext) -> (r: Result<MainAction, StepError>)
    ensures
        ({
            let dir = spec_working_dir(ctx.project_dir@, step.working_dir);
            match spec_plan(*step, dir) {
                SpecPlan::Command(c, d) => match r {
                    Ok(MainAction::RunCommand { command, working_dir }) => command@ == c
                        && working_dir@ == d,
                    _ => false,
                },
                SpecPlan::Clone(u, d) => match r {
                    Ok(MainAction::RunClone { url, working_dir }) => url@ == u && working_dir@
                        == d,
                    _ => false,
                },
                SpecPlan::Nothing => r matches Ok(MainAction::NoAction),
                SpecPlan::MissingCommand => r matches Err(StepError::MissingCommand),
                SpecPlan::MissingUrl => r matches Err(StepError::MissingUrl),
                SpecPlan::Unknown => match r {
                    Err(StepError::UnknownStepType { step_type }) => step_type@
                        == step.step_type@,
                    _ => false,
                },
            }
        }),
{
    let dir = working_dir_of(step, ctx);
    if str_eq(step.step_type.as_str(), "command") {
        match &step.command {
            Some(c) => Ok(MainAction::RunCommand { command: c.clone(), working_dir: dir }),
            None => Err(StepError::MissingCommand),
        }
    } else if str_eq(step.step_type.as_str(), "bundled") {
        Ok(MainAction::NoAction)
    } else if str_eq(step.step_type.as_str(), "git") {
        match &step.url {
            Some(u) => Ok(MainAction::RunClone { url: u.clone(), working_dir: dir }),
            None => Err(StepError::MissingUrl),
        }
    } else {
        Err(StepError::UnknownStepType { step_type: step.step_type.clone() })
    }
}

/// How an attempted process run concluded, as reported by the driver.
#[derive(Debug)]
pub enum RunOutcome {
    /// The process ran to completion with this exit success and stderr.
    Ran { success: bool, stderr: String },
    /// The process could not be launched.
    LaunchFailed { message: String },
}

/// Interpret the outcome of a step's shell command: success executes the
/// step, a non-zero exit fails it with the captured stderr.
pub fn interpret_command_outcome(command: &str, outcome: RunOutcome) -> (r: Result<
    StepResult,
    StepError,
>)
    ensures
        match outcome {
            RunOutcome::Ran { success, stderr } => {
                if success {
                    r matches Ok(StepResult::Executed)
                } else {
                    match r {
                        Err(StepError::CommandFailed { command: c, stderr: s }) => c@ == command@
                            && s@ == stderr@,
                        _ => false,
                    }
                }
            },
            RunOutcome::LaunchFailed { message } => match r {
                Err(StepError::LaunchFailed { message: m }) => m@ == message@,
                _ => false,
            },
        },
{
    match outcome {
        RunOutcome::Ran { success, stderr } => {
            if success {
                Ok(StepResult::Executed)
            } else {
                Err(StepError::CommandFailed { command: command.to_owned(), stderr })
            }
        },
        RunOutcome::LaunchFailed { message } => Err(StepError::LaunchFailed { message }),
    }
}

/// Interpret the outcome of a step's shallow clone, as
/// `interpret_command_outcome` does for commands.
pub fn interpret_clone_outcome(url: &str, outcome: RunOutcome) -> (r: Result<
    StepResult,
    StepError,
>)
    ensures
        match outcome {
            RunOutcome::Ran { success, stderr } => {
                if success {
                    r matches Ok(StepResult::Executed)
                } else {
                    match r {
                        Err(StepError::CloneFailed { url: u, stderr: s }) => u@ == url@ && s@
                            == stderr@,
                        _ => false,
                    }
                }
            },
            RunOutcome::LaunchFailed { message } => match r {
                Err(StepError::LaunchFailed { message: m }) => m@ == message@,
                _ => false,
            },
        },
{
    match outcome {
        RunOutcome::Ran { success, stderr } => {
            if success {
                Ok(StepResult::Executed)
            } else {
                Err(StepError::CloneFailed { url: url.to_owned(), stderr })
            }
        },
        RunOutcome::LaunchFailed { message } => Err(StepError::LaunchFailed { message }),
    }
}

/// A passing idempotency check skips the step's main action entirely.
pub fn interpret_check_outcome(passed: bool) -> (r: Option<StepResult>)
    ensures
        passed <==> r == Some(StepResult::Skipped),
        !passed <==> r is None,
{
    if passed {
        Some(StepResult::Skipped)
    } else {
        None
    }
}

impl StepError {
    /// Render the error as text.
    pub fn message(&self) -> (r: String)
        ensures
            match self {
                StepError::MissingCommand => r@ == "command step missing 'command' field"@,
                StepError::MissingUrl => r@ == "git step missing 'url' field"@,
                StepError::UnknownStepType { step_type } => r@ == "unknown step type: "@
                    + step_type@,
                StepError::CommandFailed { command, stderr } => r@ == "command failed: "@
                    + command@ + "\n"@ + stderr@,
                StepError::CloneFailed { url, stderr } => r@ == "git clone failed: "@ + url@
                    + "\n"@ + stderr@,
                StepError::LaunchFailed { message } => r@ == "failed to launch process: "@
                    + message@,
            },
    {
        let mut s = String::new();
        match self {
            StepError::MissingCommand => {
                s.append("command step missing 'command' field");
                proof {
                    assert(s@ =~= "command step missing 'command' field"@);
                }
            },
            StepError::MissingUrl => {
                s.append("git step missing 'url' field");
                proof {
                    assert(s@ =~= "git step missing 'url' field"@);
                }
            },
            StepError::UnknownStepType { step_type } => {
                s.append("unknown step type: ");
                s.append(step_type.as_str());
                proof {
                    assert(s@ =~= "unknown step type: "@ + step_type@);
                }
            },
            StepError::CommandFailed { command, stderr } => {
                s.append("command failed: ");
                s.append(command.as_str());
                s.append("\n");
                s.append(stderr.as_str());
                proof {
                    assert(s@ =~= "command failed: "@ + command@ + "\n"@ + stderr@);
                }
            },
            StepError::CloneFailed { url, stderr } => {
                s.append("git clone failed: ");
                s.append(url.as_str());
                s.append("\n");
                s.append(stderr.as_str());
                proof {
                    assert(s@ =~= "git clone failed: "@ + url@ + "\n"@ + stderr@);
                }
            },
            StepError::LaunchFailed { message } => {
                s.append("failed to launch process: ");
                s.append(message.as_str());
                proof {
                    assert(s@ =~= "failed to launch process: "@ + message@);
                }
            },
        }
        s
    }
}

} // verus!
