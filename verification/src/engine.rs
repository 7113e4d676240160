//! Orchestrator: drives a pipeline run in a single control loop.
//!
//! The engine holds the run's whole decision logic — dependency order,
//! resume skipping, condition gating, rendering, dispatch, and state
//! recording — while every external effect (a process launch, a state-file
//! write) is returned to the caller as an explicit action.  The caller
//! performs the action and hands its outcome back; the run ends with a
//! `Done` action carrying the terminal result.

use crate::condition::{evaluate_condition, spec_eval_condition, CondError, CondOutcome};
use crate::executor::{
    interpret_check_outcome, interpret_clone_outcome, interpret_command_outcome, plan_main_action,
    spec_plan, spec_working_dir, working_dir_of, MainAction, RunOutcome, SpecPlan, StepContext,
    StepResult,
};
use crate::renderer::{render_of, Renderer};
use crate::resolver::{
    find_by_name, lemma_covers_names, names_view, resolve_order, spec_cycle, tmpl_name,
    unique_names, valid_order,
};
use crate::state::etm;
use crate::statefmt::{bounded_entries, enc_state, SpecEntry};
use crate::state::{PipelineState, StepState};
use crate::statefmt::SpecStatus;
use crate::types::{clone_opt_string, StepDef, TemplateManifest};
use crate::vars::VarMap;
use vstd::prelude::*;

verus! {

/// Which step field failed to render.
#[derive(Debug, PartialEq, Eq, Structural, Clone, Copy)]
pub enum RenderField {
    Condition,
    Command,
    WorkingDir,
    Check,
}

/// A failure that ends a run.
#[derive(Debug)]
pub enum EngineError {
    /// The template set holds a dependency cycle at this template.
    CircularDependency { name: String },
    /// The resolved order names a template the set does not hold.
    TemplateNotFound { name: String },
    /// A step field failed to render.
    RenderFailed { template: String, step_number: usize, field: RenderField, message: String },
    /// A step's condition failed to evaluate.
    ConditionFailed { template: String, step_number: usize, inner: CondError },
    /// A step was reached and failed; the run stops here.
    StepFailed { template: String, step_number: usize, step_type: String, message: String },
    /// The caller could not persist the state record.
    StateSaveFailed,
}

/// The field name used in render-failure messages.
pub open spec fn spec_field_name(f: RenderField) -> Seq<char> {
    match f {
        RenderField::Condition => "condition"@,
        RenderField::Command => "command"@,
        RenderField::WorkingDir => "working_dir"@,
        RenderField::Check => "check"@,
    }
}

impl EngineError {
    /// Render the error as text, naming the template and 1-based step.
    pub fn message(&self) -> (r: String)
        ensures
            match self {
                EngineError::CircularDependency { name } => r@ == crate::resolver::spec_cycle_msg(
                    name@,
                ),
                EngineError::TemplateNotFound { name } => r@ == "template '"@ + name@
                    + "' not found in set"@,
                EngineError::RenderFailed { template, step_number, field, message } => r@ == "["@
                    + template@ + "] step "@ + crate::strutil::spec_dec(*step_number as nat)
                    + ": failed to render "@ + spec_field_name(*field) + ": "@ + message@,
                EngineError::ConditionFailed { template, step_number, inner } => r@ == "["@
                    + template@ + "] step "@ + crate::strutil::spec_dec(*step_number as nat) + ": "@
                    + (match inner {
                    CondError::VariableNotFound { name } => crate::condition::spec_var_not_found_msg(
                        name@,
                    ),
                    CondError::UnsupportedSyntax { condition } => crate::condition::spec_unsupported_msg(
                        condition@,
                    ),
                }),
                EngineError::StepFailed { template, step_number, step_type, message } => r@ == "["@
                    + template@ + "] step "@ + crate::strutil::spec_dec(*step_number as nat) + " ("@
                    + step_type@ + ") failed: "@ + message@,
                EngineError::StateSaveFailed => r@ == "failed to save pipeline state"@,
            },
    {
        match self {
            EngineError::CircularDependency { name } => {
                let e = crate::resolver::ResolveError { name: name.clone() };
                e.message()
            },
            EngineError::TemplateNotFound { name } => {
                let mut s = String::new();
                s.append("template '");
                s.append(name.as_str());
                s.append("' not found in set");
                proof {
                    assert(s@ =~= "template '"@ + name@ + "' not found in set"@);
                }
                s
            },
            EngineError::RenderFailed { template, step_number, field, message } => {
                let mut s = String::new();
                s.append("[");
                s.append(template.as_str());
                s.append("] step ");
                crate::strutil::push_dec(&mut s, *step_number);
                s.append(": failed to render ");
                match field {
                    RenderField::Condition => s.append("condition"),
                    RenderField::Command => s.append("command"),
                    RenderField::WorkingDir => s.append("working_dir"),
                    RenderField::Check => s.append("check"),
                }
                s.append(": ");
                s.append(message.as_str());
                proof {
                    reveal_strlit("condition");
                    reveal_strlit("command");
                    reveal_strlit("working_dir");
                    reveal_strlit("check");
                    assert(s@ =~= "["@ + template@ + "] step "@ + crate::strutil::spec_dec(
                        *step_number as nat,
                    ) + ": failed to render "@ + spec_field_name(*field) + ": "@ + message@);
                }
                s
            },
            EngineError::ConditionFailed { template, step_number, inner } => {
                let mut s = String::new();
                s.append("[");
                s.append(template.as_str());
                s.append("] step ");
                crate::strutil::push_dec(&mut s, *step_number);
                s.append(": ");
                let im = inner.message();
                s.append(im.as_str());
                proof {
                    assert(s@ =~= "["@ + template@ + "] step "@ + crate::strutil::spec_dec(
                        *step_number as nat,
                    ) + ": "@ + im@);
                }
                s
            },
            EngineError::StepFailed { template, step_number, step_type, message } => {
                let mut s = String::new();
                s.append("[");
                s.append(template.as_str());
                s.append("] step ");
                crate::strutil::push_dec(&mut s, *step_number);
                s.append(" (");
                s.append(step_type.as_str());
                s.append(") failed: ");
                s.append(message.as_str());
                proof {
                    assert(s@ =~= "["@ + template@ + "] step "@ + crate::strutil::spec_dec(
                        *step_number as nat,
                    ) + " ("@ + step_type@ + ") failed: "@ + message@);
                }
                s
            },
            EngineError::StateSaveFailed => {
                let mut s = String::new();
                s.append("failed to save pipeline state");
                proof {
                    assert(s@ =~= "failed to save pipeline state"@);
                }
                s
            },
        }
    }
}

/// An external effect the caller must perform, or the run's end.
#[derive(Debug)]
pub enum EngineAction {
    /// Run the idempotency-check command in the directory; report whether
    /// it exited zero.
    RunCheck { command: String, working_dir: String },
    /// Run the step command through a system shell in the directory.
    RunCommand { command: String, working_dir: String },
    /// Shallow-clone (depth 1) the repository into the directory.
    RunClone { url: String, working_dir: String },
    /// Write this full state record durably; report success.
    PersistState { content: String },
    /// The run is over.
    Done { result: Result<(), EngineError> },
}

/// What the engine expects next from its caller.
#[derive(Debug, PartialEq, Eq, Structural, Clone, Copy)]
pub enum Expecting {
    /// A first call of `next_action`.
    Start,
    /// The result of the pending check command.
    CheckOutcome,
    /// The result of the pending command or clone.
    MainOutcome,
    /// The result of the pending state write.
    PersistOutcome,
    /// Nothing: the run is over.
    Nothing,
}

enum AfterPersist {
    /// Move past the concluded step and continue the run.
    NextStep,
    /// Surface this failure; the record already holds it.
    Fail(EngineError),
    /// Begin the scan at the current position.
    Begin,
}

enum Phase {
    Ready,
    AwaitCheck { rendered: StepDef },
    AwaitCommand { command: String },
    AwaitClone { url: String },
    AwaitPersist { then: AfterPersist },
    Terminal,
}

/// The orchestration engine for a project directory.
pub struct Engine {
    pub project_dir: String,
}

/// Completed records never regress: whatever `a` records as Completed, `b`
/// still records as Completed.
pub open spec fn completed_preserved(
    a: Map<(Seq<char>, nat), SpecStatus>,
    b: Map<(Seq<char>, nat), SpecStatus>,
) -> bool {
    forall|k: (Seq<char>, nat)|
        #![trigger a.contains_key(k)]
        a.contains_key(k) && a[k] == SpecStatus::Completed ==> b.contains_key(k) && b[k]
            == SpecStatus::Completed
}

/// Every step of every template in the set is recorded Completed.
pub open spec fn all_steps_completed(
    ts: Seq<TemplateManifest>,
    st: Map<(Seq<char>, nat), SpecStatus>,
) -> bool {
    forall|i: int, k: int|
        0 <= i < ts.len() && 0 <= k < ts[i].steps@.len() ==> #[trigger] st.get(
            (ts[i].template.name@, k as nat),
        ) == Some(SpecStatus::Completed)
}

/// The steps of the first template named `n` in the set.
pub open spec fn steps_of_name(ts: Seq<TemplateManifest>, n: Seq<char>) -> Seq<
    crate::types::StepDef,
>
    decreases ts.len(),
{
    if ts.len() == 0 {
        Seq::empty()
    } else if ts[0].template.name@ == n {
        ts[0].steps@
    } else {
        steps_of_name(ts.skip(1), n)
    }
}

/// In a covering order the listed names are pairwise distinct.
proof fn lemma_order_names_distinct(ts: Seq<TemplateManifest>, order: Seq<String>)
    requires
        valid_order(ts, names_view(order)),
    ensures
        forall|p: int, q: int| 0 <= p < q < order.len() ==> order[p]@ != order[q]@,
{
    assert forall|p: int, q: int| 0 <= p < q < order.len() implies order[p]@ != order[q]@ by {
        assert(names_view(order)[p] == order[p]@);
        assert(names_view(order)[q] == order[q]@);
    };
}

/// With unique names, the steps of a name are the steps of its template.
proof fn lemma_steps_of_found(ts: Seq<TemplateManifest>, t: int, n: Seq<char>)
    requires
        unique_names(ts),
        0 <= t < ts.len(),
        ts[t].template.name@ == n,
    ensures
        steps_of_name(ts, n) == ts[t].steps@,
    decreases t,
{
    if t == 0 {
        assert(ts[0].template.name@ == n);
    } else {
        assert(crate::resolver::tmpl_name(ts, 0) != crate::resolver::tmpl_name(ts, t));
        assert(ts[0].template.name@ != n);
        let rest = ts.skip(1);
        assert(crate::resolver::unique_names(rest)) by {
            assert forall|p: int, q: int|
                0 <= p < q < rest.len() implies crate::resolver::tmpl_name(rest, p)
                != crate::resolver::tmpl_name(rest, q) by {
                assert(rest[p] == ts[p + 1]);
                assert(rest[q] == ts[q + 1]);
                assert(crate::resolver::tmpl_name(ts, p + 1) != crate::resolver::tmpl_name(
                    ts,
                    q + 1,
                ));
            };
        }
        assert(rest[t - 1] == ts[t as int]);
        lemma_steps_of_found(rest, t - 1, n);
    }
}

/// An optional field renders to an optional text under the bindings.
pub open spec fn renders_opt(
    src: Option<String>,
    vars: Map<Seq<char>, Seq<char>>,
    out: Option<String>,
) -> bool {
    match src {
        None => out is None,
        Some(st) => match out {
            Some(o) => render_of(st@, vars) == Some(o@),
            None => false,
        },
    }
}

/// The step's gate is open: it has no condition, or the condition renders
/// and evaluates true.
pub open spec fn gate_open(step: StepDef, vars: Map<Seq<char>, Seq<char>>) -> bool {
    match step.condition {
        None => true,
        Some(c) => match render_of(c@, vars) {
            Some(rc) => crate::condition::spec_eval_condition(rc, vars) == CondOutcome::Value(
                true,
            ),
            None => false,
        },
    }
}

/// `rendered` carries the step's action fields rendered under the bindings.
pub open spec fn rendered_from(
    step: StepDef,
    rendered: StepDef,
    vars: Map<Seq<char>, Seq<char>>,
) -> bool {
    &&& rendered.step_type == step.step_type
    &&& renders_opt(step.command, vars, rendered.command)
    &&& renders_opt(step.working_dir, vars, rendered.working_dir)
    &&& renders_opt(step.check, vars, rendered.check)
    &&& rendered.url == step.url
}

/// Which render failure the named field admits for the step: the fields
/// are rendered in order (condition, command, working directory, check),
/// so a later field's failure means the earlier ones rendered.
pub open spec fn render_failure_at(
    step: StepDef,
    field: RenderField,
    vars: Map<Seq<char>, Seq<char>>,
) -> bool {
    match field {
        RenderField::Condition => match step.condition {
            Some(c) => render_of(c@, vars) is None,
            None => false,
        },
        RenderField::Command => gate_open(step, vars) && match step.command {
            Some(c) => render_of(c@, vars) is None,
            None => false,
        },
        RenderField::WorkingDir => {
            &&& gate_open(step, vars)
            &&& match step.command {
                Some(c) => render_of(c@, vars) is Some,
                None => true,
            }
            &&& match step.working_dir {
                Some(w) => render_of(w@, vars) is None,
                None => false,
            }
        },
        RenderField::Check => {
            &&& gate_open(step, vars)
            &&& match step.command {
                Some(c) => render_of(c@, vars) is Some,
                None => true,
            }
            &&& match step.working_dir {
                Some(w) => render_of(w@, vars) is Some,
                None => true,
            }
            &&& match step.check {
                Some(c) => render_of(c@, vars) is None,
                None => false,
            }
        },
    }
}

/// The persisted payload is the serialization of the run's record.
pub open spec fn persist_carries(m: &PipelineRun, content: Seq<char>) -> bool {
    exists|es: Seq<SpecEntry>|
        content == #[trigger] enc_state(es) && etm(es) == m.state_view() && bounded_entries(es)
}

/// The failure text a main action's outcome produces: the non-zero exit
/// message over the awaited command or URL, or the launch failure.
pub open spec fn main_failure_message(m: &PipelineRun, outcome: RunOutcome) -> Seq<char> {
    match outcome {
        RunOutcome::Ran { success: _, stderr } => if m.awaiting_command() {
            "command failed: "@ + m.pending_subject() + "\n"@ + stderr@
        } else {
            "git clone failed: "@ + m.pending_subject() + "\n"@ + stderr@
        },
        RunOutcome::LaunchFailed { message } => "failed to launch process: "@ + message@,
    }
}

/// The step at (template, index) is skipped outright: the run resumes and
/// the record already marks it Completed.
pub open spec fn resume_skips(m: &PipelineRun, t: Seq<char>, k: nat) -> bool {
    m.resuming() && m.state_view().get((t, k)) == Some(SpecStatus::Completed)
}

/// What justifies a terminal error: it names the step under the cursor and
/// matches what that step admits.  Start-time and write errors never come
/// out of the step-processing methods.
pub open spec fn error_justified(m: &PipelineRun, e: EngineError) -> bool {
    match e {
        EngineError::CircularDependency { name: _ } => false,
        EngineError::TemplateNotFound { name: _ } => false,
        EngineError::StateSaveFailed => false,
        EngineError::RenderFailed { template, step_number, field, message: _ } => {
            &&& m.cur_in_range()
            &&& template@ == m.cur_template()
            &&& step_number as nat == m.cur_step() + 1
            &&& !resume_skips(m, m.cur_template(), m.cur_step())
            &&& render_failure_at(m.cur_step_def(), field, m.vars_view())
        },
        EngineError::ConditionFailed { template, step_number, inner } => {
            &&& m.cur_in_range()
            &&& template@ == m.cur_template()
            &&& step_number as nat == m.cur_step() + 1
            &&& !resume_skips(m, m.cur_template(), m.cur_step())
            &&& match m.cur_step_def().condition {
                Some(c) => match render_of(c@, m.vars_view()) {
                    Some(rc) => match inner {
                        CondError::VariableNotFound { name } => crate::condition::spec_eval_condition(
                            rc,
                            m.vars_view(),
                        ) == CondOutcome::MissingVar(name@),
                        CondError::UnsupportedSyntax { condition } => crate::condition::spec_eval_condition(
                            rc,
                            m.vars_view(),
                        ) is BadSyntax && condition@ == crate::strutil::spec_trim(rc),
                    },
                    None => false,
                },
                None => false,
            }
        },
        EngineError::StepFailed { template, step_number, step_type: _, message } => {
            &&& m.cur_in_range()
            &&& template@ == m.cur_template()
            &&& step_number as nat == m.cur_step() + 1
            &&& (m.state_view().get((m.cur_template(), m.cur_step())) == Some(
                SpecStatus::Failed(message@),
            ) || m.state_view().get((m.cur_template(), m.cur_step())) == Some(
                SpecStatus::Completed,
            ))
        },
    }
}

/// What justifies a handed-out action: a check or main action is exactly
/// what the step under the cursor dictates once rendered; a persist action
/// carries the record's serialization; a terminal action is either the
/// success theorem or a justified error.
pub open spec fn action_justified(m: &PipelineRun, r: EngineAction) -> bool {
    match r {
        EngineAction::RunCheck { command, working_dir } => {
            &&& m.awaiting_check()
            &&& m.cur_in_range()
            &&& !resume_skips(m, m.cur_template(), m.cur_step())
            &&& gate_open(m.cur_step_def(), m.vars_view())
            &&& rendered_from(m.cur_step_def(), m.pending_rendered(), m.vars_view())
            &&& match m.pending_rendered().check {
                Some(ck) => ck@ == command@,
                None => false,
            }
            &&& working_dir@ == spec_working_dir(m.dir_view(), m.pending_rendered().working_dir)
        },
        EngineAction::RunCommand { command, working_dir } => {
            &&& m.awaiting_command()
            &&& m.pending_subject() == command@
            &&& m.cur_in_range()
            &&& !resume_skips(m, m.cur_template(), m.cur_step())
            &&& gate_open(m.cur_step_def(), m.vars_view())
            &&& exists|rendered: StepDef|
                #![trigger rendered_from(m.cur_step_def(), rendered, m.vars_view())]
                rendered_from(m.cur_step_def(), rendered, m.vars_view()) && spec_plan(
                    rendered,
                    spec_working_dir(m.dir_view(), rendered.working_dir),
                ) == SpecPlan::Command(command@, working_dir@)
        },
        EngineAction::RunClone { url, working_dir } => {
            &&& m.awaiting_clone()
            &&& m.pending_subject() == url@
            &&& m.cur_in_range()
            &&& !resume_skips(m, m.cur_template(), m.cur_step())
            &&& gate_open(m.cur_step_def(), m.vars_view())
            &&& exists|rendered: StepDef|
                #![trigger rendered_from(m.cur_step_def(), rendered, m.vars_view())]
                rendered_from(m.cur_step_def(), rendered, m.vars_view()) && spec_plan(
                    rendered,
                    spec_working_dir(m.dir_view(), rendered.working_dir),
                ) == SpecPlan::Clone(url@, working_dir@)
        },
        EngineAction::PersistState { content } => m.awaiting_persist() && persist_carries(
            m,
            content@,
        ),
        EngineAction::Done { result } => m.terminal() && match result {
            Ok(_) => all_steps_completed(m.spec_templates(), m.state_view()),
            Err(e) => error_justified(m, e),
        },
    }
}

/// Preservation of completed records is transitive.
proof fn lemma_preserved_trans(
    a: Map<(Seq<char>, nat), SpecStatus>,
    b: Map<(Seq<char>, nat), SpecStatus>,
    c: Map<(Seq<char>, nat), SpecStatus>,
)
    requires
        completed_preserved(a, b),
        completed_preserved(b, c),
    ensures
        completed_preserved(a, c),
{
    assert forall|k: (Seq<char>, nat)| #![trigger a.contains_key(k)]
        a.contains_key(k) && a[k] == SpecStatus::Completed implies c.contains_key(k) && c[k]
            == SpecStatus::Completed by {
        assert(b.contains_key(k) && b[k] == SpecStatus::Completed);
    };
}

/// A pipeline run in progress: the orchestrator's state machine.
pub struct PipelineRun {
    templates: Vec<TemplateManifest>,
    vars: VarMap,
    project_dir: String,
    renderer: Renderer,
    order: Vec<String>,
    resume: bool,
    persist: bool,
    state: PipelineState,
    ti: usize,
    si: usize,
    phase: Phase,
}

/// The parts of a run that never change while it executes: the template
/// set, the resolved order, the variable bindings, and the run's mode.
pub open spec fn same_run(a: &PipelineRun, b: &PipelineRun) -> bool {
    &&& a.spec_templates() == b.spec_templates()
    &&& a.spec_order() == b.spec_order()
    &&& a.vars_view() == b.vars_view()
    &&& a.resuming() == b.resuming()
    &&& a.persisting() == b.persisting()
}

impl PipelineRun {
    /// The run's template set.
    pub closed spec fn spec_templates(&self) -> Seq<TemplateManifest> {
        self.templates@
    }

    /// The run's resolved execution order.
    pub closed spec fn spec_order(&self) -> Seq<String> {
        self.order@
    }

    /// The run's recorded state, as a map from (template, index) to status.
    pub closed spec fn state_view(&self) -> Map<(Seq<char>, nat), SpecStatus> {
        self.state@
    }

    /// Whether this run resumes previously persisted state.
    pub closed spec fn resuming(&self) -> bool {
        self.resume
    }

    /// Whether this run persists state after every status change.
    pub closed spec fn persisting(&self) -> bool {
        self.persist
    }

    /// The name of the template the cursor stands on.
    pub closed spec fn cur_template(&self) -> Seq<char> {
        self.order@[self.ti as int]@
    }

    /// The cursor's position in the resolved order.
    pub closed spec fn cur_index(&self) -> int {
        self.ti as int
    }

    /// The project root directory.
    pub closed spec fn dir_view(&self) -> Seq<char> {
        self.project_dir@
    }

    /// How many steps the template under the cursor has.
    pub closed spec fn cur_steps_len(&self) -> nat {
        steps_of_name(self.templates@, self.cur_template()).len()
    }

    /// The step under the cursor.
    pub closed spec fn cur_step_def(&self) -> StepDef {
        steps_of_name(self.templates@, self.cur_template())[self.cur_step() as int]
    }

    /// The cursor stands on a step of a template in the order.
    pub closed spec fn cur_in_range(&self) -> bool {
        self.cur_index() < self.spec_order().len() && self.cur_step() < self.cur_steps_len()
    }

    /// A shell command's outcome is awaited.
    pub closed spec fn awaiting_command(&self) -> bool {
        self.phase is AwaitCommand
    }

    /// A clone's outcome is awaited.
    pub closed spec fn awaiting_clone(&self) -> bool {
        self.phase is AwaitClone
    }

    /// The command or URL whose outcome is awaited.
    pub closed spec fn pending_subject(&self) -> Seq<char> {
        match self.phase {
            Phase::AwaitCommand { command } => command@,
            Phase::AwaitClone { url } => url@,
            _ => Seq::empty(),
        }
    }

    /// The rendered step whose check outcome is awaited.
    pub closed spec fn pending_rendered(&self) -> StepDef {
        match self.phase {
            Phase::AwaitCheck { rendered } => rendered,
            _ => vstd::pervasive::arbitrary(),
        }
    }

    /// The run's variable bindings.
    pub closed spec fn vars_view(&self) -> Map<Seq<char>, Seq<char>> {
        self.vars@
    }

    /// The step index the cursor stands on.
    pub closed spec fn cur_step(&self) -> nat {
        self.si as nat
    }

    /// On a fresh (non-resumed) run, nothing strictly past the cursor has
    /// a record yet: a halt leaves later steps exactly Pending.
    pub closed spec fn future_clean(&self) -> bool {
        !self.resume ==> forall|p: int, k: nat|
            #![trigger self.state@.contains_key((self.order@[p]@, k))]
            self.ti <= p < self.order@.len() && (p > self.ti || k > self.si)
                ==> !self.state@.contains_key((self.order@[p]@, k))
    }

    /// Every step the cursor has moved past is recorded Completed.
    pub closed spec fn prefix_complete(&self) -> bool {
        &&& forall|p: int, k: int|
            0 <= p < self.ti && 0 <= k < steps_of_name(self.templates@, self.order@[p]@).len()
                ==> #[trigger] self.state@.get((self.order@[p]@, k as nat)) == Some(
                SpecStatus::Completed,
            )
        &&& (self.ti as int) < self.order@.len() ==> forall|k: int|
            0 <= k < self.si ==> #[trigger] self.state@.get((self.cur_template(), k as nat))
                == Some(SpecStatus::Completed)
    }

    /// Structural well-formedness of the machine: valid bindings and
    /// record, a dependency-respecting order over the set, a cursor that
    /// stands on a template whenever an action is pending on one, and a
    /// completion record that covers everything behind the cursor.
    pub closed spec fn wf(&self) -> bool {
        &&& self.vars.wf()
        &&& self.state.wf()
        &&& unique_names(self.templates@)
        &&& valid_order(self.templates@, names_view(self.order@))
        &&& self.order@.len() == self.templates@.len()
        &&& self.ti <= self.order@.len()
        &&& self.prefix_complete()
        &&& self.future_clean()
        &&& match self.phase {
            Phase::Ready => true,
            Phase::Terminal => true,
            Phase::AwaitCheck { rendered } => {
                &&& self.cur_in_range()
                &&& self.si < usize::MAX
                &&& !(self.resume && self.state@.get((self.cur_template(), self.cur_step()))
                    == Some(SpecStatus::Completed))
                &&& gate_open(self.cur_step_def(), self.vars@)
                &&& rendered_from(self.cur_step_def(), rendered, self.vars@)
                &&& rendered.check is Some
            },
            Phase::AwaitCommand { .. } => self.cur_in_range() && self.si < usize::MAX && !(
            self.resume && self.state@.get((self.cur_template(), self.cur_step())) == Some(
                SpecStatus::Completed,
            )),
            Phase::AwaitClone { .. } => self.cur_in_range() && self.si < usize::MAX && !(
            self.resume && self.state@.get((self.cur_template(), self.cur_step())) == Some(
                SpecStatus::Completed,
            )),
            Phase::AwaitPersist { then: AfterPersist::NextStep } => (self.ti as int)
                < self.order@.len() && self.si < usize::MAX && self.state@.get(
                (self.cur_template(), self.cur_step()),
            ) == Some(SpecStatus::Completed),
            Phase::AwaitPersist { then: AfterPersist::Fail(e) } => match e {
                EngineError::StepFailed { template, step_number, step_type: _, message } => {
                    &&& self.cur_in_range()
                    &&& template@ == self.cur_template()
                    &&& step_number as nat == self.cur_step() + 1
                    &&& (self.state@.get((self.cur_template(), self.cur_step())) == Some(
                        SpecStatus::Failed(message@),
                    ) || self.state@.get((self.cur_template(), self.cur_step())) == Some(
                        SpecStatus::Completed,
                    ))
                },
                _ => false,
            },
            Phase::AwaitPersist { then: AfterPersist::Begin } => true,
        }
    }

    /// The run's record always mirrors the cursor: every step behind it is
    /// recorded Completed, and on a fresh (non-resumed) run every step
    /// strictly past it has no record at all — so a halted run leaves
    /// later steps Pending.
    pub proof fn lemma_record_shape(&self)
        requires
            self.wf(),
        ensures
            forall|p: int, k: int|
                0 <= p < self.cur_index() && 0 <= k < steps_of_name(
                    self.spec_templates(),
                    self.spec_order()[p]@,
                ).len() ==> #[trigger] self.state_view().get((self.spec_order()[p]@, k as nat))
                    == Some(SpecStatus::Completed),
            !self.resuming() ==> forall|p: int, k: nat|
                #![trigger self.state_view().contains_key((self.spec_order()[p]@, k))]
                self.cur_index() <= p < self.spec_order().len() && (p > self.cur_index() || k
                    > self.cur_step()) ==> !self.state_view().contains_key(
                    (self.spec_order()[p]@, k),
                ),
    {
    }

    /// What the engine expects next.
    pub fn expecting(&self) -> (r: Expecting)
        ensures
            r == Expecting::Start <==> self.ready(),
            r == Expecting::CheckOutcome <==> self.awaiting_check(),
            r == Expecting::MainOutcome <==> self.awaiting_main(),
            r == Expecting::PersistOutcome <==> self.awaiting_persist(),
    {
        match &self.phase {
            Phase::Ready => Expecting::Start,
            Phase::AwaitCheck { .. } => Expecting::CheckOutcome,
            Phase::AwaitCommand { .. } => Expecting::MainOutcome,
            Phase::AwaitClone { .. } => Expecting::MainOutcome,
            Phase::AwaitPersist { .. } => Expecting::PersistOutcome,
            Phase::Terminal => Expecting::Nothing,
        }
    }

    /// The machine has not emitted its first action.
    pub closed spec fn ready(&self) -> bool {
        self.phase is Ready
    }

    /// A check command's outcome is awaited.
    pub closed spec fn awaiting_check(&self) -> bool {
        self.phase is AwaitCheck
    }

    /// A main action's outcome is awaited.
    pub closed spec fn awaiting_main(&self) -> bool {
        self.phase is AwaitCommand || self.phase is AwaitClone
    }

    /// A state write's outcome is awaited.
    pub closed spec fn awaiting_persist(&self) -> bool {
        self.phase is AwaitPersist
    }

    /// The run is over.
    pub closed spec fn terminal(&self) -> bool {
        self.phase is Terminal
    }

    /// End the run with `result`.
    fn finish(&mut self, result: Result<(), EngineError>) -> (r: EngineAction)
        requires
            old(self).wf(),
        ensures
            final(self).wf(),
            final(self).terminal(),
            same_run(final(self), old(self)),
            final(self).state_view() == old(self).state_view(),
            final(self).ti == old(self).ti && final(self).si == old(self).si,
            match r {
                EngineAction::Done { result: res } => res == result,
                _ => false,
            },
    {
        self.phase = Phase::Terminal;
        EngineAction::Done { result }
    }

    /// Conclude the current step as completed: record it, then either hand
    /// out the persist action or (`None`) step past it at once.
    fn conclude_completed(&mut self) -> (r: Option<EngineAction>)
        requires
            old(self).wf(),
            (old(self).ti as int) < old(self).spec_order().len(),
            old(self).si < usize::MAX,
            old(self).phase is Ready,
        ensures
            final(self).wf(),
            same_run(final(self), old(self)),
            final(self).state_view() == old(self).state_view().insert(
                (old(self).cur_template(), old(self).cur_step()),
                SpecStatus::Completed,
            ),
            completed_preserved(old(self).state_view(), final(self).state_view()),
            r is None ==> final(self).phase is Ready && final(self).ti == old(self).ti
                && final(self).si == old(self).si + 1,
            r is Some ==> final(self).awaiting_persist() && final(self).ti == old(self).ti
                && final(self).si == old(self).si,
            old(self).persisting() <==> r is Some,
            match r {
                Some(act) => act is PersistState && action_justified(final(self), act),
                None => true,
            },
    {
        let name = self.order[self.ti].clone();
        self.state.mark_completed(name.as_str(), self.si);
        proof {
            lemma_order_names_distinct(self.templates@, self.order@);
            let stv = self.state@;
            let cur_name = self.order@[self.ti as int]@;
            assert forall|p: int, k: int|
                0 <= p < self.ti && 0 <= k < steps_of_name(
                    self.templates@,
                    self.order@[p]@,
                ).len() implies #[trigger] stv.get((self.order@[p]@, k as nat)) == Some(
                SpecStatus::Completed,
            ) by {
                assert(self.order@[p]@ != cur_name);
                assert(old(self).state@.get((self.order@[p]@, k as nat)) == Some(
                    SpecStatus::Completed,
                ));
            };
            assert forall|k: int| 0 <= k < self.si + 1 implies #[trigger] stv.get(
                (cur_name, k as nat),
            ) == Some(SpecStatus::Completed) by {
                if k < self.si {
                    assert(old(self).state@.get((cur_name, k as nat)) == Some(
                        SpecStatus::Completed,
                    ));
                    assert((k as nat) != (self.si as nat));
                }
            };
        }
        if self.persist {
            let content = self.state.serialize();
            self.phase = Phase::AwaitPersist { then: AfterPersist::NextStep };
            Some(EngineAction::PersistState { content })
        } else {
            self.si = self.si + 1;
            None
        }
    }

    /// Conclude the current step as completed and, when no persist action
    /// is owed, continue the scan at once.
    fn conclude_and_continue(&mut self) -> (r: EngineAction)
        requires
            old(self).wf(),
            (old(self).ti as int) < old(self).spec_order().len(),
            old(self).si < usize::MAX,
            old(self).phase is Ready,
        ensures
            final(self).wf(),
            same_run(final(self), old(self)),
            completed_preserved(old(self).state_view(), final(self).state_view()),
            completed_preserved(
                old(self).state_view().insert(
                    (old(self).cur_template(), old(self).cur_step()),
                    SpecStatus::Completed,
                ),
                final(self).state_view(),
            ),
            final(self).awaiting_persist() || final(self).terminal() || final(self).cur_index()
                > old(self).cur_index() || (final(self).cur_index() == old(self).cur_index()
                && final(self).cur_step() > old(self).cur_step()),
            action_justified(final(self), r),
            old(self).persisting() ==> final(self).state_view() == old(self).state_view().insert(
                (old(self).cur_template(), old(self).cur_step()),
                SpecStatus::Completed,
            ) && r is PersistState,
    {
        let ghost s0 = self.state_view();
        let ghost key = (self.cur_template(), self.cur_step());
        match self.conclude_completed() {
            Some(act) => act,
            None => {
                let ghost mid = self.state_view();
                let act = self.scan();
                proof {
                    assert(mid == s0.insert(key, SpecStatus::Completed));
                    lemma_preserved_trans(s0, mid, self.state_view());
                }
                act
            },
        }
    }

    /// Conclude the current step as failed: record the failure (a
    /// previously Completed record is never reverted), persist when
    /// configured, then surface the error.
    fn conclude_failed(&mut self, raw_message: String, err: EngineError) -> (r: EngineAction)
        requires
            old(self).wf(),
            old(self).phase is Ready,
            old(self).cur_in_range(),
            old(self).si < usize::MAX,
            match err {
                EngineError::StepFailed { template, step_number, step_type: _, message } => {
                    &&& template@ == old(self).cur_template()
                    &&& step_number as nat == old(self).cur_step() + 1
                    &&& message@ == raw_message@
                },
                _ => false,
            },
        ensures
            final(self).wf(),
            same_run(final(self), old(self)),
            completed_preserved(old(self).state_view(), final(self).state_view()),
            final(self).ti == old(self).ti && final(self).si == old(self).si,
            final(self).state_view() == (if old(self).state_view().get(
                (old(self).cur_template(), old(self).cur_step()),
            ) == Some(SpecStatus::Completed) {
                old(self).state_view()
            } else {
                old(self).state_view().insert(
                    (old(self).cur_template(), old(self).cur_step()),
                    SpecStatus::Failed(raw_message@),
                )
            }),
            action_justified(final(self), r),
            old(self).persisting() ==> final(self).awaiting_persist() && r is PersistState,
            !old(self).persisting() ==> final(self).terminal() && (match r {
                EngineAction::Done { result } => result == Err::<(), EngineError>(err),
                _ => false,
            }),
    {
        proof {
            lemma_order_names_distinct(self.templates@, self.order@);
        }
        let name = self.order[self.ti].clone();
        let already_complete = match self.state.get(name.as_str(), self.si) {
            StepState::Completed => true,
            _ => false,
        };
        if !already_complete {
            self.state.mark_failed(name.as_str(), self.si, raw_message.as_str());
        }
        proof {
            let stv = self.state@;
            let cur_name = self.order@[self.ti as int]@;
            assert forall|p: int, k: int|
                0 <= p < self.ti && 0 <= k < steps_of_name(
                    self.templates@,
                    self.order@[p]@,
                ).len() implies #[trigger] stv.get((self.order@[p]@, k as nat)) == Some(
                SpecStatus::Completed,
            ) by {
                assert(self.order@[p]@ != cur_name);
                assert(old(self).state@.get((self.order@[p]@, k as nat)) == Some(
                    SpecStatus::Completed,
                ));
            };
            assert forall|k: int| 0 <= k < self.si implies #[trigger] stv.get(
                (cur_name, k as nat),
            ) == Some(SpecStatus::Completed) by {
                assert(old(self).state@.get((cur_name, k as nat)) == Some(
                    SpecStatus::Completed,
                ));
                assert((k as nat) != (self.si as nat));
            };
        }
        if self.persist {
            let content = self.state.serialize();
            self.phase = Phase::AwaitPersist { then: AfterPersist::Fail(err) };
            EngineAction::PersistState { content }
        } else {
            self.finish(Err(err))
        }
    }

    /// Dispatch the current (rendered) step's main action, or conclude it:
    /// `None` means the step concluded without an external action and the
    /// cursor stepped past it.
    fn launch_main(&mut self, rendered: StepDef) -> (r: Option<EngineAction>)
        requires
            old(self).wf(),
            old(self).cur_in_range(),
            old(self).si < usize::MAX,
            old(self).phase is Ready,
            !(old(self).resuming() && old(self).state_view().get(
                (old(self).cur_template(), old(self).cur_step()),
            ) == Some(SpecStatus::Completed)),
            gate_open(old(self).cur_step_def(), old(self).vars_view()),
            rendered_from(old(self).cur_step_def(), rendered, old(self).vars_view()),
        ensures
            final(self).wf(),
            same_run(final(self), old(self)),
            completed_preserved(old(self).state_view(), final(self).state_view()),
            r is None ==> final(self).phase is Ready && final(self).ti == old(self).ti
                && final(self).si == old(self).si + 1,
            final(self).ti == old(self).ti && final(self).si >= old(self).si,
            match r {
                Some(act) => action_justified(final(self), act),
                None => true,
            },
    {
        let ctx = StepContext { project_dir: self.project_dir.clone(), vars: VarMap::new() };
        match plan_main_action(&rendered, &ctx) {
            Ok(MainAction::RunCommand { command, working_dir }) => {
                let ghost dir = spec_working_dir(self.project_dir@, rendered.working_dir);
                proof {
                    assert(spec_plan(rendered, dir) == SpecPlan::Command(
                        command@,
                        working_dir@,
                    ));
                }
                self.phase = Phase::AwaitCommand { command: command.clone() };
                proof {
                    assert(rendered_from(self.cur_step_def(), rendered, self.vars@));
                }
                Some(EngineAction::RunCommand { command, working_dir })
            },
            Ok(MainAction::RunClone { url, working_dir }) => {
                let ghost dir = spec_working_dir(self.project_dir@, rendered.working_dir);
                proof {
                    assert(spec_plan(rendered, dir) == SpecPlan::Clone(url@, working_dir@));
                }
                self.phase = Phase::AwaitClone { url: url.clone() };
                proof {
                    assert(rendered_from(self.cur_step_def(), rendered, self.vars@));
                }
                Some(EngineAction::RunClone { url, working_dir })
            },
            Ok(MainAction::NoAction) => {
                // the reserved stub succeeds as a no-op
                self.conclude_completed()
            },
            Err(se) => {
                let raw = se.message();
                let name = self.order[self.ti].clone();
                let err = EngineError::StepFailed {
                    template: name,
                    step_number: self.si + 1,
                    step_type: rendered.step_type,
                    message: raw.clone(),
                };
                Some(self.conclude_failed(raw, err))
            },
        }
    }

    /// Scan forward from the cursor: skip resumed-complete steps, gate on
    /// conditions, render fields, and stop at the first external action or
    /// at the end of the run.
    fn scan(&mut self) -> (r: EngineAction)
        requires
            old(self).wf(),
            old(self).phase is Ready,
        ensures
            final(self).wf(),
            same_run(final(self), old(self)),
            completed_preserved(old(self).state_view(), final(self).state_view()),
            final(self).terminal() || final(self).cur_index() > old(self).cur_index()
                || (final(self).cur_index() == old(self).cur_index() && final(self).cur_step()
                >= old(self).cur_step()),
            action_justified(final(self), r),
    {
        loop
            invariant
                self.wf(),
                self.phase is Ready,
                same_run(self, old(self)),
                completed_preserved(old(self).state_view(), self.state_view()),
                self.cur_index() > old(self).cur_index() || (self.cur_index()
                    == old(self).cur_index() && self.cur_step() >= old(self).cur_step()),
            decreases self.spec_order().len() - self.ti,
        {
            if self.ti >= self.order.len() {
                // every template and step processed without failure: the
                // record marks every step of every template Completed
                proof {
                    let ts = self.templates@;
                    let ov = names_view(self.order@);
                    assert forall|i: int, k: int|
                        0 <= i < ts.len() && 0 <= k < ts[i].steps@.len() implies #[trigger] self.state@.get(
                        (ts[i].template.name@, k as nat),
                    ) == Some(SpecStatus::Completed) by {
                        assert(ov.contains(crate::resolver::tmpl_name(ts, i)));
                        let p = choose|p: int| 0 <= p < ov.len() && ov[p] == ts[i].template.name@;
                        assert(self.order@[p]@ == ts[i].template.name@);
                        lemma_steps_of_found(ts, i, ts[i].template.name@);
                        assert(self.state@.get((self.order@[p]@, k as nat)) == Some(
                            SpecStatus::Completed,
                        ));
                    };
                }
                return self.finish(Ok(()));
            }
            let name = self.order[self.ti].clone();
            proof {
                // a covering order lists only names of held templates
                lemma_covers_names(
                    self.templates@,
                    names_view(self.order@),
                    self.ti as int,
                );
                assert(names_view(self.order@)[self.ti as int] == name@);
            }
            let t = match find_by_name(&self.templates, name.as_str()) {
                Some(t) => t,
                None => {
                    proof {
                        assert(false);
                    }
                    return self.finish(Err(EngineError::TemplateNotFound { name }));
                },
            };
            let nsteps = self.templates[t].steps.len();
            let ghost ti0 = self.ti;
            while self.si < nsteps
                invariant
                    self.wf(),
                    self.phase is Ready,
                    same_run(self, old(self)),
                    completed_preserved(old(self).state_view(), self.state_view()),
                    self.ti == ti0,
                    (ti0 as int) < self.spec_order().len(),
                    (t as int) < self.spec_templates().len(),
                    nsteps == self.spec_templates()[t as int].steps@.len(),
                    name@ == self.spec_order()[ti0 as int]@,
                    self.spec_templates()[t as int].template.name@ == name@,
                    self.cur_index() > old(self).cur_index() || (self.cur_index()
                        == old(self).cur_index() && self.cur_step() >= old(self).cur_step()),
                decreases nsteps - self.si,
            {
                match self.process_step(t, &name) {
                    Some(act) => {
                        return act;
                    },
                    None => {
                    },
                }
            }
            // every step of this template concluded: move to the next one
            proof {
                lemma_steps_of_found(self.templates@, t as int, name@);
            }
            self.si = 0;
            self.ti = self.ti + 1;
        }
    }

    /// Process the step under the cursor.  Returns the external action it
    /// needs, or `None` after concluding it without one (the cursor then
    /// stands past it).
    ///
    /// A step whose stored status is Completed under resume is skipped
    /// entirely: no condition re-evaluation, no rendering, no action, no
    /// state change.  A step whose rendered condition evaluates false is
    /// recorded Completed without its action fields ever being rendered.
    fn process_step(&mut self, t: usize, name: &String) -> (r: Option<EngineAction>)
        requires
            old(self).wf(),
            old(self).phase is Ready,
            (old(self).ti as int) < old(self).spec_order().len(),
            (t as int) < old(self).spec_templates().len(),
            (old(self).si as int) < old(self).spec_templates()[t as int].steps@.len(),
            name@ == old(self).spec_order()[old(self).ti as int]@,
            old(self).spec_templates()[t as int].template.name@ == name@,
        ensures
            final(self).wf(),
            same_run(final(self), old(self)),
            completed_preserved(old(self).state_view(), final(self).state_view()),
            r is None ==> final(self).ti == old(self).ti && final(self).si == old(self).si + 1
                && final(self).phase is Ready,
            final(self).ti == old(self).ti && final(self).si >= old(self).si,
            match r {
                Some(act) => action_justified(final(self), act),
                None => true,
            },
            (old(self).resuming() && old(self).state_view().get(
                (name@, old(self).cur_step()),
            ) == Some(SpecStatus::Completed)) ==> r is None && final(self).state_view()
                == old(self).state_view(),
            ({
                // a step whose rendered condition evaluates false is recorded
                // Completed, and no command of it is ever handed out
                let step = old(self).spec_templates()[t as int].steps@[old(self).si as int];
                (!(old(self).resuming() && old(self).state_view().get(
                    (name@, old(self).cur_step()),
                ) == Some(SpecStatus::Completed))) ==> match step.condition {
                    Some(c) => match render_of(c@, old(self).vars_view()) {
                        Some(rc) => spec_eval_condition(rc, old(self).vars_view())
                            == CondOutcome::Value(false) ==> final(self).state_view()
                            == old(self).state_view().insert(
                            (name@, old(self).cur_step()),
                            SpecStatus::Completed,
                        ) && (r is None || (match r {
                            Some(act) => act is PersistState,
                            None => true,
                        })),
                        None => true,
                    },
                    None => true,
                }
            }),
    {
        let nsteps = self.templates[t].steps.len();
        proof {
            assert(self.si < nsteps);
            lemma_steps_of_found(self.templates@, t as int, name@);
            assert(self.cur_steps_len() == nsteps);
            assert(self.cur_step_def() == self.templates@[t as int].steps@[self.si as int]);
        }
        let stored = self.state.get(name.as_str(), self.si);
        let skip = if self.resume {
            match stored {
                StepState::Completed => true,
                _ => false,
            }
        } else {
            false
        };
        if skip {
            // resumed and already recorded complete: untouched — no
            // condition re-evaluation, no idempotency check, no action
            self.si = self.si + 1;
            return None;
        }
        let step = self.templates[t].steps[self.si].duplicate();
        // condition gate
        match &step.condition {
            Some(cond) => {
                match self.renderer.render_string(cond.as_str(), &self.vars) {
                    Err(msg) => {
                        let err = EngineError::RenderFailed {
                            template: name.clone(),
                            step_number: self.si + 1,
                            field: RenderField::Condition,
                            message: msg,
                        };
                        return Some(self.finish(Err(err)));
                    },
                    Ok(rc) => {
                        match evaluate_condition(rc.as_str(), &self.vars) {
                            Err(ce) => {
                                let err = EngineError::ConditionFailed {
                                    template: name.clone(),
                                    step_number: self.si + 1,
                                    inner: ce,
                                };
                                return Some(self.finish(Err(err)));
                            },
                            Ok(false) => {
                                // gated off: recorded Completed without the
                                // step's action fields ever running
                                return self.conclude_completed();
                            },
                            Ok(true) => {
                            },
                        }
                    },
                }
            },
            None => {
            },
        }
        // render the action-relevant fields with the current bindings
        let command = match &step.command {
            Some(c) => match self.renderer.render_string(c.as_str(), &self.vars) {
                Ok(rc) => Some(rc),
                Err(msg) => {
                    let err = EngineError::RenderFailed {
                        template: name.clone(),
                        step_number: self.si + 1,
                        field: RenderField::Command,
                        message: msg,
                    };
                    return Some(self.finish(Err(err)));
                },
            },
            None => None,
        };
        let working_dir = match &step.working_dir {
            Some(w) => match self.renderer.render_string(w.as_str(), &self.vars) {
                Ok(rw) => Some(rw),
                Err(msg) => {
                    let err = EngineError::RenderFailed {
                        template: name.clone(),
                        step_number: self.si + 1,
                        field: RenderField::WorkingDir,
                        message: msg,
                    };
                    return Some(self.finish(Err(err)));
                },
            },
            None => None,
        };
        let check = match &step.check {
            Some(c) => match self.renderer.render_string(c.as_str(), &self.vars) {
                Ok(rc) => Some(rc),
                Err(msg) => {
                    let err = EngineError::RenderFailed {
                        template: name.clone(),
                        step_number: self.si + 1,
                        field: RenderField::Check,
                        message: msg,
                    };
                    return Some(self.finish(Err(err)));
                },
            },
            None => None,
        };
        let rendered = StepDef {
            step_type: step.step_type,
            command,
            condition: None,
            check,
            working_dir,
            action: step.action,
            source: step.source,
            url: step.url,
        };
        // idempotency check first: a passing check skips the main action
        let check_cmd = clone_opt_string(&rendered.check);
        match check_cmd {
            Some(cmd) => {
                let ctx = StepContext {
                    project_dir: self.project_dir.clone(),
                    vars: VarMap::new(),
                };
                let dir = working_dir_of(&rendered, &ctx);
                self.phase = Phase::AwaitCheck { rendered };
                Some(EngineAction::RunCheck { command: cmd, working_dir: dir })
            },
            None => self.launch_main(rendered),
        }
    }

    /// Produce the run's first action.
    pub fn next_action(&mut self) -> (r: EngineAction)
        requires
            old(self).wf(),
            old(self).ready(),
        ensures
            final(self).wf(),
            same_run(final(self), old(self)),
            completed_preserved(old(self).state_view(), final(self).state_view()),
            action_justified(final(self), r),
            // a fresh persisted run first writes its (initial) record out
            old(self).persisting() && !old(self).resuming() ==> r is PersistState
                && final(self).state_view() == old(self).state_view(),
    {
        if self.persist && !self.resume {
            // a fresh persisted run writes its (empty) record immediately
            let content = self.state.serialize();
            self.phase = Phase::AwaitPersist { then: AfterPersist::Begin };
            EngineAction::PersistState { content }
        } else {
            self.scan()
        }
    }

    /// Report the pending check command's outcome.  A passing check skips
    /// the step's main action entirely and records the step Completed.
    pub fn check_done(&mut self, passed: bool) -> (r: EngineAction)
        requires
            old(self).wf(),
            old(self).awaiting_check(),
        ensures
            final(self).wf(),
            same_run(final(self), old(self)),
            completed_preserved(old(self).state_view(), final(self).state_view()),
            passed ==> completed_preserved(
                old(self).state_view().insert(
                    (old(self).cur_template(), old(self).cur_step()),
                    SpecStatus::Completed,
                ),
                final(self).state_view(),
            ),
            // a passing check skips the step: the run moves past it (or owes
            // only the persist write), and never hands out its main action
            passed ==> final(self).awaiting_persist() || final(self).terminal()
                || final(self).cur_index() > old(self).cur_index()
                || (final(self).cur_index() == old(self).cur_index() && final(self).cur_step()
                > old(self).cur_step()),
            action_justified(final(self), r),
    {
        let mut ph = Phase::Ready;
        core::mem::swap(&mut ph, &mut self.phase);
        let rendered = match ph {
            Phase::AwaitCheck { rendered } => rendered,
            _ => {
                // the awaited phase rules every other variant out
                proof {
                    assert(false);
                }
                return self.finish(Ok(()));
            },
        };
        match interpret_check_outcome(passed) {
            Some(StepResult::Skipped) => {
                // the step's own action never runs
                self.conclude_and_continue()
            },
            _ => {
                let ghost s0 = self.state_view();
                match self.launch_main(rendered) {
                    Some(act) => act,
                    None => {
                        let ghost mid = self.state_view();
                        let act = self.scan();
                        proof {
                            lemma_preserved_trans(s0, mid, self.state_view());
                        }
                        act
                    },
                }
            },
        }
    }

    /// Report the pending command's or clone's outcome.
    pub fn main_done(&mut self, outcome: RunOutcome) -> (r: EngineAction)
        requires
            old(self).wf(),
            old(self).awaiting_main(),
        ensures
            final(self).wf(),
            same_run(final(self), old(self)),
            completed_preserved(old(self).state_view(), final(self).state_view()),
            action_justified(final(self), r),
            // a successful outcome records the step Completed; with
            // persistence the record's write is owed at once
            outcome matches RunOutcome::Ran { success: true, stderr: _ } ==> completed_preserved(
                old(self).state_view().insert(
                    (old(self).cur_template(), old(self).cur_step()),
                    SpecStatus::Completed,
                ),
                final(self).state_view(),
            ) && (old(self).persisting() ==> final(self).state_view()
                == old(self).state_view().insert(
                (old(self).cur_template(), old(self).cur_step()),
                SpecStatus::Completed,
            ) && r is PersistState),
            // a failing outcome records the step Failed with the fixed
            // message, then persists or ends the run naming the step
            !(outcome matches RunOutcome::Ran { success: true, stderr: _ })
                ==> final(self).state_view() == (if old(self).state_view().get(
                (old(self).cur_template(), old(self).cur_step()),
            ) == Some(SpecStatus::Completed) {
                old(self).state_view()
            } else {
                old(self).state_view().insert(
                    (old(self).cur_template(), old(self).cur_step()),
                    SpecStatus::Failed(main_failure_message(old(self), outcome)),
                )
            }) && (old(self).persisting() ==> final(self).awaiting_persist()
                && r is PersistState) && (!old(self).persisting() ==> final(self).terminal()
                && (match r {
                EngineAction::Done { result } => match result {
                    Err(EngineError::StepFailed { template, step_number, step_type: _, message: _ }) => {
                        &&& template@ == old(self).cur_template()
                        &&& step_number as nat == old(self).cur_step() + 1
                    },
                    _ => false,
                },
                _ => false,
            })),
    {
        let mut ph = Phase::Ready;
        core::mem::swap(&mut ph, &mut self.phase);
        let (interpreted, step_type) = match ph {
            Phase::AwaitCommand { command } => (
                interpret_command_outcome(command.as_str(), outcome),
                "command".to_owned(),
            ),
            Phase::AwaitClone { url } => (
                interpret_clone_outcome(url.as_str(), outcome),
                "git".to_owned(),
            ),
            _ => {
                // the awaited phase rules every other variant out
                proof {
                    assert(false);
                }
                return self.finish(Ok(()));
            },
        };
        match interpreted {
            Ok(_) => self.conclude_and_continue(),
            Err(se) => {
                let raw = se.message();
                let name = self.order[self.ti].clone();
                let err = EngineError::StepFailed {
                    template: name,
                    step_number: self.si + 1,
                    step_type,
                    message: raw.clone(),
                };
                self.conclude_failed(raw, err)
            },
        }
    }

    /// Report whether the pending state write succeeded.  A failed write
    /// ends the run at once.
    pub fn persist_done(&mut self, ok: bool) -> (r: EngineAction)
        requires
            old(self).wf(),
            old(self).awaiting_persist(),
        ensures
            final(self).wf(),
            same_run(final(self), old(self)),
            completed_preserved(old(self).state_view(), final(self).state_view()),
            // only a failed write ends the run with the write error; a
            // successful write continues at the pending continuation
            !ok ==> final(self).terminal() && final(self).state_view() == old(self).state_view()
                && (match r {
                EngineAction::Done { result } => result matches Err(
                    EngineError::StateSaveFailed,
                ),
                _ => false,
            }),
            ok ==> action_justified(final(self), r),
    {
        let mut ph = Phase::Ready;
        core::mem::swap(&mut ph, &mut self.phase);
        let then = match ph {
            Phase::AwaitPersist { then } => then,
            _ => {
                // the awaited phase rules every other variant out
                proof {
                    assert(false);
                }
                return self.finish(Ok(()));
            },
        };
        if !ok {
            return self.finish(Err(EngineError::StateSaveFailed));
        }
        match then {
            AfterPersist::Begin => self.scan(),
            AfterPersist::NextStep => {
                self.si = self.si + 1;
                self.scan()
            },
            AfterPersist::Fail(err) => self.finish(Err(err)),
        }
    }

    /// The run's state record, for inspection.
    pub fn state(&self) -> (r: &PipelineState)
        ensures
            r@ == self.state_view(),
    {
        &self.state
    }
}

impl Engine {
    /// An engine rooted at the project directory.
    pub fn new(project_dir: String) -> (r: Engine)
        ensures
            r.project_dir == project_dir,
    {
        Engine { project_dir }
    }

    /// Begin a run without persistence.
    pub fn run(&self, templates: Vec<TemplateManifest>, vars: VarMap) -> (r: Result<
        PipelineRun,
        EngineError,
    >)
        requires
            unique_names(templates@),
            vars.wf(),
        ensures
            match r {
                Ok(run) => run.wf() && run.ready() && !run.resuming() && !run.persisting()
                    && run.spec_templates() == templates@ && run.state_view() == Map::<
                    (Seq<char>, nat),
                    SpecStatus,
                >::empty() && valid_order(templates@, names_view(run.spec_order())),
                Err(e) => match e {
                    EngineError::CircularDependency { name } => {
                        &&& exists|c: Seq<int>|
                            spec_cycle(templates@, c) && tmpl_name(templates@, c[0]) == name@
                        &&& forall|o: Seq<Seq<char>>| !valid_order(templates@, o)
                    },
                    _ => false,
                },
            },
    {
        self.start(templates, vars, PipelineState::new(), false, false)
    }

    /// Begin a run that persists its state after every status change, and
    /// resumes from `initial_state` when `resume` is set.  Resume does not
    /// change the execution order.
    pub fn run_with_state(
        &self,
        templates: Vec<TemplateManifest>,
        vars: VarMap,
        initial_state: PipelineState,
        resume: bool,
    ) -> (r: Result<PipelineRun, EngineError>)
        requires
            unique_names(templates@),
            vars.wf(),
            initial_state.wf(),
        ensures
            match r {
                Ok(run) => run.wf() && run.ready() && run.resuming() == resume && run.persisting()
                    && run.spec_templates() == templates@ && (resume ==> run.state_view()
                    == initial_state@) && (!resume ==> run.state_view() == Map::<
                    (Seq<char>, nat),
                    SpecStatus,
                >::empty()) && valid_order(templates@, names_view(run.spec_order())),
                Err(e) => match e {
                    EngineError::CircularDependency { name } => {
                        &&& exists|c: Seq<int>|
                            spec_cycle(templates@, c) && tmpl_name(templates@, c[0]) == name@
                        &&& forall|o: Seq<Seq<char>>| !valid_order(templates@, o)
                    },
                    _ => false,
                },
            },
    {
        self.start(templates, vars, initial_state, resume, true)
    }

    /// Begin a run: resolve the execution order (resume does not change
    /// it), then take the state to resume from, or start empty.
    fn start(
        &self,
        templates: Vec<TemplateManifest>,
        vars: VarMap,
        initial_state: PipelineState,
        resume: bool,
        persist: bool,
    ) -> (r: Result<PipelineRun, EngineError>)
        requires
            unique_names(templates@),
            vars.wf(),
            initial_state.wf(),
        ensures
            match r {
                Ok(run) => run.wf() && run.ready() && run.resuming() == resume && run.persisting()
                    == persist && run.spec_templates() == templates@ && (resume ==> run.state_view()
                    == initial_state@) && (!resume ==> run.state_view() == Map::<
                    (Seq<char>, nat),
                    SpecStatus,
                >::empty()) && valid_order(templates@, names_view(run.spec_order())),
                Err(e) => match e {
                    EngineError::CircularDependency { name } => {
                        &&& exists|c: Seq<int>|
                            spec_cycle(templates@, c) && tmpl_name(templates@, c[0]) == name@
                        &&& forall|o: Seq<Seq<char>>| !valid_order(templates@, o)
                    },
                    _ => false,
                },
            },
    {
        let order = match resolve_order(&templates) {
            Ok(o) => o,
            Err(e) => {
                return Err(EngineError::CircularDependency { name: e.name });
            },
        };
        let state = if resume {
            initial_state
        } else {
            PipelineState::new()
        };
        Ok(
            PipelineRun {
                templates,
                vars,
                project_dir: self.project_dir.clone(),
                renderer: Renderer::new(),
                order,
                resume,
                persist,
                state,
                ti: 0,
                si: 0,
                phase: Phase::Ready,
            },
        )
    }
}

} // verus!
