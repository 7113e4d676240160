//! Parameter prompting decisions: the order in which a template's
//! parameters are asked for, and whether a parameter's gating condition
//! admits asking at all.  The interactive dialogue itself is an external
//! collaborator's concern.

use crate::condition::{evaluate_condition, spec_eval_condition, CondError, CondOutcome};
use crate::sorting::{sort_strings, sorted_strings};
use crate::types::TemplateManifest;
use crate::vars::VarMap;
use vstd::prelude::*;

verus! {

/// A selection produced by the prompting dialogue: templates and the
/// variables gathered for them.
pub struct RecipeSelection {
    pub templates: Vec<TemplateManifest>,
    pub vars: VarMap,
}

/// The declared parameter keys of a template.
pub open spec fn spec_param_keys(t: TemplateManifest) -> Seq<String> {
    t.parameters@.map_values(|p: (String, crate::types::ParamDef)| p.0)
}

/// The template's parameter keys in prompting order: sorted.
pub fn parameter_keys_in_prompt_order(template: &TemplateManifest) -> (r: Vec<String>)
    ensures
        sorted_strings(r@),
        r@.to_multiset() == spec_param_keys(*template).to_multiset(),
{
    let mut keys: Vec<String> = Vec::new();
    let n = template.parameters.len();
    let mut i: usize = 0;
    while i < n
        invariant
            n == template.parameters@.len(),
            i <= n,
            keys@.len() == i,
            forall|j: int| 0 <= j < i ==> keys@[j] == template.parameters@[j].0,
        decreases n - i,
    {
        keys.push(template.parameters[i].0.clone());
        i = i + 1;
    }
    proof {
        assert(keys@ =~= spec_param_keys(*template));
    }
    sort_strings(&mut keys);
    keys
}

/// Failure to evaluate a parameter's gating condition, with the template
/// and parameter it belongs to.
#[derive(Debug)]
pub struct PromptError {
    pub template: String,
    pub parameter: String,
    pub inner: CondError,
}

impl PromptError {
    /// Render the error as text, naming the template and parameter.
    pub fn message(&self) -> (r: String)
        ensures
            r@ == "failed to evaluate prompt condition for template '"@ + self.template@
                + "' parameter '"@ + self.parameter@ + "': "@ + (match self.inner {
                CondError::VariableNotFound { name } => crate::condition::spec_var_not_found_msg(
                    name@,
                ),
                CondError::UnsupportedSyntax { condition } => crate::condition::spec_unsupported_msg(
                    condition@,
                ),
            }),
    {
        let mut s = String::new();
        s.append("failed to evaluate prompt condition for template '");
        s.append(self.template.as_str());
        s.append("' parameter '");
        s.append(self.parameter.as_str());
        s.append("': ");
        let im = self.inner.message();
        s.append(im.as_str());
        proof {
            assert(s@ =~= "failed to evaluate prompt condition for template '"@ + self.template@
                + "' parameter '"@ + self.parameter@ + "': "@ + im@);
        }
        s
    }
}

/// Whether a parameter should be asked for: a parameter without a gating
/// condition always is; otherwise its condition decides, and a failure to
/// evaluate it is an error naming the template and parameter.
pub fn should_prompt_parameter(
    template_name: &str,
    param_key: &str,
    param: &crate::types::ParamDef,
    vars: &VarMap,
) -> (r: Result<bool, PromptError>)
    requires
        vars.wf(),
    ensures
        match param.when {
            None => r == Ok::<bool, PromptError>(true),
            Some(cond) => match r {
                Ok(b) => spec_eval_condition(cond@, vars@) == CondOutcome::Value(b),
                Err(e) => {
                    &&& e.template@ == template_name@
                    &&& e.parameter@ == param_key@
                    &&& match e.inner {
                        CondError::VariableNotFound { name } => spec_eval_condition(cond@, vars@)
                            == CondOutcome::MissingVar(name@),
                        CondError::UnsupportedSyntax { condition } => spec_eval_condition(
                            cond@,
                            vars@,
                        ) is BadSyntax && condition@ == crate::strutil::spec_trim(cond@),
                    }
                },
            },
        },
{
    let cond = match &param.when {
        None => {
            return Ok(true);
        },
        Some(c) => c,
    };
    match evaluate_condition(cond.as_str(), vars) {
        Ok(b) => Ok(b),
        Err(ce) => Err(
            PromptError {
                template: template_name.to_owned(),
                parameter: param_key.to_owned(),
                inner: ce,
            },
        ),
    }
}

} // verus!
