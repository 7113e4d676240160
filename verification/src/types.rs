//! Template data model: a manifest identifies a template by name, lists the
//! templates and external tools it depends on, declares its parameters, and
//! carries an ordered list of steps.

use vstd::prelude::*;

verus! {

/// How a template provides its content.
#[derive(Debug, PartialEq, Eq, Structural, Clone, Copy)]
pub enum Provider {
    Bundled,
    Git,
    Command,
}

/// Identifying metadata of a template.
#[derive(Debug)]
pub struct TemplateInfo {
    pub name: String,
    pub description: String,
    pub category: String,
    pub provider: Provider,
}

impl TemplateInfo {
    /// A field-by-field copy.
    pub fn duplicate(&self) -> (r: TemplateInfo)
        ensures
            r == *self,
    {
        TemplateInfo {
            name: self.name.clone(),
            description: self.description.clone(),
            category: self.category.clone(),
            provider: self.provider,
        }
    }
}

/// What a template needs: external tools and other templates.
#[derive(Debug)]
pub struct Dependencies {
    pub required_tools: Vec<String>,
    pub requires_templates: Vec<String>,
}

/// A field-by-field copy of a string list.
pub fn clone_strings(v: &Vec<String>) -> (r: Vec<String>)
    ensures
        r@ == v@,
{
    let mut out: Vec<String> = Vec::new();
    let mut i: usize = 0;
    while i < v.len()
        invariant
            i <= v@.len(),
            out@ =~= v@.take(i as int),
        decreases v@.len() - i,
    {
        out.push(v[i].clone());
        proof {
            assert(out@ =~= v@.take(i + 1));
        }
        i = i + 1;
    }
    proof {
        assert(v@.take(v@.len() as int) =~= v@);
    }
    out
}

/// A field-by-field copy of an optional string.
pub fn clone_opt_string(v: &Option<String>) -> (r: Option<String>)
    ensures
        r == *v,
{
    match v {
        Some(s) => Some(s.clone()),
        None => None,
    }
}

impl Dependencies {
    /// A field-by-field copy.
    pub fn duplicate(&self) -> (r: Dependencies)
        ensures
            r.required_tools@ == self.required_tools@,
            r.requires_templates@ == self.requires_templates@,
    {
        Dependencies {
            required_tools: clone_strings(&self.required_tools),
            requires_templates: clone_strings(&self.requires_templates),
        }
    }

    /// No required tools and no required templates.
    pub fn empty() -> (r: Dependencies)
        ensures
            r.required_tools@ =~= Seq::<String>::empty(),
            r.requires_templates@ =~= Seq::<String>::empty(),
    {
        Dependencies { required_tools: Vec::new(), requires_templates: Vec::new() }
    }
}

impl Default for Dependencies {
    /// No required tools and no required templates.
    fn default() -> (r: Dependencies)
        ensures
            r.required_tools@ =~= Seq::<String>::empty(),
            r.requires_templates@ =~= Seq::<String>::empty(),
    {
        Dependencies::empty()
    }
}

/// The kind of value a parameter takes.
#[derive(Debug, PartialEq, Eq, Structural, Clone, Copy)]
pub enum ParamType {
    String,
    Select,
    MultiSelect,
    Bool,
}

/// A parameter's default value: a plain scalar.
#[derive(Debug)]
pub enum ParamValue {
    Text(String),
    Flag(bool),
    Number(i64),
}

impl ParamValue {
    /// A field-by-field copy.
    pub fn duplicate(&self) -> (r: ParamValue)
        ensures
            r == *self,
    {
        match self {
            ParamValue::Text(s) => ParamValue::Text(s.clone()),
            ParamValue::Flag(b) => ParamValue::Flag(*b),
            ParamValue::Number(n) => ParamValue::Number(*n),
        }
    }
}

/// Declaration of one template parameter.
#[derive(Debug)]
pub struct ParamDef {
    pub param_type: ParamType,
    pub prompt: String,
    pub default: Option<ParamValue>,
    pub options: Vec<String>,
    /// Optional condition gating whether the parameter is asked for.
    pub when: Option<String>,
}

impl ParamDef {
    /// A field-by-field copy.
    pub fn duplicate(&self) -> (r: ParamDef)
        ensures
            r.param_type == self.param_type,
            r.prompt == self.prompt,
            r.default == self.default,
            r.options@ == self.options@,
            r.when == self.when,
    {
        ParamDef {
            param_type: self.param_type,
            prompt: self.prompt.clone(),
            default: match &self.default {
                Some(v) => Some(v.duplicate()),
                None => None,
            },
            options: clone_strings(&self.options),
            when: clone_opt_string(&self.when),
        }
    }
}

/// One unit of work within a template.  The type tag selects the behavior
/// (`command`, `git`, or the reserved `bundled`); the other fields are
/// optional and validated only when the step is reached.
#[derive(Debug)]
pub struct StepDef {
    pub step_type: String,
    pub command: Option<String>,
    pub condition: Option<String>,
    pub check: Option<String>,
    pub working_dir: Option<String>,
    pub action: Option<String>,
    pub source: Option<String>,
    pub url: Option<String>,
}

impl StepDef {
    /// A field-by-field copy.
    pub fn duplicate(&self) -> (r: StepDef)
        ensures
            r == *self,
    {
        StepDef {
            step_type: self.step_type.clone(),
            command: clone_opt_string(&self.command),
            condition: clone_opt_string(&self.condition),
            check: clone_opt_string(&self.check),
            working_dir: clone_opt_string(&self.working_dir),
            action: clone_opt_string(&self.action),
            source: clone_opt_string(&self.source),
            url: clone_opt_string(&self.url),
        }
    }
}

/// A field-by-field copy of a step list.
pub fn clone_steps(v: &Vec<StepDef>) -> (r: Vec<StepDef>)
    ensures
        r@ == v@,
{
    let mut out: Vec<StepDef> = Vec::new();
    let mut i: usize = 0;
    while i < v.len()
        invariant
            i <= v@.len(),
            out@ =~= v@.take(i as int),
        decreases v@.len() - i,
    {
        out.push(v[i].duplicate());
        proof {
            assert(out@ =~= v@.take(i + 1));
        }
        i = i + 1;
    }
    proof {
        assert(v@.take(v@.len() as int) =~= v@);
    }
    out
}

/// A named, declarative unit: metadata, dependencies, parameters, and an
/// ordered list of steps.  Immutable for the duration of a run.
#[derive(Debug)]
pub struct TemplateManifest {
    pub template: TemplateInfo,
    pub dependencies: Dependencies,
    pub parameters: Vec<(String, ParamDef)>,
    pub steps: Vec<StepDef>,
}

impl TemplateManifest {
    /// A field-by-field copy.
    pub fn duplicate(&self) -> (r: TemplateManifest)
        ensures
            r.template == self.template,
            r.dependencies.required_tools@ == self.dependencies.required_tools@,
            r.dependencies.requires_templates@ == self.dependencies.requires_templates@,
            r.steps@ == self.steps@,
            r.parameters@.len() == self.parameters@.len(),
            forall|j: int|
                0 <= j < self.parameters@.len() ==> #[trigger] r.parameters@[j].0
                    == self.parameters@[j].0,
    {
        let mut parameters: Vec<(String, ParamDef)> = Vec::new();
        let mut i: usize = 0;
        while i < self.parameters.len()
            invariant
                i <= self.parameters@.len(),
                parameters@.len() == i,
                forall|j: int|
                    0 <= j < i ==> #[trigger] parameters@[j].0 == self.parameters@[j].0,
            decreases self.parameters@.len() - i,
        {
            let pair = &self.parameters[i];
            parameters.push((pair.0.clone(), pair.1.duplicate()));
            i = i + 1;
        }
        TemplateManifest {
            template: self.template.duplicate(),
            dependencies: self.dependencies.duplicate(),
            parameters,
            steps: clone_steps(&self.steps),
        }
    }
}

} // verus!
