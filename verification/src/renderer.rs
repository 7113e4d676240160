//! Template renderer: interpolates variables into step strings (commands,
//! working directories, conditions) in strict mode, through the minijinja
//! templating engine.  Referencing an unbound variable is an error, never
//! empty text.

use crate::vars::VarMap;
use vstd::prelude::*;

verus! {

/// What strict-mode rendering yields for a template string under flat
/// string bindings: the rendered text, or `None` for any error (a parse
/// failure, or a reference to an unbound variable).  The result is a
/// function of the template text and the bindings alone.
pub uninterp spec fn render_of(template: Seq<char>, vars: Map<Seq<char>, Seq<char>>) -> Option<
    Seq<char>,
>;

/// A string-templating facility in strict mode.
pub struct Renderer {}

impl Renderer {
    /// A renderer with strict undefined-variable behavior.
    pub fn new() -> (r: Renderer) {
        Renderer {  }
    }

    /// Render `template` with `vars`; an error carries the engine's text.
    ///
    /// Relies on minijinja: `Environment::template_from_str` and
    /// `Template::render` under `UndefinedBehavior::Strict`.  The default
    /// environment has no source of randomness or time, so the outcome
    /// depends on the template text and the bindings alone; an unbound
    /// variable reference fails the rendering.
    #[verifier::external_body]
    pub fn render_string(&self, template: &str, vars: &VarMap) -> (r: Result<String, String>)
        ensures
            match r {
                Ok(s) => render_of(template@, vars@) == Some(s@),
                Err(_) => render_of(template@, vars@) is None,
            },
    {
        let mut env = minijinja::Environment::new();
        env.set_undefined_behavior(minijinja::UndefinedBehavior::Strict);
        let tmpl = match env.template_from_str(template) {
            Ok(t) => t,
            Err(e) => {
                return Err(e.to_string());
            },
        };
        let ctx: std::collections::BTreeMap<String, String> = vars.pairs().iter().cloned().collect();
        tmpl.render(ctx).map_err(|e| e.to_string())
    }
}

} // verus!
