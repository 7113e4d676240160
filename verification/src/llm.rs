//! The recipe payload an LLM-based selection collaborator produces: a
//! template list and parameter values.  Querying the LLM and parsing its
//! response are external collaborators' concerns.

use crate::vars::VarMap;
use vstd::prelude::*;

verus! {

/// A recipe proposed for a project: templates to apply and parameters.
pub struct LlmRecipe {
    pub templates: Vec<String>,
    pub parameters: VarMap,
}

} // verus!
