//! Prompts kept on the model provider's side, and how a run resolves them.
use vstd::prelude::*;

use crate::errors::AgentsError;
use crate::json_map::JsonMap;

verus! {

/// A prompt stored by the model provider, with the version and the variables
/// to fill it with.
pub struct Prompt {
    pub id: String,
    pub version: Option<String>,
    pub variables: JsonMap,
}

/// Where the prompt of a run comes from: given as is, or produced by a
/// callback from what the callback is handed at run time.
pub enum PromptSpec<F> {
    Static(Prompt),
    Dynamic(F),
}

/// Resolution of prompts.
pub struct PromptUtil;

impl PromptUtil {
    /// The prompt a model call gets: none without a prompt, a given prompt as
    /// is, and a callback's prompt (or its error) from a call on `data`.
    pub fn to_model_input<D, F: Fn(D) -> Result<Prompt, AgentsError>>(
        prompt: Option<PromptSpec<F>>,
        data: D,
    ) -> (res: Result<Option<Prompt>, AgentsError>)
        requires
            prompt matches Some(PromptSpec::Dynamic(f)) ==> f.requires((data,)),
        ensures
            match prompt {
                None => res == Ok::<Option<Prompt>, AgentsError>(None),
                Some(PromptSpec::Static(p)) => res == Ok::<Option<Prompt>, AgentsError>(Some(p)),
                Some(PromptSpec::Dynamic(f)) => match res {
                    Ok(Some(p)) => f.ensures((data,), Ok::<Prompt, AgentsError>(p)),
                    Ok(None) => false,
                    Err(e) => f.ensures((data,), Err::<Prompt, AgentsError>(e)),
                },
            },
    {
        match prompt {
            None => Ok(None),
            Some(PromptSpec::Static(p)) => Ok(Some(p)),
            Some(PromptSpec::Dynamic(f)) => match f(data) {
                Ok(p) => Ok(Some(p)),
                Err(e) => Err(e),
            },
        }
    }
}

} // verus!
