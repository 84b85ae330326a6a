//! Model call options shared by providers: tracing and retry advice requests.
use vstd::prelude::*;

verus! {

/// How much of a model call is traced.
#[derive(Clone, Copy, Debug, PartialEq, Eq, Structural)]
pub enum ModelTracing {
    Disabled,
    Enabled,
    EnabledWithoutData,
}

impl Default for ModelTracing {
    fn default() -> (res: Self)
        ensures
            res == ModelTracing::Enabled,
    {
        ModelTracing::Enabled
    }
}

impl ModelTracing {
    /// Whether the call is not traced.
    pub fn is_disabled(self) -> (res: bool)
        ensures
            res == (self == ModelTracing::Disabled),
    {
        match self {
            ModelTracing::Disabled => true,
            _ => false,
        }
    }

    /// Whether the trace holds the call's data.
    pub fn include_data(self) -> (res: bool)
        ensures
            res == (self == ModelTracing::Enabled),
    {
        match self {
            ModelTracing::Enabled => true,
            _ => false,
        }
    }
}

/// What a provider is asked for retry advice about.
pub struct ModelRetryAdviceRequest {
    pub attempt: usize,
    pub stream: bool,
    pub previous_response_id: Option<String>,
    pub conversation_id: Option<String>,
}

} // verus!
