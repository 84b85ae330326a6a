//! Error values raised by the runtime, and the text each one displays.
use vstd::prelude::*;

use crate::text::concat2;

verus! {

/// Collected data attached to runtime failures.
#[derive(Debug)]
pub struct RunErrorDetails {
    pub message: Option<String>,
    pub agent_name: Option<String>,
    pub turns_completed: usize,
}

impl RunErrorDetails {
    /// Details with no message, no agent and no completed turn.
    pub fn new() -> (res: Self)
        ensures
            res.message.is_none(),
            res.agent_name.is_none(),
            res.turns_completed == 0,
    {
        RunErrorDetails { message: None, agent_name: None, turns_completed: 0 }
    }
}

/// Raised when a run goes past its turn budget.
#[derive(Debug)]
pub struct MaxTurnsExceeded {
    pub message: String,
}

/// Raised when the model produces something the runtime cannot use.
#[derive(Debug)]
pub struct ModelBehaviorError {
    pub message: String,
}

/// Raised when the library is used in a way it does not support.
#[derive(Debug)]
pub struct UserError {
    pub message: String,
}

/// Raised when an input guardrail trips.
#[derive(Debug)]
pub struct InputGuardrailTripwireTriggered {
    pub guardrail_name: String,
}

/// Raised when an output guardrail trips.
#[derive(Debug)]
pub struct OutputGuardrailTripwireTriggered {
    pub guardrail_name: String,
}

/// Raised when a tool input guardrail asks the run to fail.
#[derive(Debug)]
pub struct ToolInputGuardrailTripwireTriggered {
    pub guardrail_name: String,
    pub output: crate::guardrails::ToolGuardrailFunctionOutput,
}

/// Raised when a tool output guardrail asks the run to fail.
#[derive(Debug)]
pub struct ToolOutputGuardrailTripwireTriggered {
    pub guardrail_name: String,
    pub output: crate::guardrails::ToolGuardrailFunctionOutput,
}

/// Errors produced by the runtime.
#[derive(Debug)]
pub enum AgentsError {
    ModelProviderNotConfigured,
    ModelUnavailable,
    Message { message: String },
    MaxTurnsExceeded(MaxTurnsExceeded),
    ModelBehavior(ModelBehaviorError),
    User(UserError),
    InputGuardrailTripwire(InputGuardrailTripwireTriggered),
    OutputGuardrailTripwire(OutputGuardrailTripwireTriggered),
    ToolInputGuardrailTripwire(ToolInputGuardrailTripwireTriggered),
    ToolOutputGuardrailTripwire(ToolOutputGuardrailTripwireTriggered),
}

/// Result type used across the runtime.
pub type Result<T> = std::result::Result<T, AgentsError>;

/// The text an error displays.
pub open spec fn error_text(e: AgentsError) -> Seq<char> {
    match e {
        AgentsError::ModelProviderNotConfigured => "model provider is not configured"@,
        AgentsError::ModelUnavailable => "model provider resolved no model"@,
        AgentsError::Message { message } => message@,
        AgentsError::MaxTurnsExceeded(inner) => inner.message@,
        AgentsError::ModelBehavior(inner) => inner.message@,
        AgentsError::User(inner) => inner.message@,
        AgentsError::InputGuardrailTripwire(inner) => "input guardrail triggered: "@
            + inner.guardrail_name@,
        AgentsError::OutputGuardrailTripwire(inner) => "output guardrail triggered: "@
            + inner.guardrail_name@,
        AgentsError::ToolInputGuardrailTripwire(inner) => "tool input guardrail triggered: "@
            + inner.guardrail_name@,
        AgentsError::ToolOutputGuardrailTripwire(inner) => "tool output guardrail triggered: "@
            + inner.guardrail_name@,
    }
}

impl AgentsError {
    /// An error that carries a free-form message.
    pub fn message(message: String) -> (res: Self)
        ensures
            res == (AgentsError::Message { message }),
    {
        AgentsError::Message { message }
    }

    /// Whether this error is a free-form message with the given text.
    pub open spec fn is_message(self, text: Seq<char>) -> bool {
        self matches AgentsError::Message { message } && message@ == text
    }

    /// The text this error displays.
    pub fn to_string(&self) -> (res: String)
        ensures
            res@ == error_text(*self),
    {
        match self {
            AgentsError::ModelProviderNotConfigured => String::from_str(
                "model provider is not configured",
            ),
            AgentsError::ModelUnavailable => String::from_str("model provider resolved no model"),
            AgentsError::Message { message } => message.clone(),
            AgentsError::MaxTurnsExceeded(inner) => inner.message.clone(),
            AgentsError::ModelBehavior(inner) => inner.message.clone(),
            AgentsError::User(inner) => inner.message.clone(),
            AgentsError::InputGuardrailTripwire(inner) => concat2(
                "input guardrail triggered: ",
                inner.guardrail_name.as_str(),
            ),
            AgentsError::OutputGuardrailTripwire(inner) => concat2(
                "output guardrail triggered: ",
                inner.guardrail_name.as_str(),
            ),
            AgentsError::ToolInputGuardrailTripwire(inner) => concat2(
                "tool input guardrail triggered: ",
                inner.guardrail_name.as_str(),
            ),
            AgentsError::ToolOutputGuardrailTripwire(inner) => concat2(
                "tool output guardrail triggered: ",
                inner.guardrail_name.as_str(),
            ),
        }
    }
}

} // verus!
