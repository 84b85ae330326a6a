//! What guardrails report, and how a run reacts to a guardrail that trips.
use vstd::prelude::*;

use crate::errors::{AgentsError, InputGuardrailTripwireTriggered, OutputGuardrailTripwireTriggered};
use crate::items::{outputs_view, OutputItem, OutputView};
use crate::json::{json_clone, json_view, Json, JsonValue};
use crate::text::{concat3, copy_opt_string, copy_string, opt_view};

verus! {

/// What an input or output guardrail reports.
pub struct GuardrailFunctionOutput {
    pub output_info: Option<JsonValue>,
    pub tripwire_triggered: bool,
}

impl GuardrailFunctionOutput {
    /// The guardrail lets the run go on.
    pub fn allow(output_info: Option<JsonValue>) -> (res: Self)
        ensures
            res.output_info == output_info,
            !res.tripwire_triggered,
    {
        GuardrailFunctionOutput { output_info, tripwire_triggered: false }
    }

    /// The guardrail stops the run.
    pub fn tripwire(output_info: Option<JsonValue>) -> (res: Self)
        ensures
            res.output_info == output_info,
            res.tripwire_triggered,
    {
        GuardrailFunctionOutput { output_info, tripwire_triggered: true }
    }
}

/// The report of an input guardrail.
pub struct InputGuardrailResult {
    pub guardrail_name: String,
    pub output: GuardrailFunctionOutput,
}

/// The report of an output guardrail.
pub struct OutputGuardrailResult {
    pub guardrail_name: String,
    pub agent_name: String,
    pub agent_output: Vec<OutputItem>,
    pub output: GuardrailFunctionOutput,
}

/// What a tool guardrail decides.
#[derive(Debug)]
pub enum ToolGuardrailBehavior {
    Allow,
    RejectContent { message: String },
    RaiseException,
}

/// What a tool guardrail reports.
#[derive(Debug)]
pub struct ToolGuardrailFunctionOutput {
    pub output_info: Option<JsonValue>,
    pub behavior: ToolGuardrailBehavior,
}

impl ToolGuardrailFunctionOutput {
    /// The tool call goes ahead.
    pub fn allow(output_info: Option<JsonValue>) -> (res: Self)
        ensures
            res.output_info == output_info,
            res.behavior is Allow,
    {
        ToolGuardrailFunctionOutput { output_info, behavior: ToolGuardrailBehavior::Allow }
    }

    /// The tool's content is replaced by `message`.
    pub fn reject_content(message: String, output_info: Option<JsonValue>) -> (res: Self)
        ensures
            res.output_info == output_info,
            res.behavior == (ToolGuardrailBehavior::RejectContent { message }),
    {
        ToolGuardrailFunctionOutput { output_info, behavior: ToolGuardrailBehavior::RejectContent { message } }
    }

    /// The run fails.
    pub fn raise_exception(output_info: Option<JsonValue>) -> (res: Self)
        ensures
            res.output_info == output_info,
            res.behavior is RaiseException,
    {
        ToolGuardrailFunctionOutput { output_info, behavior: ToolGuardrailBehavior::RaiseException }
    }

    /// The message that replaces the tool's content, when the content is rejected.
    pub fn rejection_message(&self) -> (res: Option<&str>)
        ensures
            match self.behavior {
                ToolGuardrailBehavior::RejectContent { message } => res matches Some(m) && m@ == message@,
                _ => res is None,
            },
    {
        match &self.behavior {
            ToolGuardrailBehavior::RejectContent { message } => Some(message.as_str()),
            _ => None,
        }
    }
}

/// The report of a tool input guardrail.
pub struct ToolInputGuardrailResult {
    pub guardrail_name: String,
    pub output: ToolGuardrailFunctionOutput,
}

/// The report of a tool output guardrail.
pub struct ToolOutputGuardrailResult {
    pub guardrail_name: String,
    pub output: ToolGuardrailFunctionOutput,
}

/// What a guardrail's output stands for: what it reports and whether it trips.
pub open spec fn guardrail_output_view(o: GuardrailFunctionOutput) -> (Option<Json>, bool) {
    (
        match o.output_info {
            Some(v) => Some(json_view(v)),
            None => None,
        },
        o.tripwire_triggered,
    )
}

/// What an input guardrail's report stands for.
pub open spec fn input_report_view(r: InputGuardrailResult) -> (Seq<char>, (Option<Json>, bool)) {
    (r.guardrail_name@, guardrail_output_view(r.output))
}

/// What an output guardrail's report stands for.
pub open spec fn output_report_view(r: OutputGuardrailResult) -> (Seq<char>, Seq<char>, Seq<OutputView>, (
    Option<Json>,
    bool,
)) {
    (r.guardrail_name@, r.agent_name@, outputs_view(r.agent_output@), guardrail_output_view(r.output))
}

impl GuardrailFunctionOutput {
    /// Copies this output.
    pub fn copy(&self) -> (res: Self)
        ensures
            guardrail_output_view(res) == guardrail_output_view(*self),
    {
        GuardrailFunctionOutput {
            output_info: match &self.output_info {
                Some(v) => Some(json_clone(v)),
                None => None,
            },
            tripwire_triggered: self.tripwire_triggered,
        }
    }
}

impl InputGuardrailResult {
    /// Copies this report.
    pub fn copy(&self) -> (res: Self)
        ensures
            input_report_view(res) == input_report_view(*self),
    {
        InputGuardrailResult { guardrail_name: copy_string(&self.guardrail_name), output: self.output.copy() }
    }
}

impl OutputGuardrailResult {
    /// Copies this report.
    pub fn copy(&self) -> (res: Self)
        ensures
            output_report_view(res) == output_report_view(*self),
    {
        let mut items: Vec<OutputItem> = Vec::new();
        let mut i: usize = 0;
        while i < self.agent_output.len()
            invariant
                i <= self.agent_output@.len(),
                outputs_view(items@) =~= outputs_view(self.agent_output@).subrange(0, i as int),
            decreases self.agent_output@.len() - i,
        {
            let ghost before = items@;
            items.push(self.agent_output[i].copy());
            assert(outputs_view(items@) =~= outputs_view(before).push(self.agent_output@[i as int]@));
            i = i + 1;
        }
        OutputGuardrailResult {
            guardrail_name: copy_string(&self.guardrail_name),
            agent_name: copy_string(&self.agent_name),
            agent_output: items,
            output: self.output.copy(),
        }
    }
}

/// What a tool guardrail's decision stands for: allow, reject with a
/// message, or raise.
pub open spec fn behavior_view(b: ToolGuardrailBehavior) -> (int, Seq<char>) {
    match b {
        ToolGuardrailBehavior::Allow => (0, Seq::empty()),
        ToolGuardrailBehavior::RejectContent { message } => (1, message@),
        ToolGuardrailBehavior::RaiseException => (2, Seq::empty()),
    }
}

/// What a tool guardrail's output stands for.
pub open spec fn tool_output_view(o: ToolGuardrailFunctionOutput) -> (Option<Json>, (int, Seq<char>)) {
    (
        match o.output_info {
            Some(v) => Some(json_view(v)),
            None => None,
        },
        behavior_view(o.behavior),
    )
}

/// What a tool input guardrail's report stands for.
pub open spec fn tool_input_report_view(r: ToolInputGuardrailResult) -> (Seq<char>, (Option<Json>, (int, Seq<char>))) {
    (r.guardrail_name@, tool_output_view(r.output))
}

/// What a tool output guardrail's report stands for.
pub open spec fn tool_output_report_view(r: ToolOutputGuardrailResult) -> (Seq<char>, (Option<Json>, (int, Seq<char>))) {
    (r.guardrail_name@, tool_output_view(r.output))
}

impl ToolGuardrailFunctionOutput {
    /// Copies this output.
    pub fn copy(&self) -> (res: Self)
        ensures
            tool_output_view(res) == tool_output_view(*self),
    {
        ToolGuardrailFunctionOutput {
            output_info: match &self.output_info {
                Some(v) => Some(json_clone(v)),
                None => None,
            },
            behavior: match &self.behavior {
                ToolGuardrailBehavior::Allow => ToolGuardrailBehavior::Allow,
                ToolGuardrailBehavior::RejectContent { message } => ToolGuardrailBehavior::RejectContent {
                    message: copy_string(message),
                },
                ToolGuardrailBehavior::RaiseException => ToolGuardrailBehavior::RaiseException,
            },
        }
    }
}

impl ToolInputGuardrailResult {
    /// Copies this report.
    pub fn copy(&self) -> (res: Self)
        ensures
            tool_input_report_view(res) == tool_input_report_view(*self),
    {
        ToolInputGuardrailResult { guardrail_name: copy_string(&self.guardrail_name), output: self.output.copy() }
    }
}

impl ToolOutputGuardrailResult {
    /// Copies this report.
    pub fn copy(&self) -> (res: Self)
        ensures
            tool_output_report_view(res) == tool_output_report_view(*self),
    {
        ToolOutputGuardrailResult { guardrail_name: copy_string(&self.guardrail_name), output: self.output.copy() }
    }
}

/// The position of the first report that trips.
pub open spec fn first_tripped(results: Seq<InputGuardrailResult>, from: int) -> Option<int>
    decreases results.len() - from,
{
    if from < 0 || from >= results.len() {
        None
    } else if results[from].output.tripwire_triggered {
        Some(from)
    } else {
        first_tripped(results, from + 1)
    }
}

/// The reports of a turn's input guardrails, unless one trips: then the run
/// fails naming the first guardrail that tripped.
pub fn check_input_guardrail_results(results: Vec<InputGuardrailResult>) -> (res: Result<
    Vec<InputGuardrailResult>,
    AgentsError,
>)
    ensures
        match first_tripped(results@, 0) {
            None => res == Ok::<Vec<InputGuardrailResult>, AgentsError>(results),
            Some(i) => res matches Err(AgentsError::InputGuardrailTripwire(t)) && t.guardrail_name@
                == results@[i].guardrail_name@,
        },
{
    let mut i: usize = 0;
    while i < results.len()
        invariant
            i <= results@.len(),
            first_tripped(results@, 0) == first_tripped(results@, i as int),
        decreases results@.len() - i,
    {
        if results[i].output.tripwire_triggered {
            let name = copy_string(&results[i].guardrail_name);
            return Err(AgentsError::InputGuardrailTripwire(InputGuardrailTripwireTriggered { guardrail_name: name }));
        }
        i = i + 1;
    }
    Ok(results)
}

/// The position of the first output report that trips.
pub open spec fn first_output_tripped(results: Seq<OutputGuardrailResult>, from: int) -> Option<int>
    decreases results.len() - from,
{
    if from < 0 || from >= results.len() {
        None
    } else if results[from].output.tripwire_triggered {
        Some(from)
    } else {
        first_output_tripped(results, from + 1)
    }
}

/// The reports of an agent's output guardrails, unless one trips: then the
/// run fails naming the first guardrail that tripped.
pub fn check_output_guardrail_results(results: Vec<OutputGuardrailResult>) -> (res: Result<
    Vec<OutputGuardrailResult>,
    AgentsError,
>)
    ensures
        match first_output_tripped(results@, 0) {
            None => res == Ok::<Vec<OutputGuardrailResult>, AgentsError>(results),
            Some(i) => res matches Err(AgentsError::OutputGuardrailTripwire(t)) && t.guardrail_name@
                == results@[i].guardrail_name@,
        },
{
    let mut i: usize = 0;
    while i < results.len()
        invariant
            i <= results@.len(),
            first_output_tripped(results@, 0) == first_output_tripped(results@, i as int),
        decreases results@.len() - i,
    {
        if results[i].output.tripwire_triggered {
            let name = copy_string(&results[i].guardrail_name);
            return Err(AgentsError::OutputGuardrailTripwire(OutputGuardrailTripwireTriggered { guardrail_name: name }));
        }
        i = i + 1;
    }
    Ok(results)
}

/// The position of the first tool input report that does not let the call
/// go ahead.
pub open spec fn first_tool_input_decision(results: Seq<ToolInputGuardrailResult>, from: int) -> Option<int>
    decreases results.len() - from,
{
    if from < 0 || from >= results.len() {
        None
    } else if !(results[from].output.behavior is Allow) {
        Some(from)
    } else {
        first_tool_input_decision(results, from + 1)
    }
}

/// The position of the first tool output report that does not let the
/// output through.
pub open spec fn first_tool_output_decision(results: Seq<ToolOutputGuardrailResult>, from: int) -> Option<int>
    decreases results.len() - from,
{
    if from < 0 || from >= results.len() {
        None
    } else if !(results[from].output.behavior is Allow) {
        Some(from)
    } else {
        first_tool_output_decision(results, from + 1)
    }
}

/// What the tool guardrails of a call decide: the call (or its output) goes
/// ahead, or its content is replaced by a message.
pub enum ToolGuardVerdict {
    Proceed,
    Replace { message: String },
}

/// The verdict of a tool call's input guardrails, with their reports: the
/// first report that does not allow the call decides; rejecting content
/// replaces the call's output by its message (the tool does not run), raising
/// fails the run naming that guardrail.
pub fn check_tool_input_guardrail_results(results: Vec<ToolInputGuardrailResult>) -> (res: Result<
    (Vec<ToolInputGuardrailResult>, ToolGuardVerdict),
    AgentsError,
>)
    ensures
        match first_tool_input_decision(results@, 0) {
            None => res matches Ok((kept, ToolGuardVerdict::Proceed)) && kept == results,
            Some(i) => match results@[i].output.behavior {
                ToolGuardrailBehavior::RejectContent { message } => res matches Ok(
                    (kept, ToolGuardVerdict::Replace { message: m }),
                ) && kept == results && m@ == message@,
                _ => res matches Err(AgentsError::ToolInputGuardrailTripwire(t)) && t.guardrail_name@
                    == results@[i].guardrail_name@ && tool_output_view(t.output) == tool_output_view(results@[i].output),
            },
        },
{
    let mut i: usize = 0;
    while i < results.len()
        invariant
            i <= results@.len(),
            first_tool_input_decision(results@, 0) == first_tool_input_decision(results@, i as int),
        decreases results@.len() - i,
    {
        match &results[i].output.behavior {
            ToolGuardrailBehavior::Allow => {},
            ToolGuardrailBehavior::RejectContent { message } => {
                let m = copy_string(message);
                return Ok((results, ToolGuardVerdict::Replace { message: m }));
            },
            ToolGuardrailBehavior::RaiseException => {
                let name = copy_string(&results[i].guardrail_name);
                let output = results[i].output.copy();
                return Err(
                    AgentsError::ToolInputGuardrailTripwire(
                        crate::errors::ToolInputGuardrailTripwireTriggered { guardrail_name: name, output },
                    ),
                );
            },
        }
        i = i + 1;
    }
    Ok((results, ToolGuardVerdict::Proceed))
}

/// The verdict of a tool call's output guardrails, with their reports: the
/// first report that does not allow the output decides; rejecting content
/// replaces the output by its message, raising fails the run naming that
/// guardrail.
pub fn check_tool_output_guardrail_results(results: Vec<ToolOutputGuardrailResult>) -> (res: Result<
    (Vec<ToolOutputGuardrailResult>, ToolGuardVerdict),
    AgentsError,
>)
    ensures
        match first_tool_output_decision(results@, 0) {
            None => res matches Ok((kept, ToolGuardVerdict::Proceed)) && kept == results,
            Some(i) => match results@[i].output.behavior {
                ToolGuardrailBehavior::RejectContent { message } => res matches Ok(
                    (kept, ToolGuardVerdict::Replace { message: m }),
                ) && kept == results && m@ == message@,
                _ => res matches Err(AgentsError::ToolOutputGuardrailTripwire(t)) && t.guardrail_name@
                    == results@[i].guardrail_name@ && tool_output_view(t.output) == tool_output_view(results@[i].output),
            },
        },
{
    let mut i: usize = 0;
    while i < results.len()
        invariant
            i <= results@.len(),
            first_tool_output_decision(results@, 0) == first_tool_output_decision(results@, i as int),
        decreases results@.len() - i,
    {
        match &results[i].output.behavior {
            ToolGuardrailBehavior::Allow => {},
            ToolGuardrailBehavior::RejectContent { message } => {
                let m = copy_string(message);
                return Ok((results, ToolGuardVerdict::Replace { message: m }));
            },
            ToolGuardrailBehavior::RaiseException => {
                let name = copy_string(&results[i].guardrail_name);
                let output = results[i].output.copy();
                return Err(
                    AgentsError::ToolOutputGuardrailTripwire(
                        crate::errors::ToolOutputGuardrailTripwireTriggered { guardrail_name: name, output },
                    ),
                );
            },
        }
        i = i + 1;
    }
    Ok((results, ToolGuardVerdict::Proceed))
}

/// An input guardrail: its name, its description, whether it runs alongside
/// the agent, and the function `E` it checks the input with.
pub struct InputGuardrail<E> {
    pub name: Option<String>,
    pub description: Option<String>,
    pub run_in_parallel: bool,
    pub executor: Option<E>,
}

impl<E> Default for InputGuardrail<E> {
    /// A guardrail with no name, no description, run alongside the agent, and
    /// no function yet.
    fn default() -> (res: Self)
        ensures
            res.name.is_none(),
            res.description.is_none(),
            res.run_in_parallel,
            res.executor.is_none(),
    {
        InputGuardrail { name: None, description: None, run_in_parallel: true, executor: None }
    }
}

impl<E> InputGuardrail<E> {
    /// The name this guardrail reports under: its own, else `input_guardrail`.
    pub open spec fn name_view(&self) -> Seq<char> {
        match self.name {
            Some(n) => n@,
            None => "input_guardrail"@,
        }
    }

    /// A guardrail named `name`, run alongside the agent, with no function yet.
    pub fn new(name: String) -> (res: Self)
        ensures
            res.name == Some(name),
            res.description.is_none(),
            res.run_in_parallel,
            res.executor.is_none(),
    {
        InputGuardrail { name: Some(name), description: None, run_in_parallel: true, executor: None }
    }

    /// This guardrail with a description.
    pub fn with_description(self, description: String) -> (res: Self)
        ensures
            res.name == self.name,
            res.description == Some(description),
            res.run_in_parallel == self.run_in_parallel,
            res.executor == self.executor,
    {
        InputGuardrail { description: Some(description), ..self }
    }

    /// This guardrail, run alongside the agent or before it.
    pub fn with_parallelism(self, run_in_parallel: bool) -> (res: Self)
        ensures
            res.name == self.name,
            res.description == self.description,
            res.run_in_parallel == run_in_parallel,
            res.executor == self.executor,
    {
        InputGuardrail { run_in_parallel, ..self }
    }

    /// The name this guardrail reports under.
    pub fn get_name(&self) -> (res: &str)
        ensures
            res@ == self.name_view(),
    {
        match &self.name {
            Some(n) => n.as_str(),
            None => "input_guardrail",
        }
    }

    /// This guardrail checking with `executor`.
    pub fn with_executor(self, executor: E) -> (res: Self)
        ensures
            res.name == self.name,
            res.description == self.description,
            res.run_in_parallel == self.run_in_parallel,
            res.executor == Some(executor),
    {
        InputGuardrail { executor: Some(executor), ..self }
    }

    /// The function to run this guardrail with; a guardrail without one
    /// cannot run.
    pub fn executor(&self) -> (res: Result<&E, AgentsError>)
        ensures
            match self.executor {
                Some(e) => res == Ok::<&E, AgentsError>(&e),
                None => res matches Err(err) && err.is_message(
                    "input guardrail `"@ + self.name_view() + "` has no executor"@,
                ),
            },
    {
        match &self.executor {
            Some(e) => Ok(e),
            None => Err(AgentsError::message(concat3("input guardrail `", self.get_name(), "` has no executor"))),
        }
    }

    /// The report of this guardrail's check: its name and what it found.
    pub fn report(&self, output: GuardrailFunctionOutput) -> (res: InputGuardrailResult)
        ensures
            res.guardrail_name@ == self.name_view(),
            res.output == output,
    {
        InputGuardrailResult { guardrail_name: String::from_str(self.get_name()), output }
    }
}

/// An output guardrail: its name, its description, and the function `E` it
/// checks an agent's output with.
pub struct OutputGuardrail<E> {
    pub name: Option<String>,
    pub description: Option<String>,
    pub executor: Option<E>,
}

impl<E> Default for OutputGuardrail<E> {
    /// A guardrail with no name, no description, and no function yet.
    fn default() -> (res: Self)
        ensures
            res.name.is_none(),
            res.description.is_none(),
            res.executor.is_none(),
    {
        OutputGuardrail { name: None, description: None, executor: None }
    }
}

impl<E> OutputGuardrail<E> {
    /// The name this guardrail reports under: its own, else `output_guardrail`.
    pub open spec fn name_view(&self) -> Seq<char> {
        match self.name {
            Some(n) => n@,
            None => "output_guardrail"@,
        }
    }

    /// A guardrail named `name` with no function yet.
    pub fn new(name: String) -> (res: Self)
        ensures
            res.name == Some(name),
            res.description.is_none(),
            res.executor.is_none(),
    {
        OutputGuardrail { name: Some(name), description: None, executor: None }
    }

    /// This guardrail with a description.
    pub fn with_description(self, description: String) -> (res: Self)
        ensures
            res.name == self.name,
            res.description == Some(description),
            res.executor == self.executor,
    {
        OutputGuardrail { description: Some(description), ..self }
    }

    /// The name this guardrail reports under.
    pub fn get_name(&self) -> (res: &str)
        ensures
            res@ == self.name_view(),
    {
        match &self.name {
            Some(n) => n.as_str(),
            None => "output_guardrail",
        }
    }

    /// This guardrail checking with `executor`.
    pub fn with_executor(self, executor: E) -> (res: Self)
        ensures
            res.name == self.name,
            res.description == self.description,
            res.executor == Some(executor),
    {
        OutputGuardrail { executor: Some(executor), ..self }
    }

    /// The function to run this guardrail with; a guardrail without one
    /// cannot run.
    pub fn executor(&self) -> (res: Result<&E, AgentsError>)
        ensures
            match self.executor {
                Some(e) => res == Ok::<&E, AgentsError>(&e),
                None => res matches Err(err) && err.is_message(
                    "output guardrail `"@ + self.name_view() + "` has no executor"@,
                ),
            },
    {
        match &self.executor {
            Some(e) => Ok(e),
            None => Err(AgentsError::message(concat3("output guardrail `", self.get_name(), "` has no executor"))),
        }
    }

    /// The report of this guardrail's check of the output of agent
    /// `agent_name`: its name, the agent, the output, and what it found.
    pub fn report(&self, agent_name: String, agent_output: Vec<OutputItem>, output: GuardrailFunctionOutput) -> (res: OutputGuardrailResult)
        ensures
            res.guardrail_name@ == self.name_view(),
            res.agent_name == agent_name,
            res.agent_output == agent_output,
            res.output == output,
    {
        OutputGuardrailResult { guardrail_name: String::from_str(self.get_name()), agent_name, agent_output, output }
    }
}

/// A guardrail run before a function tool: its name and the function `E` it
/// checks the call with.
pub struct ToolInputGuardrail<E> {
    pub name: Option<String>,
    pub executor: Option<E>,
}

impl<E> Default for ToolInputGuardrail<E> {
    /// A guardrail with no name and no function yet.
    fn default() -> (res: Self)
        ensures
            res.name.is_none(),
            res.executor.is_none(),
    {
        ToolInputGuardrail { name: None, executor: None }
    }
}

impl<E> ToolInputGuardrail<E> {
    /// The name this guardrail reports under: its own, else `tool_input_guardrail`.
    pub open spec fn name_view(&self) -> Seq<char> {
        match self.name {
            Some(n) => n@,
            None => "tool_input_guardrail"@,
        }
    }

    /// A guardrail named `name` with no function yet.
    pub fn new(name: String) -> (res: Self)
        ensures
            res.name == Some(name),
            res.executor.is_none(),
    {
        ToolInputGuardrail { name: Some(name), executor: None }
    }

    /// The name this guardrail reports under.
    pub fn get_name(&self) -> (res: &str)
        ensures
            res@ == self.name_view(),
    {
        match &self.name {
            Some(n) => n.as_str(),
            None => "tool_input_guardrail",
        }
    }

    /// This guardrail checking with `executor`.
    pub fn with_executor(self, executor: E) -> (res: Self)
        ensures
            res.name == self.name,
            res.executor == Some(executor),
    {
        ToolInputGuardrail { executor: Some(executor), ..self }
    }

    /// The function to run this guardrail with; a guardrail without one
    /// cannot run.
    pub fn executor(&self) -> (res: Result<&E, AgentsError>)
        ensures
            match self.executor {
                Some(e) => res == Ok::<&E, AgentsError>(&e),
                None => res matches Err(err) && err.is_message(
                    "tool input guardrail `"@ + self.name_view() + "` has no executor"@,
                ),
            },
    {
        match &self.executor {
            Some(e) => Ok(e),
            None => Err(AgentsError::message(concat3("tool input guardrail `", self.get_name(), "` has no executor"))),
        }
    }

    /// The report of this guardrail's check: its name and what it decided.
    pub fn report(&self, output: ToolGuardrailFunctionOutput) -> (res: ToolInputGuardrailResult)
        ensures
            res.guardrail_name@ == self.name_view(),
            res.output == output,
    {
        ToolInputGuardrailResult { guardrail_name: String::from_str(self.get_name()), output }
    }
}

/// A guardrail run after a function tool returns: its name and the function
/// `E` it checks the tool's output with.
pub struct ToolOutputGuardrail<E> {
    pub name: Option<String>,
    pub executor: Option<E>,
}

impl<E> Default for ToolOutputGuardrail<E> {
    /// A guardrail with no name and no function yet.
    fn default() -> (res: Self)
        ensures
            res.name.is_none(),
            res.executor.is_none(),
    {
        ToolOutputGuardrail { name: None, executor: None }
    }
}

impl<E> ToolOutputGuardrail<E> {
    /// The name this guardrail reports under: its own, else `tool_output_guardrail`.
    pub open spec fn name_view(&self) -> Seq<char> {
        match self.name {
            Some(n) => n@,
            None => "tool_output_guardrail"@,
        }
    }

    /// A guardrail named `name` with no function yet.
    pub fn new(name: String) -> (res: Self)
        ensures
            res.name == Some(name),
            res.executor.is_none(),
    {
        ToolOutputGuardrail { name: Some(name), executor: None }
    }

    /// The name this guardrail reports under.
    pub fn get_name(&self) -> (res: &str)
        ensures
            res@ == self.name_view(),
    {
        match &self.name {
            Some(n) => n.as_str(),
            None => "tool_output_guardrail",
        }
    }

    /// This guardrail checking with `executor`.
    pub fn with_executor(self, executor: E) -> (res: Self)
        ensures
            res.name == self.name,
            res.executor == Some(executor),
    {
        ToolOutputGuardrail { executor: Some(executor), ..self }
    }

    /// The function to run this guardrail with; a guardrail without one
    /// cannot run.
    pub fn executor(&self) -> (res: Result<&E, AgentsError>)
        ensures
            match self.executor {
                Some(e) => res == Ok::<&E, AgentsError>(&e),
                None => res matches Err(err) && err.is_message(
                    "tool output guardrail `"@ + self.name_view() + "` has no executor"@,
                ),
            },
    {
        match &self.executor {
            Some(e) => Ok(e),
            None => Err(AgentsError::message(concat3("tool output guardrail `", self.get_name(), "` has no executor"))),
        }
    }

    /// The report of this guardrail's check: its name and what it decided.
    pub fn report(&self, output: ToolGuardrailFunctionOutput) -> (res: ToolOutputGuardrailResult)
        ensures
            res.guardrail_name@ == self.name_view(),
            res.output == output,
    {
        ToolOutputGuardrailResult { guardrail_name: String::from_str(self.get_name()), output }
    }
}

/// An input guardrail named `name` that checks with `guardrail_function`.
pub fn input_guardrail<E>(name: String, guardrail_function: E) -> (res: InputGuardrail<E>)
    ensures
        res.name == Some(name),
        res.description.is_none(),
        res.run_in_parallel,
        res.executor == Some(guardrail_function),
{
    InputGuardrail::new(name).with_executor(guardrail_function)
}

/// An output guardrail named `name` that checks with `guardrail_function`.
pub fn output_guardrail<E>(name: String, guardrail_function: E) -> (res: OutputGuardrail<E>)
    ensures
        res.name == Some(name),
        res.description.is_none(),
        res.executor == Some(guardrail_function),
{
    OutputGuardrail::new(name).with_executor(guardrail_function)
}

/// A tool input guardrail named `name` that checks with `guardrail_function`.
pub fn tool_input_guardrail<E>(name: String, guardrail_function: E) -> (res: ToolInputGuardrail<E>)
    ensures
        res.name == Some(name),
        res.executor == Some(guardrail_function),
{
    ToolInputGuardrail::new(name).with_executor(guardrail_function)
}

/// A tool output guardrail named `name` that checks with `guardrail_function`.
pub fn tool_output_guardrail<E>(name: String, guardrail_function: E) -> (res: ToolOutputGuardrail<E>)
    ensures
        res.name == Some(name),
        res.executor == Some(guardrail_function),
{
    ToolOutputGuardrail::new(name).with_executor(guardrail_function)
}

/// `first_tripped` finds the first report from `from` on that trips.
proof fn lemma_first_tripped(results: Seq<InputGuardrailResult>, from: int)
    requires
        0 <= from,
    ensures
        match first_tripped(results, from) {
            Some(i) => from <= i < results.len() && results[i].output.tripwire_triggered && forall|j: int|
                from <= j < i ==> !(#[trigger] results[j]).output.tripwire_triggered,
            None => forall|j: int| from <= j < results.len() ==> !(#[trigger] results[j]).output.tripwire_triggered,
        },
    decreases results.len() - from,
{
    if from < results.len() && !results[from].output.tripwire_triggered {
        lemma_first_tripped(results, from + 1);
    }
}

/// `first_output_tripped` finds the first report from `from` on that trips.
proof fn lemma_first_output_tripped(results: Seq<OutputGuardrailResult>, from: int)
    requires
        0 <= from,
    ensures
        match first_output_tripped(results, from) {
            Some(i) => from <= i < results.len() && results[i].output.tripwire_triggered && forall|j: int|
                from <= j < i ==> !(#[trigger] results[j]).output.tripwire_triggered,
            None => forall|j: int| from <= j < results.len() ==> !(#[trigger] results[j]).output.tripwire_triggered,
        },
    decreases results.len() - from,
{
    if from < results.len() && !results[from].output.tripwire_triggered {
        lemma_first_output_tripped(results, from + 1);
    }
}

/// `first_tool_input_decision` finds the first report from `from` on that does not allow.
proof fn lemma_first_tool_input_decision(results: Seq<ToolInputGuardrailResult>, from: int)
    requires
        0 <= from,
    ensures
        match first_tool_input_decision(results, from) {
            Some(i) => from <= i < results.len() && !(results[i].output.behavior is Allow) && forall|j: int|
                from <= j < i ==> !!((#[trigger] results[j]).output.behavior is Allow),
            None => forall|j: int| from <= j < results.len() ==> !!((#[trigger] results[j]).output.behavior is Allow),
        },
    decreases results.len() - from,
{
    if from < results.len() && !!(results[from].output.behavior is Allow) {
        lemma_first_tool_input_decision(results, from + 1);
    }
}

/// `first_tool_output_decision` finds the first report from `from` on that does not allow.
proof fn lemma_first_tool_output_decision(results: Seq<ToolOutputGuardrailResult>, from: int)
    requires
        0 <= from,
    ensures
        match first_tool_output_decision(results, from) {
            Some(i) => from <= i < results.len() && !(results[i].output.behavior is Allow) && forall|j: int|
                from <= j < i ==> !!((#[trigger] results[j]).output.behavior is Allow),
            None => forall|j: int| from <= j < results.len() ==> !!((#[trigger] results[j]).output.behavior is Allow),
        },
    decreases results.len() - from,
{
    if from < results.len() && !!(results[from].output.behavior is Allow) {
        lemma_first_tool_output_decision(results, from + 1);
    }
}

/// The guardrail reports that decide are the first that trip (for agent
/// input and output) or the first that do not allow (for tool input and
/// output): none decides exactly when every report lets the run go on, and
/// one that decides comes after only reports that let it go on.
pub proof fn law_first_tripping_guardrail_decides(
    inputs: Seq<InputGuardrailResult>,
    outputs: Seq<OutputGuardrailResult>,
    tool_inputs: Seq<ToolInputGuardrailResult>,
    tool_outputs: Seq<ToolOutputGuardrailResult>,
)
    ensures
        match first_tripped(inputs, 0) {
            Some(i) => 0 <= i < inputs.len() && inputs[i].output.tripwire_triggered && forall|j: int|
                0 <= j < i ==> !(#[trigger] inputs[j]).output.tripwire_triggered,
            None => forall|j: int| 0 <= j < inputs.len() ==> !(#[trigger] inputs[j]).output.tripwire_triggered,
        },
        match first_output_tripped(outputs, 0) {
            Some(i) => 0 <= i < outputs.len() && outputs[i].output.tripwire_triggered && forall|j: int|
                0 <= j < i ==> !(#[trigger] outputs[j]).output.tripwire_triggered,
            None => forall|j: int| 0 <= j < outputs.len() ==> !(#[trigger] outputs[j]).output.tripwire_triggered,
        },
        match first_tool_input_decision(tool_inputs, 0) {
            Some(i) => 0 <= i < tool_inputs.len() && !(tool_inputs[i].output.behavior is Allow) && forall|j: int|
                0 <= j < i ==> (#[trigger] tool_inputs[j]).output.behavior is Allow,
            None => forall|j: int| 0 <= j < tool_inputs.len() ==> (#[trigger] tool_inputs[j]).output.behavior is Allow,
        },
        match first_tool_output_decision(tool_outputs, 0) {
            Some(i) => 0 <= i < tool_outputs.len() && !(tool_outputs[i].output.behavior is Allow) && forall|j: int|
                0 <= j < i ==> (#[trigger] tool_outputs[j]).output.behavior is Allow,
            None => forall|j: int| 0 <= j < tool_outputs.len() ==> (#[trigger] tool_outputs[j]).output.behavior is Allow,
        },
{
    lemma_first_tripped(inputs, 0);
    lemma_first_output_tripped(outputs, 0);
    lemma_first_tool_input_decision(tool_inputs, 0);
    lemma_first_tool_output_decision(tool_outputs, 0);
}

} // verus!
