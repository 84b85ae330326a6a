//! The turn loop of a run as a machine.  From what the run has done so far it
//! says what the runtime does next (run the input guardrails, call the model,
//! finish, or fail), and it takes back what the runtime did: the guardrails'
//! reports, the model's response and what the turn made of it.  The runtime
//! only awaits the model, the tools and the guardrails.
use vstd::prelude::*;

use crate::agent_behavior::ToolsToFinalOutputResult;
use crate::conversation::{ModelResponse, OpenAIServerConversationTracker, TrackerView};
use crate::errors::AgentsError;
use crate::guardrails::{
    check_input_guardrail_results, check_output_guardrail_results, first_output_tripped, first_tripped,
    input_report_view, output_report_view, tool_input_report_view, tool_output_report_view, InputGuardrailResult,
    OutputGuardrailResult, ToolInputGuardrailResult, ToolOutputGuardrailResult,
};
use crate::handoff_history::{copy_run_items, HandoffInputData};
use crate::items::{
    build_message_output_items, copy_input_items, inputs_view, output_as_run_item, outputs_view, runs_view,
    InputItem, InputView, OutputItem, OutputView, RunItem, RunView,
};
use crate::json::{json_text, json_to_string, json_view, Json, JsonValue};
use crate::replay::{replayed, ReasoningItemIdPolicy};
use crate::results::RunResult;
use crate::run_flow::{
    concat_input_reports, concat_output_reports, concat_responses, concat_tool_input_reports,
    concat_tool_output_reports, copy_response, handoff_model_items, handoff_outcome, max_turns_error,
    next_step_spec, progress_step, requested_handoff, resolve_handoff_target, responses_view,
    same_run_items, unbound_handoff_error, unknown_handoff_error, NextStep, OutcomeView, ProgressView,
    RunProgress, TurnOutcome,
};
use crate::run_state::{
    copy_approvals, copy_opt_json, opt_inputs_view, snapshot_view, RunInterruption, RunInterruptionKind, RunState,
    RunStateContextSnapshot, SnapshotView,
};
use crate::usage::{merge_usage, total_usage, Usage};
use crate::text::{copy_opt_string, copy_string, lines_view, opt_view, str_eq};

verus! {

/// The tool calls of a model output, in order.
pub open spec fn tool_calls(output: Seq<OutputView>) -> Seq<OutputView>
    decreases output.len(),
{
    if output.len() == 0 {
        Seq::empty()
    } else {
        let prev = tool_calls(output.drop_last());
        if output.last() is ToolCall {
            prev.push(output.last())
        } else {
            prev
        }
    }
}

/// The position of the first name equal to `name`, from `from` on.
pub open spec fn name_position(names: Seq<Seq<char>>, name: Seq<char>, from: int) -> Option<int>
    decreases names.len() - from,
{
    if from < 0 || from >= names.len() {
        None
    } else if names[from] == name {
        Some(from)
    } else {
        name_position(names, name, from + 1)
    }
}

/// The run items a model output is recorded as.
pub open spec fn message_items(output: Seq<OutputView>) -> Seq<RunView> {
    output.map_values(|o: OutputView| output_as_run_item(o))
}

/// How a turn goes on once the model answered.
pub enum TurnStart {
    /// The model handed off to the agent at `target` in the run's agent
    /// table; the step records the output and the handoff.
    Handoff { target: usize, step_items: Vec<RunItem> },
    /// The model answered without calling tools.
    Answer { response_items: Vec<RunItem> },
    /// The model called these tools.
    RunTools { response_items: Vec<RunItem>, calls: Vec<OutputItem> },
}

/// Whether `name` is one of `names`.
fn contains_name(names: &Vec<String>, name: &str) -> (res: bool)
    ensures
        res == lines_view(names@).contains(name@),
{
    let mut i: usize = 0;
    while i < names.len()
        invariant
            i <= names@.len(),
            forall|k: int| 0 <= k < i ==> names@[k]@ != name@,
        decreases names@.len() - i,
    {
        if str_eq(names[i].as_str(), name) {
            assert(lines_view(names@)[i as int] == name@);
            return true;
        }
        i = i + 1;
    }
    proof {
        if lines_view(names@).contains(name@) {
            let k = choose|k: int| 0 <= k < lines_view(names@).len() && lines_view(names@)[k] == name@;
            assert(names@[k]@ == name@);
        }
    }
    false
}

/// The position of the first of `names` equal to `name`.
fn find_name(names: &Vec<String>, name: &str) -> (res: Option<usize>)
    ensures
        match res {
            Some(i) => name_position(lines_view(names@), name@, 0) == Some(i as int),
            None => name_position(lines_view(names@), name@, 0) is None,
        },
{
    let ghost nv = lines_view(names@);
    let mut i: usize = 0;
    while i < names.len()
        invariant
            i <= names@.len(),
            nv == lines_view(names@),
            name_position(nv, name@, 0) == name_position(nv, name@, i as int),
        decreases names@.len() - i,
    {
        assert(nv[i as int] == names@[i as int]@);
        if str_eq(names[i].as_str(), name) {
            return Some(i);
        }
        i = i + 1;
    }
    None
}

/// The tool calls of a model output, in order.
fn collect_tool_calls(output: &Vec<OutputItem>) -> (res: Vec<OutputItem>)
    ensures
        outputs_view(res@) == tool_calls(outputs_view(output@)),
{
    let ghost ov = outputs_view(output@);
    let mut out: Vec<OutputItem> = Vec::new();
    let mut i: usize = 0;
    while i < output.len()
        invariant
            i <= output@.len(),
            ov == outputs_view(output@),
            outputs_view(out@) == tool_calls(ov.subrange(0, i as int)),
        decreases output@.len() - i,
    {
        assert(ov.subrange(0, i + 1).drop_last() =~= ov.subrange(0, i as int));
        assert(ov.subrange(0, i + 1).last() == output@[i as int]@);
        let ghost before = out@;
        if let OutputItem::ToolCall { .. } = &output[i] {
            out.push(output[i].copy());
            assert(outputs_view(out@) =~= outputs_view(before).push(output@[i as int]@));
        }
        i = i + 1;
    }
    assert(ov.subrange(0, output@.len() as int) =~= ov);
    out
}

/// How a turn goes on once the model answered with `output`: the first
/// handoff it asks for must be one of the agent's handoff targets (else the
/// model misbehaved) and must name an agent of the run (else the handoff is
/// unbound), and then the run goes on with that agent; without a handoff the
/// tool calls run, and without tool calls the output is the answer.
pub fn decide_turn(
    agent_name: &str,
    handoff_targets: &Vec<String>,
    agent_names: &Vec<String>,
    output: &Vec<OutputItem>,
) -> (res: Result<TurnStart, AgentsError>)
    ensures
        match requested_handoff(outputs_view(output@), 0) {
            Some(t) => if !lines_view(handoff_targets@).contains(t) {
                res matches Err(AgentsError::ModelBehavior(e)) && e.message@ == "model requested unknown handoff target `"@
                    + t + "` from agent `"@ + agent_name@ + "`"@
            } else {
                match name_position(lines_view(agent_names@), t, 0) {
                    None => res matches Err(AgentsError::User(e)) && e.message@ == "handoff target `"@ + t
                        + "` is not bound to a runtime agent instance"@,
                    Some(i) => res matches Ok(TurnStart::Handoff { target, step_items }) && target == i && runs_view(
                        step_items@,
                    ) == message_items(outputs_view(output@)).push(RunView::HandoffOutput(agent_name@)),
                }
            },
            None => if tool_calls(outputs_view(output@)).len() == 0 {
                res matches Ok(TurnStart::Answer { response_items }) && runs_view(response_items@) == message_items(
                    outputs_view(output@),
                )
            } else {
                res matches Ok(TurnStart::RunTools { response_items, calls }) && runs_view(response_items@)
                    == message_items(outputs_view(output@)) && outputs_view(calls@) == tool_calls(outputs_view(output@))
            },
        },
{
    let response_items = build_message_output_items(output.as_slice());
    match resolve_handoff_target(output) {
        Some(target) => {
            if !contains_name(handoff_targets, target.as_str()) {
                return Err(unknown_handoff_error(target.as_str(), agent_name));
            }
            match find_name(agent_names, target.as_str()) {
                None => Err(unbound_handoff_error(target.as_str())),
                Some(i) => {
                    let mut step_items = response_items;
                    let ghost before = step_items@;
                    step_items.push(RunItem::HandoffOutput { source_agent: String::from_str(agent_name) });
                    assert(runs_view(step_items@) =~= runs_view(before).push(RunView::HandoffOutput(agent_name@)));
                    Ok(TurnStart::Handoff { target: i, step_items })
                },
            }
        },
        None => {
            let calls = collect_tool_calls(output);
            if calls.len() == 0 {
                Ok(TurnStart::Answer { response_items })
            } else {
                Ok(TurnStart::RunTools { response_items, calls })
            }
        },
    }
}


/// The text a tools' final value ends the run with: a JSON string gives its
/// characters, any other value its compact JSON text.
pub open spec fn final_value_text(v: Json) -> Seq<char> {
    match v {
        Json::Str(s) => s,
        _ => json_text(v),
    }
}

/// The text a tools' final value ends the run with.
pub fn final_output_text_of(value: &JsonValue) -> (res: String)
    ensures
        res@ == final_value_text(json_view(*value)),
{
    match value {
        JsonValue::String(s) => copy_string(s),
        _ => json_to_string(value),
    }
}

/// The output item a final value ends the run with: a JSON string gives a
/// text item, any other value a JSON item.
pub open spec fn final_value_item(v: Json) -> OutputView {
    match v {
        Json::Str(s) => OutputView::Text(s),
        _ => OutputView::Json(v),
    }
}

/// The output item a final value ends the run with.
pub fn final_output_item_of(value: &JsonValue) -> (res: OutputItem)
    ensures
        res@ == final_value_item(json_view(*value)),
{
    match value {
        JsonValue::String(s) => OutputItem::Text { text: copy_string(s) },
        _ => OutputItem::Json { value: crate::json::json_clone(value) },
    }
}

/// The value tools end the run with: none when a call paused; else the value
/// of an evaluation that ends the run, when it gives one.
pub open spec fn tools_final_value(paused: bool, evaluation: Option<ToolsToFinalOutputResult>) -> Option<Json> {
    if paused {
        None
    } else {
        match evaluation {
            Some(e) => if e.is_final_output {
                match e.final_output {
                    Some(v) => Some(json_view(v)),
                    None => None,
                }
            } else {
                None
            },
            None => None,
        }
    }
}

/// What a turn in which tools ran stands for: the run ends with the tools'
/// final value, pauses, or goes on.
pub open spec fn tools_outcome(
    response: Seq<RunView>,
    tools: Seq<RunView>,
    paused: bool,
    evaluation: Option<ToolsToFinalOutputResult>,
) -> OutcomeView {
    match tools_final_value(paused, evaluation) {
        Some(v) => OutcomeView::ToolsFinal(response, tools, final_value_text(v), final_value_item(v)),
        None => if paused {
            OutcomeView::ToolsInterrupted(response, tools)
        } else {
            OutcomeView::ToolsContinue(response, tools)
        },
    }
}

/// A lifecycle hook the run fires: an agent starts (at a turn), the model is
/// called and answers, a handoff moves the run, an agent ends (with its final
/// output, at a turn), a tool starts and ends (with its result).
#[derive(Debug, PartialEq)]
pub enum HookEvent {
    AgentStart { agent: String, turn: usize },
    LlmStart { agent: String },
    LlmEnd { agent: String },
    Handoff { from_agent: String, to_agent: String },
    AgentEnd { agent: String, output: Option<String>, turn: usize },
    ToolStart { agent: String, tool_name: String },
    ToolEnd { agent: String, tool_name: String, result: String },
}

/// What a hook event stands for.
pub enum HookView {
    AgentStart(Seq<char>, nat),
    LlmStart(Seq<char>),
    LlmEnd(Seq<char>),
    Handoff(Seq<char>, Seq<char>),
    AgentEnd(Seq<char>, Option<Seq<char>>, nat),
    ToolStart(Seq<char>, Seq<char>),
    ToolEnd(Seq<char>, Seq<char>, Seq<char>),
}

/// What a hook event stands for.
pub open spec fn hook_view(h: HookEvent) -> HookView {
    match h {
        HookEvent::AgentStart { agent, turn } => HookView::AgentStart(agent@, turn as nat),
        HookEvent::LlmStart { agent } => HookView::LlmStart(agent@),
        HookEvent::LlmEnd { agent } => HookView::LlmEnd(agent@),
        HookEvent::Handoff { from_agent, to_agent } => HookView::Handoff(from_agent@, to_agent@),
        HookEvent::AgentEnd { agent, output, turn } => HookView::AgentEnd(agent@, opt_view(output), turn as nat),
        HookEvent::ToolStart { agent, tool_name } => HookView::ToolStart(agent@, tool_name@),
        HookEvent::ToolEnd { agent, tool_name, result } => HookView::ToolEnd(agent@, tool_name@, result@),
    }
}

/// What a list of hook events stands for.
pub open spec fn hooks_view(s: Seq<HookEvent>) -> Seq<HookView> {
    s.map_values(|h: HookEvent| hook_view(h))
}

/// The hooks a turn that ends the run fires: the agent ends with the run's
/// final output at the number of model calls made.
pub open spec fn end_hooks(agent: Seq<char>, p: ProgressView, calls: nat) -> Seq<HookView> {
    if p.finished {
        seq![HookView::AgentEnd(agent, p.final_output, calls)]
    } else {
        Seq::empty()
    }
}

/// What the runtime does next, without what it is handed.
#[derive(Clone, Copy, Debug, PartialEq, Eq, Structural)]
pub enum DriverStep {
    RunInputGuardrails,
    CallModel,
    Finish,
    Fail,
}

/// What the runtime does next: the input guardrails run before anything else;
/// then the model is called until the run has its final output, pauses, or
/// uses its turns, which fails it.
pub open spec fn driver_step(input_guardrails_done: bool, p: ProgressView) -> DriverStep {
    if !input_guardrails_done {
        DriverStep::RunInputGuardrails
    } else {
        match next_step_spec(p) {
            NextStep::CallModel => DriverStep::CallModel,
            NextStep::Finished => DriverStep::Finish,
            NextStep::Interrupted => DriverStep::Finish,
            NextStep::TurnsExhausted => DriverStep::Fail,
        }
    }
}

/// What the runtime does next, with what it needs for it.
pub enum DriverAction {
    /// Run the input guardrails on the original input.
    RunInputGuardrails,
    /// Call the model with this input.
    CallModel { input: Vec<InputItem> },
    /// Build the run's result.
    Finish,
    /// The run fails with this error.
    Fail { error: AgentsError },
}

/// A run between two steps: its starting and current agent, its input, the
/// bookkeeping of its turns, the model's responses, the guardrails' reports,
/// the calls it paused on, the lifecycle hooks it fired, in order, and the
/// run context it runs in.
pub struct RunDriver {
    pub starting_agent: String,
    pub current_agent: String,
    pub original_input: Vec<InputItem>,
    pub progress: RunProgress,
    pub raw_responses: Vec<ModelResponse>,
    pub input_guardrail_results: Vec<InputGuardrailResult>,
    pub output_guardrail_results: Vec<OutputGuardrailResult>,
    pub tool_input_guardrail_results: Vec<ToolInputGuardrailResult>,
    pub tool_output_guardrail_results: Vec<ToolOutputGuardrailResult>,
    pub interruptions: Vec<RunInterruption>,
    pub input_guardrails_done: bool,
    pub policy: ReasoningItemIdPolicy,
    pub hooks: Vec<HookEvent>,
    pub context: RunStateContextSnapshot,
}

impl RunDriver {
    /// Every turn has its model response, and no turn comes before the input
    /// guardrails ran.
    pub open spec fn wf(&self) -> bool {
        &&& self.raw_responses@.len() == self.progress.turns
        &&& (self.progress.turns > 0 ==> self.input_guardrails_done)
    }

    /// What the runtime does next.
    pub open spec fn step(&self) -> DriverStep {
        driver_step(self.input_guardrails_done, self.progress.view())
    }

    /// A run of `starting_agent` on `original_input`, whose first model call
    /// sees `base_input`, with `max_turns` turns, in the run context `context`.
    pub fn new(
        starting_agent: String,
        original_input: Vec<InputItem>,
        base_input: Vec<InputItem>,
        max_turns: usize,
        policy: ReasoningItemIdPolicy,
        context: RunStateContextSnapshot,
    ) -> (res: Self)
        ensures
            res.wf(),
            res.starting_agent == starting_agent,
            res.current_agent@ == starting_agent@,
            res.original_input == original_input,
            res.progress.view() == (ProgressView {
                turns: 0,
                max_turns: max_turns as nat,
                input_history: inputs_view(base_input@),
                normalized_items: Seq::empty(),
                session_items: Seq::empty(),
                final_output: None,
                final_output_items: Seq::empty(),
                interrupted: false,
                finished: false,
            }),
            res.raw_responses@.len() == 0,
            res.input_guardrail_results@.len() == 0,
            res.output_guardrail_results@.len() == 0,
            res.tool_input_guardrail_results@.len() == 0,
            res.tool_output_guardrail_results@.len() == 0,
            res.interruptions@.len() == 0,
            !res.input_guardrails_done,
            res.policy == policy,
            hooks_view(res.hooks@) == seq![HookView::AgentStart(starting_agent@, 0)],
            res.context == context,
    {
        let current_agent = copy_string(&starting_agent);
        let mut hooks: Vec<HookEvent> = Vec::new();
        hooks.push(HookEvent::AgentStart { agent: copy_string(&starting_agent), turn: 0 });
        assert(hooks_view(hooks@) =~= seq![HookView::AgentStart(starting_agent@, 0)]);
        RunDriver {
            starting_agent,
            current_agent,
            original_input,
            progress: RunProgress::new(base_input, max_turns),
            raw_responses: Vec::new(),
            input_guardrail_results: Vec::new(),
            output_guardrail_results: Vec::new(),
            tool_input_guardrail_results: Vec::new(),
            tool_output_guardrail_results: Vec::new(),
            interruptions: Vec::new(),
            input_guardrails_done: false,
            policy,
            hooks,
            context,
        }
    }

    /// Fires the hook of a tool call about to start, for the current agent.
    pub fn begin_tool_call(&mut self, tool_name: &str)
        requires
            old(self).step() is CallModel,
        ensures
            hooks_view(final(self).hooks@) == hooks_view(old(self).hooks@).push(
                HookView::ToolStart(old(self).current_agent@, tool_name@),
            ),
            *final(self) == (RunDriver { hooks: final(self).hooks, ..*old(self) }),
    {
        let ghost before = self.hooks@;
        self.hooks.push(HookEvent::ToolStart { agent: copy_string(&self.current_agent), tool_name: String::from_str(tool_name) });
        assert(hooks_view(self.hooks@) =~= hooks_view(before).push(HookView::ToolStart(self.current_agent@, tool_name@)));
    }

    /// Fires the hook of a tool call that ended with `result`, for the
    /// current agent.
    pub fn end_tool_call(&mut self, tool_name: &str, result: &str)
        requires
            old(self).step() is CallModel,
        ensures
            hooks_view(final(self).hooks@) == hooks_view(old(self).hooks@).push(
                HookView::ToolEnd(old(self).current_agent@, tool_name@, result@),
            ),
            *final(self) == (RunDriver { hooks: final(self).hooks, ..*old(self) }),
    {
        let ghost before = self.hooks@;
        self.hooks.push(HookEvent::ToolEnd {
            agent: copy_string(&self.current_agent),
            tool_name: String::from_str(tool_name),
            result: String::from_str(result),
        });
        assert(hooks_view(self.hooks@) =~= hooks_view(before).push(
            HookView::ToolEnd(self.current_agent@, tool_name@, result@),
        ));
    }

    /// Fires the hook of a model call about to start, for the current agent.
    pub fn begin_model_call(&mut self)
        requires
            old(self).step() is CallModel,
        ensures
            hooks_view(final(self).hooks@) == hooks_view(old(self).hooks@).push(HookView::LlmStart(old(self).current_agent@)),
            *final(self) == (RunDriver { hooks: final(self).hooks, ..*old(self) }),
    {
        let ghost before = self.hooks@;
        self.hooks.push(HookEvent::LlmStart { agent: copy_string(&self.current_agent) });
        assert(hooks_view(self.hooks@) =~= hooks_view(before).push(HookView::LlmStart(self.current_agent@)));
    }

    /// Fires the hook of a model call that answered, for the current agent.
    pub fn end_model_call(&mut self)
        requires
            old(self).step() is CallModel,
        ensures
            hooks_view(final(self).hooks@) == hooks_view(old(self).hooks@).push(HookView::LlmEnd(old(self).current_agent@)),
            *final(self) == (RunDriver { hooks: final(self).hooks, ..*old(self) }),
    {
        let ghost before = self.hooks@;
        self.hooks.push(HookEvent::LlmEnd { agent: copy_string(&self.current_agent) });
        assert(hooks_view(self.hooks@) =~= hooks_view(before).push(HookView::LlmEnd(self.current_agent@)));
    }

    /// Fires the hook of an agent that ends the run, when the run has its
    /// final output.
    fn fire_end_hooks(&mut self)
        ensures
            hooks_view(final(self).hooks@) == hooks_view(old(self).hooks@) + end_hooks(
                old(self).current_agent@,
                old(self).progress.view(),
                old(self).raw_responses@.len(),
            ),
            *final(self) == (RunDriver { hooks: final(self).hooks, ..*old(self) }),
    {
        let ghost before = self.hooks@;
        if self.progress.finished {
            self.hooks.push(HookEvent::AgentEnd {
                agent: copy_string(&self.current_agent),
                output: copy_opt_string(&self.progress.final_output),
                turn: self.raw_responses.len(),
            });
            assert(hooks_view(self.hooks@) =~= hooks_view(before) + end_hooks(
                self.current_agent@,
                self.progress.view(),
                self.raw_responses@.len(),
            ));
        } else {
            assert(hooks_view(self.hooks@) =~= hooks_view(before) + end_hooks(
                self.current_agent@,
                self.progress.view(),
                self.raw_responses@.len(),
            ));
        }
    }

    /// What the runtime does next: the model input is the history followed
    /// by the generated items replayed; the failure is the turn-budget error
    /// naming the starting agent.
    pub fn next_action(&self) -> (res: DriverAction)
        ensures
            match self.step() {
                DriverStep::RunInputGuardrails => res is RunInputGuardrails,
                DriverStep::CallModel => res matches DriverAction::CallModel { input } && inputs_view(input@)
                    == self.progress.view().input_history + replayed(self.progress.view().normalized_items, self.policy),
                DriverStep::Finish => res is Finish,
                DriverStep::Fail => res matches DriverAction::Fail { error: AgentsError::MaxTurnsExceeded(e) }
                    && e.message@ == "run for agent `"@ + self.starting_agent@ + "` exceeded max_turns ("@
                    + crate::lines::decimal(self.progress.max_turns as nat) + ") before producing a final output"@,
            },
    {
        if !self.input_guardrails_done {
            return DriverAction::RunInputGuardrails;
        }
        match self.progress.next_step() {
            NextStep::CallModel => DriverAction::CallModel { input: self.progress.model_input(self.policy) },
            NextStep::Finished => DriverAction::Finish,
            NextStep::Interrupted => DriverAction::Finish,
            NextStep::TurnsExhausted => DriverAction::Fail {
                error: max_turns_error(self.starting_agent.as_str(), self.progress.max_turns),
            },
        }
    }

    /// Takes the input guardrails' reports: one that trips fails the run
    /// before any model call, naming the first guardrail that tripped; else
    /// the reports are kept and the model may be called.
    pub fn record_input_guardrails(&mut self, reports: Vec<InputGuardrailResult>) -> (res: Result<(), AgentsError>)
        requires
            old(self).wf(),
            old(self).step() is RunInputGuardrails,
        ensures
            final(self).wf(),
            final(self).raw_responses@.len() == 0,
            match first_tripped(reports@, 0) {
                Some(i) => res matches Err(AgentsError::InputGuardrailTripwire(t)) && t.guardrail_name@
                    == reports@[i].guardrail_name@ && *final(self) == *old(self),
                None => res is Ok && *final(self) == (RunDriver {
                    input_guardrail_results: reports,
                    input_guardrails_done: true,
                    ..*old(self)
                }),
            },
    {
        let checked = check_input_guardrail_results(reports)?;
        self.input_guardrail_results = checked;
        self.input_guardrails_done = true;
        Ok(())
    }

    /// The data a handoff's history rewrite starts from: the history and the
    /// items generated so far, and the handoff's step items.
    pub fn handoff_data(&self, step_items: Vec<RunItem>) -> (res: HandoffInputData)
        ensures
            inputs_view(res.input_history@) == self.progress.view().input_history,
            runs_view(res.pre_handoff_items@) == self.progress.view().normalized_items,
            res.new_items == step_items,
            res.input_items.is_none(),
    {
        HandoffInputData {
            input_history: copy_input_items(self.progress.input_history.as_slice()),
            pre_handoff_items: copy_run_items(&self.progress.normalized_items),
            new_items: step_items,
            input_items: None,
        }
    }

    /// Takes a turn whose model handed off to `target_agent`, with the
    /// history rewritten into `data`: the run goes on with that agent.
    pub fn record_handoff(&mut self, response: ModelResponse, target_agent: String, data: HandoffInputData)
        requires
            old(self).wf(),
            old(self).step() is CallModel,
        ensures
            final(self).wf(),
            final(self).raw_responses@ == old(self).raw_responses@.push(response),
            final(self).progress.view() == progress_step(
                old(self).progress.view(),
                OutcomeView::Handoff(
                    inputs_view(data.input_history@),
                    runs_view(data.pre_handoff_items@),
                    handoff_model_items(data),
                    runs_view(data.new_items@),
                ),
            ),
            hooks_view(final(self).hooks@) == hooks_view(old(self).hooks@) + seq![
                HookView::Handoff(old(self).current_agent@, target_agent@),
                HookView::AgentStart(target_agent@, old(self).raw_responses@.len() + 1),
            ],
            *final(self) == (RunDriver {
                current_agent: target_agent,
                progress: final(self).progress,
                raw_responses: final(self).raw_responses,
                hooks: final(self).hooks,
                ..*old(self)
            }),
    {
        self.raw_responses.push(response);
        self.progress.record_turn(handoff_outcome(data));
        let ghost before = self.hooks@;
        self.hooks.push(HookEvent::Handoff {
            from_agent: copy_string(&self.current_agent),
            to_agent: copy_string(&target_agent),
        });
        self.hooks.push(HookEvent::AgentStart { agent: copy_string(&target_agent), turn: self.raw_responses.len() });
        assert(hooks_view(self.hooks@) =~= hooks_view(before) + seq![
            HookView::Handoff(self.current_agent@, target_agent@),
            HookView::AgentStart(target_agent@, self.raw_responses@.len() as nat),
        ]);
        self.current_agent = target_agent;
    }

    /// Takes a turn whose model answered without calling tools, with the
    /// reports of the agent's output guardrails: one that trips fails the run,
    /// naming the first guardrail that tripped; else the answer is the run's
    /// final output and the reports are the run's output guardrail reports.
    pub fn record_answer(
        &mut self,
        response: ModelResponse,
        response_items: Vec<RunItem>,
        output_reports: Vec<OutputGuardrailResult>,
    ) -> (res: Result<(), AgentsError>)
        requires
            old(self).wf(),
            old(self).step() is CallModel,
        ensures
            final(self).wf(),
            match first_output_tripped(output_reports@, 0) {
                Some(i) => res matches Err(AgentsError::OutputGuardrailTripwire(t)) && t.guardrail_name@
                    == output_reports@[i].guardrail_name@ && *final(self) == *old(self),
                None => res is Ok && final(self).raw_responses@ == old(self).raw_responses@.push(response)
                    && final(self).progress.view() == progress_step(
                    old(self).progress.view(),
                    OutcomeView::Answer(runs_view(response_items@), outputs_view(response.output@)),
                ) && hooks_view(final(self).hooks@) == hooks_view(old(self).hooks@) + end_hooks(
                    old(self).current_agent@,
                    final(self).progress.view(),
                    final(self).raw_responses@.len(),
                ) && *final(self) == (RunDriver {
                    progress: final(self).progress,
                    raw_responses: final(self).raw_responses,
                    output_guardrail_results: output_reports,
                    hooks: final(self).hooks,
                    ..*old(self)
                }),
            },
    {
        let checked = check_output_guardrail_results(output_reports)?;
        let output = copy_response(&response).output;
        self.raw_responses.push(response);
        self.progress.record_turn(TurnOutcome::Answer { response_items, output });
        self.output_guardrail_results = checked;
        self.fire_end_hooks();
        Ok(())
    }

    /// Takes a turn in which tools ran: their items, the calls that paused,
    /// the tool guardrails' reports, and the agent's evaluation of the tool
    /// results (made only when no call paused).  The run ends with the value
    /// the evaluation ends it with, pauses on the calls that paused, or goes on.
    pub fn record_tools(
        &mut self,
        response: ModelResponse,
        response_items: Vec<RunItem>,
        tool_items: Vec<RunItem>,
        interruptions: Vec<RunInterruption>,
        tool_input_reports: Vec<ToolInputGuardrailResult>,
        tool_output_reports: Vec<ToolOutputGuardrailResult>,
        evaluation: Option<ToolsToFinalOutputResult>,
    )
        requires
            old(self).wf(),
            old(self).step() is CallModel,
        ensures
            final(self).wf(),
            final(self).raw_responses@ == old(self).raw_responses@.push(response),
            final(self).progress.view() == progress_step(
                old(self).progress.view(),
                tools_outcome(runs_view(response_items@), runs_view(tool_items@), interruptions@.len() > 0, evaluation),
            ),
            final(self).tool_input_guardrail_results@ == old(self).tool_input_guardrail_results@ + tool_input_reports@,
            final(self).tool_output_guardrail_results@ == old(self).tool_output_guardrail_results@ + tool_output_reports@,
            final(self).interruptions@ == (if interruptions@.len() > 0 {
                interruptions@
            } else {
                old(self).interruptions@
            }),
            hooks_view(final(self).hooks@) == hooks_view(old(self).hooks@) + end_hooks(
                old(self).current_agent@,
                final(self).progress.view(),
                final(self).raw_responses@.len(),
            ),
            *final(self) == (RunDriver {
                progress: final(self).progress,
                raw_responses: final(self).raw_responses,
                tool_input_guardrail_results: final(self).tool_input_guardrail_results,
                tool_output_guardrail_results: final(self).tool_output_guardrail_results,
                interruptions: final(self).interruptions,
                hooks: final(self).hooks,
                ..*old(self)
            }),
    {
        let paused = interruptions.len() > 0;
        let ghost ev = evaluation;
        let final_value: Option<JsonValue> = if paused {
            None
        } else {
            match evaluation {
                Some(e) => if e.is_final_output {
                    e.final_output
                } else {
                    None
                },
                None => None,
            }
        };
        assert(match final_value {
            Some(v) => tools_final_value(paused, ev) == Some(json_view(v)),
            None => tools_final_value(paused, ev) is None,
        });
        let outcome = match final_value {
            Some(v) => {
                let final_text = final_output_text_of(&v);
                let final_item = final_output_item_of(&v);
                TurnOutcome::ToolsFinal { response_items, tool_items, final_text, final_item }
            },
            None => if paused {
                TurnOutcome::ToolsInterrupted { response_items, tool_items }
            } else {
                TurnOutcome::ToolsContinue { response_items, tool_items }
            },
        };
        self.raw_responses.push(response);
        self.progress.record_turn(outcome);
        let mut inputs = tool_input_reports;
        self.tool_input_guardrail_results.append(&mut inputs);
        let mut outputs = tool_output_reports;
        self.tool_output_guardrail_results.append(&mut outputs);
        if paused {
            self.interruptions = interruptions;
        }
        self.fire_end_hooks();
    }
}

/// What a pause record stands for.
pub open spec fn interruption_view(i: RunInterruption) -> (
    Option<RunInterruptionKind>,
    Option<Seq<char>>,
    Option<Seq<char>>,
    Option<Seq<char>>,
) {
    (i.kind, opt_view(i.call_id), opt_view(i.tool_name), opt_view(i.reason))
}

/// Copies a pause record.
pub fn copy_interruption(i: &RunInterruption) -> (res: RunInterruption)
    ensures
        interruption_view(res) == interruption_view(*i),
{
    RunInterruption {
        kind: i.kind,
        call_id: copy_opt_string(&i.call_id),
        tool_name: copy_opt_string(&i.tool_name),
        reason: copy_opt_string(&i.reason),
    }
}

/// Whether two input lists are the same.
fn same_inputs(a: &Vec<InputItem>, b: &Vec<InputItem>) -> (res: bool)
    ensures
        res == (inputs_view(a@) == inputs_view(b@)),
{
    if a.len() != b.len() {
        assert(inputs_view(a@).len() != inputs_view(b@).len());
        return false;
    }
    let mut i: usize = 0;
    while i < a.len()
        invariant
            i <= a@.len(),
            a@.len() == b@.len(),
            forall|k: int| 0 <= k < i ==> a@[k]@ == b@[k]@,
        decreases a@.len() - i,
    {
        if !a[i].same_as(&b[i]) {
            assert(inputs_view(a@)[i as int] != inputs_view(b@)[i as int]);
            return false;
        }
        i = i + 1;
    }
    assert(inputs_view(a@) =~= inputs_view(b@));
    true
}

/// The rewritten input a run keeps: its history when that is no longer its
/// original input.
pub open spec fn kept_history(original: Seq<InputView>, history: Seq<InputView>) -> Option<Seq<InputView>> {
    if history == original {
        None
    } else {
        Some(history)
    }
}

/// The tokens model responses used together.
pub open spec fn responses_usage(rs: Seq<ModelResponse>) -> Usage {
    total_usage(rs.map_values(|r: ModelResponse| r.usage))
}

/// The tokens model responses used together.
pub fn responses_total_usage(rs: &Vec<ModelResponse>) -> (res: Usage)
    ensures
        res == responses_usage(rs@),
{
    let ghost us = rs@.map_values(|r: ModelResponse| r.usage);
    let mut usage = Usage::default();
    let mut i: usize = 0;
    while i < rs.len()
        invariant
            i <= rs@.len(),
            us == rs@.map_values(|r: ModelResponse| r.usage),
            usage == total_usage(us.subrange(0, i as int)),
        decreases rs@.len() - i,
    {
        assert(us.subrange(0, i + 1).drop_last() =~= us.subrange(0, i as int));
        assert(us.subrange(0, i + 1).last() == rs@[i as int].usage);
        usage = merge_usage(usage, rs[i].usage);
        i = i + 1;
    }
    assert(us.subrange(0, rs@.len() as int) =~= us);
    usage
}

/// The run context a finished run keeps: the context it ran in, with the
/// tokens its model responses used and its original input as its turn input.
pub open spec fn finished_snapshot(d: RunDriver) -> SnapshotView {
    SnapshotView {
        usage: responses_usage(d.raw_responses@),
        turn_input: inputs_view(d.original_input@),
        ..snapshot_view(d.context)
    }
}

/// The number of items a finished run saves to its session: the session
/// input (`None` without a session, and then nothing is saved) and the
/// persisted items of the run.
pub open spec fn saved_item_count(d: RunDriver, session_input: Option<Seq<InputItem>>) -> nat {
    match session_input {
        None => 0,
        Some(si) => si.len() + d.progress.session_items@.len(),
    }
}

/// The durable state a finished run leaves: its turns are its model calls; it
/// is at its last agent with its turn budget; it keeps its original input and
/// its rewritten history when that differs, its generated and persisted
/// items, its model responses and guardrail reports, the first call it paused
/// on, the conversation settings of `tracker`, the number of items saved to
/// its session, and its run context.
pub open spec fn finished_state(
    s: RunState,
    d: RunDriver,
    tracker: TrackerView,
    session_input: Option<Seq<InputItem>>,
) -> bool {
    &&& s.current_turn == d.raw_responses@.len()
    &&& opt_view(s.current_agent) == Some(d.current_agent@)
    &&& s.max_turns == d.progress.max_turns
    &&& inputs_view(s.original_input@) == inputs_view(d.original_input@)
    &&& opt_inputs_view(s.normalized_input) == kept_history(
        inputs_view(d.original_input@),
        d.progress.view().input_history,
    )
    &&& runs_view(s.generated_items@) == d.progress.view().normalized_items
    &&& runs_view(s.session_items@) == d.progress.view().session_items
    &&& responses_view(s.model_responses@) == responses_view(d.raw_responses@)
    &&& s.input_guardrail_results@.map_values(|r: InputGuardrailResult| input_report_view(r))
        == d.input_guardrail_results@.map_values(|r: InputGuardrailResult| input_report_view(r))
    &&& s.output_guardrail_results@.map_values(|r: OutputGuardrailResult| output_report_view(r))
        == d.output_guardrail_results@.map_values(|r: OutputGuardrailResult| output_report_view(r))
    &&& s.tool_input_guardrail_results@.map_values(|r: ToolInputGuardrailResult| tool_input_report_view(r))
        == d.tool_input_guardrail_results@.map_values(|r: ToolInputGuardrailResult| tool_input_report_view(r))
    &&& s.tool_output_guardrail_results@.map_values(|r: ToolOutputGuardrailResult| tool_output_report_view(r))
        == d.tool_output_guardrail_results@.map_values(|r: ToolOutputGuardrailResult| tool_output_report_view(r))
    &&& (if d.interruptions@.len() > 0 {
        s.current_step matches Some(step) && interruption_view(step) == interruption_view(d.interruptions@[0])
    } else {
        s.current_step.is_none()
    })
    &&& opt_view(s.conversation_id) == tracker.conversation_id
    &&& opt_view(s.previous_response_id) == tracker.previous_response_id
    &&& s.auto_previous_response_id == tracker.auto_previous_response_id
    &&& s.persisted_item_count == saved_item_count(d, session_input)
    &&& snapshot_view(s.context_snapshot) == finished_snapshot(d)
}

/// The outcome of a run that used its turns, when its turn-budget handler
/// gave the value `v`: the run ends with `v` as its final output and output
/// item, which also joins its history and its persisted items when
/// `include_in_history` is set.
pub open spec fn handler_outcome(p: ProgressView, v: Json, include_in_history: bool) -> ProgressView {
    let item = RunView::MessageOutput(final_value_item(v));
    ProgressView {
        final_output: Some(final_value_text(v)),
        final_output_items: seq![final_value_item(v)],
        finished: true,
        normalized_items: if include_in_history {
            p.normalized_items.push(item)
        } else {
            p.normalized_items
        },
        session_items: if include_in_history {
            p.session_items.push(item)
        } else {
            p.session_items
        },
        ..p
    }
}

/// What a turn-budget handler is told of the run: its input, its persisted
/// items, the history the next model call would see, its output so far, its
/// model responses, and the agent it ended at.
pub struct RunErrorData {
    pub input: Vec<InputItem>,
    pub new_items: Vec<RunItem>,
    pub history: Vec<InputItem>,
    pub output: Vec<OutputItem>,
    pub raw_responses: Vec<ModelResponse>,
    pub last_agent: String,
}

impl RunDriver {
    /// What a turn-budget handler is told of this run.
    pub fn max_turns_error_data(&self) -> (res: RunErrorData)
        ensures
            inputs_view(res.input@) == inputs_view(self.original_input@),
            runs_view(res.new_items@) == self.progress.view().session_items,
            inputs_view(res.history@) == self.progress.view().input_history + replayed(
                self.progress.view().normalized_items,
                self.policy,
            ),
            outputs_view(res.output@) == self.progress.view().final_output_items,
            responses_view(res.raw_responses@) == responses_view(self.raw_responses@),
            res.last_agent@ == self.current_agent@,
    {
        let empty: Vec<ModelResponse> = Vec::new();
        let raw_responses = concat_responses(&empty, &self.raw_responses);
        assert(responses_view(empty@) + responses_view(self.raw_responses@) =~= responses_view(self.raw_responses@));
        let empty_items: Vec<RunItem> = Vec::new();
        let mut output: Vec<OutputItem> = Vec::new();
        let mut i: usize = 0;
        while i < self.progress.final_output_items.len()
            invariant
                i <= self.progress.final_output_items@.len(),
                outputs_view(output@) =~= outputs_view(self.progress.final_output_items@).subrange(0, i as int),
            decreases self.progress.final_output_items@.len() - i,
        {
            let ghost before = output@;
            output.push(self.progress.final_output_items[i].copy());
            assert(outputs_view(output@) =~= outputs_view(before).push(self.progress.final_output_items@[i as int]@));
            i = i + 1;
        }
        assert(outputs_view(self.progress.final_output_items@).subrange(
            0,
            self.progress.final_output_items@.len() as int,
        ) =~= outputs_view(self.progress.final_output_items@));
        RunErrorData {
            input: copy_input_items(self.original_input.as_slice()),
            new_items: copy_run_items(&self.progress.session_items),
            history: self.progress.model_input(self.policy),
            output,
            raw_responses,
            last_agent: copy_string(&self.current_agent),
        }
    }

    /// Takes what the turn-budget handler of a run that used its turns gave:
    /// with a final value (and whether it joins the history) the run ends with
    /// it; without one the run fails with the turn-budget error naming the
    /// starting agent.
    pub fn record_max_turns_outcome(&mut self, handled: Option<(JsonValue, bool)>) -> (res: Result<(), AgentsError>)
        requires
            old(self).wf(),
            old(self).step() is Fail,
        ensures
            final(self).wf(),
            match handled {
                None => res matches Err(AgentsError::MaxTurnsExceeded(e)) && e.message@ == "run for agent `"@
                    + old(self).starting_agent@ + "` exceeded max_turns ("@ + crate::lines::decimal(
                    old(self).progress.max_turns as nat,
                ) + ") before producing a final output"@ && *final(self) == *old(self),
                Some((v, keep_in_history)) => res is Ok && final(self).progress.view() == handler_outcome(
                    old(self).progress.view(),
                    json_view(v),
                    keep_in_history,
                ) && final(self).step() is Finish && *final(self) == (RunDriver {
                    progress: final(self).progress,
                    ..*old(self)
                }),
            },
    {
        match handled {
            None => Err(max_turns_error(self.starting_agent.as_str(), self.progress.max_turns)),
            Some((value, keep_in_history)) => {
                let ghost p = self.progress.view();
                let ghost v = json_view(value);
                let item = final_output_item_of(&value);
                self.progress.final_output = Some(final_output_text_of(&value));
                if keep_in_history {
                    let ghost n = self.progress.normalized_items@;
                    let ghost m = self.progress.session_items@;
                    self.progress.normalized_items.push(RunItem::MessageOutput { content: item.copy() });
                    self.progress.session_items.push(RunItem::MessageOutput { content: item.copy() });
                    assert(runs_view(self.progress.normalized_items@) =~= runs_view(n).push(
                        RunView::MessageOutput(final_value_item(v)),
                    ));
                    assert(runs_view(self.progress.session_items@) =~= runs_view(m).push(
                        RunView::MessageOutput(final_value_item(v)),
                    ));
                }
                let mut items: Vec<OutputItem> = Vec::new();
                items.push(item);
                assert(outputs_view(items@) =~= seq![final_value_item(v)]);
                self.progress.final_output_items = items;
                self.progress.finished = true;
                assert(self.progress.view() =~= handler_outcome(p, v, keep_in_history));
                Ok(())
            },
        }
    }

    /// The items a finished run adds to its session: the session input
    /// followed by the persisted items, as input items.
    pub fn session_save_items(&self, session_input: &Vec<InputItem>) -> (res: Vec<InputItem>)
        ensures
            inputs_view(res@) == inputs_view(session_input@) + runs_view(self.progress.session_items@).map_values(
                |r: RunView| crate::items::run_as_input(r),
            ),
    {
        crate::session_input::session_items_for_result(session_input.as_slice(), self.progress.session_items.as_slice())
    }

    /// The result of a run that has its final output or paused: it names the
    /// starting and the last agent, gives the original input, the persisted
    /// items (and the items the model saw, where they differ), the model
    /// responses and the tokens they used, the final output, the guardrail
    /// reports, the calls it paused on, the conversation of `tracker`, its
    /// run context, and the durable state to resume from, which counts the
    /// items saved to the session with `session_input` (none without one).
    pub fn finish(self, tracker: &OpenAIServerConversationTracker, session_input: Option<&Vec<InputItem>>) -> (res:
        RunResult)
        requires
            self.wf(),
            self.step() is Finish,
        ensures
            res.agent_name == self.starting_agent,
            opt_view(res.last_agent) == Some(self.current_agent@),
            res.input == self.original_input,
            opt_inputs_view(res.normalized_input) == kept_history(
                inputs_view(self.original_input@),
                self.progress.view().input_history,
            ),
            runs_view(res.new_items@) == self.progress.view().session_items,
            (match res.normalized_new_items {
                Some(n) => runs_view(n@) == self.progress.view().normalized_items
                    && self.progress.view().normalized_items != self.progress.view().session_items,
                None => self.progress.view().normalized_items == self.progress.view().session_items,
            }),
            res.raw_responses == self.raw_responses,
            res.usage == responses_usage(self.raw_responses@),
            outputs_view(res.output@) == self.progress.view().final_output_items,
            opt_view(res.final_output) == self.progress.view().final_output,
            res.input_guardrail_results == self.input_guardrail_results,
            res.output_guardrail_results == self.output_guardrail_results,
            res.tool_input_guardrail_results == self.tool_input_guardrail_results,
            res.tool_output_guardrail_results == self.tool_output_guardrail_results,
            res.interruptions == self.interruptions,
            opt_view(res.conversation_id) == tracker@.conversation_id,
            opt_view(res.previous_response_id) == tracker@.previous_response_id,
            res.auto_previous_response_id == tracker@.auto_previous_response_id,
            res.reasoning_item_id_policy == self.policy,
            res.agent_tool_invocation.is_none(),
            snapshot_view(res.context_snapshot) == finished_snapshot(self),
            res.run_state matches Some(s) && finished_state(
                s,
                self,
                tracker@,
                match session_input {
                    Some(si) => Some(si@),
                    None => None,
                },
            ),
    {
        let ghost d = self;
        let persisted_item_count: usize = match session_input {
            None => 0,
            Some(si) => {
                let items = self.session_save_items(si);
                assert(inputs_view(items@).len() == items@.len());
                assert(runs_view(self.progress.session_items@).len() == self.progress.session_items@.len());
                items.len()
            },
        };
        assert(persisted_item_count == saved_item_count(
            d,
            match session_input {
                Some(si) => Some(si@),
                None => None,
            },
        ));
        let usage = responses_total_usage(&self.raw_responses);
        let RunDriver {
            starting_agent,
            current_agent,
            original_input,
            progress,
            raw_responses,
            input_guardrail_results,
            output_guardrail_results,
            tool_input_guardrail_results,
            tool_output_guardrail_results,
            interruptions,
            input_guardrails_done: _,
            policy,
            hooks: _,
            context,
        } = self;
        let RunProgress {
            turns: _,
            max_turns,
            input_history,
            normalized_items,
            session_items,
            final_output,
            final_output_items,
            interrupted: _,
            finished: _,
        } = progress;
        let empty_responses: Vec<ModelResponse> = Vec::new();
        let state_responses = concat_responses(&empty_responses, &raw_responses);
        let empty_inputs: Vec<InputGuardrailResult> = Vec::new();
        let state_inputs = concat_input_reports(&empty_inputs, &input_guardrail_results);
        let empty_outputs: Vec<OutputGuardrailResult> = Vec::new();
        let state_outputs = concat_output_reports(&empty_outputs, &output_guardrail_results);
        let empty_tool_inputs: Vec<ToolInputGuardrailResult> = Vec::new();
        let state_tool_inputs = concat_tool_input_reports(&empty_tool_inputs, &tool_input_guardrail_results);
        let empty_tool_outputs: Vec<ToolOutputGuardrailResult> = Vec::new();
        let state_tool_outputs = concat_tool_output_reports(&empty_tool_outputs, &tool_output_guardrail_results);
        proof {
            assert(Seq::<InputGuardrailResult>::empty().map_values(|r: InputGuardrailResult| input_report_view(r)) + input_guardrail_results@.map_values(|r: InputGuardrailResult| input_report_view(r)) =~= input_guardrail_results@.map_values(|r: InputGuardrailResult| input_report_view(r)));
            assert(Seq::<OutputGuardrailResult>::empty().map_values(|r: OutputGuardrailResult| output_report_view(r)) + output_guardrail_results@.map_values(|r: OutputGuardrailResult| output_report_view(r)) =~= output_guardrail_results@.map_values(|r: OutputGuardrailResult| output_report_view(r)));
            assert(Seq::<ToolInputGuardrailResult>::empty().map_values(|r: ToolInputGuardrailResult| tool_input_report_view(r)) + tool_input_guardrail_results@.map_values(|r: ToolInputGuardrailResult| tool_input_report_view(r)) =~= tool_input_guardrail_results@.map_values(|r: ToolInputGuardrailResult| tool_input_report_view(r)));
            assert(Seq::<ToolOutputGuardrailResult>::empty().map_values(|r: ToolOutputGuardrailResult| tool_output_report_view(r)) + tool_output_guardrail_results@.map_values(|r: ToolOutputGuardrailResult| tool_output_report_view(r)) =~= tool_output_guardrail_results@.map_values(|r: ToolOutputGuardrailResult| tool_output_report_view(r)));
            assert(responses_view(empty_responses@) + responses_view(raw_responses@) =~= responses_view(raw_responses@));
        }
        let current_step = if interruptions.len() > 0 {
            Some(copy_interruption(&interruptions[0]))
        } else {
            None
        };
        let state_normalized_input = if same_inputs(&input_history, &original_input) {
            None
        } else {
            Some(input_history)
        };
        let result_normalized_input = match &state_normalized_input {
            Some(h) => Some(copy_input_items(h.as_slice())),
            None => None,
        };
        let normalized_new_items = if same_run_items(&normalized_items, &session_items) {
            None
        } else {
            Some(copy_run_items(&normalized_items))
        };
        let mut state = RunState {
            schema_version: String::from_str(crate::run_state::CURRENT_RUN_STATE_SCHEMA_VERSION),
            current_turn: raw_responses.len(),
            current_agent: Some(copy_string(&current_agent)),
            original_input: copy_input_items(original_input.as_slice()),
            normalized_input: state_normalized_input,
            model_responses: state_responses,
            generated_items: normalized_items,
            session_items: copy_run_items(&session_items),
            max_turns,
            conversation_id: None,
            previous_response_id: None,
            auto_previous_response_id: false,
            reasoning_item_id_policy: ReasoningItemIdPolicy::Preserve,
            current_step,
            persisted_item_count,
            context_snapshot: RunStateContextSnapshot {
                context: crate::json::json_clone(&context.context),
                usage,
                turn_input: copy_input_items(original_input.as_slice()),
                approvals: copy_approvals(&context.approvals),
                tool_input: copy_opt_json(&context.tool_input),
                agent_tool_state_scope: copy_opt_string(&context.agent_tool_state_scope),
            },
            input_guardrail_results: state_inputs,
            output_guardrail_results: state_outputs,
            tool_input_guardrail_results: state_tool_inputs,
            tool_output_guardrail_results: state_tool_outputs,
        };
        assert(snapshot_view(state.context_snapshot) == finished_snapshot(d));
        tracker.apply_to_state(&mut state);
        let conversation_id = copy_opt_string(&state.conversation_id);
        let previous_response_id = copy_opt_string(&state.previous_response_id);
        let auto_previous_response_id = state.auto_previous_response_id;
        let context_snapshot = state.context_snapshot.copy();
        RunResult {
            agent_name: starting_agent,
            last_agent: Some(current_agent),
            input: original_input,
            normalized_input: result_normalized_input,
            output: final_output_items,
            new_items: session_items,
            raw_responses,
            final_output,
            input_guardrail_results,
            output_guardrail_results,
            tool_input_guardrail_results,
            tool_output_guardrail_results,
            run_state: Some(state),
            interruptions,
            conversation_id,
            previous_response_id,
            auto_previous_response_id,
            reasoning_item_id_policy: policy,
            normalized_new_items,
            agent_tool_invocation: None,
            usage,
            context_snapshot,
        }
    }
}

/// What happens to a tool call before it runs: it runs, it pauses the run
/// to wait for an approval, or it was rejected.
pub enum ToolCallGate {
    Run,
    Pause { interruption: RunInterruption },
    Rejected { record: crate::run_state::ApprovalRecord },
}

/// What happens to the call `call_id` of the tool `tool_name` before it runs,
/// given whether the tool needs approval and the decisions of the run
/// context: a tool that needs none runs; without a decision for the call the
/// run pauses on it for an approval; an approved call runs; a rejected one
/// does not.
pub fn tool_call_gate(
    call_id: &str,
    tool_name: &str,
    needs_approval: bool,
    approvals: &crate::ordered::StrMap<crate::run_state::ApprovalRecord>,
) -> (res: ToolCallGate)
    ensures
        !needs_approval ==> res is Run,
        needs_approval && !approvals.view().contains_key(call_id@) ==> (res matches ToolCallGate::Pause {
            interruption,
        } && interruption.kind == Some(RunInterruptionKind::ToolApproval) && opt_view(interruption.call_id) == Some(
            call_id@,
        ) && opt_view(interruption.tool_name) == Some(tool_name@) && interruption.reason.is_none()),
        needs_approval && approvals.view().contains_key(call_id@) && approvals.view()[call_id@].approved ==> res is Run,
        needs_approval && approvals.view().contains_key(call_id@) && !approvals.view()[call_id@].approved ==> (
        res matches ToolCallGate::Rejected { record } && crate::run_state::approval_view(record)
            == crate::run_state::approval_view(approvals.view()[call_id@])),
{
    if !needs_approval {
        return ToolCallGate::Run;
    }
    match approvals.get(call_id) {
        None => ToolCallGate::Pause {
            interruption: RunInterruption {
                kind: Some(RunInterruptionKind::ToolApproval),
                call_id: Some(String::from_str(call_id)),
                tool_name: Some(String::from_str(tool_name)),
                reason: None,
            },
        },
        Some(r) => if r.approved {
            ToolCallGate::Run
        } else {
            ToolCallGate::Rejected { record: crate::run_flow::copy_approval(r) }
        },
    }
}

/// A law of the run loop: the model is never called before the input
/// guardrails have run and passed.
pub proof fn law_input_guardrails_precede_model_calls(input_guardrails_done: bool, p: ProgressView)
    ensures
        driver_step(input_guardrails_done, p) is CallModel ==> input_guardrails_done,
        !input_guardrails_done ==> driver_step(input_guardrails_done, p) is RunInputGuardrails,
{
}

/// `requested_handoff` finds the first handoff at `from` or later.
proof fn lemma_requested_handoff_first(output: Seq<OutputView>, from: int)
    requires
        0 <= from,
    ensures
        match requested_handoff(output, from) {
            Some(t) => exists|i: int|
                from <= i < output.len() && output[i] == OutputView::Handoff(t) && forall|j: int|
                    from <= j < i ==> !((#[trigger] output[j]) is Handoff),
            None => forall|j: int| from <= j < output.len() ==> !((#[trigger] output[j]) is Handoff),
        },
    decreases output.len() - from,
{
    if from < output.len() && !(output[from] is Handoff) {
        lemma_requested_handoff_first(output, from + 1);
    }
}

/// `name_position` finds the first equal name at `from` or later.
proof fn lemma_name_position_first(names: Seq<Seq<char>>, name: Seq<char>, from: int)
    requires
        0 <= from,
    ensures
        match name_position(names, name, from) {
            Some(i) => from <= i < names.len() && names[i] == name && forall|j: int|
                from <= j < i ==> #[trigger] names[j] != name,
            None => forall|j: int| from <= j < names.len() ==> #[trigger] names[j] != name,
        },
    decreases names.len() - from,
{
    if from < names.len() && names[from] != name {
        lemma_name_position_first(names, name, from + 1);
    }
}

/// How a turn goes on is decided by the model output in order: the handoff
/// asked for is the first handoff of the output (none without one), it goes
/// to the first agent of the run with that name, and the tool calls that
/// run are exactly the output's tool calls, in order.
pub proof fn law_turn_follows_first_handoff(output: Seq<OutputView>, names: Seq<Seq<char>>, name: Seq<char>)
    ensures
        match requested_handoff(output, 0) {
            Some(t) => exists|i: int|
                0 <= i < output.len() && output[i] == OutputView::Handoff(t) && forall|j: int|
                    0 <= j < i ==> !((#[trigger] output[j]) is Handoff),
            None => forall|j: int| 0 <= j < output.len() ==> !((#[trigger] output[j]) is Handoff),
        },
        match name_position(names, name, 0) {
            Some(i) => 0 <= i < names.len() && names[i] == name && forall|j: int|
                0 <= j < i ==> #[trigger] names[j] != name,
            None => forall|j: int| 0 <= j < names.len() ==> #[trigger] names[j] != name,
        },
        tool_calls(output) == output.filter(|o: OutputView| o is ToolCall),
    decreases output.len(),
{
    lemma_requested_handoff_first(output, 0);
    lemma_name_position_first(names, name, 0);
    if output.len() == 0 {
        reveal(Seq::filter);
    } else {
        law_turn_follows_first_handoff(output.drop_last(), names, name);
        assert(output.drop_last().push(output.last()) =~= output);
        output.drop_last().lemma_filter_push(output.last(), |o: OutputView| o is ToolCall);
    }
}

} // verus!
