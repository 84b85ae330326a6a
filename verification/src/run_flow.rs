//! The decisions of a run between model calls: handoff targets, how a handoff
//! rewrites the history, when a run may resume, how the state of a resumed
//! run is merged into the state it resumed from, and the turn-budget error.
use vstd::prelude::*;

use crate::conversation::ModelResponse;
use crate::guardrails::{
    input_report_view, output_report_view, tool_input_report_view, tool_output_report_view, InputGuardrailResult,
    OutputGuardrailResult, ToolInputGuardrailResult, ToolOutputGuardrailResult,
};
use crate::handoff_history::{copy_run_items, opt_runs_view, HandoffInputData};
use crate::errors::{AgentsError, MaxTurnsExceeded, ModelBehaviorError, UserError};
use crate::items::{inputs_view, outputs_view, runs_view, InputItem, InputView, OutputItem, OutputView, RunItem, RunView};
use crate::lines::{decimal, push_decimal};
use crate::ordered::StrMap;
use crate::run_state::{
    approval_view, copy_opt_json, opt_inputs_view, opt_json_view, resume_input_spec, snapshot_view, ApprovalRecord,
    RunInterruptionKind, RunState, RunStateContextSnapshot,
};
use crate::text::{concat2, concat3, copy_opt_string, copy_string, opt_view};

verus! {

/// The first handoff a model output asks for.
pub open spec fn requested_handoff(output: Seq<OutputView>, from: int) -> Option<Seq<char>>
    decreases output.len() - from,
{
    if from < 0 || from >= output.len() {
        None
    } else {
        match output[from] {
            OutputView::Handoff(t) => Some(t),
            _ => requested_handoff(output, from + 1),
        }
    }
}

/// The agent the first handoff of a model output asks for, if any.
pub fn resolve_handoff_target(output: &Vec<OutputItem>) -> (res: Option<String>)
    ensures
        opt_view(res) == requested_handoff(outputs_view(output@), 0),
{
    let ghost ov = outputs_view(output@);
    let mut i: usize = 0;
    while i < output.len()
        invariant
            i <= output@.len(),
            ov == outputs_view(output@),
            requested_handoff(ov, 0) == requested_handoff(ov, i as int),
        decreases output@.len() - i,
    {
        assert(ov[i as int] == output@[i as int]@);
        if let OutputItem::Handoff { target_agent } = &output[i] {
            return Some(copy_string(target_agent));
        }
        i = i + 1;
    }
    None
}

/// The error of a handoff to an agent the current agent has no handoff to.
pub fn unknown_handoff_error(target: &str, agent_name: &str) -> (res: AgentsError)
    ensures
        res matches AgentsError::ModelBehavior(e) && e.message@ == "model requested unknown handoff target `"@
            + target@ + "` from agent `"@ + agent_name@ + "`"@,
{
    let head = concat3("model requested unknown handoff target `", target, "` from agent `");
    let message = concat3(head.as_str(), agent_name, "`");
    AgentsError::ModelBehavior(ModelBehaviorError { message })
}

/// The error of a handoff whose target has no agent to run.
pub fn unbound_handoff_error(target: &str) -> (res: AgentsError)
    ensures
        res matches AgentsError::User(e) && e.message@ == "handoff target `"@ + target@
            + "` is not bound to a runtime agent instance"@,
{
    AgentsError::User(
        UserError { message: concat3("handoff target `", target, "` is not bound to a runtime agent instance") },
    )
}

/// The error of a run that used its turns without a final output.
pub fn max_turns_error(agent_name: &str, max_turns: usize) -> (res: AgentsError)
    ensures
        res matches AgentsError::MaxTurnsExceeded(e) && e.message@ == "run for agent `"@ + agent_name@
            + "` exceeded max_turns ("@ + decimal(max_turns as nat) + ") before producing a final output"@,
{
    let mut message = concat3("run for agent `", agent_name, "` exceeded max_turns (");
    push_decimal(&mut message, max_turns);
    message.append(") before producing a final output");
    AgentsError::MaxTurnsExceeded(MaxTurnsExceeded { message })
}

/// How a handoff rewrites the history it passes on.
#[derive(Clone, Copy, Debug, PartialEq, Eq, Structural)]
pub enum HandoffHistoryMode {
    /// A filter of the handoff's, else of the run's, rewrites it.
    Filter,
    /// The history is nested into a summary message.
    Nest,
    /// The history is passed on as it is.
    Keep,
}

/// How a handoff rewrites its history: a filter wins; else the handoff's
/// nesting choice, else the run's.
pub fn handoff_history_mode(
    handoff_has_filter: bool,
    run_has_filter: bool,
    handoff_nests: Option<bool>,
    run_nests: bool,
) -> (res: HandoffHistoryMode)
    ensures
        (handoff_has_filter || run_has_filter) ==> res is Filter,
        !(handoff_has_filter || run_has_filter) ==> (if (match handoff_nests {
            Some(b) => b,
            None => run_nests,
        }) {
            res is Nest
        } else {
            res is Keep
        }),
{
    if handoff_has_filter || run_has_filter {
        return HandoffHistoryMode::Filter;
    }
    let nest = match handoff_nests {
        Some(b) => b,
        None => run_nests,
    };
    if nest {
        HandoffHistoryMode::Nest
    } else {
        HandoffHistoryMode::Keep
    }
}

/// The items the model sees of a handoff's new step: the rewritten input
/// items when the rewrite gave some, else the new items themselves.
pub open spec fn handoff_model_items(data: HandoffInputData) -> Seq<RunView> {
    match opt_runs_view(data.input_items) {
        Some(items) => items,
        None => runs_view(data.new_items@),
    }
}

/// The turn outcome of a handoff whose history was rewritten into `data` (by
/// a filter, by nesting, or left as it was): the history and the earlier items
/// are those of `data`, the session keeps the new items, and the model sees
/// the rewritten input items when there are some, else the new items.
pub fn handoff_outcome(data: HandoffInputData) -> (res: TurnOutcome)
    ensures
        outcome_view(res) == OutcomeView::Handoff(
            inputs_view(data.input_history@),
            runs_view(data.pre_handoff_items@),
            handoff_model_items(data),
            runs_view(data.new_items@),
        ),
{
    let HandoffInputData { input_history, pre_handoff_items, new_items, input_items } = data;
    let normalized_step_items = match input_items {
        Some(items) => items,
        None => copy_run_items(&new_items),
    };
    TurnOutcome::Handoff {
        input_history,
        pre_handoff_items,
        normalized_step_items,
        session_step_items: new_items,
    }
}

/// The text of the last plain text item among the first `n` input items.
pub open spec fn last_text_input(input: Seq<InputView>, n: int) -> Option<Seq<char>>
    decreases n,
{
    if n <= 0 {
        None
    } else {
        match input[n - 1] {
            InputView::Text(t) => Some(t),
            InputView::Json(_) => last_text_input(input, n - 1),
        }
    }
}

/// The model a turn asks for: the run's, else the agent's.
pub fn requested_model(run_model: &Option<String>, agent_model: &Option<String>) -> (res: Option<String>)
    ensures
        opt_view(res) == (if run_model.is_some() {
            opt_view(*run_model)
        } else {
            opt_view(*agent_model)
        }),
{
    match run_model {
        Some(m) => Some(copy_string(m)),
        None => copy_opt_string(agent_model),
    }
}

/// The response of a turn when no model provider is set: it echoes the last
/// plain text of the input (nothing when there is none), under the model the
/// run or else the agent names, and uses no tokens.
pub fn echo_model_response(run_model: &Option<String>, agent_model: &Option<String>, input: &Vec<InputItem>) -> (res:
    ModelResponse)
    ensures
        opt_view(res.model) == (if run_model.is_some() {
            opt_view(*run_model)
        } else {
            opt_view(*agent_model)
        }),
        outputs_view(res.output@) == seq![
            OutputView::Text(
                match last_text_input(inputs_view(input@), input@.len() as int) {
                    Some(t) => t,
                    None => Seq::empty(),
                },
            ),
        ],
        res.usage == (crate::usage::Usage { input_tokens: 0, output_tokens: 0 }),
        res.response_id.is_none(),
        res.request_id.is_none(),
{
    let ghost iv = inputs_view(input@);
    let mut i: usize = input.len();
    let mut text = String::new();
    let mut found = false;
    while i > 0 && !found
        invariant
            i <= input@.len(),
            iv == inputs_view(input@),
            !found ==> last_text_input(iv, input@.len() as int) == last_text_input(iv, i as int) && text@
                == Seq::<char>::empty(),
            found ==> last_text_input(iv, input@.len() as int) == Some(text@),
        decreases i,
    {
        assert(iv[i - 1] == input@[i - 1]@);
        match input[i - 1].as_text() {
            Some(t) => {
                text = String::from_str(t);
                found = true;
            },
            None => {},
        }
        i = i - 1;
    }
    assert(text@ == (match last_text_input(iv, input@.len() as int) {
        Some(t) => t,
        None => Seq::<char>::empty(),
    }));
    let mut output: Vec<OutputItem> = Vec::new();
    output.push(OutputItem::Text { text });
    proof {
        assert(outputs_view(output@) =~= seq![output@[0]@]);
    }
    ModelResponse {
        model: requested_model(run_model, agent_model),
        output,
        usage: crate::usage::Usage::default(),
        response_id: None,
        request_id: None,
    }
}

/// Which model provider a turn's model call goes to.
#[derive(Clone, Copy, Debug, PartialEq, Eq, Structural)]
pub enum ProviderChoice {
    /// The runner's own provider.
    Runner,
    /// The provider of the run's settings.
    RunConfig,
    /// No provider: the call echoes the input.
    Echo,
}

/// How a turn calls the model: the model it asks for, the settings it sends,
/// and the provider it goes to.
pub struct ModelCallPlan<N> {
    pub model: Option<String>,
    pub settings: crate::model_settings::ModelSettings<N>,
    pub provider: ProviderChoice,
}

/// How a turn calls the model: the run's model, else the agent's; the
/// defaults of that model (`model_defaults`) with the agent's settings laid
/// over them and the run's over those; the runner's provider, else the run's,
/// else none.
pub fn model_call_plan<N: Copy>(
    run_model: &Option<String>,
    agent_model: &Option<String>,
    model_defaults: &crate::model_settings::ModelSettings<N>,
    agent_settings: Option<&crate::model_settings::ModelSettings<N>>,
    run_settings: Option<&crate::model_settings::ModelSettings<N>>,
    runner_has_provider: bool,
    run_has_provider: bool,
) -> (res: ModelCallPlan<N>)
    ensures
        opt_view(res.model) == (if run_model.is_some() {
            opt_view(*run_model)
        } else {
            opt_view(*agent_model)
        }),
        res.settings.view() == ({
            let with_agent = match agent_settings {
                Some(a) => crate::model_settings::overlay_settings(model_defaults.view(), a.view()),
                None => model_defaults.view(),
            };
            match run_settings {
                Some(r) => crate::model_settings::overlay_settings(with_agent, r.view()),
                None => with_agent,
            }
        }),
        res.provider == (if runner_has_provider {
            ProviderChoice::Runner
        } else if run_has_provider {
            ProviderChoice::RunConfig
        } else {
            ProviderChoice::Echo
        }),
{
    let with_agent = model_defaults.resolve(agent_settings);
    let settings = with_agent.resolve(run_settings);
    let provider = if runner_has_provider {
        ProviderChoice::Runner
    } else if run_has_provider {
        ProviderChoice::RunConfig
    } else {
        ProviderChoice::Echo
    };
    ModelCallPlan { model: requested_model(run_model, agent_model), settings, provider }
}

/// Why a run state cannot be resumed, if it cannot: its turns are used up, or
/// it has no current agent.  Otherwise the agent it resumes with.
pub fn check_resumable(state: &RunState) -> (res: Result<String, AgentsError>)
    ensures
        match res {
            Ok(a) => state.current_turn < state.max_turns && opt_view(state.current_agent) == Some(a@),
            Err(AgentsError::MaxTurnsExceeded(e)) => state.current_turn >= state.max_turns && e.message@
                == "cannot resume a run state that has exhausted max_turns"@,
            Err(AgentsError::User(e)) => state.current_turn < state.max_turns && state.current_agent.is_none()
                && e.message@ == "cannot resume a run state without a current agent"@,
            Err(_) => false,
        },
{
    if state.remaining_turns() == 0 {
        return Err(
            AgentsError::MaxTurnsExceeded(
                MaxTurnsExceeded {
                    message: String::from_str("cannot resume a run state that has exhausted max_turns"),
                },
            ),
        );
    }
    match &state.current_agent {
        Some(a) => Ok(copy_string(a)),
        None => Err(
            AgentsError::User(
                UserError { message: String::from_str("cannot resume a run state without a current agent") },
            ),
        ),
    }
}

/// Whether a paused run waits for a tool approval.
pub fn awaits_tool_approval(state: &RunState) -> (res: bool)
    ensures
        res == (state.current_step matches Some(s) && s.kind == Some(RunInterruptionKind::ToolApproval)),
{
    match &state.current_step {
        Some(step) => match step.kind {
            Some(RunInterruptionKind::ToolApproval) => true,
            _ => false,
        },
        None => false,
    }
}

/// The tool call a paused run waits on: refused without an interruption
/// record or without a call id.
pub fn pending_approval_call_id(state: &RunState) -> (res: Result<String, AgentsError>)
    ensures
        match res {
            Ok(id) => state.current_step matches Some(s) && opt_view(s.call_id) == Some(id@),
            Err(AgentsError::User(e)) => match state.current_step {
                None => e.message@ == "cannot resume a pending approval without an interruption record"@,
                Some(s) => s.call_id.is_none() && e.message@
                    == "cannot resume a pending approval without a tool call id"@,
            },
            Err(_) => false,
        },
{
    let step = match &state.current_step {
        Some(s) => s,
        None => {
            return Err(
                AgentsError::User(
                    UserError {
                        message: String::from_str("cannot resume a pending approval without an interruption record"),
                    },
                ),
            );
        },
    };
    match &step.call_id {
        Some(id) => Ok(copy_string(id)),
        None => Err(
            AgentsError::User(
                UserError { message: String::from_str("cannot resume a pending approval without a tool call id") },
            ),
        ),
    }
}

/// The error of a pending tool call the run state does not hold.
pub fn missing_pending_tool_call_error(call_id: &str) -> (res: AgentsError)
    ensures
        res matches AgentsError::ModelBehavior(e) && e.message@ == "cannot find pending tool call `"@ + call_id@
            + "` in run state"@,
{
    AgentsError::ModelBehavior(
        ModelBehaviorError { message: concat3("cannot find pending tool call `", call_id, "` in run state") },
    )
}

/// Copies an approval record.
pub fn copy_approval(r: &ApprovalRecord) -> (res: ApprovalRecord)
    ensures
        approval_view(res) == approval_view(*r),
{
    ApprovalRecord {
        approved: r.approved,
        reason: copy_opt_string(&r.reason),
        tool_name: copy_opt_string(&r.tool_name),
    }
}

/// The decision recorded for the call a paused run waits on; refused when
/// none is recorded.
pub fn pending_approval_decision(state: &RunState, call_id: &str) -> (res: Result<ApprovalRecord, AgentsError>)
    ensures
        match res {
            Ok(r) => state.context_snapshot.approvals.view().contains_key(call_id@) && approval_view(r)
                == approval_view(state.context_snapshot.approvals.view()[call_id@]),
            Err(AgentsError::User(e)) => !state.context_snapshot.approvals.view().contains_key(call_id@) && e.message@
                == "approval decision for `"@ + call_id@ + "` is missing"@,
            Err(_) => false,
        },
{
    match state.approval(call_id) {
        Some(r) => Ok(copy_approval(r)),
        None => Err(
            AgentsError::User(UserError { message: concat3("approval decision for `", call_id, "` is missing") }),
        ),
    }
}

/// The position of the first tool call item with call id `call_id`.
pub open spec fn pending_call_position(items: Seq<RunView>, call_id: Seq<char>, from: int) -> Option<int>
    decreases items.len() - from,
{
    if from < 0 || from >= items.len() {
        None
    } else if items[from] matches RunView::ToolCall { call_id: Some(c), .. } && c == call_id {
        Some(from)
    } else {
        pending_call_position(items, call_id, from + 1)
    }
}

/// What resuming a run paused for an approval works from: the call it waits
/// on, the tool call item of that call, and the decision recorded for it.
pub struct ApprovalResumption {
    pub call_id: String,
    pub tool_call: RunItem,
    pub approval: ApprovalRecord,
}

/// What resuming a run paused for an approval works from, or why it cannot
/// resume: no interruption record, no call id, no tool call item with that id
/// among the generated items, or no decision recorded for it, in that order.
pub fn resume_pending_approval(state: &RunState) -> (res: Result<ApprovalResumption, AgentsError>)
    ensures
        match state.current_step {
            None => res matches Err(AgentsError::User(e)) && e.message@
                == "cannot resume a pending approval without an interruption record"@,
            Some(step) => match step.call_id {
                None => res matches Err(AgentsError::User(e)) && e.message@
                    == "cannot resume a pending approval without a tool call id"@,
                Some(id) => match pending_call_position(runs_view(state.generated_items@), id@, 0) {
                    None => res matches Err(AgentsError::ModelBehavior(e)) && e.message@
                        == "cannot find pending tool call `"@ + id@ + "` in run state"@,
                    Some(k) => if state.context_snapshot.approvals.view().contains_key(id@) {
                        res matches Ok(r) && r.call_id@ == id@ && r.tool_call@ == state.generated_items@[k]@
                            && approval_view(r.approval) == approval_view(state.context_snapshot.approvals.view()[id@])
                    } else {
                        res matches Err(AgentsError::User(e)) && e.message@ == "approval decision for `"@ + id@
                            + "` is missing"@
                    },
                },
            },
        },
{
    let call_id = pending_approval_call_id(state)?;
    let ghost items = runs_view(state.generated_items@);
    let mut i: usize = 0;
    let mut found: Option<usize> = None;
    while i < state.generated_items.len() && found.is_none()
        invariant
            i <= state.generated_items@.len(),
            items == runs_view(state.generated_items@),
            found.is_none() ==> pending_call_position(items, call_id@, 0) == pending_call_position(
                items,
                call_id@,
                i as int,
            ),
            found matches Some(k) ==> pending_call_position(items, call_id@, 0) == Some(k as int) && k
                < state.generated_items@.len(),
        decreases state.generated_items@.len() - i,
    {
        assert(items[i as int] == state.generated_items@[i as int]@);
        let matches_call = match &state.generated_items[i] {
            RunItem::ToolCall { call_id: Some(c), .. } => crate::text::str_eq(c.as_str(), call_id.as_str()),
            _ => false,
        };
        if matches_call {
            found = Some(i);
        }
        i = i + 1;
    }
    let k = match found {
        Some(k) => k,
        None => {
            return Err(missing_pending_tool_call_error(call_id.as_str()));
        },
    };
    let approval = pending_approval_decision(state, call_id.as_str())?;
    Ok(ApprovalResumption { call_id, tool_call: state.generated_items[k].copy(), approval })
}

/// The run state once an approved tool call has run: the interruption is
/// cleared, the decision is kept under the call id, the tool's new items are
/// added to the generated and the persisted items, and the tool guardrails'
/// reports are recorded.  A tool run that paused again is refused.
pub fn continue_after_approval(
    state: &mut RunState,
    resumption: ApprovalResumption,
    paused_again: bool,
    new_items: Vec<RunItem>,
    tool_input_reports: Vec<ToolInputGuardrailResult>,
    tool_output_reports: Vec<ToolOutputGuardrailResult>,
) -> (res: Result<(), AgentsError>)
    ensures
        paused_again ==> (res matches Err(AgentsError::User(e)) && e.message@
            == "resumed approval unexpectedly produced another interruption"@),
        paused_again ==> *final(state) == *old(state),
        !paused_again ==> res is Ok,
        !paused_again ==> *final(state) == (RunState {
            current_step: None,
            context_snapshot: RunStateContextSnapshot {
                approvals: final(state).context_snapshot.approvals,
                ..old(state).context_snapshot
            },
            generated_items: final(state).generated_items,
            session_items: final(state).session_items,
            tool_input_guardrail_results: final(state).tool_input_guardrail_results,
            tool_output_guardrail_results: final(state).tool_output_guardrail_results,
            ..*old(state)
        }) && final(state).context_snapshot.approvals.view() == old(state).context_snapshot.approvals.view().insert(
            resumption.call_id@,
            resumption.approval,
        ) && runs_view(final(state).generated_items@) == runs_view(old(state).generated_items@) + runs_view(
            new_items@,
        ) && runs_view(final(state).session_items@) == runs_view(old(state).session_items@) + runs_view(new_items@)
            && final(state).tool_input_guardrail_results@ == old(state).tool_input_guardrail_results@
            + tool_input_reports@ && final(state).tool_output_guardrail_results@
            == old(state).tool_output_guardrail_results@ + tool_output_reports@,
{
    if paused_again {
        return Err(
            AgentsError::User(
                UserError { message: String::from_str("resumed approval unexpectedly produced another interruption") },
            ),
        );
    }
    let ApprovalResumption { call_id, tool_call: _, approval } = resumption;
    state.clear_interruption();
    state.context_snapshot.approvals.insert(call_id, approval);
    let copies = copy_run_items(&new_items);
    state.extend_generated_items(new_items);
    state.extend_session_items(copies);
    let mut inputs = tool_input_reports;
    state.tool_input_guardrail_results.append(&mut inputs);
    let mut outputs = tool_output_reports;
    state.tool_output_guardrail_results.append(&mut outputs);
    Ok(())
}

/// How a paused run resumes: with its current agent, the turns it has left,
/// and the items it replays.
pub struct ResumePlan {
    pub agent: String,
    pub max_turns: usize,
    pub input: Vec<InputItem>,
}

/// How a paused run resumes, or why it cannot (as `check_resumable` says).
pub fn resume_plan(state: &RunState) -> (res: Result<ResumePlan, AgentsError>)
    ensures
        match res {
            Ok(p) => state.current_turn < state.max_turns && opt_view(state.current_agent) == Some(p.agent@)
                && p.max_turns == state.max_turns - state.current_turn && inputs_view(p.input@) == resume_input_spec(
                match state.normalized_input {
                    Some(n) => inputs_view(n@),
                    None => inputs_view(state.original_input@),
                },
                runs_view(state.generated_items@),
                state.reasoning_item_id_policy,
            ),
            Err(AgentsError::MaxTurnsExceeded(e)) => state.current_turn >= state.max_turns && e.message@
                == "cannot resume a run state that has exhausted max_turns"@,
            Err(AgentsError::User(e)) => state.current_turn < state.max_turns && state.current_agent.is_none()
                && e.message@ == "cannot resume a run state without a current agent"@,
            Err(_) => false,
        },
{
    let agent = check_resumable(state)?;
    Ok(ResumePlan { agent, max_turns: state.remaining_turns(), input: state.resume_input() })
}

/// What a model response stands for.
pub open spec fn response_view(r: ModelResponse) -> (
    Option<Seq<char>>,
    Seq<OutputView>,
    crate::usage::Usage,
    Option<Seq<char>>,
    Option<Seq<char>>,
) {
    (opt_view(r.model), outputs_view(r.output@), r.usage, opt_view(r.response_id), opt_view(r.request_id))
}

/// What a list of model responses stands for.
pub open spec fn responses_view(v: Seq<ModelResponse>) -> Seq<
    (Option<Seq<char>>, Seq<OutputView>, crate::usage::Usage, Option<Seq<char>>, Option<Seq<char>>),
> {
    v.map_values(|r: ModelResponse| response_view(r))
}

/// Copies a model response.
pub fn copy_response(r: &ModelResponse) -> (res: ModelResponse)
    ensures
        response_view(res) == response_view(*r),
{
    let mut output: Vec<OutputItem> = Vec::new();
    let mut i: usize = 0;
    while i < r.output.len()
        invariant
            i <= r.output@.len(),
            outputs_view(output@) == outputs_view(r.output@).subrange(0, i as int),
        decreases r.output@.len() - i,
    {
        let ghost before = output@;
        output.push(r.output[i].copy());
        assert(outputs_view(output@) =~= outputs_view(before).push(r.output@[i as int]@));
        assert(outputs_view(r.output@).subrange(0, i + 1) =~= outputs_view(r.output@).subrange(0, i as int).push(
            r.output@[i as int]@,
        ));
        i = i + 1;
    }
    assert(outputs_view(r.output@).subrange(0, r.output@.len() as int) =~= outputs_view(r.output@));
    ModelResponse {
        model: copy_opt_string(&r.model),
        output,
        usage: r.usage,
        response_id: copy_opt_string(&r.response_id),
        request_id: copy_opt_string(&r.request_id),
    }
}

/// The responses of `a` followed by copies of those of `b`.
pub(crate) fn concat_responses(a: &Vec<ModelResponse>, b: &Vec<ModelResponse>) -> (res: Vec<ModelResponse>)
    ensures
        responses_view(res@) == responses_view(a@) + responses_view(b@),
{
    let mut out: Vec<ModelResponse> = Vec::new();
    let mut i: usize = 0;
    while i < a.len()
        invariant
            i <= a@.len(),
            responses_view(out@) == responses_view(a@).subrange(0, i as int),
        decreases a@.len() - i,
    {
        let ghost before = out@;
        out.push(copy_response(&a[i]));
        assert(responses_view(out@) =~= responses_view(before).push(response_view(a@[i as int])));
        assert(responses_view(a@).subrange(0, i + 1) =~= responses_view(a@).subrange(0, i as int).push(
            response_view(a@[i as int]),
        ));
        i = i + 1;
    }
    assert(responses_view(a@).subrange(0, a@.len() as int) =~= responses_view(a@));
    let mut k: usize = 0;
    while k < b.len()
        invariant
            k <= b@.len(),
            responses_view(out@) == responses_view(a@) + responses_view(b@).subrange(0, k as int),
        decreases b@.len() - k,
    {
        let ghost before = out@;
        out.push(copy_response(&b[k]));
        assert(responses_view(out@) =~= responses_view(before).push(response_view(b@[k as int])));
        assert(responses_view(b@).subrange(0, k + 1) =~= responses_view(b@).subrange(0, k as int).push(
            response_view(b@[k as int]),
        ));
        k = k + 1;
    }
    assert(responses_view(b@).subrange(0, b@.len() as int) =~= responses_view(b@));
    out
}

/// The run items of `a` followed by copies of those of `b`.
pub fn concat_run_items(a: &Vec<RunItem>, b: &Vec<RunItem>) -> (res: Vec<RunItem>)
    ensures
        runs_view(res@) == runs_view(a@) + runs_view(b@),
{
    let mut out: Vec<RunItem> = Vec::new();
    let mut i: usize = 0;
    while i < a.len()
        invariant
            i <= a@.len(),
            runs_view(out@) == runs_view(a@).subrange(0, i as int),
        decreases a@.len() - i,
    {
        let ghost before = out@;
        out.push(a[i].copy());
        assert(runs_view(out@) =~= runs_view(before).push(a@[i as int]@));
        assert(runs_view(a@).subrange(0, i + 1) =~= runs_view(a@).subrange(0, i as int).push(a@[i as int]@));
        i = i + 1;
    }
    assert(runs_view(a@).subrange(0, a@.len() as int) =~= runs_view(a@));
    let mut k: usize = 0;
    while k < b.len()
        invariant
            k <= b@.len(),
            runs_view(out@) == runs_view(a@) + runs_view(b@).subrange(0, k as int),
        decreases b@.len() - k,
    {
        let ghost before = out@;
        out.push(b[k].copy());
        assert(runs_view(out@) =~= runs_view(before).push(b@[k as int]@));
        assert(runs_view(b@).subrange(0, k + 1) =~= runs_view(b@).subrange(0, k as int).push(b@[k as int]@));
        k = k + 1;
    }
    assert(runs_view(b@).subrange(0, b@.len() as int) =~= runs_view(b@));
    out
}

/// The first of two optional strings that is set.
fn first_set(a: &Option<String>, b: &Option<String>) -> (res: Option<String>)
    ensures
        opt_view(res) == match opt_view(*a) {
            Some(x) => Some(x),
            None => opt_view(*b),
        },
{
    if a.is_some() {
        copy_opt_string(a)
    } else {
        copy_opt_string(b)
    }
}

/// What the approvals of a run state stand for.
pub open spec fn approvals_view(m: Map<Seq<char>, ApprovalRecord>) -> Map<Seq<char>, (bool, Option<Seq<char>>, Option<Seq<char>>)> {
    m.map_values(|r: ApprovalRecord| approval_view(r))
}

/// The approvals of `a` with those of `b` added, replacing equal call ids.
pub(crate) fn merge_approvals(a: &StrMap<ApprovalRecord>, b: &StrMap<ApprovalRecord>) -> (res: StrMap<ApprovalRecord>)
    ensures
        approvals_view(res.view()) == approvals_view(a.view()).union_prefer_right(approvals_view(b.view())),
{
    let mut out: StrMap<ApprovalRecord> = StrMap::new();
    let ka = a.keys();
    let mut i: usize = 0;
    assert(approvals_view(out.view()) =~= Map::empty());
    while i < ka.len()
        invariant
            i <= ka@.len(),
            forall|k: Seq<char>| #[trigger] crate::text::lines_view(ka@).contains(k) <==> a.view().contains_key(k),
            forall|x: int, y: int| 0 <= x < y < ka@.len() ==> crate::ordered::seq_lt(#[trigger] ka@[x]@, #[trigger] ka@[y]@),
            forall|k: Seq<char>| #[trigger] out.view().contains_key(k) <==> exists|j: int| 0 <= j < i && ka@[j]@ == k,
            forall|k: Seq<char>| #[trigger] out.view().contains_key(k) ==> a.view().contains_key(k)
                && approval_view(out.view()[k]) == approval_view(a.view()[k]),
        decreases ka@.len() - i,
    {
        assert(crate::text::lines_view(ka@)[i as int] == ka@[i as int]@);
        assert(crate::text::lines_view(ka@).contains(ka@[i as int]@));
        match a.get(ka[i].as_str()) {
            Some(r) => {
                out.insert(ka[i].clone(), copy_approval(r));
            },
            None => {},
        }
        i = i + 1;
    }
    proof {
        assert forall|k: Seq<char>| #[trigger] a.view().contains_key(k) implies out.view().contains_key(k) by {
            assert(crate::text::lines_view(ka@).contains(k));
            let j = choose|j: int| 0 <= j < crate::text::lines_view(ka@).len() && crate::text::lines_view(ka@)[j] == k;
            assert(ka@[j]@ == k);
        }
        assert(approvals_view(out.view()) =~= approvals_view(a.view()));
    }
    let kb = b.keys();
    let mut m: usize = 0;
    let ghost base = approvals_view(out.view());
    while m < kb.len()
        invariant
            m <= kb@.len(),
            base == approvals_view(a.view()),
            forall|k: Seq<char>| #[trigger] crate::text::lines_view(kb@).contains(k) <==> b.view().contains_key(k),
            forall|k: Seq<char>|
                #[trigger] out.view().contains_key(k) <==> (base.contains_key(k) || exists|j: int|
                    0 <= j < m && kb@[j]@ == k),
            forall|k: Seq<char>|
                #[trigger] out.view().contains_key(k) ==> approval_view(out.view()[k]) == (if exists|j: int|
                    0 <= j < m && kb@[j]@ == k {
                    approval_view(b.view()[k])
                } else {
                    base[k]
                }),
        decreases kb@.len() - m,
    {
        assert(crate::text::lines_view(kb@)[m as int] == kb@[m as int]@);
        assert(crate::text::lines_view(kb@).contains(kb@[m as int]@));
        match b.get(kb[m].as_str()) {
            Some(r) => {
                out.insert(kb[m].clone(), copy_approval(r));
            },
            None => {},
        }
        m = m + 1;
    }
    proof {
        let want = approvals_view(a.view()).union_prefer_right(approvals_view(b.view()));
        assert forall|k: Seq<char>| #[trigger] b.view().contains_key(k) implies exists|j: int|
            0 <= j < kb@.len() && kb@[j]@ == k by {
            assert(crate::text::lines_view(kb@).contains(k));
            let j = choose|j: int| 0 <= j < crate::text::lines_view(kb@).len() && crate::text::lines_view(kb@)[j] == k;
            assert(kb@[j]@ == k);
        }
        assert forall|k: Seq<char>| (exists|j: int| 0 <= j < kb@.len() && kb@[j]@ == k) implies #[trigger] b.view().contains_key(
            k,
        ) by {
            let j = choose|j: int| 0 <= j < kb@.len() && kb@[j]@ == k;
            assert(crate::text::lines_view(kb@)[j] == k);
            assert(crate::text::lines_view(kb@).contains(k));
        }
        assert(approvals_view(out.view()) =~= want);
    }
    out
}

/// The reports of `a` followed by those of `b`.
pub(crate) fn concat_input_reports(a: &Vec<InputGuardrailResult>, b: &Vec<InputGuardrailResult>) -> (res: Vec<InputGuardrailResult>)
    ensures
        res@.map_values(|r: InputGuardrailResult| input_report_view(r)) == a@.map_values(|r: InputGuardrailResult| input_report_view(r)) + b@.map_values(
            |r: InputGuardrailResult| input_report_view(r),
        ),
{
    let mut out: Vec<InputGuardrailResult> = Vec::new();
    let mut i: usize = 0;
    while i < a.len()
        invariant
            i <= a@.len(),
            out@.map_values(|r: InputGuardrailResult| input_report_view(r)) =~= a@.map_values(|r: InputGuardrailResult| input_report_view(r)).subrange(0, i as int),
        decreases a@.len() - i,
    {
        let ghost before = out@;
        out.push(a[i].copy());
        assert(out@.map_values(|r: InputGuardrailResult| input_report_view(r)) =~= before.map_values(|r: InputGuardrailResult| input_report_view(r)).push(input_report_view(a@[i as int])));
        i = i + 1;
    }
    let mut j: usize = 0;
    while j < b.len()
        invariant
            j <= b@.len(),
            out@.map_values(|r: InputGuardrailResult| input_report_view(r)) =~= a@.map_values(|r: InputGuardrailResult| input_report_view(r)) + b@.map_values(
                |r: InputGuardrailResult| input_report_view(r),
            ).subrange(0, j as int),
        decreases b@.len() - j,
    {
        let ghost before = out@;
        out.push(b[j].copy());
        assert(out@.map_values(|r: InputGuardrailResult| input_report_view(r)) =~= before.map_values(|r: InputGuardrailResult| input_report_view(r)).push(input_report_view(b@[j as int])));
        j = j + 1;
    }
    out
}

/// The reports of `a` followed by those of `b`.
pub(crate) fn concat_output_reports(a: &Vec<OutputGuardrailResult>, b: &Vec<OutputGuardrailResult>) -> (res: Vec<OutputGuardrailResult>)
    ensures
        res@.map_values(|r: OutputGuardrailResult| output_report_view(r)) == a@.map_values(|r: OutputGuardrailResult| output_report_view(r)) + b@.map_values(
            |r: OutputGuardrailResult| output_report_view(r),
        ),
{
    let mut out: Vec<OutputGuardrailResult> = Vec::new();
    let mut i: usize = 0;
    while i < a.len()
        invariant
            i <= a@.len(),
            out@.map_values(|r: OutputGuardrailResult| output_report_view(r)) =~= a@.map_values(|r: OutputGuardrailResult| output_report_view(r)).subrange(0, i as int),
        decreases a@.len() - i,
    {
        let ghost before = out@;
        out.push(a[i].copy());
        assert(out@.map_values(|r: OutputGuardrailResult| output_report_view(r)) =~= before.map_values(|r: OutputGuardrailResult| output_report_view(r)).push(output_report_view(a@[i as int])));
        i = i + 1;
    }
    let mut j: usize = 0;
    while j < b.len()
        invariant
            j <= b@.len(),
            out@.map_values(|r: OutputGuardrailResult| output_report_view(r)) =~= a@.map_values(|r: OutputGuardrailResult| output_report_view(r)) + b@.map_values(
                |r: OutputGuardrailResult| output_report_view(r),
            ).subrange(0, j as int),
        decreases b@.len() - j,
    {
        let ghost before = out@;
        out.push(b[j].copy());
        assert(out@.map_values(|r: OutputGuardrailResult| output_report_view(r)) =~= before.map_values(|r: OutputGuardrailResult| output_report_view(r)).push(output_report_view(b@[j as int])));
        j = j + 1;
    }
    out
}

/// The reports of `a` followed by those of `b`.
pub(crate) fn concat_tool_input_reports(a: &Vec<ToolInputGuardrailResult>, b: &Vec<ToolInputGuardrailResult>) -> (res: Vec<ToolInputGuardrailResult>)
    ensures
        res@.map_values(|r: ToolInputGuardrailResult| tool_input_report_view(r)) == a@.map_values(|r: ToolInputGuardrailResult| tool_input_report_view(r)) + b@.map_values(
            |r: ToolInputGuardrailResult| tool_input_report_view(r),
        ),
{
    let mut out: Vec<ToolInputGuardrailResult> = Vec::new();
    let mut i: usize = 0;
    while i < a.len()
        invariant
            i <= a@.len(),
            out@.map_values(|r: ToolInputGuardrailResult| tool_input_report_view(r)) =~= a@.map_values(|r: ToolInputGuardrailResult| tool_input_report_view(r)).subrange(0, i as int),
        decreases a@.len() - i,
    {
        let ghost before = out@;
        out.push(a[i].copy());
        assert(out@.map_values(|r: ToolInputGuardrailResult| tool_input_report_view(r)) =~= before.map_values(|r: ToolInputGuardrailResult| tool_input_report_view(r)).push(tool_input_report_view(a@[i as int])));
        i = i + 1;
    }
    let mut j: usize = 0;
    while j < b.len()
        invariant
            j <= b@.len(),
            out@.map_values(|r: ToolInputGuardrailResult| tool_input_report_view(r)) =~= a@.map_values(|r: ToolInputGuardrailResult| tool_input_report_view(r)) + b@.map_values(
                |r: ToolInputGuardrailResult| tool_input_report_view(r),
            ).subrange(0, j as int),
        decreases b@.len() - j,
    {
        let ghost before = out@;
        out.push(b[j].copy());
        assert(out@.map_values(|r: ToolInputGuardrailResult| tool_input_report_view(r)) =~= before.map_values(|r: ToolInputGuardrailResult| tool_input_report_view(r)).push(tool_input_report_view(b@[j as int])));
        j = j + 1;
    }
    out
}

/// The reports of `a` followed by those of `b`.
pub(crate) fn concat_tool_output_reports(a: &Vec<ToolOutputGuardrailResult>, b: &Vec<ToolOutputGuardrailResult>) -> (res: Vec<ToolOutputGuardrailResult>)
    ensures
        res@.map_values(|r: ToolOutputGuardrailResult| tool_output_report_view(r)) == a@.map_values(|r: ToolOutputGuardrailResult| tool_output_report_view(r)) + b@.map_values(
            |r: ToolOutputGuardrailResult| tool_output_report_view(r),
        ),
{
    let mut out: Vec<ToolOutputGuardrailResult> = Vec::new();
    let mut i: usize = 0;
    while i < a.len()
        invariant
            i <= a@.len(),
            out@.map_values(|r: ToolOutputGuardrailResult| tool_output_report_view(r)) =~= a@.map_values(|r: ToolOutputGuardrailResult| tool_output_report_view(r)).subrange(0, i as int),
        decreases a@.len() - i,
    {
        let ghost before = out@;
        out.push(a[i].copy());
        assert(out@.map_values(|r: ToolOutputGuardrailResult| tool_output_report_view(r)) =~= before.map_values(|r: ToolOutputGuardrailResult| tool_output_report_view(r)).push(tool_output_report_view(a@[i as int])));
        i = i + 1;
    }
    let mut j: usize = 0;
    while j < b.len()
        invariant
            j <= b@.len(),
            out@.map_values(|r: ToolOutputGuardrailResult| tool_output_report_view(r)) =~= a@.map_values(|r: ToolOutputGuardrailResult| tool_output_report_view(r)) + b@.map_values(
                |r: ToolOutputGuardrailResult| tool_output_report_view(r),
            ).subrange(0, j as int),
        decreases b@.len() - j,
    {
        let ghost before = out@;
        out.push(b[j].copy());
        assert(out@.map_values(|r: ToolOutputGuardrailResult| tool_output_report_view(r)) =~= before.map_values(|r: ToolOutputGuardrailResult| tool_output_report_view(r)).push(tool_output_report_view(b@[j as int])));
        j = j + 1;
    }
    out
}

/// The run context of a resumed run (`next`) merged into that of the state
/// it resumed from (`previous`): the earlier caller's context; the usage of
/// both; the later turn input; the approvals of both, the later replacing
/// earlier ones for the same call; the earlier tool input and scope where
/// they are set, else the later ones.
pub open spec fn merged_snapshot(previous: crate::run_state::SnapshotView, next: crate::run_state::SnapshotView) -> crate::run_state::SnapshotView {
    crate::run_state::SnapshotView {
        context: previous.context,
        usage: crate::usage::usage_sum(previous.usage, next.usage),
        turn_input: next.turn_input,
        approvals: previous.approvals.union_prefer_right(next.approvals),
        tool_input: match previous.tool_input {
            Some(t) => Some(t),
            None => next.tool_input,
        },
        agent_tool_state_scope: match previous.agent_tool_state_scope {
            Some(t) => Some(t),
            None => next.agent_tool_state_scope,
        },
    }
}

/// Merges the run context of a resumed run into that of the state it
/// resumed from.
fn merge_snapshots(previous: &RunStateContextSnapshot, next: &RunStateContextSnapshot) -> (res: RunStateContextSnapshot)
    ensures
        snapshot_view(res) == merged_snapshot(snapshot_view(*previous), snapshot_view(*next)),
{
    RunStateContextSnapshot {
        context: crate::json::json_clone(&previous.context),
        usage: crate::usage::merge_usage(previous.usage, next.usage),
        turn_input: crate::items::copy_input_items(next.turn_input.as_slice()),
        approvals: merge_approvals(&previous.approvals, &next.approvals),
        tool_input: if previous.tool_input.is_some() {
            copy_opt_json(&previous.tool_input)
        } else {
            copy_opt_json(&next.tool_input)
        },
        agent_tool_state_scope: first_set(&previous.agent_tool_state_scope, &next.agent_tool_state_scope),
    }
}

/// The state of a resumed run (`next`) merged into the state it resumed from
/// (`previous`): turns and persisted counts add up; the earlier agent, input,
/// conversation settings and reasoning policy win; responses, items and
/// guardrail reports of both come in order; the run contexts merge as
/// `merged_snapshot` says.
pub open spec fn merged_run_state(previous: RunState, next: RunState, merged: RunState) -> bool {
    &&& merged.current_turn == next.current_turn + previous.current_turn
    &&& opt_view(merged.current_agent) == match opt_view(previous.current_agent) {
        Some(a) => Some(a),
        None => opt_view(next.current_agent),
    }
    &&& inputs_view(merged.original_input@) == inputs_view(previous.original_input@)
    &&& opt_inputs_view(merged.normalized_input) == match opt_inputs_view(previous.normalized_input) {
        Some(n) => Some(n),
        None => opt_inputs_view(next.normalized_input),
    }
    &&& responses_view(merged.model_responses@) == responses_view(previous.model_responses@) + responses_view(
        next.model_responses@,
    )
    &&& runs_view(merged.generated_items@) == runs_view(previous.generated_items@) + runs_view(next.generated_items@)
    &&& runs_view(merged.session_items@) == runs_view(previous.session_items@) + runs_view(next.session_items@)
    &&& opt_view(merged.conversation_id) == match opt_view(previous.conversation_id) {
        Some(c) => Some(c),
        None => opt_view(next.conversation_id),
    }
    &&& opt_view(merged.previous_response_id) == match opt_view(previous.previous_response_id) {
        Some(c) => Some(c),
        None => opt_view(next.previous_response_id),
    }
    &&& merged.auto_previous_response_id == (previous.auto_previous_response_id || next.auto_previous_response_id)
    &&& merged.reasoning_item_id_policy == previous.reasoning_item_id_policy
    &&& merged.persisted_item_count == next.persisted_item_count + previous.persisted_item_count
    &&& merged_snapshot(snapshot_view(previous.context_snapshot), snapshot_view(next.context_snapshot))
        == snapshot_view(merged.context_snapshot)
    &&& merged.max_turns == next.max_turns
    &&& merged.current_step == next.current_step
    &&& merged.input_guardrail_results@.map_values(|r: InputGuardrailResult| input_report_view(r))
        == previous.input_guardrail_results@.map_values(|r: InputGuardrailResult| input_report_view(r))
        + next.input_guardrail_results@.map_values(|r: InputGuardrailResult| input_report_view(r))
    &&& merged.output_guardrail_results@.map_values(|r: OutputGuardrailResult| output_report_view(r))
        == previous.output_guardrail_results@.map_values(|r: OutputGuardrailResult| output_report_view(r))
        + next.output_guardrail_results@.map_values(|r: OutputGuardrailResult| output_report_view(r))
    &&& merged.tool_input_guardrail_results@.map_values(|r: ToolInputGuardrailResult| tool_input_report_view(r))
        == previous.tool_input_guardrail_results@.map_values(|r: ToolInputGuardrailResult| tool_input_report_view(r))
        + next.tool_input_guardrail_results@.map_values(|r: ToolInputGuardrailResult| tool_input_report_view(r))
    &&& merged.tool_output_guardrail_results@.map_values(|r: ToolOutputGuardrailResult| tool_output_report_view(r))
        == previous.tool_output_guardrail_results@.map_values(|r: ToolOutputGuardrailResult| tool_output_report_view(r))
        + next.tool_output_guardrail_results@.map_values(|r: ToolOutputGuardrailResult| tool_output_report_view(r))
}

/// A resumed run's state after merging the state it resumed from: turns and
/// persisted counts add up; the earlier agent, input, conversation settings
/// and reasoning policy win; responses, items and guardrail reports of both
/// come in order; the run contexts merge as `merged_snapshot` says.
pub fn merge_run_states(previous: &RunState, next: &mut RunState)
    requires
        old(next).current_turn + previous.current_turn <= usize::MAX,
        old(next).persisted_item_count + previous.persisted_item_count <= usize::MAX,
    ensures
        merged_run_state(*previous, *old(next), *final(next)),
{
    next.current_turn = next.current_turn + previous.current_turn;
    next.current_agent = first_set(&previous.current_agent, &next.current_agent);
    next.original_input = crate::items::copy_input_items(previous.original_input.as_slice());
    next.normalized_input = match &previous.normalized_input {
        Some(n) => Some(crate::items::copy_input_items(n.as_slice())),
        None => match &next.normalized_input {
            Some(n) => Some(crate::items::copy_input_items(n.as_slice())),
            None => None,
        },
    };
    next.model_responses = concat_responses(&previous.model_responses, &next.model_responses);
    next.generated_items = concat_run_items(&previous.generated_items, &next.generated_items);
    next.session_items = concat_run_items(&previous.session_items, &next.session_items);
    next.conversation_id = first_set(&previous.conversation_id, &next.conversation_id);
    next.previous_response_id = first_set(&previous.previous_response_id, &next.previous_response_id);
    next.auto_previous_response_id = previous.auto_previous_response_id || next.auto_previous_response_id;
    next.reasoning_item_id_policy = previous.reasoning_item_id_policy;
    next.persisted_item_count = next.persisted_item_count + previous.persisted_item_count;
    next.context_snapshot = merge_snapshots(&previous.context_snapshot, &next.context_snapshot);
    next.input_guardrail_results = concat_input_reports(&previous.input_guardrail_results, &next.input_guardrail_results);
    next.output_guardrail_results = concat_output_reports(&previous.output_guardrail_results, &next.output_guardrail_results);
    next.tool_input_guardrail_results = concat_tool_input_reports(
        &previous.tool_input_guardrail_results,
        &next.tool_input_guardrail_results,
    );
    next.tool_output_guardrail_results = concat_tool_output_reports(
        &previous.tool_output_guardrail_results,
        &next.tool_output_guardrail_results,
    );
}

/// The items of a resumed run's result: the state's persisted items followed
/// by the new ones; the normalized items (the state's generated items
/// followed by the new normalized ones) only where they differ.
pub fn merge_resumed_items(
    state_session_items: &Vec<RunItem>,
    state_generated_items: &Vec<RunItem>,
    new_items: &Vec<RunItem>,
    new_normalized_items: &Option<Vec<RunItem>>,
) -> (res: (Vec<RunItem>, Option<Vec<RunItem>>))
    ensures
        runs_view(res.0@) == runs_view(state_session_items@) + runs_view(new_items@),
        ({
            let normalized = runs_view(state_generated_items@) + match new_normalized_items {
                Some(n) => runs_view(n@),
                None => runs_view(new_items@),
            };
            match res.1 {
                Some(n) => normalized != runs_view(res.0@) && runs_view(n@) == normalized,
                None => normalized == runs_view(res.0@),
            }
        }),
{
    let merged = concat_run_items(state_session_items, new_items);
    let normalized = match new_normalized_items {
        Some(n) => concat_run_items(state_generated_items, n),
        None => concat_run_items(state_generated_items, new_items),
    };
    if same_run_items(&normalized, &merged) {
        (merged, None)
    } else {
        (merged, Some(normalized))
    }
}

/// The result of a resumed run, merged with the state it resumed from: the
/// original input of that state; its persisted items, model responses and
/// guardrail reports before the resumed run's own; the items the model saw
/// where they differ from the persisted ones; and, when the resumed run left
/// a state, that state merged as `merge_run_states` merges it, whose rewritten
/// input, conversation settings, reasoning policy and run context the result
/// then takes.
/// Everything else is the resumed run's.
pub fn merge_resumed_result(state: &RunState, result: crate::results::RunResult) -> (res: crate::results::RunResult)
    requires
        result.run_state matches Some(n) ==> n.current_turn + state.current_turn <= usize::MAX
            && n.persisted_item_count + state.persisted_item_count <= usize::MAX,
    ensures
        inputs_view(res.input@) == inputs_view(state.original_input@),
        runs_view(res.new_items@) == runs_view(state.session_items@) + runs_view(result.new_items@),
        ({
            let normalized = runs_view(state.generated_items@) + match result.normalized_new_items {
                Some(n) => runs_view(n@),
                None => runs_view(result.new_items@),
            };
            match res.normalized_new_items {
                Some(n) => normalized != runs_view(res.new_items@) && runs_view(n@) == normalized,
                None => normalized == runs_view(res.new_items@),
            }
        }),
        responses_view(res.raw_responses@) == responses_view(state.model_responses@) + responses_view(
            result.raw_responses@,
        ),
        res.input_guardrail_results@.map_values(|r: InputGuardrailResult| input_report_view(r))
            == state.input_guardrail_results@.map_values(|r: InputGuardrailResult| input_report_view(r))
            + result.input_guardrail_results@.map_values(|r: InputGuardrailResult| input_report_view(r)),
        res.output_guardrail_results@.map_values(|r: OutputGuardrailResult| output_report_view(r))
            == state.output_guardrail_results@.map_values(|r: OutputGuardrailResult| output_report_view(r))
            + result.output_guardrail_results@.map_values(|r: OutputGuardrailResult| output_report_view(r)),
        res.tool_input_guardrail_results@.map_values(|r: ToolInputGuardrailResult| tool_input_report_view(r))
            == state.tool_input_guardrail_results@.map_values(|r: ToolInputGuardrailResult| tool_input_report_view(r))
            + result.tool_input_guardrail_results@.map_values(|r: ToolInputGuardrailResult| tool_input_report_view(r)),
        res.tool_output_guardrail_results@.map_values(|r: ToolOutputGuardrailResult| tool_output_report_view(r))
            == state.tool_output_guardrail_results@.map_values(|r: ToolOutputGuardrailResult| tool_output_report_view(r))
            + result.tool_output_guardrail_results@.map_values(|r: ToolOutputGuardrailResult| tool_output_report_view(r)),
        match result.run_state {
            None => {
                &&& res.run_state.is_none()
                &&& opt_inputs_view(res.normalized_input) == opt_inputs_view(state.normalized_input)
                &&& res.conversation_id == result.conversation_id
                &&& res.previous_response_id == result.previous_response_id
                &&& res.auto_previous_response_id == result.auto_previous_response_id
                &&& res.reasoning_item_id_policy == result.reasoning_item_id_policy
                &&& res.context_snapshot == result.context_snapshot
            },
            Some(n) => {
                &&& res.run_state matches Some(m) && merged_run_state(*state, n, m)
                    && opt_inputs_view(res.normalized_input) == opt_inputs_view(m.normalized_input)
                    && opt_view(res.conversation_id) == opt_view(m.conversation_id)
                    && opt_view(res.previous_response_id) == opt_view(m.previous_response_id)
                    && res.auto_previous_response_id == m.auto_previous_response_id
                    && res.reasoning_item_id_policy == m.reasoning_item_id_policy
                    && snapshot_view(res.context_snapshot) == snapshot_view(m.context_snapshot)
            },
        },
        res.agent_name == result.agent_name,
        res.last_agent == result.last_agent,
        res.output == result.output,
        res.final_output == result.final_output,
        res.interruptions == result.interruptions,
        res.agent_tool_invocation == result.agent_tool_invocation,
        res.usage == result.usage,
{
    let crate::results::RunResult {
        agent_name,
        last_agent,
        input: _,
        normalized_input: _,
        output,
        new_items,
        raw_responses,
        final_output,
        input_guardrail_results,
        output_guardrail_results,
        tool_input_guardrail_results,
        tool_output_guardrail_results,
        run_state,
        interruptions,
        conversation_id,
        previous_response_id,
        auto_previous_response_id,
        reasoning_item_id_policy,
        normalized_new_items,
        agent_tool_invocation,
        usage,
        context_snapshot,
    } = result;
    let (merged_items, merged_normalized) = merge_resumed_items(
        &state.session_items,
        &state.generated_items,
        &new_items,
        &normalized_new_items,
    );
    let mut merged = crate::results::RunResult {
        agent_name,
        last_agent,
        input: crate::items::copy_input_items(state.original_input.as_slice()),
        normalized_input: match &state.normalized_input {
            Some(n) => Some(crate::items::copy_input_items(n.as_slice())),
            None => None,
        },
        output,
        new_items: merged_items,
        raw_responses: concat_responses(&state.model_responses, &raw_responses),
        final_output,
        input_guardrail_results: concat_input_reports(&state.input_guardrail_results, &input_guardrail_results),
        output_guardrail_results: concat_output_reports(&state.output_guardrail_results, &output_guardrail_results),
        tool_input_guardrail_results: concat_tool_input_reports(
            &state.tool_input_guardrail_results,
            &tool_input_guardrail_results,
        ),
        tool_output_guardrail_results: concat_tool_output_reports(
            &state.tool_output_guardrail_results,
            &tool_output_guardrail_results,
        ),
        run_state: None,
        interruptions,
        conversation_id,
        previous_response_id,
        auto_previous_response_id,
        reasoning_item_id_policy,
        normalized_new_items: merged_normalized,
        agent_tool_invocation,
        usage,
        context_snapshot,
    };
    match run_state {
        Some(mut resumed) => {
            merge_run_states(state, &mut resumed);
            merged.conversation_id = copy_opt_string(&resumed.conversation_id);
            merged.previous_response_id = copy_opt_string(&resumed.previous_response_id);
            merged.auto_previous_response_id = resumed.auto_previous_response_id;
            merged.reasoning_item_id_policy = resumed.reasoning_item_id_policy;
            merged.context_snapshot = resumed.context_snapshot.copy();
            merged.normalized_input = match &resumed.normalized_input {
                Some(n) => Some(crate::items::copy_input_items(n.as_slice())),
                None => None,
            };
            merged.run_state = Some(resumed);
        },
        None => {},
    }
    merged
}

/// Whether two lists of run items are the same.
pub(crate) fn same_run_items(a: &Vec<RunItem>, b: &Vec<RunItem>) -> (res: bool)
    ensures
        res == (runs_view(a@) == runs_view(b@)),
{
    if a.len() != b.len() {
        assert(runs_view(a@).len() != runs_view(b@).len());
        return false;
    }
    let mut i: usize = 0;
    while i < a.len()
        invariant
            i <= a@.len(),
            a@.len() == b@.len(),
            forall|k: int| 0 <= k < i ==> a@[k]@ == b@[k]@,
        decreases a@.len() - i,
    {
        if !crate::items::run_item_same(&a[i], &b[i]) {
            assert(runs_view(a@)[i as int] != runs_view(b@)[i as int]);
            return false;
        }
        i = i + 1;
    }
    assert(runs_view(a@) =~= runs_view(b@));
    true
}

/// What one turn of a run produced, as the runtime hands it to the run's
/// bookkeeping.
pub enum TurnOutcome {
    /// The model handed off; the handoff rewrote the history into these.
    Handoff {
        input_history: Vec<InputItem>,
        pre_handoff_items: Vec<RunItem>,
        normalized_step_items: Vec<RunItem>,
        session_step_items: Vec<RunItem>,
    },
    /// The model answered without calling tools.
    Answer { response_items: Vec<RunItem>, output: Vec<OutputItem> },
    /// Tools ran and their results end the run with this output.
    ToolsFinal { response_items: Vec<RunItem>, tool_items: Vec<RunItem>, final_text: String, final_item: OutputItem },
    /// Tools ran and one of them waits for approval.
    ToolsInterrupted { response_items: Vec<RunItem>, tool_items: Vec<RunItem> },
    /// Tools ran and the model is called again.
    ToolsContinue { response_items: Vec<RunItem>, tool_items: Vec<RunItem> },
}

/// What the runtime does next.
#[derive(Clone, Copy, Debug, PartialEq, Eq, Structural)]
pub enum NextStep {
    /// Call the model for another turn.
    CallModel,
    /// The run has its final output.
    Finished,
    /// The run paused for an approval.
    Interrupted,
    /// The run used its turns without a final output.
    TurnsExhausted,
}

/// The bookkeeping of a run between model calls.
pub struct RunProgress {
    pub turns: usize,
    pub max_turns: usize,
    pub input_history: Vec<InputItem>,
    pub normalized_items: Vec<RunItem>,
    pub session_items: Vec<RunItem>,
    pub final_output: Option<String>,
    pub final_output_items: Vec<OutputItem>,
    pub interrupted: bool,
    pub finished: bool,
}

/// What the bookkeeping of a run stands for.
pub struct ProgressView {
    pub turns: nat,
    pub max_turns: nat,
    pub input_history: Seq<InputView>,
    pub normalized_items: Seq<RunView>,
    pub session_items: Seq<RunView>,
    pub final_output: Option<Seq<char>>,
    pub final_output_items: Seq<OutputView>,
    pub interrupted: bool,
    pub finished: bool,
}

impl RunProgress {
    /// What this bookkeeping stands for.
    pub open spec fn view(&self) -> ProgressView {
        ProgressView {
            turns: self.turns as nat,
            max_turns: self.max_turns as nat,
            input_history: inputs_view(self.input_history@),
            normalized_items: runs_view(self.normalized_items@),
            session_items: runs_view(self.session_items@),
            final_output: opt_view(self.final_output),
            final_output_items: outputs_view(self.final_output_items@),
            interrupted: self.interrupted,
            finished: self.finished,
        }
    }
}

/// What a turn outcome stands for.
pub enum OutcomeView {
    Handoff(Seq<InputView>, Seq<RunView>, Seq<RunView>, Seq<RunView>),
    Answer(Seq<RunView>, Seq<OutputView>),
    ToolsFinal(Seq<RunView>, Seq<RunView>, Seq<char>, OutputView),
    ToolsInterrupted(Seq<RunView>, Seq<RunView>),
    ToolsContinue(Seq<RunView>, Seq<RunView>),
}

/// What a turn outcome stands for.
pub open spec fn outcome_view(o: TurnOutcome) -> OutcomeView {
    match o {
        TurnOutcome::Handoff { input_history, pre_handoff_items, normalized_step_items, session_step_items } =>
            OutcomeView::Handoff(
            inputs_view(input_history@),
            runs_view(pre_handoff_items@),
            runs_view(normalized_step_items@),
            runs_view(session_step_items@),
        ),
        TurnOutcome::Answer { response_items, output } => OutcomeView::Answer(
            runs_view(response_items@),
            outputs_view(output@),
        ),
        TurnOutcome::ToolsFinal { response_items, tool_items, final_text, final_item } => OutcomeView::ToolsFinal(
            runs_view(response_items@),
            runs_view(tool_items@),
            final_text@,
            final_item@,
        ),
        TurnOutcome::ToolsInterrupted { response_items, tool_items } => OutcomeView::ToolsInterrupted(
            runs_view(response_items@),
            runs_view(tool_items@),
        ),
        TurnOutcome::ToolsContinue { response_items, tool_items } => OutcomeView::ToolsContinue(
            runs_view(response_items@),
            runs_view(tool_items@),
        ),
    }
}

/// The bookkeeping after a turn: a handoff replaces the history and the
/// items; an answer adds the response's items and is the final output; tools
/// add the response's items and their own, and end the run with their final
/// output, pause it, or let it go on.  Every turn counts.
pub open spec fn progress_step(p: ProgressView, o: OutcomeView) -> ProgressView {
    let counted = ProgressView { turns: p.turns + 1, ..p };
    match o {
        OutcomeView::Handoff(history, pre, normalized, session) => ProgressView {
            input_history: history,
            normalized_items: pre + normalized,
            session_items: pre + session,
            ..counted
        },
        OutcomeView::Answer(response, output) => ProgressView {
            normalized_items: p.normalized_items + response,
            session_items: p.session_items + response,
            final_output: first_text_output(output),
            final_output_items: output,
            finished: true,
            ..counted
        },
        OutcomeView::ToolsFinal(response, tools, text, item) => ProgressView {
            normalized_items: p.normalized_items + response + tools,
            session_items: p.session_items + response + tools,
            final_output: Some(text),
            final_output_items: seq![item],
            finished: true,
            ..counted
        },
        OutcomeView::ToolsInterrupted(response, tools) => ProgressView {
            normalized_items: p.normalized_items + response + tools,
            session_items: p.session_items + response + tools,
            interrupted: true,
            ..counted
        },
        OutcomeView::ToolsContinue(response, tools) => ProgressView {
            normalized_items: p.normalized_items + response + tools,
            session_items: p.session_items + response + tools,
            ..counted
        },
    }
}

/// The first plain text of a model answer, if it has one.
pub open spec fn first_text_output(output: Seq<OutputView>) -> Option<Seq<char>> {
    let texts = crate::items::text_outputs(output);
    if texts.len() > 0 {
        Some(texts[0])
    } else {
        None
    }
}

/// The next step of a run: it stops once it has its final output or is
/// paused, and when its turns are used up; else the model is called again.
pub open spec fn next_step_spec(p: ProgressView) -> NextStep {
    if p.finished {
        NextStep::Finished
    } else if p.interrupted {
        NextStep::Interrupted
    } else if p.turns >= p.max_turns {
        NextStep::TurnsExhausted
    } else {
        NextStep::CallModel
    }
}

impl RunProgress {
    /// The bookkeeping of a run that starts on `base_input` with `max_turns` turns.
    pub fn new(base_input: Vec<InputItem>, max_turns: usize) -> (res: Self)
        ensures
            res.view() == (ProgressView {
                turns: 0,
                max_turns: max_turns as nat,
                input_history: inputs_view(base_input@),
                normalized_items: Seq::empty(),
                session_items: Seq::empty(),
                final_output: None,
                final_output_items: Seq::empty(),
                interrupted: false,
                finished: false,
            }),
    {
        let res = RunProgress {
            turns: 0,
            max_turns,
            input_history: base_input,
            normalized_items: Vec::new(),
            session_items: Vec::new(),
            final_output: None,
            final_output_items: Vec::new(),
            interrupted: false,
            finished: false,
        };
        assert(runs_view(res.normalized_items@) =~= Seq::<RunView>::empty());
        assert(runs_view(res.session_items@) =~= Seq::<RunView>::empty());
        assert(outputs_view(res.final_output_items@) =~= Seq::<OutputView>::empty());
        res
    }

    /// What the runtime does next.
    pub fn next_step(&self) -> (res: NextStep)
        ensures
            res == next_step_spec(self.view()),
    {
        if self.finished {
            NextStep::Finished
        } else if self.interrupted {
            NextStep::Interrupted
        } else if self.turns >= self.max_turns {
            NextStep::TurnsExhausted
        } else {
            NextStep::CallModel
        }
    }

    /// The input of the next model call: the history followed by the
    /// generated items replayed.
    pub fn model_input(&self, policy: crate::replay::ReasoningItemIdPolicy) -> (res: Vec<InputItem>)
        ensures
            inputs_view(res@) == self.view().input_history + crate::replay::replayed(
                self.view().normalized_items,
                policy,
            ),
    {
        crate::replay::prepare_model_input_items(
            self.input_history.as_slice(),
            self.normalized_items.as_slice(),
            policy,
        )
    }

    /// Takes a turn's outcome into account.
    pub fn record_turn(&mut self, outcome: TurnOutcome)
        requires
            old(self).turns < usize::MAX,
        ensures
            final(self).view() == progress_step(old(self).view(), outcome_view(outcome)),
    {
        let ghost o = outcome_view(outcome);
        self.turns = self.turns + 1;
        match outcome {
            TurnOutcome::Handoff { input_history, pre_handoff_items, normalized_step_items, session_step_items } => {
                self.input_history = input_history;
                self.normalized_items = concat_run_items(&pre_handoff_items, &normalized_step_items);
                self.session_items = concat_run_items(&pre_handoff_items, &session_step_items);
            },
            TurnOutcome::Answer { response_items, output } => {
                self.normalized_items = concat_run_items(&self.normalized_items, &response_items);
                self.session_items = concat_run_items(&self.session_items, &response_items);
                self.final_output = crate::items::extract_final_output_text(output.as_slice());
                self.final_output_items = output;
                self.finished = true;
            },
            TurnOutcome::ToolsFinal { response_items, tool_items, final_text, final_item } => {
                let n = concat_run_items(&self.normalized_items, &response_items);
                self.normalized_items = concat_run_items(&n, &tool_items);
                let m = concat_run_items(&self.session_items, &response_items);
                self.session_items = concat_run_items(&m, &tool_items);
                self.final_output = Some(final_text);
                let mut items: Vec<OutputItem> = Vec::new();
                items.push(final_item);
                self.final_output_items = items;
                self.finished = true;
            },
            TurnOutcome::ToolsInterrupted { response_items, tool_items } => {
                let n = concat_run_items(&self.normalized_items, &response_items);
                self.normalized_items = concat_run_items(&n, &tool_items);
                let m = concat_run_items(&self.session_items, &response_items);
                self.session_items = concat_run_items(&m, &tool_items);
                self.interrupted = true;
            },
            TurnOutcome::ToolsContinue { response_items, tool_items } => {
                let n = concat_run_items(&self.normalized_items, &response_items);
                self.normalized_items = concat_run_items(&n, &tool_items);
                let m = concat_run_items(&self.session_items, &response_items);
                self.session_items = concat_run_items(&m, &tool_items);
            },
        }
        proof {
            if let OutcomeView::ToolsFinal(_, _, _, item) = o {
                assert(outputs_view(self.final_output_items@) =~= seq![item]);
            }
        }
    }

    /// The outcome of a run whose turns are used up without a final output:
    /// the turn-budget error naming `agent_name`.
    pub fn check_final_output(&self, agent_name: &str) -> (res: Result<(), AgentsError>)
        ensures
            match res {
                Ok(_) => self.final_output_items@.len() > 0 || self.final_output.is_some() || self.interrupted,
                Err(e) => {
                    &&& self.final_output_items@.len() == 0
                    &&& self.final_output.is_none()
                    &&& !self.interrupted
                    &&& e matches AgentsError::MaxTurnsExceeded(m)
                    &&& m.message@ == "run for agent `"@ + agent_name@ + "` exceeded max_turns ("@
                        + decimal(self.max_turns as nat) + ") before producing a final output"@
                },
            },
    {
        if self.final_output_items.len() == 0 && self.final_output.is_none() && !self.interrupted {
            return Err(max_turns_error(agent_name, self.max_turns));
        }
        Ok(())
    }
}

/// A run takes at most its turn budget: from any bookkeeping that has not
/// stopped, after a turn it either stops or has used one more turn, and it
/// asks for no model call once the budget is used.
pub proof fn law_run_respects_turn_budget(p: ProgressView, o: OutcomeView)
    requires
        next_step_spec(p) is CallModel,
    ensures
        progress_step(p, o).turns == p.turns + 1,
        progress_step(p, o).turns <= p.max_turns,
        progress_step(p, o).turns == p.max_turns ==> !(next_step_spec(progress_step(p, o)) is CallModel),
        progress_step(p, o).max_turns == p.max_turns,
{
}

/// Outside a handoff, a turn adds to the items replayed to the model exactly
/// what it adds to the items kept for the session, in the same order: the
/// session's earlier items stay as they were, and after tools ran the items
/// replayed end with the response's items followed by the tools' items.
pub proof fn law_turn_replays_what_it_keeps(p: ProgressView, o: OutcomeView)
    requires
        !(o is Handoff),
    ensures
        progress_step(p, o).session_items.len() >= p.session_items.len(),
        progress_step(p, o).session_items.subrange(0, p.session_items.len() as int) == p.session_items,
        progress_step(p, o).normalized_items == p.normalized_items + progress_step(p, o).session_items.skip(
            p.session_items.len() as int,
        ),
        o matches OutcomeView::ToolsContinue(response, tools) ==> {
            let q = progress_step(p, o).normalized_items;
            &&& q.len() == p.normalized_items.len() + response.len() + tools.len()
            &&& q.subrange(0, p.normalized_items.len() as int) == p.normalized_items
            &&& q.subrange(p.normalized_items.len() as int, (p.normalized_items.len() + response.len()) as int) == response
            &&& q.skip((p.normalized_items.len() + response.len()) as int) == tools
        },
{
    let q = progress_step(p, o);
    let n = p.session_items.len() as int;
    match o {
        OutcomeView::Answer(response, _) => {
            assert(q.session_items.subrange(0, n) =~= p.session_items);
            assert(q.session_items.skip(n) =~= response);
        },
        OutcomeView::ToolsFinal(response, tools, _, _) => {
            assert(q.session_items.subrange(0, n) =~= p.session_items);
            assert(q.session_items.skip(n) =~= response + tools);
            assert(q.normalized_items =~= p.normalized_items + (response + tools));
        },
        OutcomeView::ToolsInterrupted(response, tools) => {
            assert(q.session_items.subrange(0, n) =~= p.session_items);
            assert(q.session_items.skip(n) =~= response + tools);
            assert(q.normalized_items =~= p.normalized_items + (response + tools));
        },
        OutcomeView::ToolsContinue(response, tools) => {
            let m = p.normalized_items.len() as int;
            assert(q.session_items.subrange(0, n) =~= p.session_items);
            assert(q.session_items.skip(n) =~= response + tools);
            assert(q.normalized_items =~= p.normalized_items + (response + tools));
            assert(q.normalized_items.subrange(0, m) =~= p.normalized_items);
            assert(q.normalized_items.subrange(m, m + response.len()) =~= response);
            assert(q.normalized_items.skip(m + response.len()) =~= tools);
        },
        OutcomeView::Handoff(..) => {},
    }
}

} // verus!
