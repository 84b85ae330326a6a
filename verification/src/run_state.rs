//! The durable state of a run: turn accounting, approvals, interruptions and
//! the input a resumed run replays; and the input list a finished run gives.
use vstd::prelude::*;

use crate::conversation::ModelResponse;
use crate::guardrails::{InputGuardrailResult, OutputGuardrailResult, ToolInputGuardrailResult, ToolOutputGuardrailResult};
use crate::items::{inputs_view, runs_view, InputItem, InputView, RunItem, RunView};
use crate::ordered::StrMap;
use crate::replay::{compose_replay_input_items, replayed, run_items_to_input_items, sanitized, trailing_overlap, ReasoningItemIdPolicy};
use crate::json::{json_clone, json_view, Json, JsonValue};
use crate::run_flow::{approvals_view, merge_approvals};
use crate::text::{copy_opt_string, opt_view};
use crate::tool_context::RunContextWrapper;
use crate::usage::Usage;

verus! {

/// The version of the run state format.
pub const CURRENT_RUN_STATE_SCHEMA_VERSION: &'static str = "1.6";

/// The turn limit of a run that sets none.
pub const DEFAULT_MAX_TURNS: usize = 10;

/// Per-run metadata passed through agent execution.
pub struct RunContext {
    pub conversation_id: Option<String>,
    pub workflow_name: Option<String>,
}

/// A decision on a tool call that needs approval.
pub struct ApprovalRecord {
    pub approved: bool,
    pub reason: Option<String>,
    pub tool_name: Option<String>,
}

/// The context an agent's lifecycle hooks get.
pub struct AgentHookContext<C> {
    pub context: C,
    pub turn: usize,
}

impl<C> AgentHookContext<C> {
    /// The hook context of turn `turn`.
    pub fn new(context: C, turn: usize) -> (res: Self)
        ensures
            res.context == context,
            res.turn == turn,
    {
        AgentHookContext { context, turn }
    }
}

/// Why a run paused.
#[derive(Clone, Copy, Debug, PartialEq, Eq, Structural)]
pub enum RunInterruptionKind {
    ToolApproval,
    Handoff,
    InputGuardrail,
    OutputGuardrail,
    ToolInputGuardrail,
    ToolOutputGuardrail,
    External,
}

/// Where and why a run paused.
pub struct RunInterruption {
    pub kind: Option<RunInterruptionKind>,
    pub call_id: Option<String>,
    pub tool_name: Option<String>,
    pub reason: Option<String>,
}

/// Which history a finished run gives as input for the next one.
#[derive(Clone, Copy, Debug, PartialEq, Eq, Structural)]
pub enum ToInputListMode {
    /// The caller's input and every generated item.
    PreserveAll,
    /// The input and items as handoff filters rewrote them, where they did.
    Normalized,
}

impl Default for ToInputListMode {
    fn default() -> (res: Self)
        ensures
            res == ToInputListMode::PreserveAll,
    {
        ToInputListMode::PreserveAll
    }
}

/// The run context a state keeps: the caller's context as JSON, the tokens
/// the run used, the input of its turn, the approval decisions, the parsed
/// input of the tool that started a nested run, and the scope nested results
/// are kept under.
pub struct RunStateContextSnapshot {
    pub context: JsonValue,
    pub usage: Usage,
    pub turn_input: Vec<InputItem>,
    pub approvals: StrMap<ApprovalRecord>,
    pub tool_input: Option<JsonValue>,
    pub agent_tool_state_scope: Option<String>,
}

/// What a context snapshot stands for.
pub struct SnapshotView {
    pub context: Json,
    pub usage: Usage,
    pub turn_input: Seq<InputView>,
    pub approvals: Map<Seq<char>, (bool, Option<Seq<char>>, Option<Seq<char>>)>,
    pub tool_input: Option<Json>,
    pub agent_tool_state_scope: Option<Seq<char>>,
}

/// The JSON value of an optional value.
pub open spec fn opt_json_view(v: Option<JsonValue>) -> Option<Json> {
    match v {
        Some(j) => Some(json_view(j)),
        None => None,
    }
}

/// What a context snapshot stands for.
pub open spec fn snapshot_view(s: RunStateContextSnapshot) -> SnapshotView {
    SnapshotView {
        context: json_view(s.context),
        usage: s.usage,
        turn_input: inputs_view(s.turn_input@),
        approvals: approvals_view(s.approvals.view()),
        tool_input: opt_json_view(s.tool_input),
        agent_tool_state_scope: opt_view(s.agent_tool_state_scope),
    }
}

/// What a run context stands for as a snapshot, its caller's context written
/// as the JSON value `value`.
pub open spec fn context_snapshot_view<C>(c: RunContextWrapper<C>, value: Json) -> SnapshotView {
    SnapshotView {
        context: value,
        usage: c.usage,
        turn_input: inputs_view(c.turn_input@),
        approvals: approvals_view(c.approvals.view()),
        tool_input: opt_json_view(c.tool_input),
        agent_tool_state_scope: opt_view(c.agent_tool_state_scope),
    }
}

/// Copies an optional JSON value.
pub fn copy_opt_json(v: &Option<JsonValue>) -> (res: Option<JsonValue>)
    ensures
        opt_json_view(res) == opt_json_view(*v),
{
    match v {
        Some(j) => Some(json_clone(j)),
        None => None,
    }
}

/// Copies approval decisions.
pub fn copy_approvals(m: &StrMap<ApprovalRecord>) -> (res: StrMap<ApprovalRecord>)
    ensures
        approvals_view(res.view()) == approvals_view(m.view()),
{
    let empty: StrMap<ApprovalRecord> = StrMap::new();
    let res = merge_approvals(m, &empty);
    assert(approvals_view(empty.view()) =~= Map::empty());
    assert(approvals_view(m.view()).union_prefer_right(approvals_view(empty.view())) =~= approvals_view(m.view()));
    res
}

impl RunStateContextSnapshot {
    /// The snapshot of no context: a `null` context, no usage, input,
    /// approvals, tool input or scope.
    pub fn empty() -> (res: Self)
        ensures
            snapshot_view(res) == (SnapshotView {
                context: Json::Null,
                usage: Usage { input_tokens: 0, output_tokens: 0 },
                turn_input: Seq::empty(),
                approvals: Map::empty(),
                tool_input: None,
                agent_tool_state_scope: None,
            }),
    {
        let res = RunStateContextSnapshot {
            context: JsonValue::Null,
            usage: Usage::default(),
            turn_input: Vec::new(),
            approvals: StrMap::new(),
            tool_input: None,
            agent_tool_state_scope: None,
        };
        assert(inputs_view(res.turn_input@) =~= Seq::<InputView>::empty());
        assert(approvals_view(res.approvals.view()) =~= Map::empty());
        res
    }

    /// The snapshot of `context`, whose caller's context is written as the
    /// JSON value `context_value`.
    pub fn of<C>(context: &RunContextWrapper<C>, context_value: JsonValue) -> (res: Self)
        ensures
            snapshot_view(res) == context_snapshot_view(*context, json_view(context_value)),
    {
        RunStateContextSnapshot {
            context: context_value,
            usage: context.usage,
            turn_input: crate::items::copy_input_items(context.turn_input.as_slice()),
            approvals: copy_approvals(&context.approvals),
            tool_input: copy_opt_json(&context.tool_input),
            agent_tool_state_scope: copy_opt_string(&context.agent_tool_state_scope),
        }
    }

    /// Copies this snapshot.
    pub fn copy(&self) -> (res: Self)
        ensures
            snapshot_view(res) == snapshot_view(*self),
    {
        RunStateContextSnapshot {
            context: json_clone(&self.context),
            usage: self.usage,
            turn_input: crate::items::copy_input_items(self.turn_input.as_slice()),
            approvals: copy_approvals(&self.approvals),
            tool_input: copy_opt_json(&self.tool_input),
            agent_tool_state_scope: copy_opt_string(&self.agent_tool_state_scope),
        }
    }
}

/// The pause and resume boundary of a run, as the runtime reads it.
pub struct RunState {
    pub schema_version: String,
    pub current_turn: usize,
    pub current_agent: Option<String>,
    pub original_input: Vec<InputItem>,
    pub normalized_input: Option<Vec<InputItem>>,
    pub model_responses: Vec<ModelResponse>,
    pub generated_items: Vec<RunItem>,
    pub session_items: Vec<RunItem>,
    pub max_turns: usize,
    pub conversation_id: Option<String>,
    pub previous_response_id: Option<String>,
    pub auto_previous_response_id: bool,
    pub reasoning_item_id_policy: ReasoningItemIdPolicy,
    pub current_step: Option<RunInterruption>,
    pub persisted_item_count: usize,
    pub context_snapshot: RunStateContextSnapshot,
    pub input_guardrail_results: Vec<InputGuardrailResult>,
    pub output_guardrail_results: Vec<OutputGuardrailResult>,
    pub tool_input_guardrail_results: Vec<ToolInputGuardrailResult>,
    pub tool_output_guardrail_results: Vec<ToolOutputGuardrailResult>,
}

/// The input items of an optional list.
pub open spec fn opt_inputs_view(v: Option<Vec<InputItem>>) -> Option<Seq<InputView>> {
    match v {
        Some(v) => Some(inputs_view(v@)),
        None => None,
    }
}

/// What an approval record says: approved or not, why, and for which tool.
pub open spec fn approval_view(r: ApprovalRecord) -> (bool, Option<Seq<char>>, Option<Seq<char>>) {
    (r.approved, opt_view(r.reason), opt_view(r.tool_name))
}

/// The items a resumed run replays: its input (as rewritten, where it was)
/// kept for replay, then the generated items that input does not already end with.
pub open spec fn resume_input_spec(
    base: Seq<InputView>,
    generated: Seq<RunView>,
    policy: ReasoningItemIdPolicy,
) -> Seq<InputView> {
    sanitized(base) + replayed(generated, policy).skip(trailing_overlap(base, replayed(generated, policy)))
}

impl RunState {
    /// The state of a run that starts with `starting_agent` on `original_input`
    /// in the context `context`.
    pub fn new(
        context: RunStateContextSnapshot,
        original_input: Vec<InputItem>,
        starting_agent: String,
        max_turns: usize,
    ) -> (res: Self)
        ensures
            res.schema_version@ == CURRENT_RUN_STATE_SCHEMA_VERSION@,
            res.current_turn == 0,
            opt_view(res.current_agent) == Some(starting_agent@),
            res.original_input == original_input,
            res.normalized_input.is_none(),
            res.model_responses@.len() == 0,
            res.generated_items@.len() == 0,
            res.session_items@.len() == 0,
            res.max_turns == max_turns,
            res.conversation_id.is_none(),
            res.previous_response_id.is_none(),
            !res.auto_previous_response_id,
            res.reasoning_item_id_policy == ReasoningItemIdPolicy::Preserve,
            res.current_step.is_none(),
            res.persisted_item_count == 0,
            res.context_snapshot == context,
            res.input_guardrail_results@.len() == 0,
            res.output_guardrail_results@.len() == 0,
            res.tool_input_guardrail_results@.len() == 0,
            res.tool_output_guardrail_results@.len() == 0,
    {
        RunState {
            schema_version: String::from_str(CURRENT_RUN_STATE_SCHEMA_VERSION),
            current_turn: 0,
            current_agent: Some(starting_agent),
            original_input,
            normalized_input: None,
            model_responses: Vec::new(),
            generated_items: Vec::new(),
            session_items: Vec::new(),
            max_turns,
            conversation_id: None,
            previous_response_id: None,
            auto_previous_response_id: false,
            reasoning_item_id_policy: ReasoningItemIdPolicy::Preserve,
            current_step: None,
            persisted_item_count: 0,
            context_snapshot: context,
            input_guardrail_results: Vec::new(),
            output_guardrail_results: Vec::new(),
            tool_input_guardrail_results: Vec::new(),
            tool_output_guardrail_results: Vec::new(),
        }
    }

    /// The name of the agent the run is at.
    pub fn current_agent_name(&self) -> (res: Option<&str>)
        ensures
            match res {
                Some(n) => opt_view(self.current_agent) == Some(n@),
                None => self.current_agent.is_none(),
            },
    {
        match &self.current_agent {
            Some(name) => Some(name.as_str()),
            None => None,
        }
    }

    /// The turns left: none once the limit is reached.
    pub fn remaining_turns(&self) -> (res: usize)
        ensures
            res == if self.current_turn <= self.max_turns {
                (self.max_turns - self.current_turn) as usize
            } else {
                0
            },
    {
        self.max_turns.saturating_sub(self.current_turn)
    }

    /// Whether the run can take another turn: turns are left and it is not paused.
    pub fn can_continue(&self) -> (res: bool)
        ensures
            res == (self.current_turn < self.max_turns && self.current_step.is_none()),
    {
        self.remaining_turns() > 0 && self.current_step.is_none()
    }

    /// Whether the run is paused.
    pub fn is_interrupted(&self) -> (res: bool)
        ensures
            res == self.current_step.is_some(),
    {
        self.current_step.is_some()
    }

    /// Counts a new turn.
    pub fn mark_turn_started(&mut self)
        requires
            old(self).current_turn < usize::MAX,
        ensures
            *final(self) == (RunState { current_turn: (old(self).current_turn + 1) as usize, ..*old(self) }),
    {
        self.current_turn = self.current_turn + 1;
    }

    /// Moves the run to the agent named `agent`.
    pub fn set_current_agent(&mut self, agent: String)
        ensures
            *final(self) == (RunState { current_agent: Some(agent), ..*old(self) }),
    {
        self.current_agent = Some(agent);
    }

    /// Records a model response.
    pub fn push_model_response(&mut self, response: ModelResponse)
        ensures
            final(self).model_responses@ == old(self).model_responses@.push(response),
            *final(self) == (RunState { model_responses: final(self).model_responses, ..*old(self) }),
    {
        self.model_responses.push(response);
    }

    /// Records a generated item.
    pub fn push_generated_item(&mut self, item: RunItem)
        ensures
            final(self).generated_items@ == old(self).generated_items@.push(item),
            *final(self) == (RunState { generated_items: final(self).generated_items, ..*old(self) }),
    {
        self.generated_items.push(item);
    }

    /// Records generated items, in order.
    pub fn extend_generated_items(&mut self, items: Vec<RunItem>)
        ensures
            final(self).generated_items@ == old(self).generated_items@ + items@,
            *final(self) == (RunState { generated_items: final(self).generated_items, ..*old(self) }),
    {
        let mut items = items;
        self.generated_items.append(&mut items);
    }

    /// Records an item persisted to the session.
    pub fn push_session_item(&mut self, item: RunItem)
        ensures
            final(self).session_items@ == old(self).session_items@.push(item),
            *final(self) == (RunState { session_items: final(self).session_items, ..*old(self) }),
    {
        self.session_items.push(item);
    }

    /// Records items persisted to the session, in order.
    pub fn extend_session_items(&mut self, items: Vec<RunItem>)
        ensures
            final(self).session_items@ == old(self).session_items@ + items@,
            *final(self) == (RunState { session_items: final(self).session_items, ..*old(self) }),
    {
        let mut items = items;
        self.session_items.append(&mut items);
    }

    /// Records the report of an input guardrail.
    pub fn record_input_guardrail_result(&mut self, result: InputGuardrailResult)
        ensures
            final(self).input_guardrail_results@ == old(self).input_guardrail_results@.push(result),
            *final(self) == (RunState { input_guardrail_results: final(self).input_guardrail_results, ..*old(self) }),
    {
        self.input_guardrail_results.push(result);
    }

    /// Records the report of an output guardrail.
    pub fn record_output_guardrail_result(&mut self, result: OutputGuardrailResult)
        ensures
            final(self).output_guardrail_results@ == old(self).output_guardrail_results@.push(result),
            *final(self) == (RunState { output_guardrail_results: final(self).output_guardrail_results, ..*old(self) }),
    {
        self.output_guardrail_results.push(result);
    }

    /// Records the report of a tool input guardrail.
    pub fn record_tool_input_guardrail_result(&mut self, result: ToolInputGuardrailResult)
        ensures
            final(self).tool_input_guardrail_results@ == old(self).tool_input_guardrail_results@.push(result),
            *final(self) == (RunState { tool_input_guardrail_results: final(self).tool_input_guardrail_results, ..*old(self) }),
    {
        self.tool_input_guardrail_results.push(result);
    }

    /// Records the report of a tool output guardrail.
    pub fn record_tool_output_guardrail_result(&mut self, result: ToolOutputGuardrailResult)
        ensures
            final(self).tool_output_guardrail_results@ == old(self).tool_output_guardrail_results@.push(result),
            *final(self) == (RunState { tool_output_guardrail_results: final(self).tool_output_guardrail_results, ..*old(self) }),
    {
        self.tool_output_guardrail_results.push(result);
    }

    /// The decision recorded for the call `id`.
    pub fn approval(&self, id: &str) -> (res: Option<&ApprovalRecord>)
        ensures
            match res {
                Some(r) => self.context_snapshot.approvals.view().contains_key(id@)
                    && self.context_snapshot.approvals.view()[id@] == *r,
                None => !self.context_snapshot.approvals.view().contains_key(id@),
            },
    {
        self.context_snapshot.approvals.get(id)
    }

    /// Approves the call `id`.
    pub fn approve(&mut self, id: String, reason: Option<String>)
        ensures
            final(self).context_snapshot.approvals.view() == old(self).context_snapshot.approvals.view().insert(
                id@,
                ApprovalRecord { approved: true, reason, tool_name: None },
            ),
            *final(self) == (RunState {
                context_snapshot: RunStateContextSnapshot {
                    approvals: final(self).context_snapshot.approvals,
                    ..old(self).context_snapshot
                },
                ..*old(self)
            }),
    {
        self.approve_for_tool(id, None, reason);
    }

    /// Approves the call `id` of the tool `tool_name`.
    pub fn approve_for_tool(&mut self, id: String, tool_name: Option<String>, reason: Option<String>)
        ensures
            final(self).context_snapshot.approvals.view() == old(self).context_snapshot.approvals.view().insert(
                id@,
                ApprovalRecord { approved: true, reason, tool_name },
            ),
            *final(self) == (RunState {
                context_snapshot: RunStateContextSnapshot {
                    approvals: final(self).context_snapshot.approvals,
                    ..old(self).context_snapshot
                },
                ..*old(self)
            }),
    {
        self.context_snapshot.approvals.insert(id, ApprovalRecord { approved: true, reason, tool_name });
    }

    /// Rejects the call `id`.
    pub fn reject(&mut self, id: String, reason: Option<String>)
        ensures
            final(self).context_snapshot.approvals.view() == old(self).context_snapshot.approvals.view().insert(
                id@,
                ApprovalRecord { approved: false, reason, tool_name: None },
            ),
            *final(self) == (RunState {
                context_snapshot: RunStateContextSnapshot {
                    approvals: final(self).context_snapshot.approvals,
                    ..old(self).context_snapshot
                },
                ..*old(self)
            }),
    {
        self.reject_for_tool(id, None, reason);
    }

    /// Rejects the call `id` of the tool `tool_name`.
    pub fn reject_for_tool(&mut self, id: String, tool_name: Option<String>, reason: Option<String>)
        ensures
            final(self).context_snapshot.approvals.view() == old(self).context_snapshot.approvals.view().insert(
                id@,
                ApprovalRecord { approved: false, reason, tool_name },
            ),
            *final(self) == (RunState {
                context_snapshot: RunStateContextSnapshot {
                    approvals: final(self).context_snapshot.approvals,
                    ..old(self).context_snapshot
                },
                ..*old(self)
            }),
    {
        self.context_snapshot.approvals.insert(id, ApprovalRecord { approved: false, reason, tool_name });
    }

    /// Pauses the run.
    pub fn interrupt(
        &mut self,
        kind: RunInterruptionKind,
        call_id: Option<String>,
        tool_name: Option<String>,
        reason: Option<String>,
    )
        ensures
            *final(self) == (RunState {
                current_step: Some(RunInterruption { kind: Some(kind), call_id, tool_name, reason }),
                ..*old(self)
            }),
    {
        self.current_step = Some(RunInterruption { kind: Some(kind), call_id, tool_name, reason });
    }

    /// The run context this state resumes in, around the caller's context
    /// `context` read back from the snapshot's JSON.
    pub fn restore_context<C>(&self, context: C) -> (res: RunContextWrapper<C>)
        ensures
            res.context == context,
            context_snapshot_view(res, json_view(self.context_snapshot.context)) == snapshot_view(self.context_snapshot),
    {
        RunContextWrapper {
            context,
            usage: self.context_snapshot.usage,
            turn_input: crate::items::copy_input_items(self.context_snapshot.turn_input.as_slice()),
            approvals: copy_approvals(&self.context_snapshot.approvals),
            tool_input: copy_opt_json(&self.context_snapshot.tool_input),
            agent_tool_state_scope: copy_opt_string(&self.context_snapshot.agent_tool_state_scope),
        }
    }

    /// Ends a pause.
    pub fn clear_interruption(&mut self)
        ensures
            *final(self) == (RunState { current_step: None, ..*old(self) }),
    {
        self.current_step = None;
    }

    /// The items a resumed run replays.
    pub fn resume_input(&self) -> (res: Vec<InputItem>)
        ensures
            inputs_view(res@) == resume_input_spec(
                match self.normalized_input {
                    Some(n) => inputs_view(n@),
                    None => inputs_view(self.original_input@),
                },
                runs_view(self.generated_items@),
                self.reasoning_item_id_policy,
            ),
    {
        let base = match &self.normalized_input {
            Some(n) => n.as_slice(),
            None => self.original_input.as_slice(),
        };
        compose_replay_input_items(base, self.generated_items.as_slice(), self.reasoning_item_id_policy)
    }
}

/// The input list a finished run gives: its input followed by its generated
/// items replayed; in normalized mode the rewritten input and items where the
/// run has them.
pub fn to_input_list_mode(
    input: &Vec<InputItem>,
    normalized_input: &Option<Vec<InputItem>>,
    new_items: &Vec<RunItem>,
    normalized_new_items: &Option<Vec<RunItem>>,
    reasoning_item_id_policy: ReasoningItemIdPolicy,
    mode: ToInputListMode,
) -> (res: Vec<InputItem>)
    ensures
        inputs_view(res@) == (match mode {
            ToInputListMode::PreserveAll => inputs_view(input@),
            ToInputListMode::Normalized => match normalized_input {
                Some(n) => inputs_view(n@),
                None => inputs_view(input@),
            },
        }) + replayed(
            runs_view(
                (match mode {
                    ToInputListMode::PreserveAll => new_items@,
                    ToInputListMode::Normalized => match normalized_new_items {
                        Some(n) => n@,
                        None => new_items@,
                    },
                }),
            ),
            reasoning_item_id_policy,
        ),
{
    let chosen_items = match mode {
        ToInputListMode::PreserveAll => new_items,
        ToInputListMode::Normalized => match normalized_new_items {
            Some(n) => n,
            None => new_items,
        },
    };
    let base = match mode {
        ToInputListMode::PreserveAll => input,
        ToInputListMode::Normalized => match normalized_input {
            Some(n) => n,
            None => input,
        },
    };
    crate::replay::prepare_model_input_items(base.as_slice(), chosen_items.as_slice(), reasoning_item_id_policy)
}

} // verus!
