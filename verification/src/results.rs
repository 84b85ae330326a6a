//! What a run gives back: the result of a finished run, the result of a
//! streamed run, and the input list either gives for the next run.
use vstd::prelude::*;

use crate::conversation::ModelResponse;
use crate::guardrails::{
    input_report_view, output_report_view, InputGuardrailResult, OutputGuardrailResult, ToolInputGuardrailResult,
    ToolOutputGuardrailResult,
};
use crate::handoff_history::{copy_run_items, opt_runs_view};
use crate::items::{copy_input_items, inputs_view, runs_view, InputItem, InputView, OutputItem, RunItem};
use crate::json::{json_clone, json_view, Json, JsonValue};
use crate::replay::{prepare_model_input_items, replayed, ReasoningItemIdPolicy};
use crate::run_flow::{copy_response, responses_view};
use crate::run_state::{opt_inputs_view, to_input_list_mode, RunInterruption, RunState, ToInputListMode};
use crate::stream_events::StreamEvent;
use crate::text::{copy_opt_string, copy_string, opt_view};

verus! {

/// The call that ran an agent as a tool.
pub struct AgentToolInvocation {
    pub tool_name: String,
    pub tool_call_id: Option<String>,
    pub tool_arguments: Option<String>,
    pub qualified_name: Option<String>,
    pub output: Option<JsonValue>,
    pub agent_name: Option<String>,
}

/// What a tool call record stands for.
pub open spec fn invocation_view(i: AgentToolInvocation) -> (
    Seq<char>,
    Option<Seq<char>>,
    Option<Seq<char>>,
    Option<Seq<char>>,
    Option<Json>,
    Option<Seq<char>>,
) {
    (
        i.tool_name@,
        opt_view(i.tool_call_id),
        opt_view(i.tool_arguments),
        opt_view(i.qualified_name),
        match i.output {
            Some(v) => Some(json_view(v)),
            None => None,
        },
        opt_view(i.agent_name),
    )
}

/// What an optional tool call record stands for.
pub open spec fn opt_invocation_view(i: Option<AgentToolInvocation>) -> Option<
    (Seq<char>, Option<Seq<char>>, Option<Seq<char>>, Option<Seq<char>>, Option<Json>, Option<Seq<char>>),
> {
    match i {
        Some(v) => Some(invocation_view(v)),
        None => None,
    }
}

/// The result of a finished run; agents are named by their names.  It keeps
/// the tokens the run used and the run context it ran in.
pub struct RunResult {
    pub agent_name: String,
    pub last_agent: Option<String>,
    pub input: Vec<InputItem>,
    pub normalized_input: Option<Vec<InputItem>>,
    pub output: Vec<OutputItem>,
    pub new_items: Vec<RunItem>,
    pub raw_responses: Vec<ModelResponse>,
    pub final_output: Option<String>,
    pub input_guardrail_results: Vec<InputGuardrailResult>,
    pub output_guardrail_results: Vec<OutputGuardrailResult>,
    pub tool_input_guardrail_results: Vec<ToolInputGuardrailResult>,
    pub tool_output_guardrail_results: Vec<ToolOutputGuardrailResult>,
    pub run_state: Option<RunState>,
    pub interruptions: Vec<RunInterruption>,
    pub conversation_id: Option<String>,
    pub previous_response_id: Option<String>,
    pub auto_previous_response_id: bool,
    pub reasoning_item_id_policy: ReasoningItemIdPolicy,
    pub normalized_new_items: Option<Vec<RunItem>>,
    pub agent_tool_invocation: Option<AgentToolInvocation>,
    pub usage: crate::usage::Usage,
    pub context_snapshot: crate::run_state::RunStateContextSnapshot,
}

/// The input list of a finished run: its input (the rewritten one in
/// normalized mode, when there is one) followed by its new items replayed
/// (the rewritten ones in normalized mode, when there are some).
pub open spec fn result_input_list(r: RunResult, mode: ToInputListMode) -> Seq<InputView> {
    (match mode {
        ToInputListMode::PreserveAll => inputs_view(r.input@),
        ToInputListMode::Normalized => match opt_inputs_view(r.normalized_input) {
            Some(n) => n,
            None => inputs_view(r.input@),
        },
    }) + replayed(
        match mode {
            ToInputListMode::PreserveAll => runs_view(r.new_items@),
            ToInputListMode::Normalized => match opt_runs_view(r.normalized_new_items) {
                Some(n) => n,
                None => runs_view(r.new_items@),
            },
        },
        r.reasoning_item_id_policy,
    )
}

impl Default for RunResult {
    /// The result of a run of no agent that produced nothing.
    fn default() -> (res: Self)
        ensures
            res.agent_name@.len() == 0,
            res.last_agent.is_none(),
            res.input@.len() == 0,
            res.normalized_input.is_none(),
            res.output@.len() == 0,
            res.new_items@.len() == 0,
            res.raw_responses@.len() == 0,
            res.final_output.is_none(),
            res.input_guardrail_results@.len() == 0,
            res.output_guardrail_results@.len() == 0,
            res.tool_input_guardrail_results@.len() == 0,
            res.tool_output_guardrail_results@.len() == 0,
            res.run_state.is_none(),
            res.interruptions@.len() == 0,
            res.conversation_id.is_none(),
            res.previous_response_id.is_none(),
            !res.auto_previous_response_id,
            res.reasoning_item_id_policy == ReasoningItemIdPolicy::Preserve,
            res.normalized_new_items.is_none(),
            res.agent_tool_invocation.is_none(),
            res.usage == (crate::usage::Usage { input_tokens: 0, output_tokens: 0 }),
            crate::run_state::snapshot_view(res.context_snapshot) == (crate::run_state::SnapshotView {
                context: crate::json::Json::Null,
                usage: crate::usage::Usage { input_tokens: 0, output_tokens: 0 },
                turn_input: Seq::empty(),
                approvals: Map::empty(),
                tool_input: None,
                agent_tool_state_scope: None,
            }),
    {
        RunResult {
            agent_name: String::new(),
            last_agent: None,
            input: Vec::new(),
            normalized_input: None,
            output: Vec::new(),
            new_items: Vec::new(),
            raw_responses: Vec::new(),
            final_output: None,
            input_guardrail_results: Vec::new(),
            output_guardrail_results: Vec::new(),
            tool_input_guardrail_results: Vec::new(),
            tool_output_guardrail_results: Vec::new(),
            run_state: None,
            interruptions: Vec::new(),
            conversation_id: None,
            previous_response_id: None,
            auto_previous_response_id: false,
            reasoning_item_id_policy: ReasoningItemIdPolicy::Preserve,
            normalized_new_items: None,
            agent_tool_invocation: None,
            usage: crate::usage::Usage::default(),
            context_snapshot: crate::run_state::RunStateContextSnapshot::empty(),
        }
    }
}

impl RunResult {
    /// The server conversation the run continued, if any.
    pub fn conversation_id(&self) -> (res: Option<&str>)
        ensures
            match res {
                Some(t) => self.conversation_id matches Some(c) && t@ == c@,
                None => self.conversation_id.is_none(),
            },
    {
        match &self.conversation_id {
            Some(c) => Some(c.as_str()),
            None => None,
        }
    }

    /// The response the next run continues from, if any.
    pub fn previous_response_id(&self) -> (res: Option<&str>)
        ensures
            match res {
                Some(t) => self.previous_response_id matches Some(c) && t@ == c@,
                None => self.previous_response_id.is_none(),
            },
    {
        match &self.previous_response_id {
            Some(c) => Some(c.as_str()),
            None => None,
        }
    }
}

impl RunResult {
    /// The run's final output, as text.
    pub fn final_output_text(&self) -> (res: Option<&str>)
        ensures
            match res {
                Some(t) => self.final_output matches Some(f) && t@ == f@,
                None => self.final_output.is_none(),
            },
    {
        match &self.final_output {
            Some(f) => Some(f.as_str()),
            None => None,
        }
    }

    /// The agent the run ended with.
    pub fn last_agent(&self) -> (res: Option<&str>)
        ensures
            match res {
                Some(t) => self.last_agent matches Some(a) && t@ == a@,
                None => self.last_agent.is_none(),
            },
    {
        match &self.last_agent {
            Some(a) => Some(a.as_str()),
            None => None,
        }
    }

    /// The input list of the run in the given mode.
    pub fn to_input_list_mode(&self, mode: ToInputListMode) -> (res: Vec<InputItem>)
        ensures
            inputs_view(res@) == result_input_list(*self, mode),
    {
        let res = to_input_list_mode(
            &self.input,
            &self.normalized_input,
            &self.new_items,
            &self.normalized_new_items,
            self.reasoning_item_id_policy,
            mode,
        );
        res
    }

    /// The input list of the run: its input followed by all its new items.
    pub fn to_input_list(&self) -> (res: Vec<InputItem>)
        ensures
            inputs_view(res@) == result_input_list(*self, ToInputListMode::PreserveAll),
    {
        self.to_input_list_mode(ToInputListMode::PreserveAll)
    }

    /// The state the run can be resumed from, when it has one.
    pub fn durable_state(&self) -> (res: Option<&RunState>)
        ensures
            match res {
                Some(s) => self.run_state == Some(*s),
                None => self.run_state.is_none(),
            },
    {
        match &self.run_state {
            Some(s) => Some(s),
            None => None,
        }
    }

    /// The last raw model response of the run.
    pub fn last_response(&self) -> (res: Option<&ModelResponse>)
        ensures
            match res {
                Some(r) => self.raw_responses@.len() > 0 && *r == self.raw_responses@.last(),
                None => self.raw_responses@.len() == 0,
            },
    {
        if self.raw_responses.len() == 0 {
            None
        } else {
            Some(&self.raw_responses[self.raw_responses.len() - 1])
        }
    }

    /// The tool call that ran this run's agent as a tool, if one did.
    pub fn agent_tool_invocation(&self) -> (res: Option<&AgentToolInvocation>)
        ensures
            match res {
                Some(i) => self.agent_tool_invocation == Some(*i),
                None => self.agent_tool_invocation.is_none(),
            },
    {
        match &self.agent_tool_invocation {
            Some(i) => Some(i),
            None => None,
        }
    }
}

/// The result of a streamed run: how far it got, what it produced so far,
/// the events it reported, and the finished result once there is one.
pub struct RunResultStreaming {
    pub current_agent: Option<String>,
    pub current_turn: usize,
    pub max_turns: usize,
    pub is_complete: bool,
    pub final_output: Option<JsonValue>,
    pub normalized_input: Option<Vec<InputItem>>,
    pub new_items: Vec<RunItem>,
    pub raw_responses: Vec<ModelResponse>,
    pub input_guardrail_results: Vec<InputGuardrailResult>,
    pub output_guardrail_results: Vec<OutputGuardrailResult>,
    pub events: Vec<StreamEvent>,
    pub final_run_result: Option<RunResult>,
    pub reasoning_item_id_policy: ReasoningItemIdPolicy,
    pub normalized_new_items: Option<Vec<RunItem>>,
    pub agent_tool_invocation: Option<AgentToolInvocation>,
}

/// The input list of a streamed run: that of its finished result when it has
/// one; else the items it produced so far replayed, after the rewritten input
/// in normalized mode (no input otherwise).
pub open spec fn streaming_input_list(s: RunResultStreaming, mode: ToInputListMode) -> Seq<InputView> {
    match s.final_run_result {
        Some(r) => result_input_list(r, mode),
        None => (match mode {
            ToInputListMode::PreserveAll => Seq::empty(),
            ToInputListMode::Normalized => match opt_inputs_view(s.normalized_input) {
                Some(n) => n,
                None => Seq::empty(),
            },
        }) + replayed(
            match mode {
                ToInputListMode::PreserveAll => runs_view(s.new_items@),
                ToInputListMode::Normalized => match opt_runs_view(s.normalized_new_items) {
                    Some(n) => n,
                    None => runs_view(s.new_items@),
                },
            },
            s.reasoning_item_id_policy,
        ),
    }
}

/// Copies a list of model responses.
fn copy_responses(v: &Vec<ModelResponse>) -> (res: Vec<ModelResponse>)
    ensures
        responses_view(res@) == responses_view(v@),
{
    let mut out: Vec<ModelResponse> = Vec::new();
    let mut i: usize = 0;
    while i < v.len()
        invariant
            i <= v@.len(),
            responses_view(out@) =~= responses_view(v@).subrange(0, i as int),
        decreases v@.len() - i,
    {
        let ghost before = out@;
        out.push(copy_response(&v[i]));
        assert(responses_view(out@) =~= responses_view(before).push(responses_view(v@)[i as int]));
        i = i + 1;
    }
    out
}

/// Copies a list of input guardrail reports.
fn copy_input_reports(v: &Vec<InputGuardrailResult>) -> (res: Vec<InputGuardrailResult>)
    ensures
        res@.map_values(|r: InputGuardrailResult| input_report_view(r)) == v@.map_values(
            |r: InputGuardrailResult| input_report_view(r),
        ),
{
    let mut out: Vec<InputGuardrailResult> = Vec::new();
    let mut i: usize = 0;
    while i < v.len()
        invariant
            i <= v@.len(),
            out@.map_values(|r: InputGuardrailResult| input_report_view(r)) =~= v@.map_values(
                |r: InputGuardrailResult| input_report_view(r),
            ).subrange(0, i as int),
        decreases v@.len() - i,
    {
        let ghost before = out@;
        out.push(v[i].copy());
        assert(out@.map_values(|r: InputGuardrailResult| input_report_view(r)) =~= before.map_values(|r: InputGuardrailResult| input_report_view(r)).push(
            input_report_view(v@[i as int]),
        ));
        i = i + 1;
    }
    assert(v@.map_values(|r: InputGuardrailResult| input_report_view(r)).subrange(0, v@.len() as int) =~= v@.map_values(
        |r: InputGuardrailResult| input_report_view(r),
    ));
    out
}

/// Copies a list of output guardrail reports.
fn copy_output_reports(v: &Vec<OutputGuardrailResult>) -> (res: Vec<OutputGuardrailResult>)
    ensures
        res@.map_values(|r: OutputGuardrailResult| output_report_view(r)) == v@.map_values(
            |r: OutputGuardrailResult| output_report_view(r),
        ),
{
    let mut out: Vec<OutputGuardrailResult> = Vec::new();
    let mut i: usize = 0;
    while i < v.len()
        invariant
            i <= v@.len(),
            out@.map_values(|r: OutputGuardrailResult| output_report_view(r)) =~= v@.map_values(
                |r: OutputGuardrailResult| output_report_view(r),
            ).subrange(0, i as int),
        decreases v@.len() - i,
    {
        let ghost before = out@;
        out.push(v[i].copy());
        assert(out@.map_values(|r: OutputGuardrailResult| output_report_view(r)) =~= before.map_values(|r: OutputGuardrailResult| output_report_view(r)).push(
            output_report_view(v@[i as int]),
        ));
        i = i + 1;
    }
    assert(v@.map_values(|r: OutputGuardrailResult| output_report_view(r)).subrange(0, v@.len() as int) =~= v@.map_values(
        |r: OutputGuardrailResult| output_report_view(r),
    ));
    out
}

/// Copies a tool call record.
fn copy_invocation(i: &AgentToolInvocation) -> (res: AgentToolInvocation)
    ensures
        invocation_view(res) == invocation_view(*i),
{
    AgentToolInvocation {
        tool_name: copy_string(&i.tool_name),
        tool_call_id: copy_opt_string(&i.tool_call_id),
        tool_arguments: copy_opt_string(&i.tool_arguments),
        qualified_name: copy_opt_string(&i.qualified_name),
        output: match &i.output {
            Some(v) => Some(json_clone(v)),
            None => None,
        },
        agent_name: copy_opt_string(&i.agent_name),
    }
}

impl RunResultStreaming {
    /// The result of a streamed run that has finished with `result`, at turn
    /// `current_turn` of `max_turns`, after reporting `events`: complete, with
    /// the result's agent, output, items, responses and reports, and the
    /// result itself.
    pub fn from_run_result(result: RunResult, current_turn: usize, max_turns: usize, events: Vec<StreamEvent>) -> (res:
        Self)
        ensures
            opt_view(res.current_agent) == opt_view(result.last_agent),
            res.current_turn == current_turn,
            res.max_turns == max_turns,
            res.is_complete,
            match result.final_output {
                Some(t) => res.final_output matches Some(JsonValue::String(s)) && s@ == t@,
                None => res.final_output.is_none(),
            },
            opt_inputs_view(res.normalized_input) == opt_inputs_view(result.normalized_input),
            runs_view(res.new_items@) == runs_view(result.new_items@),
            responses_view(res.raw_responses@) == responses_view(result.raw_responses@),
            res.input_guardrail_results@.map_values(|r: InputGuardrailResult| input_report_view(r))
                == result.input_guardrail_results@.map_values(|r: InputGuardrailResult| input_report_view(r)),
            res.output_guardrail_results@.map_values(|r: OutputGuardrailResult| output_report_view(r))
                == result.output_guardrail_results@.map_values(|r: OutputGuardrailResult| output_report_view(r)),
            res.events == events,
            res.final_run_result == Some(result),
            res.reasoning_item_id_policy == result.reasoning_item_id_policy,
            opt_runs_view(res.normalized_new_items) == opt_runs_view(result.normalized_new_items),
            opt_invocation_view(res.agent_tool_invocation) == opt_invocation_view(result.agent_tool_invocation),
    {
        let final_output = match &result.final_output {
            Some(t) => Some(JsonValue::String(copy_string(t))),
            None => None,
        };
        let normalized_input = match &result.normalized_input {
            Some(n) => Some(copy_input_items(n.as_slice())),
            None => None,
        };
        let normalized_new_items = match &result.normalized_new_items {
            Some(n) => Some(copy_run_items(n)),
            None => None,
        };
        let agent_tool_invocation = match &result.agent_tool_invocation {
            Some(i) => Some(copy_invocation(i)),
            None => None,
        };
        RunResultStreaming {
            current_agent: copy_opt_string(&result.last_agent),
            current_turn,
            max_turns,
            is_complete: true,
            final_output,
            normalized_input,
            new_items: copy_run_items(&result.new_items),
            raw_responses: copy_responses(&result.raw_responses),
            input_guardrail_results: copy_input_reports(&result.input_guardrail_results),
            output_guardrail_results: copy_output_reports(&result.output_guardrail_results),
            events,
            reasoning_item_id_policy: result.reasoning_item_id_policy,
            normalized_new_items,
            agent_tool_invocation,
            final_run_result: Some(result),
        }
    }

    /// The input list of the streamed run in the given mode.
    pub fn to_input_list_mode(&self, mode: ToInputListMode) -> (res: Vec<InputItem>)
        ensures
            inputs_view(res@) == streaming_input_list(*self, mode),
    {
        match &self.final_run_result {
            Some(r) => r.to_input_list_mode(mode),
            None => {
                let empty: Vec<InputItem> = Vec::new();
                let base = match mode {
                    ToInputListMode::PreserveAll => &empty,
                    ToInputListMode::Normalized => match &self.normalized_input {
                        Some(n) => n,
                        None => &empty,
                    },
                };
                let items = match mode {
                    ToInputListMode::PreserveAll => &self.new_items,
                    ToInputListMode::Normalized => match &self.normalized_new_items {
                        Some(n) => n,
                        None => &self.new_items,
                    },
                };
                proof {
                    assert(inputs_view(empty@) =~= Seq::<InputView>::empty());
                }
                prepare_model_input_items(base.as_slice(), items.as_slice(), self.reasoning_item_id_policy)
            },
        }
    }

    /// The input list of the streamed run with all its items.
    pub fn to_input_list(&self) -> (res: Vec<InputItem>)
        ensures
            inputs_view(res@) == streaming_input_list(*self, ToInputListMode::PreserveAll),
    {
        self.to_input_list_mode(ToInputListMode::PreserveAll)
    }

    /// The events the streamed run reported, in order.
    pub fn stream_events(&self) -> (res: &Vec<StreamEvent>)
        ensures
            *res == self.events,
    {
        &self.events
    }

    /// The last raw model response: that of the finished result when it has
    /// one, else the last one the streamed run reported.
    pub fn last_response(&self) -> (res: Option<&ModelResponse>)
        ensures
            match self.final_run_result {
                Some(r) if r.raw_responses@.len() > 0 => res == Some(&r.raw_responses@.last()),
                _ => match res {
                    Some(x) => self.raw_responses@.len() > 0 && *x == self.raw_responses@.last(),
                    None => self.raw_responses@.len() == 0,
                },
            },
    {
        if let Some(r) = &self.final_run_result {
            if let Some(x) = r.last_response() {
                return Some(x);
            }
        }
        if self.raw_responses.len() == 0 {
            None
        } else {
            Some(&self.raw_responses[self.raw_responses.len() - 1])
        }
    }

    /// The tool call that ran this run's agent as a tool, if one did.
    pub fn agent_tool_invocation(&self) -> (res: Option<&AgentToolInvocation>)
        ensures
            match res {
                Some(i) => self.agent_tool_invocation == Some(*i),
                None => self.agent_tool_invocation.is_none(),
            },
    {
        match &self.agent_tool_invocation {
            Some(i) => Some(i),
            None => None,
        }
    }
}

/// A streamed run that has finished gives the same input list as its
/// finished result, in either mode.
pub proof fn law_streamed_input_list_matches_result(s: RunResultStreaming, r: RunResult, mode: ToInputListMode)
    requires
        s.final_run_result == Some(r),
    ensures
        streaming_input_list(s, mode) == result_input_list(r, mode),
{
}

} // verus!
