//! A call of an agent that another agent uses as a tool: what its nested run
//! starts from, and what the call answers once the nested run ended.
use vstd::prelude::*;

use crate::agent_behavior::{agent_tool_answer, default_agent_tool_output_text};
use crate::agent_tool_input::{
    nested_input_view, nested_run_input, nested_run_limits, plain_input, resolve_agent_tool_input,
    should_capture_tool_input, structured_input_lines, tool_failure_outcome, NestedRunLimits, ResolvedToolInput,
    StructuredInputSchemaInfo,
};
use crate::agent_tool_state::AgentToolStateStore;
use crate::errors::AgentsError;
use crate::items::{inputs_view, outputs_view, runs_view, InputItem, InputView};
use crate::json::{json_clone, json_text, json_to_string, json_view, Json, JsonValue};
use crate::results::{AgentToolInvocation, RunResult};
use crate::run_state::ApprovalRecord;
use crate::text::{join_with, opt_view};
use crate::run_driver::{finished_snapshot, responses_usage, RunDriver};
use crate::run_flow::{approvals_view, ProgressView};
use crate::run_state::{context_snapshot_view, opt_json_view, snapshot_view, RunStateContextSnapshot};
use crate::tool_context::{context_qualified_name, nested_tool_run_context, RunContextWrapper, ToolContext};

verus! {

/// The options of an agent used as a tool that its calls read: whether the
/// tool shows its input schema (and that schema), whether a custom input
/// builder is set, whether the tool takes the default arguments type, and
/// the turn budget and server conversation its nested runs use.
pub struct AgentToolCallOptions {
    pub include_input_schema: bool,
    pub params_json_schema: JsonValue,
    pub has_input_builder: bool,
    pub default_arguments: bool,
    pub max_turns: Option<usize>,
    pub previous_response_id: Option<String>,
    pub conversation_id: Option<String>,
}

/// What a nested run starts from: its input, its limits, its run context,
/// and the record of the call that started it.
pub struct NestedRunPlan<C> {
    pub input: Vec<InputItem>,
    pub limits: NestedRunLimits,
    pub context: RunContextWrapper<C>,
    pub invocation: AgentToolInvocation,
}

/// The schema information a call shows: the tool's input schema, when the
/// tool shows it.
pub open spec fn call_schema_info(options: AgentToolCallOptions) -> Option<(Option<Seq<char>>, Option<Json>)> {
    if options.include_input_schema {
        Some((None, Some(json_view(options.params_json_schema))))
    } else {
        None
    }
}

/// The text a nested run starts from without a custom input builder: the
/// `input` string of parameters that hold only it; else the structured input
/// when schema information is shown; else the parameters as compact JSON.
pub open spec fn default_call_input(params: Json, info: Option<(Option<Seq<char>>, Option<Json>)>) -> Seq<char> {
    match plain_input(params) {
        Some(s) => s,
        None => if info.is_some() {
            join_with(structured_input_lines(params, info), "\n"@)
        } else {
            json_text(params)
        },
    }
}

/// What the nested run of a call of `agent_name` as a tool starts from.  Its
/// input is what the custom input builder gave (`built_input`), else the
/// default input made of the parsed arguments `params`; its limits are those
/// of `base_limits` with the tool's own settings in their place; its context
/// is the calling run's, without approvals, seeing `params` when the tool
/// captures its input; and the call is recorded with the raw arguments
/// `raw_args` as compact JSON and the tool's qualified name.
pub fn agent_tool_call_plan<C>(
    options: &AgentToolCallOptions,
    agent_name: &str,
    tool_context: ToolContext<C>,
    base_limits: &NestedRunLimits,
    raw_args: &JsonValue,
    params: JsonValue,
    built_input: Option<ResolvedToolInput>,
) -> (res: NestedRunPlan<C>)
    ensures
        inputs_view(res.input@) == (match built_input {
            Some(b) => nested_input_view(b),
            None => seq![InputView::Text(default_call_input(json_view(params), call_schema_info(*options)))],
        }),
        res.limits.max_turns == (match options.max_turns {
            Some(n) => n,
            None => base_limits.max_turns,
        }),
        opt_view(res.limits.previous_response_id) == (if options.previous_response_id.is_some() {
            opt_view(options.previous_response_id)
        } else {
            opt_view(base_limits.previous_response_id)
        }),
        opt_view(res.limits.conversation_id) == (if options.conversation_id.is_some() {
            opt_view(options.conversation_id)
        } else {
            opt_view(base_limits.conversation_id)
        }),
        res.context.context == tool_context.run_context.context,
        inputs_view(res.context.turn_input@) == inputs_view(tool_context.run_context.turn_input@),
        res.context.approvals@ == Map::<Seq<char>, ApprovalRecord>::empty(),
        res.context.tool_input == (if options.include_input_schema || options.has_input_builder
            || !options.default_arguments {
            Some(params)
        } else {
            None::<JsonValue>
        }),
        res.context.agent_tool_state_scope == tool_context.run_context.agent_tool_state_scope,
        res.invocation.tool_name == tool_context.tool_name,
        res.invocation.tool_call_id == Some(tool_context.tool_call_id),
        opt_view(res.invocation.tool_arguments) == Some(json_text(json_view(*raw_args))),
        opt_view(res.invocation.qualified_name) == Some(
            context_qualified_name(
                tool_context.tool_name@,
                match tool_context.tool_namespace {
                    Some(ns) => Some(ns@),
                    None => None,
                },
            ),
        ),
        res.invocation.output.is_none(),
        opt_view(res.invocation.agent_name) == Some(agent_name@),
{
    let resolved = match built_input {
        Some(b) => b,
        None => {
            let info = StructuredInputSchemaInfo {
                summary: None,
                json_schema: Some(json_clone(&options.params_json_schema)),
            };
            if options.include_input_schema {
                resolve_agent_tool_input(&params, Some(&info))
            } else {
                resolve_agent_tool_input(&params, None)
            }
        },
    };
    let input = nested_run_input(resolved);
    let limits = nested_run_limits(
        base_limits,
        options.max_turns,
        &options.previous_response_id,
        &options.conversation_id,
    );
    let capture = should_capture_tool_input(
        options.include_input_schema,
        options.has_input_builder,
        options.default_arguments,
    );
    let args_json = json_to_string(raw_args);
    let qualified = tool_context.qualified_tool_name();
    let ToolContext { run_context, tool_name, tool_call_id, tool_arguments: _, tool_call: _, tool_namespace: _, agent: _ } =
        tool_context;
    let invocation = AgentToolInvocation {
        tool_name,
        tool_call_id: Some(tool_call_id),
        tool_arguments: Some(args_json),
        qualified_name: Some(qualified),
        output: None,
        agent_name: Some(copy_string_of(agent_name)),
    };
    let context = nested_tool_run_context(run_context, capture, params);
    NestedRunPlan { input, limits, context, invocation }
}

/// A string of the characters of `s`.
fn copy_string_of(s: &str) -> (res: String)
    ensures
        res@ == s@,
{
    String::from_str(s)
}

/// What a call of an agent as a tool answers once its nested run ended.  A
/// run that finished is kept in `store` under the call id and `scope`, and
/// the call answers with the custom extractor's text (`extracted`), else with
/// the run's default answer.  A run that failed leaves `store` as it was, and
/// the call answers with the message the failure formatter made of the error
/// (`formatted`), else fails with the error.
pub fn finish_agent_tool_call(
    store: &mut AgentToolStateStore<RunResult>,
    call_id: String,
    scope: Option<String>,
    outcome: Result<RunResult, AgentsError>,
    extracted: Option<String>,
    formatted: Option<String>,
) -> (res: Result<String, AgentsError>)
    ensures
        match outcome {
            Ok(r) => (res matches Ok(t) && t@ == (match extracted {
                Some(x) => x@,
                None => agent_tool_answer(opt_view(r.final_output), runs_view(r.new_items@), outputs_view(r.output@)),
            })) && final(store).view() == old(store).view().insert((opt_view(scope), call_id@), r),
            Err(e) => final(store).view() == old(store).view() && (match formatted {
                Some(m) => res == Ok::<String, AgentsError>(m),
                None => res == Err::<String, AgentsError>(e),
            }),
        },
{
    match outcome {
        Ok(result) => {
            let text = match extracted {
                Some(x) => x,
                None => default_agent_tool_output_text(&result.final_output, &result.new_items, &result.output),
            };
            store.record_agent_tool_run_result(call_id, result, scope);
            Ok(text)
        },
        Err(error) => tool_failure_outcome(error, formatted),
    }
}

/// The run driver of a call's nested run: the called agent `agent_name` runs
/// on the plan's input for the plan's turn budget, in the plan's context,
/// whose caller's context is written as the JSON value `context_value`.
pub fn nested_run_driver<C>(
    plan: &NestedRunPlan<C>,
    agent_name: String,
    context_value: JsonValue,
    policy: crate::replay::ReasoningItemIdPolicy,
) -> (res: RunDriver)
    ensures
        res.wf(),
        res.step() is RunInputGuardrails,
        res.starting_agent@ == agent_name@,
        res.current_agent@ == agent_name@,
        inputs_view(res.original_input@) == inputs_view(plan.input@),
        res.progress.view() == (ProgressView {
            turns: 0,
            max_turns: plan.limits.max_turns as nat,
            input_history: inputs_view(plan.input@),
            normalized_items: Seq::empty(),
            session_items: Seq::empty(),
            final_output: None,
            final_output_items: Seq::empty(),
            interrupted: false,
            finished: false,
        }),
        res.raw_responses@.len() == 0,
        res.policy == policy,
        snapshot_view(res.context) == context_snapshot_view(plan.context, json_view(context_value)),
{
    let original = crate::items::copy_input_items(plan.input.as_slice());
    let base = crate::items::copy_input_items(plan.input.as_slice());
    let context = RunStateContextSnapshot::of(&plan.context, context_value);
    RunDriver::new(agent_name, original, base, plan.limits.max_turns, policy, context)
}

/// A law of agents called as tools: the nested run's result, as the call
/// keeps it, holds the run context of the call's plan (its approvals, tool
/// input and scope) with the tokens the nested run used and its input.
pub proof fn law_kept_nested_result_holds_plan_context<C>(
    plan: NestedRunPlan<C>,
    context_value: Json,
    driver: RunDriver,
    result: RunResult,
)
    requires
        snapshot_view(driver.context) == context_snapshot_view(plan.context, context_value),
        snapshot_view(result.context_snapshot) == finished_snapshot(driver),
    ensures
        snapshot_view(result.context_snapshot).approvals == approvals_view(plan.context.approvals@),
        snapshot_view(result.context_snapshot).tool_input == opt_json_view(plan.context.tool_input),
        snapshot_view(result.context_snapshot).agent_tool_state_scope == opt_view(
            plan.context.agent_tool_state_scope,
        ),
        snapshot_view(result.context_snapshot).context == context_value,
        snapshot_view(result.context_snapshot).usage == responses_usage(driver.raw_responses@),
{
}

} // verus!
