use agents_core::agent_behavior::{FunctionToolResult, StopAtTools, ToolUseBehavior, ToolsToFinalOutputResult};
use agents_core::agent_tool::{agent_tool_call_plan, finish_agent_tool_call, AgentToolCallOptions};
use agents_core::agent_tool_input::{NestedRunLimits, ResolvedToolInput};
use agents_core::agent_tool_state::AgentToolStateStore;
use agents_core::conversation::{ModelResponse, OpenAIServerConversationTracker};
use agents_core::errors::AgentsError;
use agents_core::guardrails::{
    check_output_guardrail_results, GuardrailFunctionOutput, InputGuardrailResult, OutputGuardrailResult,
};
use agents_core::items::{InputItem, OutputItem, RunItem};
use agents_core::json::{JsonMember, JsonValue};
use agents_core::model_settings::ModelSettings;
use agents_core::replay::ReasoningItemIdPolicy;
use agents_core::results::RunResult;
use agents_core::run_driver::{decide_turn, final_output_text_of, DriverAction, HookEvent, RunDriver, TurnStart};
use agents_core::run_flow::{
    continue_after_approval, echo_model_response, merge_resumed_result, model_call_plan, resume_pending_approval,
    resume_plan, ProviderChoice,
};
use agents_core::run_state::{ApprovalRecord, RunInterruption, RunInterruptionKind, RunState, RunStateContextSnapshot};
use agents_core::usage::Usage;
use agents_core::sandbox::{check_workspace_links, HostPathFacts, LinkProbe};
use agents_core::tool_context::{RunContextWrapper, ToolContext};

type Decide = fn(&[FunctionToolResult]) -> ToolsToFinalOutputResult;

fn text(t: &str) -> InputItem {
    InputItem::Text { text: t.to_owned() }
}

fn strings(v: &[&str]) -> Vec<String> {
    v.iter().map(|s| s.to_string()).collect()
}

fn tracker() -> OpenAIServerConversationTracker {
    OpenAIServerConversationTracker::new(None, None, false)
}

fn response(output: Vec<OutputItem>) -> ModelResponse {
    ModelResponse { model: None, output, usage: Usage::default(), response_id: None, request_id: None }
}

fn tool_call(id: &str, name: &str) -> OutputItem {
    OutputItem::ToolCall {
        call_id: id.to_owned(),
        tool_name: name.to_owned(),
        arguments: JsonValue::Object(Vec::new()),
        namespace: None,
    }
}

#[test]
fn echo_run_with_one_turn_finishes_with_the_input() {
    let mut driver = RunDriver::new("assistant".to_owned(), vec![text("hello")], vec![text("hello")], 1, ReasoningItemIdPolicy::Preserve, RunStateContextSnapshot::empty());
    assert!(matches!(driver.next_action(), DriverAction::RunInputGuardrails));
    assert!(driver.record_input_guardrails(Vec::new()).is_ok());
    let input = match driver.next_action() {
        DriverAction::CallModel { input } => input,
        _ => panic!("expected a model call"),
    };
    assert_eq!(input, vec![text("hello")]);
    driver.begin_model_call();
    let resp = echo_model_response(&None, &None, &input);
    driver.end_model_call();
    let items = match decide_turn("assistant", &Vec::new(), &strings(&["assistant"]), &resp.output).unwrap() {
        TurnStart::Answer { response_items } => response_items,
        _ => panic!("expected an answer"),
    };
    assert!(driver.record_answer(resp, items, Vec::new()).is_ok());
    assert!(matches!(driver.next_action(), DriverAction::Finish));
    assert_eq!(
        driver.hooks,
        vec![
            HookEvent::AgentStart { agent: "assistant".to_owned(), turn: 0 },
            HookEvent::LlmStart { agent: "assistant".to_owned() },
            HookEvent::LlmEnd { agent: "assistant".to_owned() },
            HookEvent::AgentEnd { agent: "assistant".to_owned(), output: Some("hello".to_owned()), turn: 1 },
        ]
    );
    let result = driver.finish(&tracker(), None);
    assert_eq!(result.final_output, Some("hello".to_owned()));
    assert_eq!(result.raw_responses.len(), 1);
    assert_eq!(result.new_items, vec![RunItem::MessageOutput { content: OutputItem::Text { text: "hello".to_owned() } }]);
    let state = result.durable_state().unwrap();
    assert_eq!(state.max_turns, 1);
    assert_eq!(state.current_turn, 1);
    assert_eq!(result.agent_name, "assistant");
    assert_eq!(result.last_agent(), Some("assistant"));
    assert!(result.normalized_new_items.is_none());
    assert!(state.normalized_input.is_none());
}

#[test]
fn tripped_input_guardrail_fails_before_any_model_call() {
    let mut driver = RunDriver::new("assistant".to_owned(), vec![text("hello")], vec![text("hello")], 3, ReasoningItemIdPolicy::Preserve, RunStateContextSnapshot::empty());
    let reports = vec![
        InputGuardrailResult { guardrail_name: "pass".to_owned(), output: GuardrailFunctionOutput::allow(None) },
        InputGuardrailResult { guardrail_name: "block".to_owned(), output: GuardrailFunctionOutput::tripwire(None) },
    ];
    match driver.record_input_guardrails(reports) {
        Err(AgentsError::InputGuardrailTripwire(t)) => assert_eq!(t.guardrail_name, "block"),
        _ => panic!("expected the input tripwire"),
    }
    assert!(driver.raw_responses.is_empty());
    assert!(matches!(driver.next_action(), DriverAction::RunInputGuardrails));
}

#[test]
fn run_without_turns_fails_with_the_turn_budget_error() {
    let mut driver = RunDriver::new("assistant".to_owned(), vec![text("hi")], vec![text("hi")], 0, ReasoningItemIdPolicy::Preserve, RunStateContextSnapshot::empty());
    assert!(driver.record_input_guardrails(Vec::new()).is_ok());
    match driver.next_action() {
        DriverAction::Fail { error: AgentsError::MaxTurnsExceeded(e) } => assert_eq!(
            e.message,
            "run for agent `assistant` exceeded max_turns (0) before producing a final output"
        ),
        _ => panic!("expected the turn budget error"),
    }
}

#[test]
fn tripped_output_guardrail_fails_the_answer() {
    let mut driver = RunDriver::new("assistant".to_owned(), vec![text("hi")], vec![text("hi")], 2, ReasoningItemIdPolicy::Preserve, RunStateContextSnapshot::empty());
    assert!(driver.record_input_guardrails(Vec::new()).is_ok());
    let resp = response(vec![OutputItem::Text { text: "answer".to_owned() }]);
    let reports = vec![OutputGuardrailResult {
        guardrail_name: "no_answers".to_owned(),
        agent_name: "assistant".to_owned(),
        agent_output: Vec::new(),
        output: GuardrailFunctionOutput::tripwire(None),
    }];
    match driver.record_answer(resp, Vec::new(), reports) {
        Err(AgentsError::OutputGuardrailTripwire(t)) => assert_eq!(t.guardrail_name, "no_answers"),
        _ => panic!("expected the output tripwire"),
    }
    assert!(driver.raw_responses.is_empty());
}

#[test]
fn output_guardrail_reports_pass_when_none_trips() {
    let reports = vec![OutputGuardrailResult {
        guardrail_name: "ok".to_owned(),
        agent_name: "a".to_owned(),
        agent_output: Vec::new(),
        output: GuardrailFunctionOutput::allow(None),
    }];
    assert_eq!(check_output_guardrail_results(reports).unwrap().len(), 1);
}

#[test]
fn handoff_decisions_check_targets_and_bindings() {
    let output = vec![OutputItem::Text { text: "routing".to_owned() }, OutputItem::Handoff { target_agent: "billing".to_owned() }];
    match decide_turn("triage", &strings(&["support"]), &strings(&["triage", "billing"]), &output) {
        Err(AgentsError::ModelBehavior(e)) => {
            assert_eq!(e.message, "model requested unknown handoff target `billing` from agent `triage`")
        }
        _ => panic!("expected an unknown handoff"),
    }
    match decide_turn("triage", &strings(&["billing"]), &strings(&["triage"]), &output) {
        Err(AgentsError::User(e)) => {
            assert_eq!(e.message, "handoff target `billing` is not bound to a runtime agent instance")
        }
        _ => panic!("expected an unbound handoff"),
    }
    match decide_turn("triage", &strings(&["billing"]), &strings(&["triage", "billing"]), &output).unwrap() {
        TurnStart::Handoff { target, step_items } => {
            assert_eq!(target, 1);
            assert_eq!(
                step_items,
                vec![
                    RunItem::MessageOutput { content: OutputItem::Text { text: "routing".to_owned() } },
                    RunItem::HandoffCall { target_agent: "billing".to_owned() },
                    RunItem::HandoffOutput { source_agent: "triage".to_owned() },
                ]
            );
        }
        _ => panic!("expected a handoff"),
    }
}

#[test]
fn handoff_moves_the_run_to_the_target_agent() {
    let mut driver = RunDriver::new("triage".to_owned(), vec![text("hi")], vec![text("hi")], 3, ReasoningItemIdPolicy::Preserve, RunStateContextSnapshot::empty());
    assert!(driver.record_input_guardrails(Vec::new()).is_ok());
    let output = vec![OutputItem::Handoff { target_agent: "billing".to_owned() }];
    let step_items = match decide_turn("triage", &strings(&["billing"]), &strings(&["triage", "billing"]), &output).unwrap() {
        TurnStart::Handoff { step_items, .. } => step_items,
        _ => panic!("expected a handoff"),
    };
    let data = driver.handoff_data(step_items);
    driver.record_handoff(response(output), "billing".to_owned(), data);
    assert_eq!(driver.current_agent, "billing");
    assert_eq!(
        driver.hooks[1..],
        [
            HookEvent::Handoff { from_agent: "triage".to_owned(), to_agent: "billing".to_owned() },
            HookEvent::AgentStart { agent: "billing".to_owned(), turn: 1 },
        ]
    );
    assert_eq!(driver.progress.turns, 1);
    assert_eq!(driver.raw_responses.len(), 1);
    assert!(matches!(driver.next_action(), DriverAction::CallModel { .. }));
}

#[test]
fn tool_calls_are_collected_in_order() {
    let output = vec![tool_call("c1", "lookup"), OutputItem::Text { text: "x".to_owned() }, tool_call("c2", "send")];
    match decide_turn("a", &Vec::new(), &strings(&["a"]), &output).unwrap() {
        TurnStart::RunTools { response_items, calls } => {
            assert_eq!(response_items.len(), 3);
            assert_eq!(calls, vec![tool_call("c1", "lookup"), tool_call("c2", "send")]);
        }
        _ => panic!("expected tool calls"),
    }
}

#[test]
fn stop_at_tools_matches_public_and_qualified_names_with_its_value() {
    let behavior: ToolUseBehavior<Decide> =
        ToolUseBehavior::StopAtTools(StopAtTools { stop_at_tool_names: strings(&["lookup_account", "billing.lookup_account"]) });
    let results = vec![FunctionToolResult {
        tool_name: "lookup_account".to_owned(),
        qualified_name: Some("billing.lookup_account".to_owned()),
        final_output_value: JsonValue::String("ok".to_owned()),
    }];
    let r = behavior.evaluate_results(&results).unwrap();
    assert!(r.is_final_output);
    assert_eq!(r.final_output, Some(JsonValue::String("ok".to_owned())));
}

#[test]
fn tools_final_value_ends_the_run() {
    let mut driver = RunDriver::new("a".to_owned(), vec![text("hi")], vec![text("hi")], 3, ReasoningItemIdPolicy::Preserve, RunStateContextSnapshot::empty());
    assert!(driver.record_input_guardrails(Vec::new()).is_ok());
    let tool_items = vec![RunItem::ToolCallOutput {
        tool_name: "lookup".to_owned(),
        output: OutputItem::Text { text: "ok".to_owned() },
        call_id: Some("c1".to_owned()),
        namespace: None,
    }];
    let evaluation = ToolsToFinalOutputResult::final_output(JsonValue::String("ok".to_owned()));
    driver.record_tools(response(vec![tool_call("c1", "lookup")]), Vec::new(), tool_items, Vec::new(), Vec::new(), Vec::new(), Some(evaluation));
    assert!(matches!(driver.next_action(), DriverAction::Finish));
    let result = driver.finish(&tracker(), None);
    assert_eq!(result.final_output, Some("ok".to_owned()));
    assert_eq!(result.output, vec![OutputItem::Text { text: "ok".to_owned() }]);
    assert_eq!(result.new_items.len(), 1);
}

#[test]
fn paused_tool_call_is_the_durable_state_step() {
    let mut driver = RunDriver::new("a".to_owned(), vec![text("hi")], vec![text("hi")], 3, ReasoningItemIdPolicy::Preserve, RunStateContextSnapshot::empty());
    assert!(driver.record_input_guardrails(Vec::new()).is_ok());
    let pause = RunInterruption {
        kind: Some(RunInterruptionKind::ToolApproval),
        call_id: Some("c1".to_owned()),
        tool_name: Some("lookup".to_owned()),
        reason: None,
    };
    driver.record_tools(response(vec![tool_call("c1", "lookup")]), Vec::new(), Vec::new(), vec![pause], Vec::new(), Vec::new(), None);
    assert!(matches!(driver.next_action(), DriverAction::Finish));
    let result = driver.finish(&tracker(), Some(&vec![text("hi"), text("again")]));
    assert!(result.final_output.is_none());
    assert_eq!(result.interruptions.len(), 1);
    let state = result.durable_state().unwrap();
    assert_eq!(state.current_step.as_ref().unwrap().call_id, Some("c1".to_owned()));
    assert_eq!(state.persisted_item_count, 2);
}

#[test]
fn tools_without_final_value_continue() {
    let mut driver = RunDriver::new("a".to_owned(), vec![text("hi")], vec![text("hi")], 3, ReasoningItemIdPolicy::Preserve, RunStateContextSnapshot::empty());
    assert!(driver.record_input_guardrails(Vec::new()).is_ok());
    driver.record_tools(response(Vec::new()), Vec::new(), Vec::new(), Vec::new(), Vec::new(), Vec::new(), Some(ToolsToFinalOutputResult::not_final()));
    assert!(matches!(driver.next_action(), DriverAction::CallModel { .. }));
}

#[test]
fn final_value_text_keeps_strings_and_writes_other_json() {
    assert_eq!(final_output_text_of(&JsonValue::String("plain".to_owned())), "plain");
    assert_eq!(final_output_text_of(&JsonValue::Bool(true)), "true");
}

fn paused_state() -> RunState {
    let mut state = RunState::new(RunStateContextSnapshot::empty(), vec![text("hi")], "a".to_owned(), 3);
    state.generated_items.push(RunItem::ToolCall {
        tool_name: "lookup".to_owned(),
        arguments: JsonValue::Object(Vec::new()),
        call_id: Some("c1".to_owned()),
        namespace: None,
    });
    state.current_step = Some(RunInterruption {
        kind: Some(RunInterruptionKind::ToolApproval),
        call_id: Some("c1".to_owned()),
        tool_name: Some("lookup".to_owned()),
        reason: None,
    });
    state
}

#[test]
fn pending_approval_resumes_only_with_a_decision() {
    let mut state = paused_state();
    match resume_pending_approval(&state) {
        Err(AgentsError::User(e)) => assert_eq!(e.message, "approval decision for `c1` is missing"),
        _ => panic!("expected a missing decision"),
    }
    state.approve("c1".to_owned(), None);
    let resumption = resume_pending_approval(&state).unwrap();
    assert_eq!(resumption.call_id, "c1");
    assert!(resumption.approval.approved);
    let mut other = paused_state();
    other.current_step = None;
    match resume_pending_approval(&other) {
        Err(AgentsError::User(e)) => {
            assert_eq!(e.message, "cannot resume a pending approval without an interruption record")
        }
        _ => panic!("expected a missing interruption"),
    }
    let mut unknown = paused_state();
    unknown.generated_items.clear();
    match resume_pending_approval(&unknown) {
        Err(AgentsError::ModelBehavior(e)) => assert_eq!(e.message, "cannot find pending tool call `c1` in run state"),
        _ => panic!("expected a missing call"),
    }
}

#[test]
fn approved_call_continues_the_state() {
    let mut state = paused_state();
    state.approve("c1".to_owned(), None);
    let resumption = resume_pending_approval(&state).unwrap();
    let new_items = vec![RunItem::ToolCallOutput {
        tool_name: "lookup".to_owned(),
        output: OutputItem::Text { text: "ok".to_owned() },
        call_id: Some("c1".to_owned()),
        namespace: None,
    }];
    assert!(continue_after_approval(&mut state, resumption, false, new_items, Vec::new(), Vec::new()).is_ok());
    assert!(state.current_step.is_none());
    assert_eq!(state.generated_items.len(), 2);
    assert_eq!(state.session_items.len(), 1);
    let mut again = paused_state();
    again.approve("c1".to_owned(), None);
    let resumption = resume_pending_approval(&again).unwrap();
    match continue_after_approval(&mut again, resumption, true, Vec::new(), Vec::new(), Vec::new()) {
        Err(AgentsError::User(e)) => assert_eq!(e.message, "resumed approval unexpectedly produced another interruption"),
        _ => panic!("expected a second pause to be refused"),
    }
}

#[test]
fn resume_plan_gives_the_remaining_turns() {
    let mut state = RunState::new(RunStateContextSnapshot::empty(), vec![text("hi")], "a".to_owned(), 3);
    state.current_turn = 1;
    let plan = resume_plan(&state).unwrap();
    assert_eq!(plan.agent, "a");
    assert_eq!(plan.max_turns, 2);
    assert_eq!(plan.input, vec![text("hi")]);
    state.current_turn = 3;
    match resume_plan(&state) {
        Err(AgentsError::MaxTurnsExceeded(e)) => assert_eq!(e.message, "cannot resume a run state that has exhausted max_turns"),
        _ => panic!("expected exhausted turns"),
    }
}

#[test]
fn model_call_plan_prefers_run_settings_and_providers() {
    let defaults: ModelSettings<u32> = ModelSettings::default();
    let mut agent_settings: ModelSettings<u32> = ModelSettings::default();
    agent_settings.temperature = Some(3);
    agent_settings.top_p = Some(9);
    let mut run_settings: ModelSettings<u32> = ModelSettings::default();
    run_settings.temperature = Some(5);
    let plan = model_call_plan(&Some("run-model".to_owned()), &Some("agent-model".to_owned()), &defaults, Some(&agent_settings), Some(&run_settings), false, true);
    assert_eq!(plan.model, Some("run-model".to_owned()));
    assert_eq!(plan.settings.temperature, Some(5));
    assert_eq!(plan.settings.top_p, Some(9));
    assert_eq!(plan.provider, ProviderChoice::RunConfig);
    let echo = model_call_plan(&None, &Some("agent-model".to_owned()), &defaults, None, None, false, false);
    assert_eq!(echo.model, Some("agent-model".to_owned()));
    assert_eq!(echo.provider, ProviderChoice::Echo);
}

fn call_options(include_input_schema: bool) -> AgentToolCallOptions {
    AgentToolCallOptions {
        include_input_schema,
        params_json_schema: JsonValue::Object(Vec::new()),
        has_input_builder: false,
        default_arguments: true,
        max_turns: Some(4),
        previous_response_id: None,
        conversation_id: Some("conv".to_owned()),
    }
}

fn input_params() -> JsonValue {
    JsonValue::Object(vec![JsonMember { key: "input".to_owned(), value: JsonValue::String("translate this".to_owned()) }])
}

#[test]
fn agent_tool_call_plan_starts_from_the_input_argument() {
    let params = input_params();
    let context = ToolContext::new(RunContextWrapper::new(7u32), "translator".to_owned(), "call-1".to_owned(), "{}".to_owned());
    let base = NestedRunLimits { max_turns: 10, previous_response_id: Some("prev".to_owned()), conversation_id: None };
    let plan = agent_tool_call_plan(&call_options(false), "spanish_agent", context, &base, &params, input_params(), None);
    assert_eq!(plan.input, vec![text("translate this")]);
    assert_eq!(plan.limits.max_turns, 4);
    assert_eq!(plan.limits.previous_response_id, Some("prev".to_owned()));
    assert_eq!(plan.limits.conversation_id, Some("conv".to_owned()));
    assert_eq!(plan.context.context, 7);
    assert!(plan.context.tool_input.is_none());
    assert_eq!(plan.invocation.tool_name, "translator");
    assert_eq!(plan.invocation.tool_call_id, Some("call-1".to_owned()));
    assert_eq!(plan.invocation.tool_arguments, Some("{\"input\":\"translate this\"}".to_owned()));
    assert_eq!(plan.invocation.qualified_name, Some("translator".to_owned()));
    assert_eq!(plan.invocation.agent_name, Some("spanish_agent".to_owned()));
}

#[test]
fn agent_tool_call_plan_uses_the_built_input_and_captures_it() {
    let params = JsonValue::Object(Vec::new());
    let context = ToolContext::new(RunContextWrapper::new(0u32), "t".to_owned(), "c".to_owned(), "{}".to_owned());
    let base = NestedRunLimits { max_turns: 10, previous_response_id: None, conversation_id: None };
    let plan = agent_tool_call_plan(
        &call_options(true),
        "agent",
        context,
        &base,
        &params,
        JsonValue::Object(Vec::new()),
        Some(ResolvedToolInput::Text("built".to_owned())),
    );
    assert_eq!(plan.input, vec![text("built")]);
    assert_eq!(plan.context.tool_input, Some(JsonValue::Object(Vec::new())));
}

#[test]
fn finished_agent_tool_call_keeps_its_result_and_answers() {
    let mut store: AgentToolStateStore<RunResult> = AgentToolStateStore::new();
    let mut result = RunResult::default();
    result.final_output = Some("done".to_owned());
    let answer = finish_agent_tool_call(&mut store, "call-1".to_owned(), None, Ok(result), None, None).unwrap();
    assert_eq!(answer, "done");
    let kept = store.peek_agent_tool_run_result("call-1", &None).unwrap();
    assert_eq!(kept.final_output, Some("done".to_owned()));
    let custom = finish_agent_tool_call(&mut store, "call-2".to_owned(), None, Ok(RunResult::default()), Some("custom".to_owned()), None).unwrap();
    assert_eq!(custom, "custom");
}

#[test]
fn failed_agent_tool_call_answers_with_the_formatted_message_or_fails() {
    let mut store: AgentToolStateStore<RunResult> = AgentToolStateStore::new();
    let answer = finish_agent_tool_call(&mut store, "c".to_owned(), None, Err(AgentsError::message("boom".to_owned())), None, Some("tool failed".to_owned()));
    assert_eq!(answer.unwrap(), "tool failed");
    assert!(store.peek_agent_tool_run_result("c", &None).is_none());
    let failed = finish_agent_tool_call(&mut store, "c".to_owned(), None, Err(AgentsError::message("boom".to_owned())), None, None);
    assert!(failed.is_err());
}

fn facts(probes: Vec<LinkProbe>, candidate: Option<Result<String, String>>) -> HostPathFacts {
    HostPathFacts { workspace_real: Ok("/work".to_owned()), probes, candidate }
}

fn refused_outside(result: Result<(), AgentsError>) -> bool {
    matches!(result, Err(AgentsError::Message { message }) if message == "path must stay within the sandbox workspace")
}

#[test]
fn links_inside_the_workspace_are_accepted() {
    let host = facts(vec![LinkProbe::Plain, LinkProbe::Link { resolved: Ok("/work/data".to_owned()) }, LinkProbe::Missing], None);
    assert!(check_workspace_links(&host).is_ok());
    let existing = facts(vec![LinkProbe::Plain], Some(Ok("/work/notes.txt".to_owned())));
    assert!(check_workspace_links(&existing).is_ok());
}

#[test]
fn link_leading_outside_the_workspace_is_refused() {
    let host = facts(vec![LinkProbe::Link { resolved: Ok("/etc".to_owned()) }, LinkProbe::Plain], Some(Ok("/etc/passwd".to_owned())));
    assert!(refused_outside(check_workspace_links(&host)));
    let prefix_only = facts(vec![LinkProbe::Link { resolved: Ok("/workspace2".to_owned()) }], None);
    assert!(refused_outside(check_workspace_links(&prefix_only)));
    let candidate = facts(vec![LinkProbe::Plain], Some(Ok("/other/file".to_owned())));
    assert!(refused_outside(check_workspace_links(&candidate)));
}

#[test]
fn host_errors_refuse_the_path_with_their_text() {
    let host = facts(vec![LinkProbe::Failed { message: "permission denied".to_owned() }], None);
    assert!(matches!(check_workspace_links(&host), Err(AgentsError::Message { message }) if message == "permission denied"));
    let root = HostPathFacts { workspace_real: Err("no such directory".to_owned()), probes: Vec::new(), candidate: None };
    assert!(matches!(check_workspace_links(&root), Err(AgentsError::Message { message }) if message == "no such directory"));
    let missing_stops = facts(vec![LinkProbe::Missing, LinkProbe::Failed { message: "late".to_owned() }], None);
    assert!(check_workspace_links(&missing_stops).is_ok());
}

#[test]
fn resumed_result_follows_the_state_it_resumed_from() {
    let mut state = RunState::new(RunStateContextSnapshot::empty(), vec![text("hi")], "a".to_owned(), 4);
    state.current_turn = 1;
    state.model_responses.push(response(vec![OutputItem::Text { text: "first".to_owned() }]));
    state.session_items.push(RunItem::MessageOutput { content: OutputItem::Text { text: "first".to_owned() } });
    state.generated_items.push(RunItem::MessageOutput { content: OutputItem::Text { text: "first".to_owned() } });
    let mut driver = RunDriver::new("a".to_owned(), vec![text("hi")], vec![text("hi")], 3, ReasoningItemIdPolicy::Preserve, RunStateContextSnapshot::empty());
    assert!(driver.record_input_guardrails(Vec::new()).is_ok());
    let resp = response(vec![OutputItem::Text { text: "second".to_owned() }]);
    let items = vec![RunItem::MessageOutput { content: OutputItem::Text { text: "second".to_owned() } }];
    assert!(driver.record_answer(resp, items, Vec::new()).is_ok());
    let resumed = driver.finish(&tracker(), None);
    let merged = merge_resumed_result(&state, resumed);
    assert_eq!(merged.raw_responses.len(), 2);
    assert_eq!(merged.new_items.len(), 2);
    assert!(merged.normalized_new_items.is_none());
    assert_eq!(merged.input, vec![text("hi")]);
    assert_eq!(merged.final_output, Some("second".to_owned()));
    let merged_state = merged.durable_state().unwrap();
    assert_eq!(merged_state.current_turn, 2);
    assert_eq!(merged_state.generated_items.len(), 2);
}
