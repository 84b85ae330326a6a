use agents_core::agent_tool::{agent_tool_call_plan, finish_agent_tool_call, nested_run_driver, AgentToolCallOptions};
use agents_core::agent_tool_input::NestedRunLimits;
use agents_core::agent_tool_state::AgentToolStateStore;
use agents_core::conversation::{ModelResponse, OpenAIServerConversationTracker};
use agents_core::errors::AgentsError;
use agents_core::guardrails::{
    check_tool_input_guardrail_results, check_tool_output_guardrail_results, ToolGuardVerdict,
    ToolGuardrailFunctionOutput, ToolInputGuardrailResult, ToolOutputGuardrailResult,
};
use agents_core::items::{InputItem, OutputItem, RunItem};
use agents_core::json::{JsonMember, JsonValue};
use agents_core::ordered::StrMap;
use agents_core::replay::ReasoningItemIdPolicy;
use agents_core::repl::{demo_loop_step, DemoStep};
use agents_core::results::RunResult;
use agents_core::run_driver::{
    decide_turn, tool_call_gate, DriverAction, HookEvent, RunDriver, ToolCallGate, TurnStart,
};
use agents_core::run_flow::{echo_model_response, merge_run_states};
use agents_core::run_state::{ApprovalRecord, RunContext, RunInterruptionKind, RunState, RunStateContextSnapshot};
use agents_core::tool_context::{RunContextWrapper, ToolContext};
use agents_core::usage::{merge_usage, Usage};

fn text(t: &str) -> InputItem {
    InputItem::Text { text: t.to_owned() }
}

fn tracker() -> OpenAIServerConversationTracker {
    OpenAIServerConversationTracker::new(None, None, false)
}

fn obj(members: Vec<(&str, JsonValue)>) -> JsonValue {
    JsonValue::Object(members.into_iter().map(|(k, v)| JsonMember { key: k.to_owned(), value: v }).collect())
}

fn search_call(id: &str) -> OutputItem {
    OutputItem::ToolCall {
        call_id: id.to_owned(),
        tool_name: "search".to_owned(),
        arguments: obj(vec![("query", JsonValue::String("rust".to_owned()))]),
        namespace: None,
    }
}

fn started(max_turns: usize) -> RunDriver {
    let mut driver = RunDriver::new(
        "assistant".to_owned(),
        vec![text("hello")],
        vec![text("hello")],
        max_turns,
        ReasoningItemIdPolicy::Preserve,
        RunStateContextSnapshot::empty(),
    );
    assert!(driver.record_input_guardrails(Vec::new()).is_ok());
    driver
}

fn search_output(id: &str) -> RunItem {
    RunItem::ToolCallOutput {
        tool_name: "search".to_owned(),
        output: OutputItem::Text { text: "result:rust".to_owned() },
        call_id: Some(id.to_owned()),
        namespace: None,
    }
}

#[test]
fn echo_response_uses_no_tokens() {
    let response = echo_model_response(&None, &None, &vec![text("hi")]);
    assert_eq!(response.usage, Usage::default());
    assert_eq!(response.usage, Usage { input_tokens: 0, output_tokens: 0 });
}

#[test]
fn usage_adds_up_and_holds_at_the_largest_count() {
    let total = merge_usage(Usage { input_tokens: 10, output_tokens: 5 }, Usage { input_tokens: 12, output_tokens: 6 });
    assert_eq!(total, Usage { input_tokens: 22, output_tokens: 11 });
    let full = merge_usage(Usage { input_tokens: u64::MAX, output_tokens: 1 }, Usage { input_tokens: 1, output_tokens: 1 });
    assert_eq!(full, Usage { input_tokens: u64::MAX, output_tokens: 2 });
}

#[test]
fn runner_executes_local_function_tools() {
    let mut driver = started(10);
    driver.begin_model_call();
    let first = ModelResponse {
        model: None,
        output: vec![OutputItem::Reasoning { text: "thinking".to_owned() }, search_call("call-1")],
        usage: Usage { input_tokens: 10, output_tokens: 5 },
        response_id: Some("resp-1".to_owned()),
        request_id: Some("req-1".to_owned()),
    };
    driver.end_model_call();
    let (response_items, calls) = match decide_turn("assistant", &Vec::new(), &vec!["assistant".to_owned()], &first.output).unwrap() {
        TurnStart::RunTools { response_items, calls } => (response_items, calls),
        _ => panic!("expected tool calls"),
    };
    assert_eq!(calls.len(), 1);
    driver.begin_tool_call("search");
    driver.end_tool_call("search", "result:rust");
    driver.record_tools(first, response_items, vec![search_output("call-1")], Vec::new(), Vec::new(), Vec::new(), None);
    driver.begin_model_call();
    let second = ModelResponse {
        model: None,
        output: vec![OutputItem::Text { text: "final:result:rust".to_owned() }],
        usage: Usage { input_tokens: 12, output_tokens: 6 },
        response_id: Some("resp-2".to_owned()),
        request_id: Some("req-2".to_owned()),
    };
    driver.end_model_call();
    let items = match decide_turn("assistant", &Vec::new(), &vec!["assistant".to_owned()], &second.output).unwrap() {
        TurnStart::Answer { response_items } => response_items,
        _ => panic!("expected an answer"),
    };
    assert!(driver.record_answer(second, items, Vec::new()).is_ok());
    assert_eq!(
        driver.hooks,
        vec![
            HookEvent::AgentStart { agent: "assistant".to_owned(), turn: 0 },
            HookEvent::LlmStart { agent: "assistant".to_owned() },
            HookEvent::LlmEnd { agent: "assistant".to_owned() },
            HookEvent::ToolStart { agent: "assistant".to_owned(), tool_name: "search".to_owned() },
            HookEvent::ToolEnd {
                agent: "assistant".to_owned(),
                tool_name: "search".to_owned(),
                result: "result:rust".to_owned(),
            },
            HookEvent::LlmStart { agent: "assistant".to_owned() },
            HookEvent::LlmEnd { agent: "assistant".to_owned() },
            HookEvent::AgentEnd {
                agent: "assistant".to_owned(),
                output: Some("final:result:rust".to_owned()),
                turn: 2,
            },
        ]
    );
    let result = driver.finish(&tracker(), None);
    assert_eq!(result.final_output, Some("final:result:rust".to_owned()));
    assert_eq!(result.raw_responses.len(), 2);
    assert!(result.new_items.contains(&search_output("call-1")));
    assert_eq!(result.usage.input_tokens, 22);
    assert_eq!(result.usage.output_tokens, 11);
    assert_eq!(result.context_snapshot.usage, Usage { input_tokens: 22, output_tokens: 11 });
    assert_eq!(result.durable_state().unwrap().context_snapshot.turn_input, vec![text("hello")]);
}

#[test]
fn runner_uses_max_turn_handler_for_terminal_output() {
    let mut driver = started(2);
    for turn in 0..2 {
        let response = ModelResponse {
            model: None,
            output: vec![search_call(&format!("call-{turn}"))],
            usage: Usage::default(),
            response_id: None,
            request_id: None,
        };
        let items = match decide_turn("assistant", &Vec::new(), &vec!["assistant".to_owned()], &response.output).unwrap() {
            TurnStart::RunTools { response_items, .. } => response_items,
            _ => panic!("expected tool calls"),
        };
        driver.record_tools(response, items, vec![search_output(&format!("call-{turn}"))], Vec::new(), Vec::new(), Vec::new(), None);
    }
    assert!(matches!(driver.next_action(), DriverAction::Fail { .. }));
    let data = driver.max_turns_error_data();
    assert_eq!(data.last_agent, "assistant");
    assert_eq!(data.input, vec![text("hello")]);
    assert_eq!(data.raw_responses.len(), 2);
    let value = obj(vec![("status", JsonValue::String("max_turns".to_owned())), ("turns", JsonValue::Number("2".to_owned()))]);
    assert!(driver.record_max_turns_outcome(Some((value, true))).is_ok());
    assert!(matches!(driver.next_action(), DriverAction::Finish));
    let result = driver.finish(&tracker(), None);
    assert!(result.final_output.as_deref().is_some_and(|v| v.contains("max_turns")));
    assert!(result.output.iter().any(|item| matches!(item, OutputItem::Json { .. })));
    assert!(matches!(result.new_items.last(), Some(RunItem::MessageOutput { content: OutputItem::Json { .. } })));
}

#[test]
fn max_turns_without_handler_fails() {
    let mut driver = started(0);
    match driver.record_max_turns_outcome(None) {
        Err(AgentsError::MaxTurnsExceeded(e)) => assert_eq!(
            e.message,
            "run for agent `assistant` exceeded max_turns (0) before producing a final output"
        ),
        _ => panic!("expected the turn budget error"),
    }
}

#[test]
fn runner_uses_session_history_and_persists_new_turn() {
    let mut driver = RunDriver::new(
        "assistant".to_owned(),
        vec![text("hello")],
        vec![text("history"), text("hello")],
        10,
        ReasoningItemIdPolicy::Preserve,
        RunStateContextSnapshot::empty(),
    );
    assert!(driver.record_input_guardrails(Vec::new()).is_ok());
    let input = match driver.next_action() {
        DriverAction::CallModel { input } => input,
        _ => panic!("expected a model call"),
    };
    assert_eq!(input, vec![text("history"), text("hello")]);
    let response = ModelResponse {
        model: None,
        output: vec![OutputItem::Text { text: "session-ok".to_owned() }],
        usage: Usage::default(),
        response_id: None,
        request_id: None,
    };
    let items = match decide_turn("assistant", &Vec::new(), &vec!["assistant".to_owned()], &response.output).unwrap() {
        TurnStart::Answer { response_items } => response_items,
        _ => panic!("expected an answer"),
    };
    assert!(driver.record_answer(response, items, Vec::new()).is_ok());
    let session_input = vec![text("hello")];
    assert_eq!(driver.session_save_items(&session_input), vec![text("hello"), text("session-ok")]);
    let result = driver.finish(&tracker(), Some(&session_input));
    assert_eq!(result.final_output, Some("session-ok".to_owned()));
    assert_eq!(result.durable_state().unwrap().persisted_item_count, 2);
}

#[test]
fn agent_as_tool_records_nested_run_result_with_scope() {
    let mut outer = RunContextWrapper::new(RunContext { conversation_id: None, workflow_name: None });
    outer.agent_tool_state_scope = Some("scope-a".to_owned());
    outer.approvals.insert("call-123".to_owned(), ApprovalRecord { approved: true, reason: None, tool_name: None });
    outer.tool_input = Some(obj(vec![("stale", JsonValue::Bool(true))]));
    let context = ToolContext::new(outer, "assistant_tool".to_owned(), "call-123".to_owned(), "{}".to_owned());
    let params = obj(vec![("input", JsonValue::String("hello".to_owned()))]);
    let options = AgentToolCallOptions {
        include_input_schema: false,
        params_json_schema: JsonValue::Object(Vec::new()),
        has_input_builder: false,
        default_arguments: true,
        max_turns: None,
        previous_response_id: None,
        conversation_id: None,
    };
    let base = NestedRunLimits { max_turns: 10, previous_response_id: None, conversation_id: None };
    let plan = agent_tool_call_plan(&options, "assistant", context, &base, &params, obj(vec![("input", JsonValue::String("hello".to_owned()))]), None);
    let mut driver = nested_run_driver(&plan, "assistant".to_owned(), JsonValue::Null, ReasoningItemIdPolicy::Preserve);
    assert!(driver.record_input_guardrails(Vec::new()).is_ok());
    let input = match driver.next_action() {
        DriverAction::CallModel { input } => input,
        _ => panic!("expected a model call"),
    };
    let response = echo_model_response(&None, &None, &input);
    let items = match decide_turn("assistant", &Vec::new(), &vec!["assistant".to_owned()], &response.output).unwrap() {
        TurnStart::Answer { response_items } => response_items,
        _ => panic!("expected an answer"),
    };
    assert!(driver.record_answer(response, items, Vec::new()).is_ok());
    let result = driver.finish(&tracker(), None);
    let mut store: AgentToolStateStore<RunResult> = AgentToolStateStore::new();
    let answer = finish_agent_tool_call(&mut store, "call-123".to_owned(), plan.context.agent_tool_state_scope.clone(), Ok(result), None, None);
    assert_eq!(answer.unwrap(), "hello");
    let kept = store.peek_agent_tool_run_result("call-123", &Some("scope-a".to_owned())).unwrap();
    assert_eq!(kept.final_output, Some("hello".to_owned()));
    assert_eq!(kept.context_snapshot.agent_tool_state_scope, Some("scope-a".to_owned()));
    assert_eq!(kept.context_snapshot.approvals.len(), 0);
    assert!(kept.context_snapshot.tool_input.is_none());
}

#[test]
fn snapshots_and_restores_context() {
    let mut context = RunContextWrapper::new(RunContext {
        conversation_id: Some("conv-1".to_owned()),
        workflow_name: Some("Workflow".to_owned()),
    });
    context.turn_input = vec![text("hello")];
    context.tool_input = Some(obj(vec![("query", JsonValue::String("rust".to_owned()))]));
    context.agent_tool_state_scope = Some("scope-1".to_owned());
    context.usage = Usage { input_tokens: 10, output_tokens: 4 };
    let value = obj(vec![
        ("conversation_id", JsonValue::String("conv-1".to_owned())),
        ("workflow_name", JsonValue::String("Workflow".to_owned())),
    ]);
    let state = RunState::new(RunStateContextSnapshot::of(&context, value), vec![text("start")], "router".to_owned(), 12);
    let conversation_id = match &state.context_snapshot.context {
        JsonValue::Object(members) => members.iter().find(|m| m.key == "conversation_id").and_then(|m| match &m.value {
            JsonValue::String(s) => Some(s.clone()),
            _ => None,
        }),
        _ => None,
    };
    let restored = state.restore_context(RunContext { conversation_id, workflow_name: None });
    assert_eq!(state.current_agent_name(), Some("router"));
    assert_eq!(state.max_turns, 12);
    assert_eq!(restored.context.conversation_id.as_deref(), Some("conv-1"));
    assert_eq!(restored.tool_input, Some(obj(vec![("query", JsonValue::String("rust".to_owned()))])));
    assert_eq!(restored.agent_tool_state_scope.as_deref(), Some("scope-1"));
    assert_eq!(restored.usage, Usage { input_tokens: 10, output_tokens: 4 });
}

#[test]
fn merged_states_join_their_run_contexts() {
    let mut previous_context = RunContextWrapper::new(0u8);
    previous_context.usage = Usage { input_tokens: 3, output_tokens: 1 };
    previous_context.agent_tool_state_scope = Some("outer".to_owned());
    previous_context.approvals.insert("a".to_owned(), ApprovalRecord { approved: true, reason: None, tool_name: None });
    let mut next_context = RunContextWrapper::new(0u8);
    next_context.usage = Usage { input_tokens: 4, output_tokens: 2 };
    next_context.tool_input = Some(JsonValue::Bool(true));
    next_context.agent_tool_state_scope = Some("inner".to_owned());
    next_context.approvals.insert("b".to_owned(), ApprovalRecord { approved: false, reason: None, tool_name: None });
    let previous = RunState::new(RunStateContextSnapshot::of(&previous_context, JsonValue::Null), vec![text("a")], "x".to_owned(), 5);
    let mut next = RunState::new(RunStateContextSnapshot::of(&next_context, JsonValue::Null), vec![text("b")], "x".to_owned(), 5);
    merge_run_states(&previous, &mut next);
    assert_eq!(next.context_snapshot.usage, Usage { input_tokens: 7, output_tokens: 3 });
    assert_eq!(next.context_snapshot.agent_tool_state_scope, Some("outer".to_owned()));
    assert_eq!(next.context_snapshot.tool_input, Some(JsonValue::Bool(true)));
    assert_eq!(next.context_snapshot.approvals.len(), 2);
}

#[test]
fn tools_needing_approval_pause_until_decided() {
    let mut approvals: StrMap<ApprovalRecord> = StrMap::new();
    assert!(matches!(tool_call_gate("call-1", "search", false, &approvals), ToolCallGate::Run));
    match tool_call_gate("call-1", "search", true, &approvals) {
        ToolCallGate::Pause { interruption } => {
            assert_eq!(interruption.kind, Some(RunInterruptionKind::ToolApproval));
            assert_eq!(interruption.call_id, Some("call-1".to_owned()));
            assert_eq!(interruption.tool_name, Some("search".to_owned()));
        }
        _ => panic!("expected a pause"),
    }
    approvals.insert("call-1".to_owned(), ApprovalRecord { approved: true, reason: None, tool_name: None });
    assert!(matches!(tool_call_gate("call-1", "search", true, &approvals), ToolCallGate::Run));
    approvals.insert("call-2".to_owned(), ApprovalRecord { approved: false, reason: Some("no".to_owned()), tool_name: None });
    assert!(matches!(tool_call_gate("call-2", "search", true, &approvals), ToolCallGate::Rejected { .. }));
}

#[test]
fn tool_guardrails_replace_content_or_fail_the_run() {
    let sanitize = vec![ToolInputGuardrailResult {
        guardrail_name: "sanitize".to_owned(),
        output: ToolGuardrailFunctionOutput::reject_content("guarded:search".to_owned(), None),
    }];
    match check_tool_input_guardrail_results(sanitize).unwrap() {
        (kept, ToolGuardVerdict::Replace { message }) => {
            assert_eq!(message, "guarded:search");
            assert_eq!(kept.len(), 1);
        }
        _ => panic!("expected replaced content"),
    }
    let explode = vec![
        ToolOutputGuardrailResult { guardrail_name: "ok".to_owned(), output: ToolGuardrailFunctionOutput::allow(None) },
        ToolOutputGuardrailResult {
            guardrail_name: "explode".to_owned(),
            output: ToolGuardrailFunctionOutput::raise_exception(Some(obj(vec![("guardrail", JsonValue::String("explode".to_owned()))]))),
        },
    ];
    match check_tool_output_guardrail_results(explode) {
        Err(AgentsError::ToolOutputGuardrailTripwire(e)) => {
            assert_eq!(e.guardrail_name, "explode");
            assert_eq!(e.output.output_info, Some(obj(vec![("guardrail", JsonValue::String("explode".to_owned()))])));
        }
        _ => panic!("expected the tool output tripwire"),
    }
    let allowed = vec![ToolInputGuardrailResult { guardrail_name: "ok".to_owned(), output: ToolGuardrailFunctionOutput::allow(None) }];
    assert!(matches!(check_tool_input_guardrail_results(allowed), Ok((_, ToolGuardVerdict::Proceed))));
}

#[test]
fn demo_loop_leaves_skips_or_adds_the_line() {
    assert!(matches!(demo_loop_step("Quit  \n", Vec::new()), DemoStep::Exit));
    assert!(matches!(demo_loop_step("EXIT", Vec::new()), DemoStep::Exit));
    match demo_loop_step("   \n", vec![text("kept")]) {
        DemoStep::Skip { input_items } => assert_eq!(input_items, vec![text("kept")]),
        _ => panic!("expected a skipped line"),
    }
    match demo_loop_step("  hi there \n", Vec::new()) {
        DemoStep::Run { input_items } => assert_eq!(
            input_items,
            vec![InputItem::Json {
                value: obj(vec![
                    ("content", JsonValue::String("  hi there".to_owned())),
                    ("role", JsonValue::String("user".to_owned())),
                ]),
            }]
        ),
        _ => panic!("expected a run"),
    }
    assert!(matches!(demo_loop_step("exits", Vec::new()), DemoStep::Run { .. }));
}
