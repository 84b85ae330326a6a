use agents_core::conversation::ModelResponse;
use agents_core::guardrails::{
    GuardrailFunctionOutput, InputGuardrailResult, ToolGuardrailFunctionOutput, ToolInputGuardrailResult,
};
use agents_core::items::{InputItem, OutputItem, RunItem};
use agents_core::json::{JsonMember, JsonValue};
use agents_core::replay::ReasoningItemIdPolicy;
use agents_core::session_input::{session_items_for_result, validate_session_conversation_settings};
use agents_core::stream_events::{result_to_stream_events, StreamEvent};
use agents_core::results::RunResult;
use agents_core::run_state::{to_input_list_mode, RunInterruptionKind, RunState, RunStateContextSnapshot, ToInputListMode};
use agents_core::usage::Usage;

fn obj(members: Vec<(&str, JsonValue)>) -> JsonValue {
    JsonValue::Object(members.into_iter().map(|(k, v)| JsonMember { key: k.to_owned(), value: v }).collect())
}

fn st(text: &str) -> JsonValue {
    JsonValue::String(text.to_owned())
}

fn found_output() -> RunItem {
    RunItem::ToolCallOutput {
        tool_name: "search".to_owned(),
        output: OutputItem::Text { text: "found".to_owned() },
        call_id: Some("call-1".to_owned()),
        namespace: None,
    }
}

#[test]
fn records_resume_items_and_approvals() {
    let mut state = RunState::new(RunStateContextSnapshot::empty(), vec![InputItem::from_text("start")], "router".to_owned(), 3);

    state.mark_turn_started();
    state.normalized_input = Some(vec![InputItem::from_text("normalized-start")]);
    state.push_generated_item(RunItem::Reasoning { text: "thinking".to_owned() });
    state.push_generated_item(found_output());
    state.approve("tool-1".to_owned(), Some("approved".to_owned()));
    state.reject("tool-2".to_owned(), Some("blocked".to_owned()));
    state.interrupt(
        RunInterruptionKind::ToolApproval,
        Some("tool-1".to_owned()),
        Some("search".to_owned()),
        Some("waiting".to_owned()),
    );

    let resume_input = state.resume_input();

    assert_eq!(state.current_turn, 1);
    assert_eq!(resume_input.len(), 3);
    assert_eq!(resume_input[0].as_text(), Some("normalized-start"));
    assert!(state.is_interrupted());
    assert_eq!(state.approval("tool-1").map(|record| record.approved), Some(true));
    assert_eq!(state.approval("tool-2").map(|record| record.approved), Some(false));
    assert!(!state.can_continue());
}

#[test]
fn resume_input_preserves_repeated_generated_items() {
    let mut state = RunState::new(RunStateContextSnapshot::empty(), vec![InputItem::from_text("done")], "router".to_owned(), 3);

    state.push_generated_item(RunItem::MessageOutput { content: OutputItem::Text { text: "done".to_owned() } });

    assert_eq!(state.resume_input(), vec![InputItem::from_text("done"), InputItem::from_text("done")]);
}

#[test]
fn records_guardrail_results() {
    let mut state = RunState::new(RunStateContextSnapshot::empty(), vec![], "router".to_owned(), 3);

    state.record_input_guardrail_result(InputGuardrailResult {
        guardrail_name: "input-check".to_owned(),
        output: GuardrailFunctionOutput::tripwire(Some(obj(vec![("blocked", JsonValue::Bool(true))]))),
    });
    state.record_tool_input_guardrail_result(ToolInputGuardrailResult {
        guardrail_name: "tool-input".to_owned(),
        output: ToolGuardrailFunctionOutput::reject_content(
            "blocked".to_owned(),
            Some(obj(vec![("tool", st("search"))])),
        ),
    });

    assert_eq!(state.input_guardrail_results.len(), 1);
    assert_eq!(state.tool_input_guardrail_results.len(), 1);
    assert_eq!(state.tool_input_guardrail_results[0].output.rejection_message(), Some("blocked"));
}

#[test]
fn new_run_state_names_its_agent_and_turn_budget() {
    let state = RunState::new(RunStateContextSnapshot::empty(), vec![InputItem::from_text("start")], "router".to_owned(), 12);
    assert_eq!(state.current_agent_name(), Some("router"));
    assert_eq!(state.max_turns, 12);
    assert_eq!(state.remaining_turns(), 12);
    assert!(state.can_continue());
    assert_eq!(state.schema_version, "1.6");
}

#[test]
fn turn_budget_stops_the_run() {
    let mut state = RunState::new(RunStateContextSnapshot::empty(), vec![], "router".to_owned(), 1);
    state.mark_turn_started();
    assert_eq!(state.remaining_turns(), 0);
    assert!(!state.can_continue());
    state.clear_interruption();
    assert!(!state.is_interrupted());
}

#[test]
fn converts_run_items_back_to_input() {
    let result = RunResult {
        input: vec![InputItem::from_text("start")],
        new_items: vec![RunItem::Reasoning { text: "thinking".to_owned() }, found_output()],
        reasoning_item_id_policy: ReasoningItemIdPolicy::Preserve,
        ..RunResult::default()
    };

    let replay = result.to_input_list();

    assert_eq!(replay.len(), 3);
    assert_eq!(replay[0].as_text(), Some("start"));
    assert_eq!(
        replay[1],
        InputItem::Json { value: obj(vec![("text", st("thinking")), ("type", st("reasoning"))]) }
    );
    assert_eq!(
        replay[2],
        InputItem::Json {
            value: obj(vec![
                ("call_id", st("call-1")),
                ("namespace", JsonValue::Null),
                ("output", obj(vec![("text", st("found")), ("type", st("text"))])),
                ("tool_name", st("search")),
                ("type", st("tool_call_output")),
            ]),
        }
    );
}

#[test]
fn exposes_durable_state() {
    let state = RunState::new(RunStateContextSnapshot::empty(), vec![InputItem::from_text("hello")], "assistant".to_owned(), 4);
    let result = RunResult { run_state: Some(state), ..RunResult::default() };

    assert!(result.durable_state().is_some());
}

#[test]
fn exposes_normalized_replay_separately_from_preserve_all_history() {
    let result = RunResult {
        input: vec![InputItem::from_text("start")],
        normalized_input: Some(vec![InputItem::from_text("normalized-start")]),
        new_items: vec![
            RunItem::MessageOutput { content: OutputItem::Text { text: "preserve".to_owned() } },
            RunItem::HandoffOutput { source_agent: "router".to_owned() },
        ],
        normalized_new_items: Some(vec![RunItem::MessageOutput {
            content: OutputItem::Text { text: "normalized".to_owned() },
        }]),
        reasoning_item_id_policy: ReasoningItemIdPolicy::Preserve,
        ..RunResult::default()
    };

    let preserve_all = result.to_input_list_mode(ToInputListMode::PreserveAll);
    let normalized = result.to_input_list_mode(ToInputListMode::Normalized);

    assert_eq!(preserve_all.len(), 3);
    assert_eq!(normalized.len(), 2);
    assert_eq!(normalized[0].as_text(), Some("normalized-start"));
    assert_eq!(normalized[1].as_text(), Some("normalized"));
}

#[test]
fn exposes_conversation_metadata_and_response_replay() {
    let result = RunResult {
        conversation_id: Some("conv_123".to_owned()),
        previous_response_id: Some("resp_123".to_owned()),
        reasoning_item_id_policy: ReasoningItemIdPolicy::Preserve,
        ..RunResult::default()
    };
    let response = ModelResponse {
        output: vec![OutputItem::Reasoning { text: "thinking".to_owned() }],
        model: Some("gpt-5".to_owned()),
        usage: Usage::default(),
        response_id: Some("resp_123".to_owned()),
        request_id: Some("req_123".to_owned()),
    };

    assert_eq!(result.conversation_id(), Some("conv_123"));
    assert_eq!(result.previous_response_id(), Some("resp_123"));
    assert_eq!(response.to_input_items().len(), 1);
}

#[test]
fn free_input_list_matches_run_result() {
    let input = vec![InputItem::from_text("start")];
    let new_items = vec![RunItem::Reasoning { text: "thinking".to_owned() }, found_output()];
    let replay = to_input_list_mode(
        &input,
        &None,
        &new_items,
        &None,
        ReasoningItemIdPolicy::Omit,
        ToInputListMode::PreserveAll,
    );
    assert_eq!(replay.len(), 2);
    assert_eq!(replay[0].as_text(), Some("start"));
}

#[test]
fn to_input_list_mode_defaults_to_preserve_all() {
    assert_eq!(ToInputListMode::default(), ToInputListMode::PreserveAll);
    assert_eq!(ReasoningItemIdPolicy::default(), ReasoningItemIdPolicy::Preserve);
}

#[test]
fn finished_run_replays_as_stream_events() {
    let events = result_to_stream_events(
        "router",
        "billing",
        &vec![JsonValue::Null],
        &vec![RunItem::Reasoning { text: "r".to_owned() }],
        &Some("billing".to_owned()),
        &Some("done".to_owned()),
    );
    let names: Vec<String> = events
        .iter()
        .map(|e| match e {
            StreamEvent::RawResponseEvent(r) => format!("raw:{}", r.event_name),
            StreamEvent::RunItemEvent(r) => format!("item:{}", r.name),
            StreamEvent::AgentUpdated(a) => format!("agent:{}", a.new_agent),
            StreamEvent::Lifecycle(l) => format!("life:{}", l.name),
        })
        .collect();
    assert_eq!(
        names,
        vec![
            "life:agent_start",
            "raw:model_response",
            "item:reasoning",
            "life:handoff",
            "agent:billing",
            "life:agent_end",
            "life:run_completed"
        ]
    );
    match &events[6] {
        StreamEvent::Lifecycle(l) => assert_eq!(
            l.data,
            Some(obj(vec![("agent_name", st("billing")), ("final_output", st("done"))]))
        ),
        _ => panic!("last event should be the completion"),
    }
    let same_agent = result_to_stream_events("a", "a", &vec![], &vec![], &Some("a".to_owned()), &None);
    assert_eq!(same_agent.len(), 3);
    let no_agent = result_to_stream_events("a", "a", &vec![], &vec![], &None, &None);
    assert_eq!(no_agent.len(), 2);
}

#[test]
fn session_persistence_refuses_server_conversations() {
    assert!(validate_session_conversation_settings(false, &None, &None, false).is_ok());
    assert!(validate_session_conversation_settings(true, &Some("c".to_owned()), &None, true).is_ok());
    match validate_session_conversation_settings(false, &None, &Some("r".to_owned()), false) {
        Err(agents_core::errors::AgentsError::User(e)) => assert_eq!(
            e.message,
            "Session persistence cannot be combined with conversation_id, previous_response_id, or auto_previous_response_id."
        ),
        _ => panic!("expected user error"),
    }
    let saved = session_items_for_result(&[InputItem::from_text("hello")], &[RunItem::Reasoning { text: "t".to_owned() }]);
    assert_eq!(saved.len(), 2);
    assert_eq!(saved[0].as_text(), Some("hello"));
}
