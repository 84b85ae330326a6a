use agents_core::agent_tool_input::{resolve_agent_tool_input, ResolvedToolInput, StructuredInputSchemaInfo};
use agents_core::agent_tool_state::AgentToolStateStore;
use agents_core::handoff_history::{
    get_conversation_history_wrappers, nest_handoff_history, nest_handoff_history_with_mapper,
    reset_conversation_history_wrappers, set_conversation_history_wrappers, HandoffInputData,
    HistoryWrappers, DEFAULT_CONVERSATION_HISTORY_END, DEFAULT_CONVERSATION_HISTORY_START,
};
use agents_core::items::{InputItem, OutputItem, RunItem};
use agents_core::json::{JsonMember, JsonValue};
use agents_core::json_map::JsonMap;
use agents_core::mcp::{resolve_mcp_tool_description_for_model, resolve_mcp_tool_title};
use agents_core::model_settings::{ModelSettings, ReasoningSettings};
use agents_core::tool_use_tracker::AgentToolUseTracker;

fn text(value: &str) -> JsonValue {
    JsonValue::String(value.to_owned())
}

fn number(value: &str) -> JsonValue {
    JsonValue::Number(value.to_owned())
}

fn object(members: Vec<(&str, JsonValue)>) -> JsonValue {
    JsonValue::Object(
        members
            .into_iter()
            .map(|(key, value)| JsonMember { key: key.to_owned(), value })
            .collect(),
    )
}

fn map_of(key: &str, value: JsonValue) -> JsonMap {
    let mut map = JsonMap::new();
    map.insert(key.to_owned(), value);
    map
}

#[test]
fn overlays_non_empty_model_settings() {
    let base = ModelSettings::<f64> {
        temperature: Some(0.2),
        top_p: Some(0.9),
        max_output_tokens: Some(128),
        frequency_penalty: Some(0.1),
        presence_penalty: Some(0.3),
        tool_choice: Some("auto".to_owned()),
        parallel_tool_calls: Some(false),
        truncation: Some("auto".to_owned()),
        store: Some(false),
        include_usage: Some(false),
        response_include: vec!["reasoning".to_owned()],
        top_logprobs: Some(3),
        reasoning: Some(ReasoningSettings { effort: Some("low".to_owned()), summary: None }),
        verbosity: Some("medium".to_owned()),
        metadata: map_of("tier", text("base")),
        extra_query: map_of("route", text("slow")),
        extra_body: map_of("store", JsonValue::Bool(false)),
        extra_headers: map_of("x-base", text("1")),
        extra_args: map_of("timeout", number("10")),
    };
    let override_settings = ModelSettings::<f64> {
        temperature: Some(0.8),
        top_p: None,
        max_output_tokens: Some(256),
        frequency_penalty: None,
        presence_penalty: Some(0.6),
        tool_choice: Some("required".to_owned()),
        parallel_tool_calls: Some(true),
        truncation: Some("disabled".to_owned()),
        store: Some(true),
        include_usage: Some(true),
        response_include: vec!["file_search_call.results".to_owned()],
        top_logprobs: Some(5),
        reasoning: Some(ReasoningSettings {
            effort: Some("medium".to_owned()),
            summary: Some("auto".to_owned()),
        }),
        verbosity: Some("low".to_owned()),
        metadata: map_of("route", text("fast")),
        extra_query: map_of("region", text("us")),
        extra_body: map_of("parallel_tool_calls", JsonValue::Bool(true)),
        extra_headers: map_of("x-route", text("fast")),
        extra_args: map_of("retry", number("2")),
    };

    let resolved = base.resolve(Some(&override_settings));

    assert_eq!(resolved.temperature, Some(0.8));
    assert_eq!(resolved.top_p, Some(0.9));
    assert_eq!(resolved.max_output_tokens, Some(256));
    assert_eq!(resolved.frequency_penalty, Some(0.1));
    assert_eq!(resolved.presence_penalty, Some(0.6));
    assert_eq!(resolved.tool_choice.as_deref(), Some("required"));
    assert_eq!(resolved.parallel_tool_calls, Some(true));
    assert_eq!(resolved.truncation.as_deref(), Some("disabled"));
    assert_eq!(resolved.store, Some(true));
    assert_eq!(resolved.include_usage, Some(true));
    assert_eq!(resolved.response_include, vec!["file_search_call.results".to_owned()]);
    assert_eq!(resolved.top_logprobs, Some(5));
    assert_eq!(
        resolved.reasoning.as_ref().and_then(|value| value.effort.as_deref()),
        Some("medium")
    );
    assert_eq!(resolved.verbosity.as_deref(), Some("low"));
    assert_eq!(resolved.metadata.get("tier"), Some(&text("base")));
    assert_eq!(resolved.metadata.get("route"), Some(&text("fast")));
    assert_eq!(resolved.extra_query.get("route"), Some(&text("slow")));
    assert_eq!(resolved.extra_query.get("region"), Some(&text("us")));
    assert_eq!(resolved.extra_body.get("store"), Some(&JsonValue::Bool(false)));
    assert_eq!(resolved.extra_body.get("parallel_tool_calls"), Some(&JsonValue::Bool(true)));
    assert_eq!(resolved.extra_headers.get("x-base"), Some(&text("1")));
    assert_eq!(resolved.extra_headers.get("x-route"), Some(&text("fast")));
    assert_eq!(resolved.extra_args.get("timeout"), Some(&number("10")));
    assert_eq!(resolved.extra_args.get("retry"), Some(&number("2")));
}

#[test]
fn resolving_without_override_keeps_the_base() {
    let mut base = ModelSettings::<f64> {
        temperature: Some(0.5),
        top_p: None,
        max_output_tokens: None,
        frequency_penalty: None,
        presence_penalty: None,
        tool_choice: None,
        parallel_tool_calls: None,
        truncation: None,
        store: None,
        include_usage: None,
        response_include: vec![],
        top_logprobs: None,
        reasoning: None,
        verbosity: Some("high".to_owned()),
        metadata: JsonMap::new(),
        extra_query: JsonMap::new(),
        extra_body: JsonMap::new(),
        extra_headers: JsonMap::new(),
        extra_args: JsonMap::new(),
    };
    base.metadata.insert("k".to_owned(), text("v"));
    let resolved = base.resolve(None);
    assert_eq!(resolved.temperature, Some(0.5));
    assert_eq!(resolved.verbosity.as_deref(), Some("high"));
    assert_eq!(resolved.metadata.get("k"), Some(&text("v")));
    assert!(resolved.response_include.is_empty());
}

#[test]
fn tracks_tools_by_agent_name() {
    let mut tracker = AgentToolUseTracker::new();

    tracker.add_tool_use("router", vec!["search".to_owned(), "lookup".to_owned()]);

    assert!(tracker.has_used_tools("router"));
    let snapshot = tracker.as_serializable();
    let entry = snapshot.iter().find(|(name, _)| name == "router").map(|(_, tools)| tools);
    assert_eq!(entry, Some(&vec!["lookup".to_owned(), "search".to_owned()]));
}

#[test]
fn tracker_round_trips_through_its_snapshot() {
    let mut tracker = AgentToolUseTracker::new();
    tracker.add_tool_use("a", vec!["x".to_owned()]);
    tracker.add_tool_use("b", vec![]);
    let restored = AgentToolUseTracker::from_serializable(tracker.as_serializable());
    assert!(restored.has_used_tools("a"));
    assert!(!restored.has_used_tools("b"));
    assert!(!restored.has_used_tools("c"));
    assert_eq!(restored.as_serializable(), tracker.as_serializable());
}

#[test]
fn stores_and_consumes_scoped_results() {
    let mut store = AgentToolStateStore::<Vec<OutputItem>>::new();
    let result = vec![OutputItem::Text { text: "ok".to_owned() }];
    let scope = Some("scope-a".to_owned());
    store.record_agent_tool_run_result("call-1".to_owned(), result, scope.clone());
    assert!(store.peek_agent_tool_run_result("call-1", &scope).is_some());
    assert!(store.consume_agent_tool_run_result("call-1", &scope).is_some());
    assert!(store.peek_agent_tool_run_result("call-1", &scope).is_none());
}

#[test]
fn scoped_results_do_not_leak_across_scopes() {
    let mut store = AgentToolStateStore::<u32>::new();
    store.record_agent_tool_run_result("call-1".to_owned(), 7, Some("a".to_owned()));
    assert!(store.peek_agent_tool_run_result("call-1", &Some("b".to_owned())).is_none());
    assert!(store.peek_agent_tool_run_result("call-1", &None).is_none());
    assert_eq!(store.peek_agent_tool_run_result("call-1", &Some("a".to_owned())), Some(&7));
    store.drop_agent_tool_run_result("call-1", &Some("a".to_owned()));
    assert!(store.peek_agent_tool_run_result("call-1", &Some("a".to_owned())).is_none());
}

#[test]
fn collapses_default_input_shape() {
    let input = resolve_agent_tool_input(&object(vec![("input", text("hello"))]), None);
    assert_eq!(input, ResolvedToolInput::Text("hello".to_owned()));
}

#[test]
fn other_tool_input_shapes_become_json_or_structured_text() {
    let params = object(vec![("query", text("rust"))]);
    assert_eq!(
        resolve_agent_tool_input(&params, None),
        ResolvedToolInput::Text("{\"query\":\"rust\"}".to_owned())
    );
    let info = StructuredInputSchemaInfo { summary: Some("a query".to_owned()), json_schema: None };
    match resolve_agent_tool_input(&params, Some(&info)) {
        ResolvedToolInput::Text(t) => {
            assert!(t.starts_with("You are being called as a tool."));
            assert!(t.contains("a query"));
        }
        other => panic!("unexpected input {other:?}"),
    }
}

#[test]
fn falls_back_to_title_for_model_description() {
    let tool = object(vec![
        ("name", text("search")),
        ("annotations", object(vec![("title", text("Search"))])),
    ]);

    assert_eq!(resolve_mcp_tool_description_for_model(&tool), "Search");
}

#[test]
fn mcp_title_prefers_top_level_title() {
    let tool = object(vec![
        ("title", text("Top")),
        ("annotations", object(vec![("title", text("Nested"))])),
        ("description", text("")),
    ]);
    assert_eq!(resolve_mcp_tool_title(&tool).as_deref(), Some("Top"));
    assert_eq!(resolve_mcp_tool_description_for_model(&tool), "Top");
}

#[test]
fn nests_history_into_summary_message() {
    let input_data = HandoffInputData {
        input_history: vec![InputItem::Json {
            value: object(vec![("content", text("hello")), ("role", text("user"))]),
        }],
        pre_handoff_items: vec![],
        new_items: vec![RunItem::MessageOutput { content: OutputItem::Text { text: "hi".to_owned() } }],
        input_items: None,
    };

    let nested = nest_handoff_history(input_data, &HistoryWrappers::new());
    assert_eq!(nested.input_history.len(), 1);
}

#[test]
fn applies_custom_history_mapper_when_requested() {
    let input_data = HandoffInputData {
        input_history: vec![InputItem::from_text("hello")],
        pre_handoff_items: vec![],
        new_items: vec![],
        input_items: None,
    };

    let nested = nest_handoff_history_with_mapper(
        input_data,
        Some(|items: Vec<InputItem>| {
            let mut items = items;
            items.push(InputItem::from_text("mapped"));
            items
        }),
        &HistoryWrappers::new(),
    );

    assert_eq!(nested.input_history.len(), 2);
    assert_eq!(nested.input_history[1].as_text(), Some("mapped"));
}

#[test]
fn history_wrappers_can_be_replaced_and_reset() {
    let mut wrappers = HistoryWrappers::new();
    set_conversation_history_wrappers(&mut wrappers, Some("<<"), None);
    let (start, end) = get_conversation_history_wrappers(&wrappers);
    assert_eq!(start, "<<");
    assert_eq!(end, DEFAULT_CONVERSATION_HISTORY_END);
    reset_conversation_history_wrappers(&mut wrappers);
    let (start, end) = get_conversation_history_wrappers(&wrappers);
    assert_eq!(start, DEFAULT_CONVERSATION_HISTORY_START);
    assert_eq!(end, DEFAULT_CONVERSATION_HISTORY_END);
}

fn answer(extra: bool) -> JsonValue {
    let mut members = vec![("answer", text("ok"))];
    if extra {
        members.push(("unexpected", JsonValue::Bool(true)));
    }
    object(members)
}

#[test]
fn validates_structured_output() {
    let schema = agents_core::agent_output::AgentOutputSchema::<()>::new("example::ExampleOutput".to_owned(), true);
    let parsed = schema
        .check_normalized(&answer(false), answer(false))
        .unwrap_or_else(|_| panic!("output should parse"));
    match parsed {
        JsonValue::Object(members) => assert_eq!(members[0].value, text("ok")),
        other => panic!("unexpected value {other:?}"),
    }
}

#[test]
fn rejects_unknown_fields_for_strict_structured_output() {
    let schema = agents_core::agent_output::AgentOutputSchema::<()>::new("example::ExampleOutput".to_owned(), true);
    match schema.check_normalized(&answer(true), answer(false)) {
        Err(error) => {
            assert!(error.message.contains("unexpected"));
            assert!(error.message.starts_with("structured output did not match strict schema; original="));
        }
        Ok(_) => panic!("strict structured output should reject unknown fields"),
    }
}

#[test]
fn non_strict_structured_output_allows_unknown_fields() {
    let schema = agents_core::agent_output::AgentOutputSchema::<()>::new("example::ExampleOutput".to_owned(), false);
    let parsed = schema
        .check_normalized(&answer(true), answer(false))
        .unwrap_or_else(|_| panic!("non-strict structured output should allow unknown fields"));
    assert_eq!(parsed, answer(false));
}

#[test]
fn plain_text_output_has_no_schema() {
    let schema = agents_core::agent_output::AgentOutputSchema::<String>::new("alloc::string::String".to_owned(), true);
    assert!(schema.is_plain_text());
    match schema.check_has_json_schema() {
        Err(e) => assert_eq!(e.message, "plain text output has no JSON schema"),
        Ok(_) => panic!("plain text has no schema"),
    }
    let other = agents_core::agent_output::AgentOutputSchema::<u8>::new("my::Type".to_owned(), false);
    assert!(!other.is_plain_text());
    assert!(other.check_has_json_schema().is_ok());
    assert_eq!(other.name(), "my::Type");
}

#[test]
fn handoff_defaults_describe_the_target() {
    assert_eq!(
        agents_core::handoff_history::default_tool_description("billing", &Some("Pays bills.".to_owned())),
        "Handoff to the billing agent to handle the request. Pays bills."
    );
    assert_eq!(
        agents_core::handoff_history::default_tool_description("billing", &None),
        "Handoff to the billing agent to handle the request."
    );
    assert_eq!(agents_core::handoff_history::get_transfer_message("billing"), "{\"assistant\":\"billing\"}");
}
