use agents_core::agent_output::AgentOutputSchema;
use agents_core::agent_tool_input::{
    nested_run_input, nested_run_limits, should_capture_tool_input, tool_failure_outcome, NestedRunLimits,
    ResolvedToolInput,
};
use agents_core::errors::AgentsError;
use agents_core::guardrails::{
    input_guardrail, output_guardrail, tool_input_guardrail, tool_output_guardrail, GuardrailFunctionOutput,
    InputGuardrail, OutputGuardrail, ToolGuardrailFunctionOutput, ToolInputGuardrail, ToolOutputGuardrail,
};
use agents_core::handoff_history::HandoffInputData;
use agents_core::items::{InputItem, OutputItem, RunItem};
use agents_core::json::{JsonMember, JsonValue};
use agents_core::mcp::{MCPTool, MCPUtil};
use agents_core::replay::ReasoningItemIdPolicy;
use agents_core::results::{RunResult, RunResultStreaming};
use agents_core::run_flow::{echo_model_response, handoff_outcome, requested_model, TurnOutcome};
use agents_core::run_state::{ApprovalRecord, RunContext, ToInputListMode};
use agents_core::sandbox::{
    ApplyPatchResult, LocalSandboxSession, LocalSandboxSessionState, LocalShellOutput, Manifest,
    SandboxCapability, SandboxConcurrencyLimits, SandboxRunConfig,
};
use agents_core::sandbox_profile::{darwin_exec_profile, path_less_exec, same_path_exec, sort_dedup_paths};
use agents_core::sandbox_tools::{
    default_function_tools, is_sandbox_tool_name, patch_tool_output, plan_sandbox_session, shell_tool_output,
    SandboxSessionPlan, SandboxTool,
};
use agents_core::tool_context::{nested_tool_run_context, RunContextWrapper, ToolContext};
use agents_core::stream_events::{
    agent_updated_event, completion_event, raw_response_event, run_item_events, StreamEvent,
};

fn message(t: &str) -> RunItem {
    RunItem::MessageOutput { content: OutputItem::Text { text: t.to_owned() } }
}

fn s(v: &str) -> JsonValue {
    JsonValue::String(v.to_owned())
}

fn obj(members: Vec<(&str, JsonValue)>) -> JsonValue {
    JsonValue::Object(members.into_iter().map(|(k, v)| JsonMember { key: k.to_owned(), value: v }).collect())
}

fn strings(v: &[&str]) -> Vec<String> {
    v.iter().map(|x| x.to_string()).collect()
}

#[test]
fn handoff_outcome_prefers_rewritten_input_items() {
    let data = HandoffInputData {
        input_history: vec![InputItem::from_text("hi")],
        pre_handoff_items: vec![message("before")],
        new_items: vec![message("new")],
        input_items: Some(vec![message("rewritten")]),
    };
    match handoff_outcome(data) {
        TurnOutcome::Handoff { input_history, pre_handoff_items, normalized_step_items, session_step_items } => {
            assert_eq!(input_history, vec![InputItem::from_text("hi")]);
            assert_eq!(pre_handoff_items, vec![message("before")]);
            assert_eq!(normalized_step_items, vec![message("rewritten")]);
            assert_eq!(session_step_items, vec![message("new")]);
        }
        _ => panic!("a handoff outcome was expected"),
    }
}

#[test]
fn handoff_outcome_without_rewrite_repeats_new_items() {
    let data = HandoffInputData {
        input_history: vec![],
        pre_handoff_items: vec![],
        new_items: vec![message("a"), message("b")],
        input_items: None,
    };
    match handoff_outcome(data) {
        TurnOutcome::Handoff { normalized_step_items, session_step_items, .. } => {
            assert_eq!(normalized_step_items, vec![message("a"), message("b")]);
            assert_eq!(session_step_items, vec![message("a"), message("b")]);
        }
        _ => panic!("a handoff outcome was expected"),
    }
}

#[test]
fn echo_response_repeats_last_text_input() {
    let input = vec![
        InputItem::from_text("first"),
        InputItem::Json { value: obj(vec![("role", s("user"))]) },
        InputItem::from_text("last"),
        InputItem::Json { value: JsonValue::Null },
    ];
    let response = echo_model_response(&None, &Some("agent-model".to_owned()), &input);
    assert_eq!(response.model, Some("agent-model".to_owned()));
    assert_eq!(response.output, vec![OutputItem::Text { text: "last".to_owned() }]);
    assert_eq!(response.response_id, None);
    let empty = echo_model_response(&Some("run-model".to_owned()), &None, &vec![]);
    assert_eq!(empty.model, Some("run-model".to_owned()));
    assert_eq!(empty.output, vec![OutputItem::Text { text: String::new() }]);
}

#[test]
fn run_model_wins_over_agent_model() {
    assert_eq!(requested_model(&Some("a".to_owned()), &Some("b".to_owned())), Some("a".to_owned()));
    assert_eq!(requested_model(&None, &Some("b".to_owned())), Some("b".to_owned()));
    assert_eq!(requested_model(&None, &None), None);
}

#[test]
fn sandbox_tools_follow_capabilities() {
    let tools = default_function_tools(&vec![SandboxCapability::Shell, SandboxCapability::Filesystem]);
    assert_eq!(tools, vec![SandboxTool::RunShell, SandboxTool::ListFiles, SandboxTool::ReadFile]);
    let names: Vec<&str> = default_function_tools(&SandboxCapability::defaults()).iter().map(|t| t.name()).collect();
    assert_eq!(names, vec!["sandbox_list_files", "sandbox_read_file", "sandbox_run_shell", "sandbox_apply_patch"]);
    assert_eq!(SandboxTool::ApplyPatch.argument_names(), vec!["path", "replacement"]);
    assert_eq!(SandboxTool::ReadFile.description(), "Read a UTF-8 text file from the sandbox workspace");
    assert!(default_function_tools(&vec![]).is_empty());
}

#[test]
fn sandbox_tool_names_are_recognized() {
    assert!(is_sandbox_tool_name("sandbox_run_shell"));
    assert!(is_sandbox_tool_name("sandbox_apply_patch"));
    assert!(!is_sandbox_tool_name("sandbox_write_file"));
    assert!(!is_sandbox_tool_name(""));
}

#[test]
fn shell_tool_output_reports_exit_code_and_streams() {
    let output = LocalShellOutput {
        command: "false".to_owned(),
        stdout: "out".to_owned(),
        stderr: "err".to_owned(),
        exit_code: -12,
    };
    assert_eq!(shell_tool_output(&output), "exit_code: -12\nstdout:\nout\nstderr:\nerr");
    let ok = LocalShellOutput { command: "true".to_owned(), stdout: String::new(), stderr: String::new(), exit_code: 0 };
    assert_eq!(shell_tool_output(&ok), "exit_code: 0\nstdout:\n\nstderr:\n");
    let patched = ApplyPatchResult { updated: true, path: "src/lib.rs".to_owned() };
    assert_eq!(patch_tool_output(&patched), "patched src/lib.rs");
}

fn config(manifest: Option<Manifest>, state: Option<LocalSandboxSessionState>, session: Option<LocalSandboxSession>) -> SandboxRunConfig {
    SandboxRunConfig {
        manifest,
        concurrency_limits: SandboxConcurrencyLimits { manifest_entries: None, local_dir_files: None },
        session_state: state,
        session,
    }
}

fn rooted(root: &str) -> Manifest {
    Manifest { root: root.to_owned(), entries: vec![] }
}

#[test]
fn sandbox_session_plan_prefers_live_then_saved_then_fresh() {
    let live = LocalSandboxSession::new("/tmp/live".to_owned(), Manifest::new(), false);
    match plan_sandbox_session(config(Some(rooted("/next")), None, Some(live)), None) {
        SandboxSessionPlan::Live { session, manifest_update } => {
            assert_eq!(session.workspace_root(), "/tmp/live");
            assert_eq!(manifest_update.map(|m| m.root), Some("/next".to_owned()));
        }
        _ => panic!("the live session should be used"),
    }
    let saved = LocalSandboxSession::new("/tmp/saved".to_owned(), Manifest::new(), true).session_state(true);
    match plan_sandbox_session(config(None, Some(saved), None), Some(rooted("/agent"))) {
        SandboxSessionPlan::Resume { state } => assert_eq!(state.workspace_root, "/tmp/saved"),
        _ => panic!("the saved session should be resumed"),
    }
    match plan_sandbox_session(config(None, None, None), Some(rooted("/agent"))) {
        SandboxSessionPlan::Fresh { manifest } => assert_eq!(manifest.root, "/agent"),
        _ => panic!("a fresh workspace was expected"),
    }
    match plan_sandbox_session(config(Some(rooted("/run")), None, None), Some(rooted("/agent"))) {
        SandboxSessionPlan::Fresh { manifest } => assert_eq!(manifest.root, "/run"),
        _ => panic!("a fresh workspace was expected"),
    }
    match plan_sandbox_session(config(None, None, None), None) {
        SandboxSessionPlan::Fresh { manifest } => {
            assert_eq!(manifest.root, "/workspace");
            assert!(manifest.entries.is_empty());
        }
        _ => panic!("a fresh workspace was expected"),
    }
}

#[test]
fn output_schema_is_refused_for_plain_text() {
    let plain = AgentOutputSchema::<String>::new("alloc::string::String".to_owned(), true);
    match plain.json_schema(obj(vec![])) {
        Err(e) => assert_eq!(e.message, "plain text output has no JSON schema"),
        Ok(_) => panic!("plain text has no schema"),
    }
}

#[test]
fn output_schema_is_made_strict_when_asked() {
    let generated = obj(vec![("type", s("object")), ("properties", obj(vec![("a", obj(vec![("type", s("string"))]))]))]);
    let loose = AgentOutputSchema::<u8>::new("demo::Out".to_owned(), false);
    let copy = obj(vec![("type", s("object")), ("properties", obj(vec![("a", obj(vec![("type", s("string"))]))]))]);
    assert_eq!(loose.json_schema(generated).ok(), Some(copy));
    let strict = AgentOutputSchema::<u8>::new("demo::Out".to_owned(), true);
    let schema = strict
        .json_schema(obj(vec![("type", s("object")), ("properties", obj(vec![("a", obj(vec![("type", s("string"))]))]))]))
        .unwrap_or_else(|e| panic!("schema should be strict: {}", e.message));
    match schema {
        JsonValue::Object(members) => {
            let keys: Vec<&str> = members.iter().map(|m| m.key.as_str()).collect();
            assert!(keys.contains(&"additionalProperties"));
            assert!(keys.contains(&"required"));
        }
        _ => panic!("an object schema was expected"),
    }
}

#[test]
fn validate_json_reports_parse_errors_and_strict_mismatches() {
    let strict = AgentOutputSchema::<u8>::new("demo::Out".to_owned(), true);
    match strict.validate_json("{not json", Ok(JsonValue::Null)) {
        Err(e) => assert!(e.message.contains("line 1")),
        Ok(_) => panic!("invalid JSON must be refused"),
    }
    match strict.validate_json("{\"a\":1}", Err("missing field `b`".to_owned())) {
        Err(e) => assert_eq!(e.message, "missing field `b`"),
        Ok(_) => panic!("the read-back error must be reported"),
    }
    let read_back = obj(vec![("a", JsonValue::Number("1".to_owned())), ("b", JsonValue::Null)]);
    match strict.validate_json("{\"a\":1}", Ok(read_back)) {
        Err(e) => assert_eq!(
            e.message,
            "structured output did not match strict schema; original={\"a\":1}, normalized={\"a\":1,\"b\":null}"
        ),
        Ok(_) => panic!("a strict mismatch must be refused"),
    }
    let same = obj(vec![("a", JsonValue::Number("1".to_owned()))]);
    assert_eq!(
        strict.validate_json("{\"a\":1}", Ok(same)).ok(),
        Some(obj(vec![("a", JsonValue::Number("1".to_owned()))]))
    );
    let loose = AgentOutputSchema::<u8>::new("demo::Out".to_owned(), false);
    let normalized = obj(vec![("a", JsonValue::Number("1".to_owned())), ("b", JsonValue::Null)]);
    assert!(loose.validate_json("{\"a\":1}", Ok(normalized)).is_ok());
}

#[test]
fn mcp_tool_schemas_are_made_strict() {
    let mut tool = MCPTool::new("search".to_owned());
    assert_eq!(MCPUtil::strict_input_schema(&tool).ok(), Some(None));
    tool.input_schema = Some(obj(vec![("type", s("object")), ("properties", obj(vec![("q", obj(vec![("type", s("string"))]))]))]));
    match MCPUtil::strict_input_schema(&tool) {
        Ok(Some(JsonValue::Object(members))) => {
            assert!(members.iter().any(|m| m.key == "additionalProperties" && m.value == JsonValue::Bool(false)));
        }
        _ => panic!("a strict schema was expected"),
    }
}

#[test]
fn nested_runs_start_from_resolved_input() {
    assert_eq!(nested_run_input(ResolvedToolInput::Text("go".to_owned())), vec![InputItem::from_text("go")]);
    let items = vec![InputItem::from_text("a"), InputItem::Json { value: JsonValue::Null }];
    let copy = vec![InputItem::from_text("a"), InputItem::Json { value: JsonValue::Null }];
    assert_eq!(nested_run_input(ResolvedToolInput::Items(items)), copy);
    assert!(should_capture_tool_input(false, false, false));
    assert!(!should_capture_tool_input(false, false, true));
    assert!(should_capture_tool_input(true, false, true));
}

#[test]
fn nested_run_limits_take_tool_overrides() {
    let base = NestedRunLimits { max_turns: 10, previous_response_id: Some("r1".to_owned()), conversation_id: None };
    let limits = nested_run_limits(&base, Some(3), &None, &Some("c2".to_owned()));
    assert_eq!(limits.max_turns, 3);
    assert_eq!(limits.previous_response_id, Some("r1".to_owned()));
    assert_eq!(limits.conversation_id, Some("c2".to_owned()));
    let kept = nested_run_limits(&base, None, &Some("r9".to_owned()), &None);
    assert_eq!(kept.max_turns, 10);
    assert_eq!(kept.previous_response_id, Some("r9".to_owned()));
    assert_eq!(kept.conversation_id, None);
}

#[test]
fn failed_nested_runs_answer_with_formatted_message() {
    assert_eq!(tool_failure_outcome(AgentsError::ModelUnavailable, Some("try later".to_owned())).ok(), Some("try later".to_owned()));
    match tool_failure_outcome(AgentsError::ModelUnavailable, None) {
        Err(AgentsError::ModelUnavailable) => {}
        _ => panic!("the error should pass through"),
    }
}

#[test]
fn completion_events_report_success_and_failure() {
    match completion_event(&Ok(("writer".to_owned(), Some("done".to_owned())))) {
        StreamEvent::Lifecycle(e) => {
            assert_eq!(e.name, "run_completed");
            assert_eq!(e.data, Some(obj(vec![("agent_name", s("writer")), ("final_output", s("done"))])));
        }
        _ => panic!("a lifecycle event was expected"),
    }
    match completion_event(&Err("boom".to_owned())) {
        StreamEvent::Lifecycle(e) => {
            assert_eq!(e.name, "run_failed");
            assert_eq!(e.data, Some(obj(vec![("message", s("boom"))])));
        }
        _ => panic!("a lifecycle event was expected"),
    }
}

#[test]
fn recorder_events_carry_items_and_agents() {
    let events = run_item_events(&vec![message("hi"), RunItem::HandoffCall { target_agent: "b".to_owned() }]);
    let names: Vec<String> = events
        .iter()
        .map(|e| match e {
            StreamEvent::RunItemEvent(r) => r.name.clone(),
            _ => panic!("item events were expected"),
        })
        .collect();
    assert_eq!(names, vec!["message_output".to_owned(), "handoff_call".to_owned()]);
    match raw_response_event(JsonValue::Bool(true)) {
        StreamEvent::RawResponseEvent(r) => {
            assert_eq!(r.event_name, "model_response");
            assert_eq!(r.data, JsonValue::Bool(true));
        }
        _ => panic!("a raw event was expected"),
    }
    match agent_updated_event("next") {
        StreamEvent::AgentUpdated(a) => assert_eq!(a.new_agent, "next"),
        _ => panic!("an agent update was expected"),
    }
}

#[test]
fn paths_order_by_components() {
    assert!(path_less_exec("/a", "/a/b"));
    assert!(path_less_exec("/a/b", "/a-b"));
    assert!(!path_less_exec("/a-b", "/a/b"));
    assert!(path_less_exec("/", "a"));
    assert!(same_path_exec("/a/", "/a"));
    assert!(same_path_exec("/a//b/./c", "/a/b/c"));
    assert!(!same_path_exec("a", "/a"));
}

#[test]
fn read_paths_are_sorted_and_deduplicated() {
    let sorted = sort_dedup_paths(&strings(&["/b", "/a", "/a/", "/a-b", "/a/b", "/b"]));
    assert_eq!(sorted, strings(&["/a", "/a/b", "/a-b", "/b"]));
    assert!(sort_dedup_paths(&vec![]).is_empty());
}

#[test]
fn darwin_profile_confines_to_workspace() {
    let profile = darwin_exec_profile("/tmp/ws", &Some("/private/tmp/ws".to_owned()), &strings(&["/usr/bin", "/bin", "/usr/bin/"]));
    let lines: Vec<&str> = profile.split('\n').collect();
    assert_eq!(lines[0], "(version 1)");
    assert_eq!(lines[1], "(allow default)");
    assert_eq!(lines[2], "(deny file-read-data (subpath \"/Users\"))");
    assert_eq!(lines[3], "(deny file-write* (subpath \"/Users\"))");
    assert_eq!(lines[25], "(deny file-write* (subpath \"/usr\"))");
    assert_eq!(lines[26], "(allow file-read-data file-read-metadata (subpath \"/tmp/ws\"))");
    assert_eq!(lines[27], "(allow file-write* (subpath \"/tmp/ws\"))");
    assert_eq!(lines[28], "(allow file-read-data file-read-metadata (subpath \"/private/tmp/ws\"))");
    assert_eq!(lines[29], "(allow file-write* (subpath \"/private/tmp/ws\"))");
    assert_eq!(lines[30], "(allow file-read-data file-read-metadata (subpath \"/bin\"))");
    assert_eq!(lines[31], "(allow file-read-data file-read-metadata (subpath \"/usr/bin\"))");
    assert_eq!(lines[lines.len() - 1], "(allow file-write* (literal \"/dev/null\"))");
    assert_eq!(lines.len(), 38);
    let same = darwin_exec_profile("/tmp/ws", &Some("/tmp/ws/".to_owned()), &vec![]);
    assert_eq!(same.split('\n').count(), 34);
    let quoted = darwin_exec_profile("/tmp/w\"s", &None, &vec![]);
    assert!(quoted.contains("(allow file-write* (subpath \"/tmp/w\\\"s\"))"));
}

#[test]
fn runs_input_guardrail_executor() {
    let guardrail = input_guardrail("input-check".to_owned(), |input: &[InputItem]| {
        GuardrailFunctionOutput::tripwire(Some(obj(vec![("items", JsonValue::Number(input.len().to_string()))])))
    })
    .with_parallelism(false);

    let check = guardrail.executor().unwrap_or_else(|e| panic!("guardrail should run: {}", e.to_string()));
    let result = guardrail.report(check(&[InputItem::from_text("hello")]));

    assert_eq!(result.guardrail_name, "input-check");
    assert!(result.output.tripwire_triggered);
    assert_eq!(result.output.output_info, Some(obj(vec![("items", JsonValue::Number("1".to_owned()))])));
    assert!(!guardrail.run_in_parallel);
}

#[test]
fn runs_output_guardrail_executor() {
    let guardrail = output_guardrail("output-check".to_owned(), |agent: &str, output: &[OutputItem]| {
        GuardrailFunctionOutput::allow(Some(obj(vec![
            ("agent", s(agent)),
            ("items", JsonValue::Number(output.len().to_string())),
        ])))
    });

    let output = vec![OutputItem::Text { text: "done".to_owned() }];
    let check = guardrail.executor().unwrap_or_else(|e| panic!("guardrail should run: {}", e.to_string()));
    let found = check("writer", &output);
    let result = guardrail.report("writer".to_owned(), output, found);

    assert_eq!(result.guardrail_name, "output-check");
    assert_eq!(result.agent_name, "writer");
    assert!(!result.output.tripwire_triggered);
    assert_eq!(
        result.output.output_info,
        Some(obj(vec![("agent", s("writer")), ("items", JsonValue::Number("1".to_owned()))]))
    );
}

fn tool_context() -> ToolContext<RunContext> {
    ToolContext::new(
        RunContextWrapper::new(RunContext { conversation_id: None, workflow_name: None }),
        "search".to_owned(),
        "call-1".to_owned(),
        "{}".to_owned(),
    )
}

#[test]
fn runs_tool_input_guardrail() {
    let guardrail = tool_input_guardrail("tool-input".to_owned(), |context: &ToolContext<RunContext>, agent: &str| {
        ToolGuardrailFunctionOutput::reject_content(
            format!("blocked {}", context.tool_name),
            Some(obj(vec![("agent", s(agent))])),
        )
    });

    let check = guardrail.executor().unwrap_or_else(|e| panic!("guardrail should run: {}", e.to_string()));
    let result = guardrail.report(check(&tool_context(), "router"));

    assert_eq!(result.guardrail_name, "tool-input");
    assert_eq!(result.output.rejection_message(), Some("blocked search"));
}

#[test]
fn runs_tool_output_guardrail() {
    let guardrail = tool_output_guardrail("tool-output".to_owned(), |context: &ToolContext<RunContext>, output: &str| {
        ToolGuardrailFunctionOutput::allow(Some(obj(vec![
            ("tool", s(&context.qualified_tool_name())),
            ("has_text", JsonValue::Bool(!output.is_empty())),
        ])))
    });

    let check = guardrail.executor().unwrap_or_else(|e| panic!("guardrail should run: {}", e.to_string()));
    let result = guardrail.report(check(&tool_context(), "ok"));

    assert_eq!(result.guardrail_name, "tool-output");
    assert_eq!(
        result.output.output_info,
        Some(obj(vec![("tool", s("search")), ("has_text", JsonValue::Bool(true))]))
    );
}

#[test]
fn guardrails_without_executor_cannot_run() {
    let unnamed: InputGuardrail<fn()> = InputGuardrail::default();
    assert_eq!(unnamed.get_name(), "input_guardrail");
    match unnamed.executor() {
        Err(e) => assert_eq!(e.to_string(), "input guardrail `input_guardrail` has no executor"),
        Ok(_) => panic!("no executor was set"),
    }
    let named: ToolOutputGuardrail<fn()> = ToolOutputGuardrail::new("audit".to_owned());
    match named.executor() {
        Err(e) => assert_eq!(e.to_string(), "tool output guardrail `audit` has no executor"),
        Ok(_) => panic!("no executor was set"),
    }
    let described: OutputGuardrail<fn()> = OutputGuardrail::default().with_description("checks".to_owned());
    assert_eq!(described.get_name(), "output_guardrail");
    assert_eq!(described.description, Some("checks".to_owned()));
    let tool_input: ToolInputGuardrail<fn()> = ToolInputGuardrail::default();
    assert_eq!(tool_input.get_name(), "tool_input_guardrail");
}

#[test]
fn tool_context_qualifies_names_by_namespace() {
    let mut context = tool_context();
    assert_eq!(context.qualified_tool_name(), "search");
    context.tool_namespace = Some("docs".to_owned());
    assert_eq!(context.qualified_tool_name(), "docs.search");
    assert_eq!(context.tool_call_id, "call-1");
    assert!(context.run_context.approvals.is_empty());
}

#[test]
fn nested_tool_context_drops_approvals_and_captures_input() {
    let mut outer = RunContextWrapper::new(RunContext { conversation_id: None, workflow_name: Some("wf".to_owned()) });
    outer.approvals.insert("call-9".to_owned(), ApprovalRecord { approved: true, reason: None, tool_name: None });
    outer.agent_tool_state_scope = Some("scope".to_owned());
    outer.turn_input = vec![InputItem::from_text("hi")];
    let nested = nested_tool_run_context(outer, true, obj(vec![("q", s("x"))]));
    assert!(nested.approvals.is_empty());
    assert_eq!(nested.tool_input, Some(obj(vec![("q", s("x"))])));
    assert_eq!(nested.agent_tool_state_scope, Some("scope".to_owned()));
    assert_eq!(nested.turn_input, vec![InputItem::from_text("hi")]);
    let plain = nested_tool_run_context(nested, false, JsonValue::Null);
    assert_eq!(plain.tool_input, None);
}

#[test]
fn streamed_result_wraps_finished_result() {
    let result = RunResult {
        last_agent: Some("writer".to_owned()),
        input: vec![InputItem::from_text("start")],
        new_items: vec![message("done")],
        final_output: Some("done".to_owned()),
        ..RunResult::default()
    };
    let streamed = RunResultStreaming::from_run_result(result, 2, 5, vec![agent_updated_event("writer")]);
    assert!(streamed.is_complete);
    assert_eq!(streamed.current_agent, Some("writer".to_owned()));
    assert_eq!(streamed.final_output, Some(s("done")));
    assert_eq!(streamed.current_turn, 2);
    assert_eq!(streamed.stream_events().len(), 1);
    assert_eq!(streamed.to_input_list(), vec![InputItem::from_text("start"), InputItem::from_text("done")]);
}

#[test]
fn unfinished_stream_replays_only_its_items() {
    let streamed = RunResultStreaming {
        current_agent: None,
        current_turn: 1,
        max_turns: 3,
        is_complete: false,
        final_output: None,
        normalized_input: Some(vec![InputItem::from_text("normalized")]),
        new_items: vec![message("partial")],
        raw_responses: vec![],
        input_guardrail_results: vec![],
        output_guardrail_results: vec![],
        events: vec![],
        final_run_result: None,
        reasoning_item_id_policy: ReasoningItemIdPolicy::Preserve,
        normalized_new_items: None,
        agent_tool_invocation: None,
    };
    assert_eq!(streamed.to_input_list(), vec![InputItem::from_text("partial")]);
    assert_eq!(
        streamed.to_input_list_mode(ToInputListMode::Normalized),
        vec![InputItem::from_text("normalized"), InputItem::from_text("partial")]
    );
    assert!(streamed.last_response().is_none());
}
