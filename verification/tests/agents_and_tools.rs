use agents_core::agent_behavior::{
    default_agent_tool_output_text, output_item_text, StopAtTools, ToolUseBehavior, ToolUseDecision,
};
use agents_core::errors::AgentsError;
use agents_core::guardrails::{check_input_guardrail_results, GuardrailFunctionOutput, InputGuardrailResult};
use agents_core::items::{OutputItem, RunItem};
use agents_core::json::{JsonMember, JsonValue};
use agents_core::mcp::{
    collect_mcp_list_tools_metadata, create_static_tool_filter, MCPTool, MCPUtil, ToolFilter,
};
use agents_core::model::ModelTracing;
use agents_core::sandbox::{
    build_instructions_from_parts, File, LocalSandboxSession, Manifest, ManifestEntry, SandboxCapability,
};
use agents_core::tool_identity::{tool_qualified_name, tool_trace_name};

fn s(t: &str) -> JsonValue {
    JsonValue::String(t.to_owned())
}

fn o(members: Vec<(&str, JsonValue)>) -> JsonValue {
    JsonValue::Object(members.into_iter().map(|(k, v)| JsonMember { key: k.to_owned(), value: v }).collect())
}

fn results(names: &[(&str, Option<&str>)]) -> Vec<(String, Option<String>)> {
    names.iter().map(|(n, q)| ((*n).to_owned(), q.map(|q| q.to_owned()))).collect()
}

type NoCustom = fn(&[(String, Option<String>)]) -> bool;

#[test]
fn tool_use_behaviors_pick_the_final_result() {
    let turn = results(&[("search", Some("kb.search")), ("lookup", None)]);
    assert!(matches!(ToolUseBehavior::<NoCustom>::RunLlmAgain.evaluate(&turn), ToolUseDecision::NotFinal));
    assert!(matches!(ToolUseBehavior::<NoCustom>::StopOnFirstTool.evaluate(&turn), ToolUseDecision::Final(0)));
    let stop = ToolUseBehavior::<NoCustom>::StopAtTools(StopAtTools { stop_at_tool_names: vec!["lookup".to_owned()] });
    assert!(matches!(stop.evaluate(&turn), ToolUseDecision::Final(1)));
    let by_qualified =
        ToolUseBehavior::<NoCustom>::StopAtTools(StopAtTools { stop_at_tool_names: vec!["kb.search".to_owned()] });
    assert!(matches!(by_qualified.evaluate(&turn), ToolUseDecision::Final(0)));
    let none = ToolUseBehavior::<NoCustom>::StopAtTools(StopAtTools { stop_at_tool_names: vec!["other".to_owned()] });
    assert!(matches!(none.evaluate(&turn), ToolUseDecision::NotFinal));
    assert!(matches!(ToolUseBehavior::<NoCustom>::StopOnFirstTool.evaluate(&vec![]), ToolUseDecision::NotFinal));
}

#[test]
fn nested_run_answer_prefers_final_output_then_latest_text() {
    let items = vec![
        RunItem::MessageOutput { content: OutputItem::Text { text: "first".to_owned() } },
        RunItem::ToolCallOutput {
            tool_name: "t".to_owned(),
            output: OutputItem::Json { value: o(vec![("k", s("v"))]) },
            call_id: None,
            namespace: None,
        },
        RunItem::HandoffCall { target_agent: "x".to_owned() },
    ];
    assert_eq!(default_agent_tool_output_text(&Some("final".to_owned()), &items, &vec![]), "final");
    assert_eq!(default_agent_tool_output_text(&Some(String::new()), &items, &vec![]), "{\"k\":\"v\"}");
    let output = vec![OutputItem::Reasoning { text: "thought".to_owned() }];
    assert_eq!(default_agent_tool_output_text(&None, &vec![], &output), "thought");
    assert_eq!(default_agent_tool_output_text(&None, &vec![], &vec![]), "");
    assert_eq!(output_item_text(&OutputItem::Handoff { target_agent: "a".to_owned() }), None);
}

#[test]
fn tool_arguments_must_hold_required_properties() {
    let schema = o(vec![("required", JsonValue::Array(vec![s("query"), s("limit")])), ("type", s("object"))]);
    assert!(MCPUtil::validate_tool_arguments("search", None, &JsonValue::Null).is_ok());
    assert!(MCPUtil::validate_tool_arguments("search", Some(&schema), &o(vec![("limit", s("1")), ("query", s("q"))])).is_ok());
    match MCPUtil::validate_tool_arguments("search", Some(&schema), &o(vec![("query", s("q"))])) {
        Err(AgentsError::User(e)) => assert_eq!(e.message, "tool `search` is missing required argument(s): limit"),
        _ => panic!("missing argument should be reported"),
    }
    match MCPUtil::validate_tool_arguments("search", Some(&schema), &s("q")) {
        Err(AgentsError::User(e)) => {
            assert_eq!(e.message, "tool `search` requires object arguments that match its input schema")
        }
        _ => panic!("non-object arguments should be refused"),
    }
}

#[test]
fn tool_filters_allow_and_block_by_name() {
    assert!(create_static_tool_filter(None, None).is_none());
    let filter = create_static_tool_filter(Some(vec!["a".to_owned(), "b".to_owned()]), Some(vec!["b".to_owned()]))
        .expect("a filter");
    let filter = ToolFilter::<fn(&MCPTool) -> bool>::Static(filter);
    assert!(MCPUtil::tool_allowed(Some(&filter), &MCPTool::new("a".to_owned())));
    assert!(!MCPUtil::tool_allowed(Some(&filter), &MCPTool::new("b".to_owned())));
    assert!(!MCPUtil::tool_allowed(Some(&filter), &MCPTool::new("c".to_owned())));
    assert!(MCPUtil::tool_allowed(None::<&ToolFilter<fn(&MCPTool) -> bool>>, &MCPTool::new("c".to_owned())));
    let custom = ToolFilter::Callable(|tool: &MCPTool| tool.name.starts_with('x'));
    assert!(MCPUtil::tool_allowed(Some(&custom), &MCPTool::new("xy".to_owned())));
    assert!(!MCPUtil::tool_allowed(Some(&custom), &MCPTool::new("y".to_owned())));
}

#[test]
fn mcp_tool_definitions_show_title_and_description() {
    let mut tool = MCPTool::new("lookup".to_owned());
    tool.title = Some("Lookup".to_owned());
    tool.description = Some("Finds things".to_owned());
    tool.namespace = Some("kb".to_owned());
    let definition = MCPUtil::tool_definition(&tool);
    assert_eq!(definition.name, "lookup");
    assert_eq!(definition.description, "Lookup: Finds things");
    assert_eq!(definition.namespace.as_deref(), Some("kb"));
    let bare = MCPUtil::tool_definition(&MCPTool::new("plain".to_owned()));
    assert_eq!(bare.description, "");
}

#[test]
fn duplicate_mcp_tool_names_are_refused() {
    assert!(MCPUtil::check_unique_tool_names(&vec!["a".to_owned(), "b".to_owned()]).is_ok());
    match MCPUtil::check_unique_tool_names(&vec!["a".to_owned(), "b".to_owned(), "a".to_owned()]) {
        Err(e) => assert_eq!(e.to_string(), "duplicate MCP tool name `a` across servers"),
        Ok(_) => panic!("duplicate should be refused"),
    }
}

#[test]
fn collects_metadata_of_listed_mcp_tools() {
    let listing = o(vec![
        ("server_label", s("kb")),
        (
            "tools",
            JsonValue::Array(vec![
                o(vec![("description", s("Search docs")), ("name", s("search"))]),
                o(vec![("annotations", o(vec![("title", s("Fetch"))])), ("name", s("fetch"))]),
                o(vec![("name", s(""))]),
            ]),
        ),
        ("type", s("mcp_list_tools")),
    ]);
    let other = o(vec![("type", s("message"))]);
    let collected = collect_mcp_list_tools_metadata(&[listing, other]);
    assert_eq!(collected.len(), 2);
    assert_eq!(collected[0].0, ("kb".to_owned(), "search".to_owned()));
    assert_eq!(collected[0].1.description.as_deref(), Some("Search docs"));
    assert_eq!(collected[1].0, ("kb".to_owned(), "fetch".to_owned()));
    assert_eq!(collected[1].1.title.as_deref(), Some("Fetch"));
}

#[test]
fn first_tripped_input_guardrail_fails_the_run() {
    let ok = InputGuardrailResult { guardrail_name: "fine".to_owned(), output: GuardrailFunctionOutput::allow(None) };
    assert!(check_input_guardrail_results(vec![ok]).is_ok());
    let results = vec![
        InputGuardrailResult { guardrail_name: "fine".to_owned(), output: GuardrailFunctionOutput::allow(None) },
        InputGuardrailResult { guardrail_name: "block".to_owned(), output: GuardrailFunctionOutput::tripwire(None) },
        InputGuardrailResult { guardrail_name: "later".to_owned(), output: GuardrailFunctionOutput::tripwire(None) },
    ];
    match check_input_guardrail_results(results) {
        Err(AgentsError::InputGuardrailTripwire(t)) => assert_eq!(t.guardrail_name, "block"),
        _ => panic!("tripwire should fail the run"),
    }
}

#[test]
fn model_tracing_levels() {
    assert!(ModelTracing::Disabled.is_disabled());
    assert!(!ModelTracing::Enabled.is_disabled());
    assert!(ModelTracing::Enabled.include_data());
    assert!(!ModelTracing::EnabledWithoutData.include_data());
    assert_eq!(ModelTracing::default(), ModelTracing::Enabled);
}

#[test]
fn qualified_and_trace_names() {
    assert_eq!(tool_qualified_name(" search ", Some("kb")).as_deref(), Some("kb.search"));
    assert_eq!(tool_qualified_name("search", None).as_deref(), Some("search"));
    assert_eq!(tool_qualified_name("  ", Some("kb")), None);
    assert_eq!(tool_trace_name("search", Some("search")).as_deref(), Some("search"));
    assert_eq!(tool_trace_name("search", Some("kb")).as_deref(), Some("kb.search"));
}

#[test]
fn sandbox_instructions_list_capabilities_and_layout() {
    let manifest = Manifest::new().with_entry("notes.txt".to_owned(), ManifestEntry::File(File::from_text("hi")));
    let text = build_instructions_from_parts(
        Some("Base."),
        None,
        &[SandboxCapability::Filesystem, SandboxCapability::Shell],
        &manifest,
    );
    assert_eq!(text, "Base.\n\nCapabilities: filesystem, shell\n\nWorkspace layout:\n/workspace (workspace root)\n- notes.txt");
}

#[test]
fn live_manifest_updates_only_add_entries() {
    let session = LocalSandboxSession::new("/tmp/ws".to_owned(), Manifest::new(), false);
    assert!(matches!(session.plan_live_manifest_update(&Manifest::new()), Ok(None)));
    let grown = Manifest::new().with_entry("a.txt".to_owned(), ManifestEntry::File(File::from_text("a")));
    match session.plan_live_manifest_update(&grown) {
        Ok(Some(entries)) => {
            assert_eq!(entries.len(), 1);
            assert_eq!(entries[0].0, "a.txt");
        }
        _ => panic!("an added entry should be planned"),
    }
}
