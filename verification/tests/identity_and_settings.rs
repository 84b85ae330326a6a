use agents_core::config::{
    config, default_openai_api, default_openai_key, default_openai_responses_transport,
    default_tracing_export_api_key, set_default_openai_api, set_default_openai_key,
    set_default_openai_responses_transport, DefaultOpenAIApi, DefaultOpenAIResponsesTransport,
};
use agents_core::session::{resolve_session_limit, validate_sql_identifier, SessionSettings};
use agents_core::tool_identity::{
    build_function_tool_lookup_map, get_function_tool_approval_keys, get_function_tool_lookup_key,
    FunctionToolLookupKey, ToolDefinition,
};

#[test]
fn updates_default_openai_state() {
    let mut settings = config();
    set_default_openai_key(&mut settings, "test-key".to_owned(), true);
    set_default_openai_api(&mut settings, DefaultOpenAIApi::ChatCompletions);
    set_default_openai_responses_transport(&mut settings, DefaultOpenAIResponsesTransport::Websocket);

    assert_eq!(default_openai_key(&settings).as_deref(), Some("test-key"));
    assert_eq!(default_tracing_export_api_key(&settings).as_deref(), Some("test-key"));
    assert_eq!(default_openai_api(&settings), DefaultOpenAIApi::ChatCompletions);
    assert_eq!(
        default_openai_responses_transport(&settings),
        DefaultOpenAIResponsesTransport::Websocket
    );
}

#[test]
fn creates_namespaced_and_deferred_lookup_keys() {
    assert_eq!(
        get_function_tool_lookup_key("search", Some("knowledge")),
        Some(FunctionToolLookupKey::Namespaced {
            namespace: "knowledge".to_owned(),
            name: "search".to_owned(),
        })
    );
    assert_eq!(
        get_function_tool_lookup_key("search", Some("search")),
        Some(FunctionToolLookupKey::DeferredTopLevel { name: "search".to_owned() })
    );
}

#[test]
fn builds_lookup_map_for_deferred_tools() {
    let tool = ToolDefinition::new("search", "Search").with_defer_loading(true);
    let map = build_function_tool_lookup_map(&[tool])
        .unwrap_or_else(|_| panic!("lookup map should build"));

    assert!(map.contains_key(&FunctionToolLookupKey::DeferredTopLevel { name: "search".to_owned() }));
}

#[test]
fn computes_approval_keys() {
    let keys = get_function_tool_approval_keys(
        "search",
        Some("knowledge"),
        true,
        Some(&FunctionToolLookupKey::Namespaced {
            namespace: "knowledge".to_owned(),
            name: "search".to_owned(),
        }),
    );

    assert_eq!(keys, vec!["search".to_owned(), "knowledge.search".to_owned()]);
}

#[test]
fn resolves_session_limit_with_override_precedence() {
    let settings = SessionSettings { limit: Some(4) };

    assert_eq!(resolve_session_limit(Some(2), Some(&settings)), Some(2));
    assert_eq!(resolve_session_limit(None, Some(&settings)), Some(4));
    assert_eq!(resolve_session_limit(None, None), None);
}

#[test]
fn rejects_invalid_sql_identifier() {
    let error = match validate_sql_identifier("bad-name") {
        Err(e) => e,
        Ok(_) => panic!("identifier should fail"),
    };

    assert!(error.to_string().contains("invalid SQLite identifier"));
}
