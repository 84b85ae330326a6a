use agents_core::errors::AgentsError;
use agents_core::items::InputItem;
use agents_core::json::{JsonMember, JsonValue};
use agents_core::json_map::JsonMap;
use agents_core::mcp_manager::MCPServerManager;
use agents_core::memory::MemorySession;
use agents_core::multi_provider::{
    MultiProvider, MultiProviderMap, MultiProviderOpenAIPrefixMode, MultiProviderUnknownPrefixMode,
};
use agents_core::prompts::{Prompt, PromptSpec, PromptUtil};
use agents_core::session::SessionSettings;
use agents_core::session_input::{combine_session_input, select_session_input_items, InputItemIdentity};

/// Servers that fail their first `fail_remaining` connections and count their clean-ups.
struct Servers {
    fail_remaining: Vec<usize>,
    cleanup_calls: Vec<usize>,
}

impl Servers {
    fn new(fail_remaining: Vec<usize>) -> Self {
        let n = fail_remaining.len();
        Servers { fail_remaining, cleanup_calls: vec![0; n] }
    }

    fn connect(&mut self, i: usize) -> Result<(), AgentsError> {
        if self.fail_remaining[i] > 0 {
            self.fail_remaining[i] -= 1;
            Err(AgentsError::message("connect failed".to_owned()))
        } else {
            Ok(())
        }
    }
}

fn connect_all(manager: &mut MCPServerManager, servers: &mut Servers) -> Result<Vec<usize>, AgentsError> {
    let mut run = manager.begin_connect_all();
    while let Some(i) = manager.pending_server(&run) {
        let outcome = servers.connect(i);
        if let Err(error) = manager.connect_all_step(&mut run, outcome) {
            for j in manager.cleanup_order(Some(i)) {
                servers.cleanup_calls[j] += 1;
            }
            manager.abort_connect_all(run);
            return Err(error);
        }
    }
    manager.finish_connect_all(run);
    Ok(manager.active_servers())
}

fn reconnect_failed(manager: &mut MCPServerManager, servers: &mut Servers) -> Result<Vec<usize>, AgentsError> {
    let mut run = manager.begin_reconnect_failed();
    while let Some(i) = manager.pending_retry(&run) {
        let outcome = servers.connect(i);
        manager.reconnect_step(&mut run, outcome)?;
    }
    manager.finish_reconnect(run);
    Ok(manager.active_servers())
}

fn cleanup_all(manager: &mut MCPServerManager, servers: &mut Servers) {
    for j in manager.cleanup_order(None) {
        servers.cleanup_calls[j] += 1;
    }
    manager.finish_cleanup_all();
}

fn names(list: &[&str]) -> Vec<String> {
    list.iter().map(|s| (*s).to_owned()).collect()
}

#[test]
fn drops_failed_servers_when_requested() {
    let mut manager = MCPServerManager::new(names(&["ok", "bad"]));
    let mut servers = Servers::new(vec![0, usize::MAX]);

    let active = connect_all(&mut manager, &mut servers).expect("connect should succeed");

    assert_eq!(active, vec![0]);
    assert_eq!(manager.active_server_names(), names(&["ok"]));
    assert_eq!(manager.failed_servers, names(&["bad"]));
    assert_eq!(manager.errors.get("bad").map(|s| s.as_str()), Some("connect failed"));
}

#[test]
fn reconnect_deduplicates_failed_server_names() {
    let mut manager = MCPServerManager::new(names(&["flaky"]));
    let mut servers = Servers::new(vec![usize::MAX]);

    connect_all(&mut manager, &mut servers).expect("connect should succeed");
    reconnect_failed(&mut manager, &mut servers).expect("retry should succeed");

    assert_eq!(manager.failed_servers, names(&["flaky"]));
}

#[test]
fn strict_connect_cleans_up_connected_servers_and_clears_state() {
    let mut manager = MCPServerManager::new(names(&["stable", "flaky"]));
    let mut servers = Servers::new(vec![0, 1]);
    manager.strict = true;

    let error = connect_all(&mut manager, &mut servers).err().expect("strict connect should fail");

    assert!(error.to_string().contains("connect failed"));
    assert_eq!(servers.cleanup_calls[0], 1);
    assert!(manager.active_servers().is_empty());
    assert!(manager.cleanup_order(None).is_empty());
}

#[test]
fn strict_connect_preserves_existing_active_servers() {
    let mut manager = MCPServerManager::new(names(&["stable", "flaky"]));
    let mut servers = Servers::new(vec![0, 2]);

    connect_all(&mut manager, &mut servers).expect("initial connect should succeed");
    assert_eq!(manager.active_server_names(), names(&["stable"]));
    assert_eq!(manager.failed_servers, names(&["flaky"]));

    manager.strict = true;
    let error = connect_all(&mut manager, &mut servers).err().expect("strict connect should fail");

    assert!(error.to_string().contains("connect failed"));
    assert_eq!(manager.active_server_names(), names(&["stable"]));
    assert_eq!(manager.failed_servers, names(&["flaky"]));
    assert_eq!(servers.cleanup_calls, vec![1, 1]);
}

#[test]
fn strict_connect_preserves_existing_failed_active_servers_when_not_dropping_failed() {
    let mut manager = MCPServerManager::new(names(&["stable", "flaky"]));
    let mut servers = Servers::new(vec![0, 2]);
    manager.drop_failed_servers = false;

    connect_all(&mut manager, &mut servers).expect("initial connect should succeed");
    assert_eq!(manager.active_server_names(), names(&["stable", "flaky"]));
    assert_eq!(manager.failed_servers, names(&["flaky"]));

    manager.strict = true;
    let error = connect_all(&mut manager, &mut servers).err().expect("strict connect should fail");

    assert!(error.to_string().contains("connect failed"));
    assert_eq!(manager.active_server_names(), names(&["stable", "flaky"]));
    assert_eq!(manager.failed_servers, names(&["flaky"]));
    assert_eq!(servers.cleanup_calls, vec![1, 1]);
}

#[test]
fn strict_connect_restores_full_active_set_on_first_failure_when_not_dropping_failed() {
    let mut manager = MCPServerManager::new(names(&["stable", "flaky"]));
    let mut servers = Servers::new(vec![0, 1]);
    manager.drop_failed_servers = false;
    manager.strict = true;

    let error = connect_all(&mut manager, &mut servers).err().expect("strict connect should fail");

    assert!(error.to_string().contains("connect failed"));
    assert_eq!(manager.active_server_names(), names(&["stable", "flaky"]));
    assert_eq!(manager.failed_servers, names(&["flaky"]));
    assert_eq!(servers.cleanup_calls, vec![1, 1]);
}

#[test]
fn reconnect_failed_only_retries_failed_subset() {
    let mut manager = MCPServerManager::new(names(&["stable", "flaky"]));
    let mut servers = Servers::new(vec![0, 1]);

    connect_all(&mut manager, &mut servers).expect("initial connect should succeed");
    assert_eq!(manager.active_server_names(), names(&["stable"]));

    reconnect_failed(&mut manager, &mut servers).expect("retry should reconnect only failed server");

    assert_eq!(manager.active_server_names().len(), 2);
    assert_eq!(servers.cleanup_calls, vec![0, 0]);
}

#[test]
fn cleanup_clears_active_servers_and_connected_names() {
    let mut manager = MCPServerManager::new(names(&["ok"]));
    let mut servers = Servers::new(vec![0]);

    connect_all(&mut manager, &mut servers).expect("connect should succeed");
    assert_eq!(manager.cleanup_order(None), vec![0]);
    cleanup_all(&mut manager, &mut servers);

    assert!(manager.active_servers().is_empty());
    assert!(manager.cleanup_order(None).is_empty());
    assert_eq!(servers.cleanup_calls, vec![1]);
}

#[test]
fn cleanup_order_runs_from_the_last_server_and_skips_repeated_names() {
    let mut manager = MCPServerManager::new(names(&["a", "b", "a"]));
    let mut servers = Servers::new(vec![0, 0, 0]);
    connect_all(&mut manager, &mut servers).expect("connect should succeed");
    assert_eq!(manager.cleanup_order(None), vec![2, 1]);
    assert_eq!(manager.cleanup_order(Some(1)), vec![1, 2]);
}

#[test]
fn resolves_static_prompt() {
    let prompt = Prompt { id: "prompt-123".to_owned(), version: Some("v1".to_owned()), variables: JsonMap::new() };
    let resolved = PromptUtil::to_model_input(
        Some(PromptSpec::<fn(()) -> Result<Prompt, AgentsError>>::Static(prompt)),
        (),
    )
    .unwrap_or_else(|_| panic!("static prompt should resolve"));
    assert_eq!(resolved.map(|p| p.id).as_deref(), Some("prompt-123"));
}

#[test]
fn resolves_dynamic_prompt() {
    let callback = |_: ()| -> Result<Prompt, AgentsError> {
        Ok(Prompt { id: "dynamic".to_owned(), version: None, variables: JsonMap::new() })
    };
    let resolved = PromptUtil::to_model_input(Some(PromptSpec::Dynamic(callback)), ())
        .unwrap_or_else(|_| panic!("dynamic prompt should resolve"));
    assert_eq!(resolved.map(|p| p.id).as_deref(), Some("dynamic"));
}

#[test]
fn no_prompt_and_failing_callbacks() {
    let none = PromptUtil::to_model_input(None::<PromptSpec<fn(()) -> Result<Prompt, AgentsError>>>, ());
    assert!(matches!(none, Ok(None)));
    let failing = |_: ()| -> Result<Prompt, AgentsError> { Err(AgentsError::message("no prompt".to_owned())) };
    match PromptUtil::to_model_input(Some(PromptSpec::Dynamic(failing)), ()) {
        Err(e) => assert_eq!(e.to_string(), "no prompt"),
        Ok(_) => panic!("callback error should surface"),
    }
}

fn routed(provider: &MultiProvider<&'static str>, model: &str) -> Option<(&'static str, Option<String>)> {
    provider.resolve_provider_for_model(Some(model)).map(|(p, name)| (*p, name))
}

#[test]
fn routes_openai_alias_to_default_provider() {
    let provider = MultiProvider::new("default");
    assert_eq!(routed(&provider, "openai/gpt-5"), Some(("default", Some("gpt-5".to_owned()))));
}

#[test]
fn routes_explicit_prefixes_via_provider_map() {
    let mut map = MultiProviderMap::new();
    map.add_provider("custom".to_owned(), "custom");
    let provider = MultiProvider::new("default").with_provider_map(map);
    assert_eq!(routed(&provider, "custom/router-model"), Some(("custom", Some("router-model".to_owned()))));
}

#[test]
fn preserves_openai_prefix_as_literal_model_id_when_requested() {
    let provider = MultiProvider::new("default").with_openai_prefix_mode(MultiProviderOpenAIPrefixMode::ModelId);
    assert_eq!(routed(&provider, "openai/gpt-5"), Some(("default", Some("openai/gpt-5".to_owned()))));
}

#[test]
fn preserves_unknown_prefix_as_literal_model_id_when_requested() {
    let provider =
        MultiProvider::new("default").with_unknown_prefix_mode(MultiProviderUnknownPrefixMode::ModelId);
    assert_eq!(
        routed(&provider, "openrouter/openai/gpt-5"),
        Some(("default", Some("openrouter/openai/gpt-5".to_owned())))
    );
}

#[test]
fn explicit_provider_map_overrides_openai_prefix_mode() {
    let mut map = MultiProviderMap::new();
    map.add_provider("openai".to_owned(), "custom");
    let provider = MultiProvider::new("default")
        .with_provider_map(map)
        .with_openai_prefix_mode(MultiProviderOpenAIPrefixMode::ModelId);
    assert_eq!(routed(&provider, "openai/gpt-5"), Some(("custom", Some("gpt-5".to_owned()))));
}

#[test]
fn multi_provider_routes_models_predictably() {
    let alias = MultiProvider::new("default");
    assert_eq!(routed(&alias, "openai/gpt-5"), Some(("default", Some("gpt-5".to_owned()))));

    let literal = MultiProvider::new("default")
        .with_openai_prefix_mode(MultiProviderOpenAIPrefixMode::ModelId)
        .with_unknown_prefix_mode(MultiProviderUnknownPrefixMode::ModelId);
    assert_eq!(routed(&literal, "openai/gpt-5"), Some(("default", Some("openai/gpt-5".to_owned()))));
    assert_eq!(routed(&literal, "unknown/gpt-5"), Some(("default", Some("unknown/gpt-5".to_owned()))));

    let strict = MultiProvider::new("default");
    assert_eq!(routed(&strict, "unknown/gpt-5"), None);
    assert!(strict
        .unknown_prefix_message(Some("unknown/gpt-5"))
        .contains("unknown model provider prefix `unknown`"));

    let mut provider_map = MultiProviderMap::new();
    provider_map.add_provider("openrouter".to_owned(), "openrouter");
    provider_map.add_provider("openai".to_owned(), "explicit-openai");
    let mapped = MultiProvider::new("default")
        .with_provider_map(provider_map)
        .with_openai_prefix_mode(MultiProviderOpenAIPrefixMode::ModelId);
    assert_eq!(routed(&mapped, "openrouter/gpt-5"), Some(("openrouter", Some("gpt-5".to_owned()))));
    assert_eq!(routed(&mapped, "openai/gpt-5"), Some(("explicit-openai", Some("gpt-5".to_owned()))));
    assert_eq!(routed(&mapped, "gpt-5"), Some(("default", Some("gpt-5".to_owned()))));
}

#[test]
fn memory_session_respects_default_limit_setting() {
    let mut session = MemorySession::new("session".to_owned()).with_settings(SessionSettings { limit: Some(2) });
    session.add_items(vec![InputItem::from_text("a"), InputItem::from_text("b"), InputItem::from_text("c")]);

    let items = session.get_items();

    assert_eq!(items.len(), 2);
    assert_eq!(items[0].as_text(), Some("b"));
    assert_eq!(items[1].as_text(), Some("c"));
}

#[test]
fn memory_session_reads_back_pops_and_clears() {
    let mut session = MemorySession::new("s".to_owned());
    assert_eq!(session.session_id(), "s");
    session.add_items(vec![InputItem::from_text("a"), InputItem::from_text("b")]);
    assert_eq!(session.get_items_with_limit(Some(1)), vec![InputItem::from_text("b")]);
    assert_eq!(session.pop_item(), Some(InputItem::from_text("b")));
    assert_eq!(session.get_items(), vec![InputItem::from_text("a")]);
    session.clear_session();
    assert!(session.get_items().is_empty());
    assert_eq!(session.pop_item(), None);
}

#[test]
fn prepares_input_by_prefixing_session_history() {
    let history = vec![InputItem::from_text("history")];
    let (prepared, original_input, session_input_items) =
        combine_session_input(&history, &[InputItem::from_text("new")], None);

    assert_eq!(prepared.len(), 2);
    assert_eq!(prepared[0].as_text(), Some("history"));
    assert_eq!(prepared[1].as_text(), Some("new"));
    assert_eq!(original_input.len(), 1);
    assert_eq!(original_input[0].as_text(), Some("new"));
    assert_eq!(session_input_items.len(), 1);
    assert_eq!(session_input_items[0].as_text(), Some("new"));
}

#[test]
fn session_input_callback_returns_transformed_items_for_persistence() {
    let history = vec![InputItem::from_text("history")];
    let history_ids = vec![Some(InputItemIdentity::Text(1))];
    let new_items = vec![InputItem::from_text("secret")];
    let new_ids = vec![Some(InputItemIdentity::Text(2))];
    // The callback keeps the history item and replaces the new one.
    let combined = vec![InputItem::from_text("history"), InputItem::from_text("[redacted]")];
    let combined_ids = vec![Some(InputItemIdentity::Text(1)), Some(InputItemIdentity::Text(3))];

    let selected = select_session_input_items(&history, &history_ids, &new_items, &new_ids, &combined, &combined_ids);
    let (prepared, _original_input, session_items) =
        combine_session_input(&history, &new_items, Some((combined, selected)));

    assert_eq!(prepared.len(), 2);
    assert_eq!(prepared[0].as_text(), Some("history"));
    assert_eq!(prepared[1].as_text(), Some("[redacted]"));
    assert_eq!(session_items, vec![InputItem::from_text("[redacted]")]);
}

#[test]
fn session_input_callback_preserves_duplicate_value_provenance() {
    let history = vec![InputItem::from_text("same")];
    let history_ids = vec![Some(InputItemIdentity::Text(1))];
    let new_items = vec![InputItem::from_text("same")];
    let new_ids = vec![Some(InputItemIdentity::Text(2))];
    // The callback keeps only the history item.
    let combined = vec![InputItem::from_text("same")];
    let combined_ids = vec![Some(InputItemIdentity::Text(1))];

    let selected = select_session_input_items(&history, &history_ids, &new_items, &new_ids, &combined, &combined_ids);
    let (prepared, _original_input, session_items) =
        combine_session_input(&history, &new_items, Some((combined, selected)));

    assert_eq!(prepared, vec![InputItem::from_text("same")]);
    assert!(session_items.is_empty());
}

fn check_duplicate_json_provenance(value: fn() -> JsonValue, identity: fn(usize) -> Option<InputItemIdentity>) {
    let history = vec![InputItem::Json { value: value() }];
    let history_ids = vec![identity(1)];
    let new_items = vec![InputItem::Json { value: value() }];
    let new_ids = vec![identity(2)];
    // The callback keeps only the new item.
    let combined = vec![InputItem::Json { value: value() }];
    let combined_ids = vec![identity(2)];

    let selected = select_session_input_items(&history, &history_ids, &new_items, &new_ids, &combined, &combined_ids);
    let (prepared, _original_input, session_items) =
        combine_session_input(&history, &new_items, Some((combined, selected)));

    assert_eq!(prepared, vec![InputItem::Json { value: value() }]);
    assert_eq!(session_items, vec![InputItem::Json { value: value() }]);
}

fn message_object() -> JsonValue {
    JsonValue::Object(vec![
        JsonMember { key: "content".to_owned(), value: JsonValue::String("same".to_owned()) },
        JsonMember { key: "type".to_owned(), value: JsonValue::String("message".to_owned()) },
    ])
}

#[test]
fn session_input_callback_preserves_duplicate_json_object_provenance() {
    check_duplicate_json_provenance(message_object, |at| Some(InputItemIdentity::JsonObject { first_key: at, len: 2 }));
}

#[test]
fn session_input_callback_preserves_duplicate_empty_json_object_provenance() {
    check_duplicate_json_provenance(|| JsonValue::Object(vec![]), |_| None);
}

#[test]
fn session_input_callback_preserves_duplicate_json_number_provenance() {
    check_duplicate_json_provenance(|| JsonValue::Number("42".to_owned()), |_| None);
}

#[test]
fn session_input_callback_preserves_duplicate_json_bool_provenance() {
    check_duplicate_json_provenance(|| JsonValue::Bool(true), |_| None);
}

#[test]
fn session_input_callback_preserves_duplicate_json_null_provenance() {
    check_duplicate_json_provenance(|| JsonValue::Null, |_| None);
}
