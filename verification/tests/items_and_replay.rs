use agents_core::items::{
    apply_session_limit, build_message_output_items, extract_final_output_text, InputItem,
    OutputItem, RunItem,
};
use agents_core::json::{JsonMember, JsonValue};
use agents_core::replay::{
    compose_replay_input_items, prepare_model_input_items, sanitize_hosted_tool_replay_items,
    stable_replay_dedupe_key, trailing_generated_overlap, ReasoningItemIdPolicy,
};

fn s(text: &str) -> JsonValue {
    JsonValue::String(text.to_owned())
}

fn obj(members: &[(&str, JsonValue)]) -> JsonValue {
    JsonValue::Object(
        members
            .iter()
            .map(|(key, value)| JsonMember { key: (*key).to_owned(), value: clone_json(value) })
            .collect(),
    )
}

fn clone_json(value: &JsonValue) -> JsonValue {
    match value {
        JsonValue::Null => JsonValue::Null,
        JsonValue::Bool(b) => JsonValue::Bool(*b),
        JsonValue::Number(n) => JsonValue::Number(n.clone()),
        JsonValue::String(t) => JsonValue::String(t.clone()),
        JsonValue::Array(items) => JsonValue::Array(items.iter().map(clone_json).collect()),
        JsonValue::Object(members) => JsonValue::Object(
            members
                .iter()
                .map(|m| JsonMember { key: m.key.clone(), value: clone_json(&m.value) })
                .collect(),
        ),
    }
}

fn member_str<'a>(value: &'a JsonValue, key: &str) -> Option<&'a str> {
    match value {
        JsonValue::Object(members) => members.iter().find(|m| m.key == key).and_then(|m| match &m.value {
            JsonValue::String(t) => Some(t.as_str()),
            _ => None,
        }),
        _ => None,
    }
}

fn json_item(value: JsonValue) -> InputItem {
    InputItem::Json { value }
}

fn has_item(items: &[InputItem], kind: Option<&str>, call_id: &str) -> bool {
    items.iter().any(|item| match item {
        InputItem::Json { value } => {
            member_str(value, "call_id") == Some(call_id)
                && kind.map_or(true, |k| member_str(value, "type") == Some(k))
        }
        _ => false,
    })
}

fn search_output(text: &str) -> RunItem {
    RunItem::ToolCallOutput {
        tool_name: "search".to_owned(),
        output: OutputItem::Text { text: text.to_owned() },
        call_id: Some("call-1".to_owned()),
        namespace: None,
    }
}

fn search_output_json(text: &str) -> JsonValue {
    obj(&[
        ("call_id", s("call-1")),
        ("namespace", JsonValue::Null),
        ("output", obj(&[("text", s(text)), ("type", s("text"))])),
        ("tool_name", s("search")),
        ("type", s("tool_call_output")),
    ])
}

#[test]
fn prepares_model_input_from_history() {
    let input = vec![InputItem::from_text("hello")];
    let generated = vec![RunItem::Reasoning { text: "thinking".to_owned() }, search_output("found")];

    let prepared = prepare_model_input_items(&input, &generated, ReasoningItemIdPolicy::Preserve);

    assert_eq!(prepared.len(), 3);
    assert_eq!(prepared[0].as_text(), Some("hello"));
    assert_eq!(
        prepared[1],
        json_item(obj(&[("text", s("thinking")), ("type", s("reasoning"))]))
    );
    assert_eq!(prepared[2], json_item(search_output_json("found")));
}

#[test]
fn omits_reasoning_items_when_policy_requests_it() {
    let prepared = prepare_model_input_items(
        &[InputItem::from_text("hello")],
        &[RunItem::Reasoning { text: "thinking".to_owned() }, search_output("found")],
        ReasoningItemIdPolicy::Omit,
    );

    assert_eq!(prepared.len(), 2);
    assert_eq!(prepared[0].as_text(), Some("hello"));
    assert_eq!(prepared[1], json_item(search_output_json("found")));
}

#[test]
fn composes_replay_without_duplicating_overlapping_generated_items() {
    let tool_call = obj(&[
        ("arguments", obj(&[("query", s("rust"))])),
        ("call_id", s("call-1")),
        ("namespace", JsonValue::Null),
        ("tool_name", s("search")),
        ("type", s("tool_call")),
    ]);
    let replay = compose_replay_input_items(
        &[
            InputItem::from_text("filtered"),
            json_item(tool_call),
            json_item(search_output_json("found")),
        ],
        &[
            RunItem::ToolCall {
                tool_name: "search".to_owned(),
                arguments: obj(&[("query", s("rust"))]),
                call_id: Some("call-1".to_owned()),
                namespace: None,
            },
            search_output("found"),
            RunItem::MessageOutput { content: OutputItem::Text { text: "done".to_owned() } },
        ],
        ReasoningItemIdPolicy::Preserve,
    );

    assert_eq!(replay[0].as_text(), Some("filtered"));
    assert_eq!(replay.iter().filter(|item| item.as_text() == Some("done")).count(), 1);
    assert_eq!(replay.len(), 4);
}

#[test]
fn composes_replay_preserving_repeated_generated_message_items() {
    let replay = compose_replay_input_items(
        &[InputItem::from_text("done")],
        &[RunItem::MessageOutput { content: OutputItem::Text { text: "done".to_owned() } }],
        ReasoningItemIdPolicy::Preserve,
    );

    assert_eq!(replay, vec![InputItem::from_text("done"), InputItem::from_text("done")]);
}

#[test]
fn drops_orphan_hosted_tool_artifacts_and_keeps_pending_calls() {
    let replay = compose_replay_input_items(
        &[
            json_item(obj(&[
                ("action", obj(&[("command", s("echo orphan"))])),
                ("call_id", s("shell-orphan")),
                ("status", s("completed")),
                ("type", s("shell_call")),
            ])),
            json_item(obj(&[
                ("arguments", obj(&[("query", s("rust"))])),
                ("call_id", s("search-keep")),
                ("status", s("completed")),
                ("type", s("tool_search_call")),
            ])),
            json_item(obj(&[
                ("call_id", s("search-keep")),
                ("status", s("completed")),
                ("tools", JsonValue::Array(vec![])),
                ("type", s("tool_search_output")),
            ])),
            json_item(obj(&[
                ("call_id", s("search-orphan-output")),
                ("status", s("completed")),
                ("tools", JsonValue::Array(vec![])),
                ("type", s("tool_search_output")),
            ])),
            json_item(obj(&[
                ("arguments", s("{}")),
                ("call_id", s("pending-user-call")),
                ("name", s("lookup")),
                ("type", s("function_call")),
            ])),
        ],
        &[],
        ReasoningItemIdPolicy::Preserve,
    );

    assert_eq!(replay.len(), 3);
    assert!(has_item(&replay, Some("tool_search_call"), "search-keep"));
    assert!(has_item(&replay, Some("tool_search_output"), "search-keep"));
    assert!(has_item(&replay, Some("function_call"), "pending-user-call"));
    assert!(!has_item(&replay, None, "shell-orphan"));
    assert!(!has_item(&replay, None, "search-orphan-output"));
}

#[test]
fn keeps_pending_hosted_tool_calls_without_outputs() {
    let replay = compose_replay_input_items(
        &[json_item(obj(&[
            ("arguments", obj(&[("query", s("continue"))])),
            ("call_id", s("pending-tool-search")),
            ("status", s("pending")),
            ("type", s("tool_search_call")),
        ]))],
        &[],
        ReasoningItemIdPolicy::Preserve,
    );

    assert_eq!(replay.len(), 1);
    assert!(has_item(&replay, None, "pending-tool-search"));
}

#[test]
fn prepare_model_input_preserves_caller_supplied_hosted_items() {
    let prepared = prepare_model_input_items(
        &[
            json_item(obj(&[
                ("action", obj(&[("command", s("echo keep-me"))])),
                ("call_id", s("shell-orphan")),
                ("status", s("completed")),
                ("type", s("shell_call")),
            ])),
            json_item(obj(&[
                ("call_id", s("search-orphan-output")),
                ("status", s("completed")),
                ("tools", JsonValue::Array(vec![])),
                ("type", s("tool_search_output")),
            ])),
            json_item(obj(&[
                ("arguments", s("{}")),
                ("call_id", s("pending-user-call")),
                ("name", s("lookup")),
                ("type", s("function_call")),
            ])),
        ],
        &[],
        ReasoningItemIdPolicy::Preserve,
    );

    assert_eq!(prepared.len(), 3);
    assert!(has_item(&prepared, None, "shell-orphan"));
    assert!(has_item(&prepared, None, "search-orphan-output"));
    assert!(has_item(&prepared, None, "pending-user-call"));
}

#[test]
fn builds_run_items_from_output() {
    let output = vec![OutputItem::Text { text: "hello".to_owned() }];

    let items = build_message_output_items(&output);

    assert_eq!(items.len(), 1);
    assert_eq!(extract_final_output_text(&output).as_deref(), Some("hello"));
}

#[test]
fn converts_tool_call_output_to_structured_input() {
    let item = RunItem::ToolCallOutput {
        tool_name: "search".to_owned(),
        output: OutputItem::Text { text: "result".to_owned() },
        call_id: Some("call-1".to_owned()),
        namespace: Some("knowledge".to_owned()),
    };

    let input = item.to_input_item().expect("tool output should convert");

    assert_eq!(
        input,
        json_item(obj(&[
            ("call_id", s("call-1")),
            ("namespace", s("knowledge")),
            ("output", obj(&[("text", s("result")), ("type", s("text"))])),
            ("tool_name", s("search")),
            ("type", s("tool_call_output")),
        ]))
    );
}

#[test]
fn applies_latest_item_limit_in_chronological_order() {
    let items = vec![InputItem::from_text("a"), InputItem::from_text("b"), InputItem::from_text("c")];

    let limited = apply_session_limit(&items, Some(2));

    assert_eq!(limited[0].as_text(), Some("b"));
    assert_eq!(limited[1].as_text(), Some("c"));
}

#[test]
fn session_limit_of_zero_keeps_nothing_and_none_keeps_all() {
    let items = vec![InputItem::from_text("a"), InputItem::from_text("b")];
    assert!(apply_session_limit(&items, Some(0)).is_empty());
    assert_eq!(apply_session_limit(&items, None), items);
    assert_eq!(apply_session_limit(&items, Some(5)), items);
}

#[test]
fn build_message_output_items_maps_each_output_kind() {
    let output = vec![
        OutputItem::ToolCall {
            call_id: "c1".to_owned(),
            tool_name: "lookup".to_owned(),
            arguments: JsonValue::Null,
            namespace: None,
        },
        OutputItem::Handoff { target_agent: "billing".to_owned() },
        OutputItem::Reasoning { text: "hmm".to_owned() },
        OutputItem::Json { value: JsonValue::Bool(true) },
    ];
    let items = build_message_output_items(&output);
    assert_eq!(
        items,
        vec![
            RunItem::ToolCall {
                tool_name: "lookup".to_owned(),
                arguments: JsonValue::Null,
                call_id: Some("c1".to_owned()),
                namespace: None,
            },
            RunItem::HandoffCall { target_agent: "billing".to_owned() },
            RunItem::Reasoning { text: "hmm".to_owned() },
            RunItem::MessageOutput { content: OutputItem::Json { value: JsonValue::Bool(true) } },
        ]
    );
    assert_eq!(extract_final_output_text(&output), None);
}

#[test]
fn replay_law_history_without_hosted_items_is_kept_whole() {
    let base = vec![InputItem::from_text("question"), json_item(obj(&[("role", s("user"))]))];
    let replay = compose_replay_input_items(&base, &[], ReasoningItemIdPolicy::Preserve);
    assert_eq!(replay, base);
}

#[test]
fn trailing_overlap_counts_shared_suffix_prefix() {
    let call = || json_item(obj(&[("call_id", s("c1")), ("type", s("function_call"))]));
    let base = vec![InputItem::from_text("x"), call(), InputItem::from_text("a")];
    let generated = vec![call(), InputItem::from_text("a"), InputItem::from_text("c")];
    assert_eq!(trailing_generated_overlap(&base, &generated), 2);
    // Plain texts alone carry no key by which they are recognized again.
    let texts = vec![InputItem::from_text("a"), InputItem::from_text("b")];
    assert_eq!(trailing_generated_overlap(&texts, &texts), 0);
    assert_eq!(trailing_generated_overlap(&base, &[InputItem::from_text("z")]), 0);
}

#[test]
fn dedupe_key_of_text_and_hosted_items() {
    assert_eq!(stable_replay_dedupe_key(&InputItem::from_text("hi")), None);
    let call = json_item(obj(&[("call_id", s("c7")), ("type", s("function_call"))]));
    assert_eq!(stable_replay_dedupe_key(&call).as_deref(), Some("call:function_call:c7"));
    let with_id = json_item(obj(&[("call_id", s("c7")), ("id", s("r1")), ("type", s("reasoning"))]));
    assert_eq!(stable_replay_dedupe_key(&with_id).as_deref(), Some("id:reasoning:r1"));
    let sanitized = sanitize_hosted_tool_replay_items(&[json_item(obj(&[
        ("call_id", s("orphan")),
        ("type", s("shell_call_output")),
    ]))]);
    assert!(sanitized.is_empty());
}
