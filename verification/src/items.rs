//! Input, output and run items, and how run items are replayed as input.
use vstd::prelude::*;

use crate::json::{
    json_clone, json_eq, json_view, lemma_members_view, members_view, Json, JsonMember, JsonValue,
};
use crate::text::{copy_opt_string, copy_string, opt_view, str_eq};

verus! {

/// Input items passed into a run.
#[derive(Debug, PartialEq)]
pub enum InputItem {
    Text { text: String },
    Json { value: JsonValue },
}

/// Output items emitted by a run.
#[derive(Debug, PartialEq)]
pub enum OutputItem {
    Text { text: String },
    Json { value: JsonValue },
    ToolCall { call_id: String, tool_name: String, arguments: JsonValue, namespace: Option<String> },
    Handoff { target_agent: String },
    Reasoning { text: String },
}

/// Replayable run items produced while executing an agent.
#[derive(Debug, PartialEq)]
pub enum RunItem {
    MessageOutput { content: OutputItem },
    ToolCall {
        tool_name: String,
        arguments: JsonValue,
        call_id: Option<String>,
        namespace: Option<String>,
    },
    ToolCallOutput {
        tool_name: String,
        output: OutputItem,
        call_id: Option<String>,
        namespace: Option<String>,
    },
    HandoffCall { target_agent: String },
    HandoffOutput { source_agent: String },
    Reasoning { text: String },
}

/// What an input item stands for.
pub enum InputView {
    Text(Seq<char>),
    Json(Json),
}

/// What an output item stands for.
pub enum OutputView {
    Text(Seq<char>),
    Json(Json),
    ToolCall {
        call_id: Seq<char>,
        tool_name: Seq<char>,
        arguments: Json,
        namespace: Option<Seq<char>>,
    },
    Handoff(Seq<char>),
    Reasoning(Seq<char>),
}

/// What a run item stands for.
pub enum RunView {
    MessageOutput(OutputView),
    ToolCall {
        tool_name: Seq<char>,
        arguments: Json,
        call_id: Option<Seq<char>>,
        namespace: Option<Seq<char>>,
    },
    ToolCallOutput {
        tool_name: Seq<char>,
        output: OutputView,
        call_id: Option<Seq<char>>,
        namespace: Option<Seq<char>>,
    },
    HandoffCall(Seq<char>),
    HandoffOutput(Seq<char>),
    Reasoning(Seq<char>),
}

impl View for InputItem {
    type V = InputView;

    open spec fn view(&self) -> InputView {
        match self {
            InputItem::Text { text } => InputView::Text(text@),
            InputItem::Json { value } => InputView::Json(json_view(*value)),
        }
    }
}

impl View for OutputItem {
    type V = OutputView;

    open spec fn view(&self) -> OutputView {
        match self {
            OutputItem::Text { text } => OutputView::Text(text@),
            OutputItem::Json { value } => OutputView::Json(json_view(*value)),
            OutputItem::ToolCall { call_id, tool_name, arguments, namespace } => OutputView::ToolCall {
                call_id: call_id@,
                tool_name: tool_name@,
                arguments: json_view(*arguments),
                namespace: opt_view(*namespace),
            },
            OutputItem::Handoff { target_agent } => OutputView::Handoff(target_agent@),
            OutputItem::Reasoning { text } => OutputView::Reasoning(text@),
        }
    }
}

impl View for RunItem {
    type V = RunView;

    open spec fn view(&self) -> RunView {
        match self {
            RunItem::MessageOutput { content } => RunView::MessageOutput(content@),
            RunItem::ToolCall { tool_name, arguments, call_id, namespace } => RunView::ToolCall {
                tool_name: tool_name@,
                arguments: json_view(*arguments),
                call_id: opt_view(*call_id),
                namespace: opt_view(*namespace),
            },
            RunItem::ToolCallOutput { tool_name, output, call_id, namespace } =>
                RunView::ToolCallOutput {
                tool_name: tool_name@,
                output: output@,
                call_id: opt_view(*call_id),
                namespace: opt_view(*namespace),
            },
            RunItem::HandoffCall { target_agent } => RunView::HandoffCall(target_agent@),
            RunItem::HandoffOutput { source_agent } => RunView::HandoffOutput(source_agent@),
            RunItem::Reasoning { text } => RunView::Reasoning(text@),
        }
    }
}

/// The items a vector of input items stands for.
pub open spec fn inputs_view(s: Seq<InputItem>) -> Seq<InputView> {
    s.map_values(|i: InputItem| i@)
}

/// The items a vector of run items stands for.
pub open spec fn runs_view(s: Seq<RunItem>) -> Seq<RunView> {
    s.map_values(|i: RunItem| i@)
}

/// The items a vector of output items stands for.
pub open spec fn outputs_view(s: Seq<OutputItem>) -> Seq<OutputView> {
    s.map_values(|i: OutputItem| i@)
}

/// A JSON string.
pub open spec fn jstr(s: Seq<char>) -> Json {
    Json::Str(s)
}

/// A JSON string, or `null` for `None`.
pub open spec fn jopt(s: Option<Seq<char>>) -> Json {
    match s {
        Some(v) => Json::Str(v),
        None => Json::Null,
    }
}

/// How an output item is serialized: tagged by `type`, members in key order.
pub open spec fn output_json(o: OutputView) -> Json {
    match o {
        OutputView::Text(text) => Json::Object(seq![("text"@, jstr(text)), ("type"@, jstr("text"@))]),
        OutputView::Json(value) => Json::Object(seq![("type"@, jstr("json"@)), ("value"@, value)]),
        OutputView::ToolCall { call_id, tool_name, arguments, namespace } => Json::Object(
            seq![
                ("arguments"@, arguments),
                ("call_id"@, jstr(call_id)),
                ("namespace"@, jopt(namespace)),
                ("tool_name"@, jstr(tool_name)),
                ("type"@, jstr("tool_call"@)),
            ],
        ),
        OutputView::Handoff(target) => Json::Object(
            seq![("target_agent"@, jstr(target)), ("type"@, jstr("handoff"@))],
        ),
        OutputView::Reasoning(text) => Json::Object(
            seq![("text"@, jstr(text)), ("type"@, jstr("reasoning"@))],
        ),
    }
}

/// The replay form of a reasoning text.
pub open spec fn reasoning_json(text: Seq<char>) -> Json {
    Json::Object(seq![("text"@, jstr(text)), ("type"@, jstr("reasoning"@))])
}

/// The replay form of a handoff call.
pub open spec fn handoff_call_json(target: Seq<char>) -> Json {
    Json::Object(seq![("target_agent"@, jstr(target)), ("type"@, jstr("handoff_call"@))])
}

/// The replay form of a tool call.
pub open spec fn tool_call_json(
    arguments: Json,
    call_id: Json,
    namespace: Option<Seq<char>>,
    tool_name: Seq<char>,
) -> Json {
    Json::Object(
        seq![
            ("arguments"@, arguments),
            ("call_id"@, call_id),
            ("namespace"@, jopt(namespace)),
            ("tool_name"@, jstr(tool_name)),
            ("type"@, jstr("tool_call"@)),
        ],
    )
}

/// The input item a model output item is replayed as.
pub open spec fn output_as_input(o: OutputView) -> InputView {
    match o {
        OutputView::Text(text) => InputView::Text(text),
        OutputView::Json(value) => InputView::Json(value),
        OutputView::Reasoning(text) => InputView::Json(reasoning_json(text)),
        OutputView::ToolCall { call_id, tool_name, arguments, namespace } => InputView::Json(
            tool_call_json(arguments, jstr(call_id), namespace, tool_name),
        ),
        OutputView::Handoff(target) => InputView::Json(handoff_call_json(target)),
    }
}

/// The input item a run item is replayed as.
pub open spec fn run_as_input(r: RunView) -> InputView {
    match r {
        RunView::MessageOutput(content) => output_as_input(content),
        RunView::ToolCall { tool_name, arguments, call_id, namespace } => InputView::Json(
            tool_call_json(arguments, jopt(call_id), namespace, tool_name),
        ),
        RunView::ToolCallOutput { tool_name, output, call_id, namespace } => InputView::Json(
            Json::Object(
                seq![
                    ("call_id"@, jopt(call_id)),
                    ("namespace"@, jopt(namespace)),
                    ("output"@, output_json(output)),
                    ("tool_name"@, jstr(tool_name)),
                    ("type"@, jstr("tool_call_output"@)),
                ],
            ),
        ),
        RunView::HandoffCall(target) => InputView::Json(handoff_call_json(target)),
        RunView::HandoffOutput(source) => InputView::Json(
            Json::Object(seq![("source_agent"@, jstr(source)), ("type"@, jstr("handoff_output"@))]),
        ),
        RunView::Reasoning(text) => InputView::Json(reasoning_json(text)),
    }
}

/// A JSON string value.
pub(crate) fn json_string(s: &str) -> (res: JsonValue)
    ensures
        json_view(res) == Json::Str(s@),
{
    JsonValue::String(String::from_str(s))
}

/// A JSON string value, or `null`.
fn json_opt_string(s: &Option<String>) -> (res: JsonValue)
    ensures
        json_view(res) == jopt(opt_view(*s)),
{
    match s {
        Some(v) => JsonValue::String(copy_string(v)),
        None => JsonValue::Null,
    }
}

/// An object member.
pub(crate) fn member(key: &str, value: JsonValue) -> (res: JsonMember)
    ensures
        res.key@ == key@,
        res.value == value,
{
    JsonMember { key: String::from_str(key), value }
}

/// An object with two members.
pub(crate) fn object2(a: JsonMember, b: JsonMember) -> (res: JsonValue)
    ensures
        json_view(res) == Json::Object(
            seq![(a.key@, json_view(a.value)), (b.key@, json_view(b.value))],
        ),
{
    let mut v: Vec<JsonMember> = Vec::new();
    v.push(a);
    v.push(b);
    proof {
        lemma_members_view(v@);
        assert(members_view(v@) =~= seq![
            (a.key@, json_view(a.value)),
            (b.key@, json_view(b.value)),
        ]);
    }
    JsonValue::Object(v)
}

/// An object with five members.
fn object5(a: JsonMember, b: JsonMember, c: JsonMember, d: JsonMember, e: JsonMember) -> (res:
    JsonValue)
    ensures
        json_view(res) == Json::Object(
            seq![
                (a.key@, json_view(a.value)),
                (b.key@, json_view(b.value)),
                (c.key@, json_view(c.value)),
                (d.key@, json_view(d.value)),
                (e.key@, json_view(e.value)),
            ],
        ),
{
    let ghost expected = seq![
        (a.key@, json_view(a.value)),
        (b.key@, json_view(b.value)),
        (c.key@, json_view(c.value)),
        (d.key@, json_view(d.value)),
        (e.key@, json_view(e.value)),
    ];
    let mut v: Vec<JsonMember> = Vec::new();
    v.push(a);
    v.push(b);
    v.push(c);
    v.push(d);
    v.push(e);
    proof {
        lemma_members_view(v@);
        assert(members_view(v@) =~= expected);
    }
    JsonValue::Object(v)
}

impl OutputItem {
    /// The text of a plain text output.
    pub fn as_text(&self) -> (res: Option<&str>)
        ensures
            match res {
                Some(t) => self@ == OutputView::Text(t@),
                None => !(self@ is Text),
            },
    {
        match self {
            OutputItem::Text { text } => Some(text.as_str()),
            _ => None,
        }
    }

    /// The serialized form of this item.
    pub fn to_json(&self) -> (res: JsonValue)
        ensures
            json_view(res) == output_json(self@),
    {
        match self {
            OutputItem::Text { text } => object2(
                member("text", JsonValue::String(copy_string(text))),
                member("type", json_string("text")),
            ),
            OutputItem::Json { value } => object2(
                member("type", json_string("json")),
                member("value", json_clone(value)),
            ),
            OutputItem::ToolCall { call_id, tool_name, arguments, namespace } => object5(
                member("arguments", json_clone(arguments)),
                member("call_id", JsonValue::String(copy_string(call_id))),
                member("namespace", json_opt_string(namespace)),
                member("tool_name", JsonValue::String(copy_string(tool_name))),
                member("type", json_string("tool_call")),
            ),
            OutputItem::Handoff { target_agent } => object2(
                member("target_agent", JsonValue::String(copy_string(target_agent))),
                member("type", json_string("handoff")),
            ),
            OutputItem::Reasoning { text } => object2(
                member("text", JsonValue::String(copy_string(text))),
                member("type", json_string("reasoning")),
            ),
        }
    }

    /// Copies this item.
    pub fn copy(&self) -> (res: OutputItem)
        ensures
            res@ == self@,
    {
        match self {
            OutputItem::Text { text } => OutputItem::Text { text: copy_string(text) },
            OutputItem::Json { value } => OutputItem::Json { value: json_clone(value) },
            OutputItem::ToolCall { call_id, tool_name, arguments, namespace } => OutputItem::ToolCall {
                call_id: copy_string(call_id),
                tool_name: copy_string(tool_name),
                arguments: json_clone(arguments),
                namespace: copy_opt_string(namespace),
            },
            OutputItem::Handoff { target_agent } => OutputItem::Handoff {
                target_agent: copy_string(target_agent),
            },
            OutputItem::Reasoning { text } => OutputItem::Reasoning { text: copy_string(text) },
        }
    }

    /// The input item this model output is replayed as.
    pub fn to_input_item(&self) -> (res: InputItem)
        ensures
            res@ == output_as_input(self@),
    {
        match self {
            OutputItem::Text { text } => InputItem::Text { text: copy_string(text) },
            OutputItem::Json { value } => InputItem::Json { value: json_clone(value) },
            OutputItem::Reasoning { text } => InputItem::Json { value: reasoning_value(text) },
            OutputItem::ToolCall { call_id, tool_name, arguments, namespace } => InputItem::Json {
                value: object5(
                    member("arguments", json_clone(arguments)),
                    member("call_id", JsonValue::String(copy_string(call_id))),
                    member("namespace", json_opt_string(namespace)),
                    member("tool_name", JsonValue::String(copy_string(tool_name))),
                    member("type", json_string("tool_call")),
                ),
            },
            OutputItem::Handoff { target_agent } => InputItem::Json {
                value: handoff_call_value(target_agent),
            },
        }
    }
}

/// The replay form of a reasoning text.
fn reasoning_value(text: &String) -> (res: JsonValue)
    ensures
        json_view(res) == reasoning_json(text@),
{
    object2(
        member("text", JsonValue::String(copy_string(text))),
        member("type", json_string("reasoning")),
    )
}

/// The replay form of a handoff call.
fn handoff_call_value(target: &String) -> (res: JsonValue)
    ensures
        json_view(res) == handoff_call_json(target@),
{
    object2(
        member("target_agent", JsonValue::String(copy_string(target))),
        member("type", json_string("handoff_call")),
    )
}

impl InputItem {
    /// The text of a plain text input.
    pub fn as_text(&self) -> (res: Option<&str>)
        ensures
            match res {
                Some(t) => self@ == InputView::Text(t@),
                None => !(self@ is Text),
            },
    {
        match self {
            InputItem::Text { text } => Some(text.as_str()),
            InputItem::Json { .. } => None,
        }
    }

    /// A plain text input.
    pub fn from_text(text: &str) -> (res: InputItem)
        ensures
            res@ == InputView::Text(text@),
    {
        InputItem::Text { text: String::from_str(text) }
    }

    /// Copies this item.
    pub fn copy(&self) -> (res: InputItem)
        ensures
            res@ == self@,
    {
        match self {
            InputItem::Text { text } => InputItem::Text { text: copy_string(text) },
            InputItem::Json { value } => InputItem::Json { value: json_clone(value) },
        }
    }

    /// Whether two input items are the same item.
    pub fn same_as(&self, other: &InputItem) -> (res: bool)
        ensures
            res == (self@ == other@),
    {
        match (self, other) {
            (InputItem::Text { text: a }, InputItem::Text { text: b }) => str_eq(a.as_str(), b.as_str()),
            (InputItem::Json { value: a }, InputItem::Json { value: b }) => json_eq(a, b),
            _ => false,
        }
    }
}

impl RunItem {
    /// The input item this run item is replayed as.
    pub fn to_input_item(&self) -> (res: Option<InputItem>)
        ensures
            match res {
                Some(i) => i@ == run_as_input(self@),
                None => false,
            },
    {
        match self {
            RunItem::MessageOutput { content } => Some(content.to_input_item()),
            RunItem::ToolCall { tool_name, arguments, call_id, namespace } => Some(
                InputItem::Json {
                    value: object5(
                        member("arguments", json_clone(arguments)),
                        member("call_id", json_opt_string(call_id)),
                        member("namespace", json_opt_string(namespace)),
                        member("tool_name", JsonValue::String(copy_string(tool_name))),
                        member("type", json_string("tool_call")),
                    ),
                },
            ),
            RunItem::ToolCallOutput { tool_name, output, call_id, namespace } => Some(
                InputItem::Json {
                    value: object5(
                        member("call_id", json_opt_string(call_id)),
                        member("namespace", json_opt_string(namespace)),
                        member("output", output.to_json()),
                        member("tool_name", JsonValue::String(copy_string(tool_name))),
                        member("type", json_string("tool_call_output")),
                    ),
                },
            ),
            RunItem::HandoffCall { target_agent } => Some(
                InputItem::Json { value: handoff_call_value(target_agent) },
            ),
            RunItem::HandoffOutput { source_agent } => Some(
                InputItem::Json {
                    value: object2(
                        member("source_agent", JsonValue::String(copy_string(source_agent))),
                        member("type", json_string("handoff_output")),
                    ),
                },
            ),
            RunItem::Reasoning { text } => Some(InputItem::Json { value: reasoning_value(text) }),
        }
    }

    /// Copies this item.
    pub fn copy(&self) -> (res: RunItem)
        ensures
            res@ == self@,
    {
        match self {
            RunItem::MessageOutput { content } => RunItem::MessageOutput { content: content.copy() },
            RunItem::ToolCall { tool_name, arguments, call_id, namespace } => RunItem::ToolCall {
                tool_name: copy_string(tool_name),
                arguments: json_clone(arguments),
                call_id: copy_opt_string(call_id),
                namespace: copy_opt_string(namespace),
            },
            RunItem::ToolCallOutput { tool_name, output, call_id, namespace } =>
                RunItem::ToolCallOutput {
                tool_name: copy_string(tool_name),
                output: output.copy(),
                call_id: copy_opt_string(call_id),
                namespace: copy_opt_string(namespace),
            },
            RunItem::HandoffCall { target_agent } => RunItem::HandoffCall {
                target_agent: copy_string(target_agent),
            },
            RunItem::HandoffOutput { source_agent } => RunItem::HandoffOutput {
                source_agent: copy_string(source_agent),
            },
            RunItem::Reasoning { text } => RunItem::Reasoning { text: copy_string(text) },
        }
    }
}

/// Conversions between run items and input items.
pub struct ItemHelpers;

impl ItemHelpers {
    /// The input item a run item is replayed as.
    pub fn to_input_item(item: &RunItem) -> (res: Option<InputItem>)
        ensures
            match res {
                Some(i) => i@ == run_as_input(item@),
                None => false,
            },
    {
        item.to_input_item()
    }

    /// The input items a list of run items is replayed as.
    pub fn to_input_items(items: &[RunItem]) -> (res: Vec<InputItem>)
        ensures
            inputs_view(res@) == runs_view(items@).map_values(|r: RunView| run_as_input(r)),
    {
        let mut out: Vec<InputItem> = Vec::new();
        let mut i: usize = 0;
        while i < items.len()
            invariant
                i <= items@.len(),
                inputs_view(out@) =~= runs_view(items@).subrange(0, i as int).map_values(
                    |r: RunView| run_as_input(r),
                ),
            decreases items@.len() - i,
        {
            let ghost prev = out@;
            match items[i].to_input_item() {
                Some(x) => {
                    out.push(x);
                    proof {
                        assert(inputs_view(out@) =~= inputs_view(prev).push(x@));
                        assert(runs_view(items@).subrange(0, i + 1) =~= runs_view(items@).subrange(
                            0,
                            i as int,
                        ).push(items@[i as int]@));
                    }
                },
                None => {},
            }
            i = i + 1;
        }
        assert(runs_view(items@).subrange(0, items@.len() as int) =~= runs_view(items@));
        out
    }

    /// The text of a plain text output.
    pub fn extract_text(item: &OutputItem) -> (res: Option<&str>)
        ensures
            match res {
                Some(t) => item@ == OutputView::Text(t@),
                None => !(item@ is Text),
            },
    {
        item.as_text()
    }

    /// Whether a run item is a tool call.
    pub fn is_tool_call(item: &RunItem) -> (res: bool)
        ensures
            res == (item@ is ToolCall),
    {
        match item {
            RunItem::ToolCall { .. } => true,
            _ => false,
        }
    }
}

/// The text outputs, in order.
pub open spec fn text_outputs(output: Seq<OutputView>) -> Seq<Seq<char>>
    decreases output.len(),
{
    if output.len() == 0 {
        Seq::empty()
    } else {
        let prev = text_outputs(output.drop_last());
        match output.last() {
            OutputView::Text(t) => prev.push(t),
            _ => prev,
        }
    }
}

/// The texts of the plain text outputs, in order.
pub fn extract_text_outputs(output: &[OutputItem]) -> (res: Vec<String>)
    ensures
        res@.map_values(|s: String| s@) == text_outputs(outputs_view(output@)),
{
    let mut out: Vec<String> = Vec::new();
    let mut i: usize = 0;
    while i < output.len()
        invariant
            i <= output@.len(),
            out@.map_values(|s: String| s@) =~= text_outputs(
                outputs_view(output@).subrange(0, i as int),
            ),
        decreases output@.len() - i,
    {
        proof {
            let p = outputs_view(output@).subrange(0, i + 1);
            assert(p.drop_last() =~= outputs_view(output@).subrange(0, i as int));
        }
        match &output[i] {
            OutputItem::Text { text } => {
                out.push(copy_string(text));
            },
            _ => {},
        }
        i = i + 1;
    }
    assert(outputs_view(output@).subrange(0, output@.len() as int) =~= outputs_view(output@));
    out
}

/// The first plain text output, if any.
pub fn extract_final_output_text(output: &[OutputItem]) -> (res: Option<String>)
    ensures
        opt_view(res) == (if text_outputs(outputs_view(output@)).len() > 0 {
            Some(text_outputs(outputs_view(output@))[0])
        } else {
            None
        }),
{
    let texts = extract_text_outputs(output);
    if texts.len() > 0 {
        assert(texts@.map_values(|s: String| s@)[0] == texts@[0]@);
        Some(copy_string(&texts[0]))
    } else {
        None
    }
}

/// The run item recorded for a model output item.
pub open spec fn output_as_run_item(o: OutputView) -> RunView {
    match o {
        OutputView::ToolCall { call_id, tool_name, arguments, namespace } => RunView::ToolCall {
            tool_name,
            arguments,
            call_id: Some(call_id),
            namespace,
        },
        OutputView::Handoff(target) => RunView::HandoffCall(target),
        OutputView::Reasoning(text) => RunView::Reasoning(text),
        content => RunView::MessageOutput(content),
    }
}

/// The run items recorded for model output: tool calls, handoffs and reasoning get
/// their own kinds; text and JSON become message outputs.
pub fn build_message_output_items(output: &[OutputItem]) -> (res: Vec<RunItem>)
    ensures
        runs_view(res@) == outputs_view(output@).map_values(|o: OutputView| output_as_run_item(o)),
{
    let mut out: Vec<RunItem> = Vec::new();
    let mut i: usize = 0;
    while i < output.len()
        invariant
            i <= output@.len(),
            runs_view(out@) =~= outputs_view(output@).subrange(0, i as int).map_values(
                |o: OutputView| output_as_run_item(o),
            ),
        decreases output@.len() - i,
    {
        let item = match &output[i] {
            OutputItem::ToolCall { call_id, tool_name, arguments, namespace } => RunItem::ToolCall {
                tool_name: copy_string(tool_name),
                arguments: json_clone(arguments),
                call_id: Some(copy_string(call_id)),
                namespace: copy_opt_string(namespace),
            },
            OutputItem::Handoff { target_agent } => RunItem::HandoffCall {
                target_agent: copy_string(target_agent),
            },
            OutputItem::Reasoning { text } => RunItem::Reasoning { text: copy_string(text) },
            content => RunItem::MessageOutput { content: content.copy() },
        };
        let ghost prev = out@;
        out.push(item);
        proof {
            assert(runs_view(out@) =~= runs_view(prev).push(item@));
            assert(outputs_view(output@).subrange(0, i + 1) =~= outputs_view(output@).subrange(
                0,
                i as int,
            ).push(output@[i as int]@));
        }
        i = i + 1;
    }
    assert(outputs_view(output@).subrange(0, output@.len() as int) =~= outputs_view(output@));
    out
}

/// Copies a list of input items.
pub fn copy_input_items(items: &[InputItem]) -> (res: Vec<InputItem>)
    ensures
        inputs_view(res@) == inputs_view(items@),
{
    let mut out: Vec<InputItem> = Vec::new();
    let mut i: usize = 0;
    while i < items.len()
        invariant
            i <= items@.len(),
            inputs_view(out@) =~= inputs_view(items@).subrange(0, i as int),
        decreases items@.len() - i,
    {
        let ghost prev = out@;
        let x = items[i].copy();
        out.push(x);
        proof {
            assert(inputs_view(out@) =~= inputs_view(prev).push(x@));
        }
        i = i + 1;
    }
    assert(inputs_view(items@).subrange(0, items@.len() as int) =~= inputs_view(items@));
    out
}

/// The latest `limit` items, in their original order; all of them without a limit.
pub open spec fn limited<T>(items: Seq<T>, limit: Option<usize>) -> Seq<T> {
    match limit {
        Some(l) => if items.len() > l {
            items.subrange(items.len() - l, items.len() as int)
        } else {
            items
        },
        None => items,
    }
}

/// Keeps the latest `limit` items, in their original order.
pub fn apply_session_limit(items: &[InputItem], limit: Option<usize>) -> (res: Vec<InputItem>)
    ensures
        inputs_view(res@) == limited(inputs_view(items@), limit),
{
    let start: usize = match limit {
        Some(l) => if items.len() > l {
            items.len() - l
        } else {
            0
        },
        None => 0,
    };
    let mut res: Vec<InputItem> = Vec::new();
    let mut i: usize = start;
    while i < items.len()
        invariant
            start <= i <= items@.len(),
            inputs_view(res@) =~= inputs_view(items@).subrange(start as int, i as int),
        decreases items@.len() - i,
    {
        let ghost prev = res@;
        let x = items[i].copy();
        res.push(x);
        proof {
            assert(inputs_view(res@) =~= inputs_view(prev).push(x@));
        }
        i = i + 1;
    }
    assert(inputs_view(items@).subrange(0, items@.len() as int) =~= inputs_view(items@));
    res
}

/// Whether two optional strings are the same.
fn opt_str_same(a: &Option<String>, b: &Option<String>) -> (res: bool)
    ensures
        res == (opt_view(*a) == opt_view(*b)),
{
    match (a, b) {
        (Some(x), Some(y)) => str_eq(x.as_str(), y.as_str()),
        (None, None) => true,
        _ => false,
    }
}

/// Whether two output items are the same.
pub fn output_item_same(a: &OutputItem, b: &OutputItem) -> (res: bool)
    ensures
        res == (a@ == b@),
{
    match (a, b) {
        (OutputItem::Text { text: x }, OutputItem::Text { text: y }) => str_eq(x.as_str(), y.as_str()),
        (OutputItem::Json { value: x }, OutputItem::Json { value: y }) => json_eq(x, y),
        (
            OutputItem::ToolCall { call_id: c1, tool_name: t1, arguments: a1, namespace: n1 },
            OutputItem::ToolCall { call_id: c2, tool_name: t2, arguments: a2, namespace: n2 },
        ) => str_eq(c1.as_str(), c2.as_str()) && str_eq(t1.as_str(), t2.as_str()) && json_eq(a1, a2)
            && opt_str_same(n1, n2),
        (OutputItem::Handoff { target_agent: x }, OutputItem::Handoff { target_agent: y }) => str_eq(
            x.as_str(),
            y.as_str(),
        ),
        (OutputItem::Reasoning { text: x }, OutputItem::Reasoning { text: y }) => str_eq(x.as_str(), y.as_str()),
        _ => false,
    }
}

/// Whether two run items are the same.
pub fn run_item_same(a: &RunItem, b: &RunItem) -> (res: bool)
    ensures
        res == (a@ == b@),
{
    match (a, b) {
        (RunItem::MessageOutput { content: x }, RunItem::MessageOutput { content: y }) => output_item_same(x, y),
        (
            RunItem::ToolCall { tool_name: t1, arguments: a1, call_id: c1, namespace: n1 },
            RunItem::ToolCall { tool_name: t2, arguments: a2, call_id: c2, namespace: n2 },
        ) => str_eq(t1.as_str(), t2.as_str()) && json_eq(a1, a2) && opt_str_same(c1, c2) && opt_str_same(n1, n2),
        (
            RunItem::ToolCallOutput { tool_name: t1, output: o1, call_id: c1, namespace: n1 },
            RunItem::ToolCallOutput { tool_name: t2, output: o2, call_id: c2, namespace: n2 },
        ) => str_eq(t1.as_str(), t2.as_str()) && output_item_same(o1, o2) && opt_str_same(c1, c2) && opt_str_same(
            n1,
            n2,
        ),
        (RunItem::HandoffCall { target_agent: x }, RunItem::HandoffCall { target_agent: y }) => str_eq(
            x.as_str(),
            y.as_str(),
        ),
        (RunItem::HandoffOutput { source_agent: x }, RunItem::HandoffOutput { source_agent: y }) => str_eq(
            x.as_str(),
            y.as_str(),
        ),
        (RunItem::Reasoning { text: x }, RunItem::Reasoning { text: y }) => str_eq(x.as_str(), y.as_str()),
        _ => false,
    }
}

/// An answer without plain text has no text output.
pub proof fn law_no_text_no_final_text(output: Seq<OutputView>)
    requires
        forall|j: int| 0 <= j < output.len() ==> !((#[trigger] output[j]) is Text),
    ensures
        text_outputs(output).len() == 0,
    decreases output.len(),
{
    if output.len() > 0 {
        let p = output.drop_last();
        assert forall|j: int| 0 <= j < p.len() implies !((#[trigger] p[j]) is Text) by {
            assert(p[j] == output[j]);
        }
        law_no_text_no_final_text(p);
        assert(output.last() == output[output.len() - 1]);
    }
}

/// The text outputs of a model answer start with its first plain text output,
/// and there is none exactly when the answer holds no plain text: the final
/// output taken from an answer is its first text, not a later one.
pub proof fn law_final_text_is_first_text(output: Seq<OutputView>, i: int)
    requires
        0 <= i < output.len(),
        output[i] is Text,
        forall|j: int| 0 <= j < i ==> !((#[trigger] output[j]) is Text),
    ensures
        text_outputs(output).len() > 0,
        text_outputs(output)[0] == output[i]->Text_0,
    decreases output.len(),
{
    let p = output.drop_last();
    if i == output.len() - 1 {
        assert forall|j: int| 0 <= j < p.len() implies !((#[trigger] p[j]) is Text) by {
            assert(p[j] == output[j]);
        }
        law_no_text_no_final_text(p);
        assert(output.last() == output[i]);
    } else {
        assert(p[i] == output[i]);
        assert forall|j: int| 0 <= j < i implies !((#[trigger] p[j]) is Text) by {
            assert(p[j] == output[j]);
        }
        law_final_text_is_first_text(p, i);
    }
}

} // verus!
