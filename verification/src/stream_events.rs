//! The events a streamed run reports, and the events a finished run is
//! replayed as.
use vstd::prelude::*;

use crate::items::{jstr, member, object2, json_string, runs_view, RunItem, RunView};
use crate::json::{json_clone, json_view, lemma_members_view, members_view, Json, JsonMember, JsonValue};
use crate::text::{copy_opt_string, copy_string, opt_view, str_eq};

verus! {

/// An event that carries a raw model response, already serialized.
pub struct RawResponsesStreamEvent {
    pub event_name: String,
    pub data: JsonValue,
}

impl RawResponsesStreamEvent {
    /// The kind of this event.
    pub fn event_type(&self) -> (res: &'static str)
        ensures
            res@ == "raw_response_event"@,
    {
        "raw_response_event"
    }
}

/// An event that carries a run item under its name.
pub struct RunItemStreamEvent {
    pub name: String,
    pub item: RunItem,
}

impl RunItemStreamEvent {
    /// The kind of this event.
    pub fn event_type(&self) -> (res: &'static str)
        ensures
            res@ == "run_item_stream_event"@,
    {
        "run_item_stream_event"
    }
}

/// An event that says the run moved to another agent, named here.
pub struct AgentUpdatedStreamEvent {
    pub new_agent: String,
}

impl AgentUpdatedStreamEvent {
    /// The kind of this event.
    pub fn event_type(&self) -> (res: &'static str)
        ensures
            res@ == "agent_updated_stream_event"@,
    {
        "agent_updated_stream_event"
    }
}

/// A step of the run's life, with what it reports.
pub struct RunLifecycleStreamEvent {
    pub name: String,
    pub data: Option<JsonValue>,
}

impl RunLifecycleStreamEvent {
    /// The kind of this event.
    pub fn event_type(&self) -> (res: &'static str)
        ensures
            res@ == "run_lifecycle_event"@,
    {
        "run_lifecycle_event"
    }
}

/// An event of a streamed run.
pub enum StreamEvent {
    RawResponseEvent(RawResponsesStreamEvent),
    RunItemEvent(RunItemStreamEvent),
    AgentUpdated(AgentUpdatedStreamEvent),
    Lifecycle(RunLifecycleStreamEvent),
}

/// What an event stands for.
pub enum EventView {
    Raw(Seq<char>, Json),
    Item(Seq<char>, RunView),
    AgentUpdated(Seq<char>),
    Lifecycle(Seq<char>, Option<Json>),
}

/// What an event stands for.
pub open spec fn event_view(e: StreamEvent) -> EventView {
    match e {
        StreamEvent::RawResponseEvent(r) => EventView::Raw(r.event_name@, json_view(r.data)),
        StreamEvent::RunItemEvent(r) => EventView::Item(r.name@, r.item@),
        StreamEvent::AgentUpdated(a) => EventView::AgentUpdated(a.new_agent@),
        StreamEvent::Lifecycle(l) => EventView::Lifecycle(
            l.name@,
            match l.data {
                Some(d) => Some(json_view(d)),
                None => None,
            },
        ),
    }
}

/// What a list of events stands for.
pub open spec fn events_view(s: Seq<StreamEvent>) -> Seq<EventView> {
    s.map_values(|e: StreamEvent| event_view(e))
}

/// The name under which a run item is reported.
pub open spec fn run_item_name_spec(r: RunView) -> Seq<char> {
    match r {
        RunView::MessageOutput(_) => "message_output"@,
        RunView::ToolCall { .. } => "tool_call"@,
        RunView::ToolCallOutput { .. } => "tool_call_output"@,
        RunView::HandoffCall(_) => "handoff_call"@,
        RunView::HandoffOutput(_) => "handoff_output"@,
        RunView::Reasoning(_) => "reasoning"@,
    }
}

/// A string, or `null`.
pub open spec fn opt_json(s: Option<Seq<char>>) -> Json {
    match s {
        Some(v) => Json::Str(v),
        None => Json::Null,
    }
}

/// The events a finished run is replayed as: the start of its first agent,
/// each raw response, each new item under its name, then (when the run knows
/// its last agent) a handoff and an agent update if the agent changed and the
/// end of that agent, and last the completion of the run.
pub open spec fn result_events(
    initial_agent: Seq<char>,
    agent_name: Seq<char>,
    responses: Seq<Json>,
    items: Seq<RunView>,
    last_agent: Option<Seq<char>>,
    final_output: Option<Seq<char>>,
) -> Seq<EventView> {
    let start = seq![
        EventView::Lifecycle(
            "agent_start"@,
            Some(Json::Object(seq![("agent_name"@, jstr(initial_agent)), ("turn"@, Json::Number("0"@))])),
        ),
    ];
    let raw = responses.map_values(|r: Json| EventView::Raw("model_response"@, r));
    let reported = items.map_values(|r: RunView| EventView::Item(run_item_name_spec(r), r));
    let ending = match last_agent {
        Some(last) => (if last != initial_agent {
            seq![
                EventView::Lifecycle(
                    "handoff"@,
                    Some(Json::Object(seq![("from_agent"@, jstr(initial_agent)), ("to_agent"@, jstr(last))])),
                ),
                EventView::AgentUpdated(last),
            ]
        } else {
            Seq::empty()
        }) + seq![
            EventView::Lifecycle(
                "agent_end"@,
                Some(Json::Object(seq![("agent_name"@, jstr(last)), ("final_output"@, opt_json(final_output))])),
            ),
        ],
        None => Seq::empty(),
    };
    let completed = seq![
        EventView::Lifecycle(
            "run_completed"@,
            Some(Json::Object(seq![("agent_name"@, jstr(agent_name)), ("final_output"@, opt_json(final_output))])),
        ),
    ];
    start + raw + reported + ending + completed
}

/// The name under which a run item is reported.
pub fn run_item_name(item: &RunItem) -> (res: String)
    ensures
        res@ == run_item_name_spec(item@),
{
    match item {
        RunItem::MessageOutput { .. } => String::from_str("message_output"),
        RunItem::ToolCall { .. } => String::from_str("tool_call"),
        RunItem::ToolCallOutput { .. } => String::from_str("tool_call_output"),
        RunItem::HandoffCall { .. } => String::from_str("handoff_call"),
        RunItem::HandoffOutput { .. } => String::from_str("handoff_output"),
        RunItem::Reasoning { .. } => String::from_str("reasoning"),
    }
}

/// A JSON string, or `null`.
fn opt_json_value(s: &Option<String>) -> (res: JsonValue)
    ensures
        json_view(res) == opt_json(opt_view(*s)),
{
    match s {
        Some(v) => JsonValue::String(copy_string(v)),
        None => JsonValue::Null,
    }
}

/// A lifecycle event with the given data.
fn lifecycle(name: &str, data: JsonValue) -> (res: StreamEvent)
    ensures
        event_view(res) == EventView::Lifecycle(name@, Some(json_view(data))),
{
    StreamEvent::Lifecycle(RunLifecycleStreamEvent { name: String::from_str(name), data: Some(data) })
}

/// The events a finished run is replayed as, from the name of the agent it
/// started with, the name it reports, its responses as serialized, its new
/// items, its last agent and its final output.
pub fn result_to_stream_events(
    initial_agent: &str,
    agent_name: &str,
    raw_responses: &Vec<JsonValue>,
    new_items: &Vec<RunItem>,
    last_agent: &Option<String>,
    final_output: &Option<String>,
) -> (res: Vec<StreamEvent>)
    ensures
        events_view(res@) == result_events(
            initial_agent@,
            agent_name@,
            raw_responses@.map_values(|r: JsonValue| json_view(r)),
            runs_view(new_items@),
            opt_view(*last_agent),
            opt_view(*final_output),
        ),
{
    let ghost responses = raw_responses@.map_values(|r: JsonValue| json_view(r));
    let ghost items = runs_view(new_items@);
    let mut events: Vec<StreamEvent> = Vec::new();
    events.push(
        lifecycle(
            "agent_start",
            object2(
                member("agent_name", json_string(initial_agent)),
                member("turn", JsonValue::Number(String::from_str("0"))),
            ),
        ),
    );
    proof {
        reveal_strlit("0");
    }
    let ghost start = events_view(events@);
    assert(start =~= seq![
        EventView::Lifecycle(
            "agent_start"@,
            Some(Json::Object(seq![("agent_name"@, jstr(initial_agent@)), ("turn"@, Json::Number("0"@))])),
        ),
    ]);
    let mut i: usize = 0;
    while i < raw_responses.len()
        invariant
            i <= raw_responses@.len(),
            responses == raw_responses@.map_values(|r: JsonValue| json_view(r)),
            events_view(events@) =~= start + responses.subrange(0, i as int).map_values(
                |r: Json| EventView::Raw("model_response"@, r),
            ),
        decreases raw_responses@.len() - i,
    {
        let ghost before = events@;
        events.push(
            StreamEvent::RawResponseEvent(
                RawResponsesStreamEvent {
                    event_name: String::from_str("model_response"),
                    data: json_clone(&raw_responses[i]),
                },
            ),
        );
        assert(events_view(events@) =~= events_view(before).push(
            EventView::Raw("model_response"@, responses[i as int]),
        ));
        assert(responses.subrange(0, i + 1) =~= responses.subrange(0, i as int).push(responses[i as int]));
        i = i + 1;
    }
    assert(responses.subrange(0, responses.len() as int) =~= responses);
    let ghost after_raw = events_view(events@);
    let mut j: usize = 0;
    while j < new_items.len()
        invariant
            j <= new_items@.len(),
            items == runs_view(new_items@),
            events_view(events@) =~= after_raw + items.subrange(0, j as int).map_values(
                |r: RunView| EventView::Item(run_item_name_spec(r), r),
            ),
        decreases new_items@.len() - j,
    {
        let ghost before = events@;
        let item = new_items[j].copy();
        assert(item@ == items[j as int]);
        events.push(StreamEvent::RunItemEvent(RunItemStreamEvent { name: run_item_name(&new_items[j]), item }));
        assert(events_view(events@) =~= events_view(before).push(
            EventView::Item(run_item_name_spec(items[j as int]), items[j as int]),
        ));
        assert(items.subrange(0, j + 1) =~= items.subrange(0, j as int).push(items[j as int]));
        j = j + 1;
    }
    assert(items.subrange(0, items.len() as int) =~= items);
    let ghost after_items = events_view(events@);
    let ghost tail_start = events@.len();
    match last_agent {
        Some(last) => {
            if !str_eq(last.as_str(), initial_agent) {
                events.push(
                    lifecycle(
                        "handoff",
                        object2(
                            member("from_agent", json_string(initial_agent)),
                            member("to_agent", json_string(last.as_str())),
                        ),
                    ),
                );
                events.push(StreamEvent::AgentUpdated(AgentUpdatedStreamEvent { new_agent: copy_string(last) }));
            }
            events.push(
                lifecycle(
                    "agent_end",
                    object2(
                        member("agent_name", json_string(last.as_str())),
                        member("final_output", opt_json_value(final_output)),
                    ),
                ),
            );
        },
        None => {},
    }
    events.push(
        lifecycle(
            "run_completed",
            object2(
                member("agent_name", json_string(agent_name)),
                member("final_output", opt_json_value(final_output)),
            ),
        ),
    );
    proof {
        let tail = events_view(events@).subrange(tail_start as int, events@.len() as int);
        assert(events_view(events@) =~= after_items + tail);
        let final_json = opt_json(opt_view(*final_output));
        let completed = seq![
            EventView::Lifecycle(
                "run_completed"@,
                Some(Json::Object(seq![("agent_name"@, jstr(agent_name@)), ("final_output"@, final_json)])),
            ),
        ];
        match opt_view(*last_agent) {
            Some(last) => {
                let ending = (if last != initial_agent@ {
                    seq![
                        EventView::Lifecycle(
                            "handoff"@,
                            Some(Json::Object(seq![("from_agent"@, jstr(initial_agent@)), ("to_agent"@, jstr(last))])),
                        ),
                        EventView::AgentUpdated(last),
                    ]
                } else {
                    Seq::empty()
                }) + seq![
                    EventView::Lifecycle(
                        "agent_end"@,
                        Some(Json::Object(seq![("agent_name"@, jstr(last)), ("final_output"@, final_json)])),
                    ),
                ];
                assert(tail =~= ending + completed);
            },
            None => {
                assert(tail =~= completed);
            },
        }
    }
    let ghost expected = result_events(
        initial_agent@,
        agent_name@,
        responses,
        items,
        opt_view(*last_agent),
        opt_view(*final_output),
    );
    assert(events_view(events@) =~= expected);
    events
}

/// The event a streamed run ends with: its completion, with the agent it
/// reports and its final output, or its failure, with the error's text.
pub open spec fn completion_event_view(outcome: Result<(Seq<char>, Option<Seq<char>>), Seq<char>>) -> EventView {
    match outcome {
        Ok((agent_name, final_output)) => EventView::Lifecycle(
            "run_completed"@,
            Some(Json::Object(seq![("agent_name"@, jstr(agent_name)), ("final_output"@, opt_json(final_output))])),
        ),
        Err(message) => EventView::Lifecycle("run_failed"@, Some(Json::Object(seq![("message"@, jstr(message))]))),
    }
}

/// What the outcome of a run stands for.
pub open spec fn outcome_view(outcome: Result<(String, Option<String>), String>) -> Result<
    (Seq<char>, Option<Seq<char>>),
    Seq<char>,
> {
    match outcome {
        Ok((a, f)) => Ok((a@, opt_view(f))),
        Err(m) => Err(m@),
    }
}

/// The event a streamed run ends with, from its outcome: the agent it reports
/// and its final output, or the text of its error.
pub fn completion_event(outcome: &Result<(String, Option<String>), String>) -> (res: StreamEvent)
    ensures
        event_view(res) == completion_event_view(outcome_view(*outcome)),
{
    match outcome {
        Ok((agent_name, final_output)) => lifecycle(
            "run_completed",
            object2(
                member("agent_name", JsonValue::String(copy_string(agent_name))),
                member("final_output", opt_json_value(final_output)),
            ),
        ),
        Err(message) => {
            let mut v: Vec<JsonMember> = Vec::new();
            v.push(member("message", JsonValue::String(copy_string(message))));
            proof {
                lemma_members_view(v@);
                assert(members_view(v@) =~= seq![("message"@, Json::Str(message@))]);
            }
            lifecycle("run_failed", JsonValue::Object(v))
        },
    }
}

/// A lifecycle event with the given name and data.
pub fn lifecycle_event(name: &str, data: Option<JsonValue>) -> (res: StreamEvent)
    ensures
        event_view(res) == EventView::Lifecycle(
            name@,
            match data {
                Some(d) => Some(json_view(d)),
                None => None,
            },
        ),
{
    StreamEvent::Lifecycle(RunLifecycleStreamEvent { name: String::from_str(name), data })
}

/// The event that reports a model response, already serialized.
pub fn raw_response_event(data: JsonValue) -> (res: StreamEvent)
    ensures
        event_view(res) == EventView::Raw("model_response"@, json_view(data)),
{
    StreamEvent::RawResponseEvent(RawResponsesStreamEvent { event_name: String::from_str("model_response"), data })
}

/// The event that says the run moved to the agent named `agent_name`.
pub fn agent_updated_event(agent_name: &str) -> (res: StreamEvent)
    ensures
        event_view(res) == EventView::AgentUpdated(agent_name@),
{
    StreamEvent::AgentUpdated(AgentUpdatedStreamEvent { new_agent: String::from_str(agent_name) })
}

/// The events that report new run items, each under its name, in order.
pub fn run_item_events(items: &Vec<RunItem>) -> (res: Vec<StreamEvent>)
    ensures
        events_view(res@) == runs_view(items@).map_values(|r: RunView| EventView::Item(run_item_name_spec(r), r)),
{
    let ghost iv = runs_view(items@);
    let mut events: Vec<StreamEvent> = Vec::new();
    let mut i: usize = 0;
    while i < items.len()
        invariant
            i <= items@.len(),
            iv == runs_view(items@),
            events_view(events@) =~= iv.subrange(0, i as int).map_values(
                |r: RunView| EventView::Item(run_item_name_spec(r), r),
            ),
        decreases items@.len() - i,
    {
        let ghost before = events@;
        let e = StreamEvent::RunItemEvent(RunItemStreamEvent { name: run_item_name(&items[i]), item: items[i].copy() });
        events.push(e);
        proof {
            assert(iv[i as int] == items@[i as int]@);
            assert(events_view(events@) =~= events_view(before).push(event_view(e)));
            assert(iv.subrange(0, i + 1).map_values(|r: RunView| EventView::Item(run_item_name_spec(r), r))
                =~= iv.subrange(0, i as int).map_values(|r: RunView| EventView::Item(run_item_name_spec(r), r)).push(
                EventView::Item(run_item_name_spec(iv[i as int]), iv[i as int]),
            ));
        }
        i = i + 1;
    }
    assert(iv.subrange(0, iv.len() as int) =~= iv);
    events
}

} // verus!
