use agents_core::conversation::{ModelResponse, OpenAIServerConversationTracker};
use agents_core::errors::AgentsError;
use agents_core::items::{InputItem, OutputItem, RunItem};
use agents_core::replay::ReasoningItemIdPolicy;
use agents_core::run_flow::{
    check_resumable, handoff_history_mode, max_turns_error, merge_resumed_items, merge_run_states,
    pending_approval_call_id, pending_approval_decision, resolve_handoff_target, unknown_handoff_error,
    HandoffHistoryMode, NextStep, RunProgress, TurnOutcome,
};
use agents_core::run_state::{RunInterruptionKind, RunState, RunStateContextSnapshot};
use agents_core::usage::Usage;

fn text_item(t: &str) -> InputItem {
    InputItem::from_text(t)
}

fn message(t: &str) -> RunItem {
    RunItem::MessageOutput { content: OutputItem::Text { text: t.to_owned() } }
}

fn conversation_tracker() -> OpenAIServerConversationTracker {
    OpenAIServerConversationTracker::new(Some("conv-1".to_owned()), None, false)
}

#[test]
fn tracker_only_replays_unsent_filtered_deltas() {
    let mut tracker = conversation_tracker();
    let original_input = vec![text_item("first"), text_item("second")];

    let first_prepared = tracker.prepare_input(&original_input, &vec![]);
    assert_eq!(first_prepared, original_input);

    tracker.mark_input_as_sent(&vec![text_item("first")]);

    let retried = tracker.prepare_input(&original_input, &vec![]);
    assert_eq!(retried, vec![text_item("second")]);
}

#[test]
fn tracker_rewinds_sent_state_after_retry() {
    let mut tracker = conversation_tracker();
    let original_input = vec![text_item("first"), text_item("second")];

    let first_prepared = tracker.prepare_input(&original_input, &vec![]);
    tracker.mark_input_as_sent(&first_prepared);

    tracker.rewind_input(&first_prepared);

    let retried = tracker.prepare_input(&original_input, &vec![]);
    assert_eq!(retried, vec![text_item("first"), text_item("second")]);
}

#[test]
fn tracker_marks_rewritten_filtered_items_as_original_sources() {
    let mut tracker = conversation_tracker();
    let original_input = vec![text_item("hello")];

    let prepared = tracker.prepare_input(&original_input, &vec![]);
    let filtered = vec![text_item("filtered-hello")];

    tracker.register_filtered_input_sources(&prepared, &filtered);
    tracker.mark_input_as_sent(&filtered);

    let retried = tracker.prepare_input(&original_input, &vec![]);
    assert!(retried.is_empty());
}

#[test]
fn tracker_without_server_conversation_is_inactive() {
    let tracker = OpenAIServerConversationTracker::new(None, None, false);
    assert!(!tracker.is_active());
    assert_eq!(tracker.conversation_id(), None);
    let active = OpenAIServerConversationTracker::new(None, Some("resp-1".to_owned()), false);
    assert!(active.is_active());
    assert_eq!(active.previous_response_id(), Some("resp-1"));
}

#[test]
fn tracker_applies_response_ids_when_chaining_responses() {
    let mut tracker = OpenAIServerConversationTracker::new(None, None, true);
    let response = ModelResponse {
        model: None,
        output: vec![OutputItem::Text { text: "hi".to_owned() }],
        usage: Usage::default(),
        response_id: Some("resp-9".to_owned()),
        request_id: None,
    };
    tracker.apply_response(&response);
    assert_eq!(tracker.previous_response_id(), Some("resp-9"));
}

#[test]
fn first_handoff_in_output_is_the_target() {
    let output = vec![
        OutputItem::Text { text: "hand off".to_owned() },
        OutputItem::Handoff { target_agent: "billing".to_owned() },
        OutputItem::Handoff { target_agent: "support".to_owned() },
    ];
    assert_eq!(resolve_handoff_target(&output).as_deref(), Some("billing"));
    assert_eq!(resolve_handoff_target(&vec![OutputItem::Text { text: "x".to_owned() }]), None);
}

#[test]
fn handoff_and_turn_errors_name_the_agents() {
    match unknown_handoff_error("ghost", "router") {
        AgentsError::ModelBehavior(e) => {
            assert_eq!(e.message, "model requested unknown handoff target `ghost` from agent `router`")
        }
        _ => panic!("expected a model behavior error"),
    }
    match max_turns_error("router", 3) {
        AgentsError::MaxTurnsExceeded(e) => {
            assert_eq!(e.message, "run for agent `router` exceeded max_turns (3) before producing a final output")
        }
        _ => panic!("expected a max turns error"),
    }
}

#[test]
fn handoff_history_mode_prefers_filters_then_handoff_choice() {
    assert_eq!(handoff_history_mode(true, false, Some(true), true), HandoffHistoryMode::Filter);
    assert_eq!(handoff_history_mode(false, true, None, false), HandoffHistoryMode::Filter);
    assert_eq!(handoff_history_mode(false, false, Some(false), true), HandoffHistoryMode::Keep);
    assert_eq!(handoff_history_mode(false, false, None, true), HandoffHistoryMode::Nest);
}

#[test]
fn resuming_requires_turns_and_an_agent() {
    let mut state = RunState::new(RunStateContextSnapshot::empty(), vec![], "router".to_owned(), 1);
    assert_eq!(check_resumable(&state).ok().as_deref(), Some("router"));
    state.mark_turn_started();
    match check_resumable(&state) {
        Err(AgentsError::MaxTurnsExceeded(e)) => {
            assert_eq!(e.message, "cannot resume a run state that has exhausted max_turns")
        }
        _ => panic!("expected max turns error"),
    }
    let mut no_agent = RunState::new(RunStateContextSnapshot::empty(), vec![], "router".to_owned(), 2);
    no_agent.current_agent = None;
    match check_resumable(&no_agent) {
        Err(AgentsError::User(e)) => assert_eq!(e.message, "cannot resume a run state without a current agent"),
        _ => panic!("expected user error"),
    }
}

#[test]
fn pending_approval_flow_reads_the_recorded_decision() {
    let mut state = RunState::new(RunStateContextSnapshot::empty(), vec![], "router".to_owned(), 3);
    match pending_approval_call_id(&state) {
        Err(AgentsError::User(e)) => {
            assert_eq!(e.message, "cannot resume a pending approval without an interruption record")
        }
        _ => panic!("expected user error"),
    }
    state.interrupt(RunInterruptionKind::ToolApproval, Some("call-7".to_owned()), None, None);
    assert_eq!(pending_approval_call_id(&state).ok().as_deref(), Some("call-7"));
    match pending_approval_decision(&state, "call-7") {
        Err(AgentsError::User(e)) => assert_eq!(e.message, "approval decision for `call-7` is missing"),
        _ => panic!("expected missing decision"),
    }
    state.approve("call-7".to_owned(), None);
    assert!(pending_approval_decision(&state, "call-7").map(|r| r.approved).unwrap_or(false));
}

#[test]
fn merged_states_add_turns_and_keep_earlier_agent() {
    let mut previous = RunState::new(RunStateContextSnapshot::empty(), vec![text_item("a")], "first".to_owned(), 5);
    previous.mark_turn_started();
    previous.push_generated_item(message("one"));
    previous.approve("c1".to_owned(), None);
    let mut next = RunState::new(RunStateContextSnapshot::empty(), vec![text_item("b")], "second".to_owned(), 5);
    next.mark_turn_started();
    next.push_generated_item(message("two"));
    next.reject("c1".to_owned(), None);

    merge_run_states(&previous, &mut next);

    assert_eq!(next.current_turn, 2);
    assert_eq!(next.current_agent_name(), Some("first"));
    assert_eq!(next.generated_items, vec![message("one"), message("two")]);
    assert_eq!(next.approval("c1").map(|r| r.approved), Some(false));
}

#[test]
fn resumed_items_keep_normalized_only_when_different() {
    let (items, normalized) = merge_resumed_items(&vec![message("s")], &vec![message("s")], &vec![message("n")], &None);
    assert_eq!(items, vec![message("s"), message("n")]);
    assert_eq!(normalized, None);
    let (_, normalized) =
        merge_resumed_items(&vec![message("s")], &vec![message("g")], &vec![message("n")], &None);
    assert_eq!(normalized, Some(vec![message("g"), message("n")]));
}

#[test]
fn run_progress_stops_at_the_turn_budget() {
    let mut progress = RunProgress::new(vec![text_item("hi")], 2);
    assert_eq!(progress.next_step(), NextStep::CallModel);
    progress.record_turn(TurnOutcome::ToolsContinue { response_items: vec![message("a")], tool_items: vec![] });
    assert_eq!(progress.next_step(), NextStep::CallModel);
    progress.record_turn(TurnOutcome::ToolsContinue { response_items: vec![message("b")], tool_items: vec![] });
    assert_eq!(progress.next_step(), NextStep::TurnsExhausted);
    match progress.check_final_output("router") {
        Err(AgentsError::MaxTurnsExceeded(e)) => {
            assert_eq!(e.message, "run for agent `router` exceeded max_turns (2) before producing a final output")
        }
        _ => panic!("expected max turns error"),
    }
    let input = progress.model_input(ReasoningItemIdPolicy::Preserve);
    assert_eq!(input, vec![text_item("hi"), text_item("a"), text_item("b")]);
}

#[test]
fn run_progress_finishes_on_an_answer() {
    let mut progress = RunProgress::new(vec![], 5);
    progress.record_turn(TurnOutcome::Answer {
        response_items: vec![message("done")],
        output: vec![OutputItem::Reasoning { text: "r".to_owned() }, OutputItem::Text { text: "done".to_owned() }],
    });
    assert_eq!(progress.next_step(), NextStep::Finished);
    assert_eq!(progress.final_output.as_deref(), Some("done"));
    assert!(progress.check_final_output("router").is_ok());
}

#[test]
fn run_progress_handoff_replaces_history() {
    let mut progress = RunProgress::new(vec![text_item("old")], 5);
    progress.record_turn(TurnOutcome::Handoff {
        input_history: vec![text_item("summary")],
        pre_handoff_items: vec![message("pre")],
        normalized_step_items: vec![message("norm")],
        session_step_items: vec![message("sess")],
    });
    assert_eq!(progress.input_history, vec![text_item("summary")]);
    assert_eq!(progress.normalized_items, vec![message("pre"), message("norm")]);
    assert_eq!(progress.session_items, vec![message("pre"), message("sess")]);
    assert_eq!(progress.turns, 1);
    progress.record_turn(TurnOutcome::ToolsInterrupted { response_items: vec![], tool_items: vec![] });
    assert_eq!(progress.next_step(), NextStep::Interrupted);
}
