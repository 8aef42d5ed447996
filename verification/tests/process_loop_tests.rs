use dprint_plugin_svgo::process_loop::{
    schema_handshake, Decision, EventSource, IncomingMessage, LoopEvent, LoopState, Reply,
};

/// The schema version of the process plugin protocol spoken here.
const SCHEMA_VERSION: u32 = 5;

fn register_config_msg(id: u32, config_id: u32) -> LoopEvent {
    LoopEvent::Message { id, body: IncomingMessage::RegisterConfig { config_id } }
}

fn format_msg(id: u32, config_id: u32) -> LoopEvent {
    LoopEvent::Message { id, body: IncomingMessage::Format { config_id } }
}

/// Runs the events through a fresh loop state and collects the replies sent.
fn run(events: Vec<LoopEvent>) -> (Vec<Decision>, LoopState) {
    let mut state = LoopState::new();
    let mut decisions = Vec::new();
    for event in events {
        decisions.push(state.step(event));
    }
    (decisions, state)
}

fn replies(decisions: &[Decision]) -> Vec<Reply> {
    decisions
        .iter()
        .filter_map(|d| match d {
            Decision::Send { reply, .. } | Decision::SendAndStop { reply, .. } => Some(reply.clone()),
            _ => None,
        })
        .collect()
}

#[test]
fn encoded_loop_performs_schema_handshake() {
    assert_eq!(schema_handshake(0, SCHEMA_VERSION), Ok((0, SCHEMA_VERSION)));
    let (decisions, _) = run(vec![register_config_msg(1, 0), LoopEvent::InputClosed]);
    let bodies = replies(&decisions);

    assert!(
        bodies.iter().any(|body| matches!(body, Reply::Success { message_id: 1 })),
        "expected a Success for the RegisterConfig, got: {bodies:?}"
    );
}

#[test]
fn cancel_format_suppresses_the_response() {
    let (decisions, state) = run(vec![
        register_config_msg(1, 0),
        format_msg(100, 0),
        LoopEvent::Message { id: 2, body: IncomingMessage::CancelFormat { message_id: 100 } },
        LoopEvent::InputClosed,
        // The waiting format only finishes once it is cancelled.
        LoopEvent::FormatDone { message_id: 100, succeeded: true },
    ]);
    let bodies = replies(&decisions);

    assert!(
        bodies.iter().any(|body| matches!(body, Reply::Success { message_id: 1 })),
        "expected a Success for the RegisterConfig, got: {bodies:?}"
    );
    assert!(
        !bodies.iter().any(|body| match body {
            Reply::FormatResult { message_id, .. } => *message_id == 100,
            Reply::Error { message_id, .. } => *message_id == 100,
            _ => false,
        }),
        "expected no response for the cancelled format, got: {bodies:?}"
    );
    // The cancellation is signalled before the format completes.
    assert_eq!(
        decisions[1..3].to_vec(),
        vec![Decision::StartFormat { message_id: 100, config_id: 0 }, Decision::Cancel { message_id: 100 }],
        "expected queued cancellation before format start"
    );
    assert!(state.should_stop());
}

#[test]
fn eof_drains_accepted_format_before_returning() {
    let mut state = LoopState::new();
    state.step(register_config_msg(1, 0));
    state.step(format_msg(100, 0));
    state.step(LoopEvent::InputClosed);
    assert!(!state.should_stop());
    let done = state.step(LoopEvent::FormatDone { message_id: 100, succeeded: true });

    let response = match &done {
        Decision::Send { reply: Reply::FormatResult { message_id: 100, succeeded }, .. } => Some(*succeeded),
        _ => None,
    };
    assert_eq!(response, Some(true), "expected EOF to drain accepted format, got: {done:?}");
    assert!(state.should_stop());
}

#[test]
fn format_without_cancel_sends_a_response() {
    let (decisions, _) = run(vec![
        register_config_msg(1, 0),
        format_msg(100, 0),
        LoopEvent::FormatDone { message_id: 100, succeeded: true },
    ]);
    let bodies = replies(&decisions);

    let response = bodies.iter().find_map(|body| match body {
        Reply::FormatResult { message_id: 100, succeeded } => Some(*succeeded),
        _ => None,
    });
    assert_eq!(response, Some(true), "expected the formatted output, got: {bodies:?}");
}

#[test]
fn queued_input_goes_before_finished_formats() {
    let (_, mut state) = run(vec![register_config_msg(1, 0), format_msg(100, 0)]);
    assert_eq!(state.in_flight, 1);
    // A queued cancel is taken before the format's completion.
    assert_eq!(state.next_event_source(true, true), Some(EventSource::Input));
    assert_eq!(state.next_event_source(false, true), Some(EventSource::Completion));
    assert_eq!(state.next_event_source(false, false), None);
    state.step(LoopEvent::InputClosed);
    assert_eq!(state.next_event_source(true, true), Some(EventSource::Completion));
    let (_, idle) = run(vec![]);
    assert_eq!(idle.next_event_source(false, true), None);
    assert_eq!(idle.next_event_source(true, false), Some(EventSource::Input));
}
