//! Projections: catching up, live events, and what is skipped.

use eventfold_es::projection::{
    apply_decoded_event, apply_recorded_event, catch_up, ProjectionCatchUp, ProjectionRunner,
};
use eventfold_es::proto::subscribe_response::Content;
use eventfold_es::proto::{Empty, RecordedEvent, SubscribeResponse};
use eventfold_es::stream::StreamStep;
use eventfold_es::{ErrorKind, Projection, StoredEvent};

/// A test projection that counts all events.
#[derive(Debug, Clone, Default, PartialEq)]
struct EventCounter {
    pub count: u64,
}

impl Projection for EventCounter {
    const NAME: &'static str = "event-counter";

    fn apply(&mut self, _event: &StoredEvent) {
        self.count += 1;
    }
}

/// A test projection that keeps the positions of the events it was given, in order.
#[derive(Debug, Clone, Default, PartialEq)]
struct Trail {
    pub positions: Vec<u64>,
}

impl Projection for Trail {
    const NAME: &'static str = "trail";

    fn apply(&mut self, event: &StoredEvent) {
        self.positions.push(event.global_position);
    }
}

fn empty_object() -> serde_json::Value {
    serde_json::Value::Object(serde_json::Map::new())
}

/// Builds a recorded event with valid metadata.
fn make_recorded_event(global_position: u64, stream_version: u64) -> RecordedEvent {
    RecordedEvent {
        event_id: uuid::Uuid::new_v4().to_string(),
        stream_id: uuid::Uuid::new_v5(&uuid::Uuid::NAMESPACE_OID, b"counter/c-1").to_string(),
        stream_version,
        global_position,
        event_type: "Incremented".to_string(),
        metadata: br#"{"aggregate_type":"counter","instance_id":"c-1"}"#.to_vec(),
        payload: b"{}".to_vec(),
        recorded_at: 1_700_000_000_000,
    }
}

fn event_response(
    global_position: u64,
    stream_version: u64,
) -> Result<SubscribeResponse, String> {
    Ok(SubscribeResponse {
        content: Some(Content::Event(make_recorded_event(
            global_position,
            stream_version,
        ))),
    })
}

fn caught_up_response() -> Result<SubscribeResponse, String> {
    Ok(SubscribeResponse {
        content: Some(Content::CaughtUp(Empty {})),
    })
}

fn empty_response() -> Result<SubscribeResponse, String> {
    Ok(SubscribeResponse { content: None })
}

#[test]
fn projection_trait_has_no_subscriptions_method() {
    let mut counter = EventCounter::default();
    let stored = StoredEvent {
        event_id: uuid::Uuid::new_v4(),
        stream_id: uuid::Uuid::new_v4(),
        aggregate_type: "counter".to_string(),
        instance_id: "c-1".to_string(),
        stream_version: 0,
        global_position: 0,
        event_type: "Incremented".to_string(),
        payload: empty_object(),
        metadata: empty_object(),
        recorded_at: 1_700_000_000_000,
    };
    counter.apply(&stored);
    assert_eq!(counter.count, 1);
}

#[test]
fn catch_up_fresh_with_two_events() {
    let mut state = EventCounter::default();
    let mut position = 0u64;
    let responses = vec![
        event_response(0, 0),
        event_response(1, 1),
        caught_up_response(),
    ];

    ProjectionRunner::<EventCounter>::process_stream(&mut state, &mut position, responses)
        .expect("process_stream should succeed");

    assert_eq!(state.count, 2);
    assert_eq!(position, 2);
}

#[test]
fn second_catch_up_with_only_caught_up_leaves_count_unchanged() {
    let mut state = EventCounter { count: 2 };
    let mut position = 2u64;
    let responses = vec![caught_up_response()];

    ProjectionRunner::<EventCounter>::process_stream(&mut state, &mut position, responses)
        .expect("process_stream should succeed");

    assert_eq!(state.count, 2);
    assert_eq!(position, 2);
}

#[test]
fn recorded_event_with_empty_metadata_is_skipped() {
    let recorded = RecordedEvent {
        event_id: uuid::Uuid::new_v4().to_string(),
        stream_id: uuid::Uuid::new_v4().to_string(),
        stream_version: 0,
        global_position: 5,
        event_type: "SomeEvent".to_string(),
        metadata: b"{}".to_vec(),
        payload: b"{}".to_vec(),
        recorded_at: 1_700_000_000_000,
    };
    let responses = vec![
        Ok(SubscribeResponse {
            content: Some(Content::Event(recorded)),
        }),
        caught_up_response(),
    ];
    let mut state = EventCounter::default();
    let mut position = 0u64;

    ProjectionRunner::<EventCounter>::process_stream(&mut state, &mut position, responses)
        .expect("process_stream should succeed");

    assert_eq!(state.count, 0);
    assert_eq!(position, 6);
}

#[test]
fn apply_event_decodes_and_advances_position() {
    let mut runner = ProjectionRunner::<EventCounter>::new();

    let recorded = make_recorded_event(5, 0);
    runner.apply_event(&recorded);

    assert_eq!(ProjectionCatchUp::position(&runner), 6);
    let state = runner.state_any();
    assert_eq!(state.count, 1);
}

#[test]
fn position_starts_at_zero() {
    let runner = ProjectionRunner::<EventCounter>::new();

    assert_eq!(ProjectionCatchUp::position(&runner), 0);
    assert_eq!(runner.position(), 0);
    assert_eq!(runner.state(), &EventCounter::default());
}

#[test]
fn state_any_returns_cloned_state() {
    let mut runner = ProjectionRunner::<EventCounter>::new();

    let recorded = make_recorded_event(0, 0);
    runner.apply_event(&recorded);
    let recorded = make_recorded_event(1, 1);
    runner.apply_event(&recorded);

    let state = runner.state_any();
    assert_eq!(state.count, 2);
}

#[test]
fn apply_recorded_event_skips_already_processed_positions() {
    let mut state = EventCounter::default();
    let mut position: u64 = 5;

    let old_event = make_recorded_event(3, 3);
    apply_recorded_event(&mut state, &mut position, &old_event);
    assert_eq!(state.count, 0, "should not apply already-processed event");
    assert_eq!(position, 5, "position should not change");

    let current_event = make_recorded_event(5, 5);
    apply_recorded_event(&mut state, &mut position, &current_event);
    assert_eq!(state.count, 1, "should apply event at current position");
    assert_eq!(position, 6, "position should advance");

    let future_event = make_recorded_event(10, 10);
    apply_recorded_event(&mut state, &mut position, &future_event);
    assert_eq!(state.count, 2, "should apply event ahead of position");
    assert_eq!(position, 11);
}

#[test]
fn an_event_seen_twice_is_applied_once() {
    let mut state = Trail::default();
    let mut position = 0u64;
    let recorded = make_recorded_event(4, 0);

    apply_recorded_event(&mut state, &mut position, &recorded);
    apply_recorded_event(&mut state, &mut position, &recorded);

    assert_eq!(state.positions, vec![4]);
    assert_eq!(position, 5);
}

#[test]
fn the_last_position_that_has_a_successor_is_accepted() {
    let mut state = EventCounter::default();
    let mut position = 0u64;

    apply_recorded_event(
        &mut state,
        &mut position,
        &make_recorded_event(u64::MAX - 1, 0),
    );

    assert_eq!(state.count, 1);
    assert_eq!(position, u64::MAX);
}

#[test]
fn an_undecoded_event_moves_the_position_only() {
    let mut state = EventCounter { count: 7 };
    let mut position = 3u64;

    apply_decoded_event(&mut state, &mut position, 9, None);

    assert_eq!(state.count, 7);
    assert_eq!(position, 10);
}

#[test]
fn a_broken_projection_stream_keeps_what_came_before() {
    let mut state = Trail::default();
    let mut position = 0u64;
    let responses = vec![
        event_response(0, 0),
        empty_response(),
        Err("connection lost".to_string()),
        event_response(1, 1),
    ];

    let error = ProjectionRunner::<Trail>::process_stream(&mut state, &mut position, responses)
        .expect_err("the failure should be reported");

    assert_eq!(error.kind(), ErrorKind::Other);
    assert_eq!(error.message, "subscribe stream error: connection lost");
    assert_eq!(state.positions, vec![0]);
    assert_eq!(position, 1);
}

#[test]
fn nothing_is_read_past_the_sentinel() {
    let mut state = Trail::default();
    let mut position = 0u64;
    let responses = vec![
        event_response(0, 0),
        caught_up_response(),
        event_response(1, 1),
        Err("never seen".to_string()),
    ];

    ProjectionRunner::<Trail>::process_stream(&mut state, &mut position, responses)
        .expect("reading should end at the sentinel");

    assert_eq!(state.positions, vec![0]);
    assert_eq!(position, 1);
}

#[test]
fn a_stream_may_end_without_a_sentinel() {
    let mut state = Trail::default();
    let mut position = 0u64;

    ProjectionRunner::<Trail>::process_stream(
        &mut state,
        &mut position,
        vec![event_response(2, 0), empty_response()],
    )
    .expect("the end of the stream is no error");

    assert_eq!(state.positions, vec![2]);
    assert_eq!(position, 3);
}

#[test]
fn catching_up_in_two_turns_comes_to_the_same() {
    let (mut once, mut at_once) = (Trail::default(), 0u64);
    ProjectionRunner::<Trail>::process_stream(
        &mut once,
        &mut at_once,
        vec![event_response(0, 0), event_response(1, 1), event_response(2, 2)],
    )
    .expect("one turn");

    let (mut twice, mut in_turns) = (Trail::default(), 0u64);
    ProjectionRunner::<Trail>::process_stream(
        &mut twice,
        &mut in_turns,
        vec![event_response(0, 0), event_response(1, 1), caught_up_response()],
    )
    .expect("first turn");
    // The second subscription starts too early.
    ProjectionRunner::<Trail>::process_stream(
        &mut twice,
        &mut in_turns,
        vec![event_response(1, 1), event_response(2, 2), caught_up_response()],
    )
    .expect("second turn");

    assert_eq!(once, twice);
    assert_eq!(at_once, in_turns);
    assert_eq!(twice.positions, vec![0, 1, 2]);
}

#[test]
fn a_runner_ahead_of_the_subscription_misses_nothing() {
    let mut behind = ProjectionRunner::<Trail>::new();
    let mut ahead = ProjectionRunner::<Trail>::new();
    ahead.apply_event(&make_recorded_event(0, 0));
    ahead.apply_event(&make_recorded_event(1, 1));

    for version in 0..4 {
        let recorded = make_recorded_event(version, version);
        behind.apply_event(&recorded);
        ahead.apply_event(&recorded);
    }

    assert_eq!(behind.state(), ahead.state());
    assert_eq!(behind.position(), ahead.position());
}

#[test]
fn live_events_come_to_the_same_as_catching_up() {
    let mut live = ProjectionRunner::<Trail>::new();
    for version in 0..3 {
        live.apply_event(&make_recorded_event(version, version));
    }

    let (mut state, mut position) = (Trail::default(), 0u64);
    ProjectionRunner::<Trail>::process_stream(
        &mut state,
        &mut position,
        vec![event_response(0, 0), event_response(1, 1), event_response(2, 2)],
    )
    .expect("catching up");

    assert_eq!(live.state(), &state);
    assert_eq!(live.position(), position);
}

#[test]
fn a_runner_catches_up_message_by_message() {
    let mut runner = ProjectionRunner::<Trail>::new();

    assert!(matches!(
        catch_up(&mut runner, event_response(0, 0)),
        StreamStep::Continue
    ));
    assert!(matches!(
        catch_up(&mut runner, empty_response()),
        StreamStep::Continue
    ));
    assert!(matches!(
        catch_up(&mut runner, caught_up_response()),
        StreamStep::CaughtUp
    ));
    match catch_up(&mut runner, Err("gone".to_string())) {
        StreamStep::Failed(error) => assert_eq!(error.message, "subscribe stream error: gone"),
        other => panic!("a failure should end the catch-up, got {other:?}"),
    }
    assert_eq!(runner.state().positions, vec![0]);
    assert_eq!(runner.position(), 1);
}
