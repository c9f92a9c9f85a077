//! Process managers: catching up, live events, and what is skipped.

use eventfold_es::path::DataPath;
use eventfold_es::process_manager::{
    catch_up, react_decoded_event, react_recorded_event, ProcessManagerCatchUp,
    ProcessManagerRunner,
};
use eventfold_es::proto::subscribe_response::Content;
use eventfold_es::proto::{Empty, RecordedEvent, SubscribeResponse};
use eventfold_es::stream::StreamStep;
use eventfold_es::{
    CommandContext, CommandEnvelope, ErrorKind, ProcessManager, ProcessManagerReport, StoredEvent,
};

/// A test process manager that reacts to counter events by emitting a command envelope
/// targeting a "target" aggregate.
#[derive(Debug, Clone, Default, PartialEq)]
struct EchoSaga {
    pub events_seen: u64,
}

impl ProcessManager for EchoSaga {
    const NAME: &'static str = "echo-saga";

    fn react(&mut self, event: &StoredEvent) -> Vec<CommandEnvelope> {
        if event.aggregate_type != "counter" {
            return Vec::new();
        }
        self.events_seen += 1;
        let mut command = serde_json::Map::new();
        command.insert(
            "source_event_type".to_string(),
            serde_json::Value::String(event.event_type.clone()),
        );
        vec![CommandEnvelope {
            aggregate_type: "target".to_string(),
            instance_id: event.instance_id.clone(),
            command: serde_json::Value::Object(command),
            context: CommandContext::default()
                .with_correlation_id(format!("echo-{}", self.events_seen)),
        }]
    }
}

fn empty_object() -> serde_json::Value {
    serde_json::Value::Object(serde_json::Map::new())
}

fn make_recorded_event(global_position: u64, stream_version: u64) -> RecordedEvent {
    RecordedEvent {
        event_id: uuid::Uuid::new_v4().to_string(),
        stream_id: uuid::Uuid::new_v5(&uuid::Uuid::NAMESPACE_OID, b"counter/c-1").to_string(),
        stream_version,
        global_position,
        event_type: "Incremented".to_string(),
        metadata: br#"{"aggregate_type":"counter","instance_id":"c-1"}"#.to_vec(),
        payload: b"{}".to_vec(),
        recorded_at: 1_700_000_000_000,
    }
}

fn event_response(
    global_position: u64,
    stream_version: u64,
) -> Result<SubscribeResponse, String> {
    Ok(SubscribeResponse {
        content: Some(Content::Event(make_recorded_event(
            global_position,
            stream_version,
        ))),
    })
}

fn caught_up_response() -> Result<SubscribeResponse, String> {
    Ok(SubscribeResponse {
        content: Some(Content::CaughtUp(Empty {})),
    })
}

fn correlations(envelopes: &[CommandEnvelope]) -> Vec<Option<String>> {
    envelopes
        .iter()
        .map(|envelope| envelope.context.correlation_id.clone())
        .collect()
}

#[test]
fn process_manager_trait_has_no_subscriptions_method() {
    let mut saga = EchoSaga::default();
    let stored = StoredEvent {
        event_id: uuid::Uuid::new_v4(),
        stream_id: uuid::Uuid::new_v4(),
        aggregate_type: "counter".to_string(),
        instance_id: "c-1".to_string(),
        stream_version: 0,
        global_position: 0,
        event_type: "Incremented".to_string(),
        payload: empty_object(),
        metadata: empty_object(),
        recorded_at: 1_700_000_000_000,
    };
    let envelopes = saga.react(&stored);
    assert_eq!(envelopes.len(), 1);
    assert_eq!(envelopes[0].aggregate_type, "target");
    assert_eq!(envelopes[0].instance_id, "c-1");
    assert_eq!(envelopes[0].command["source_event_type"], "Incremented");
    assert_eq!(saga.events_seen, 1);
}

#[test]
fn catch_up_with_one_valid_event_returns_one_envelope() {
    let mut state = EchoSaga::default();
    let mut position = 0u64;
    let responses = vec![event_response(0, 0), caught_up_response()];

    let envelopes =
        ProcessManagerRunner::<EchoSaga>::process_stream(&mut state, &mut position, responses)
            .expect("process_stream should succeed");

    assert_eq!(envelopes.len(), 1);
    assert_eq!(envelopes[0].aggregate_type, "target");
    assert_eq!(envelopes[0].instance_id, "c-1");
    assert_eq!(state.events_seen, 1);
    assert_eq!(position, 1);
}

#[test]
fn second_catch_up_returns_empty() {
    let mut state = EchoSaga::default();
    let mut position = 0u64;
    let responses = vec![event_response(0, 0), caught_up_response()];

    let envelopes =
        ProcessManagerRunner::<EchoSaga>::process_stream(&mut state, &mut position, responses)
            .expect("first process_stream should succeed");
    assert_eq!(envelopes.len(), 1);

    let responses = vec![caught_up_response()];

    let envelopes =
        ProcessManagerRunner::<EchoSaga>::process_stream(&mut state, &mut position, responses)
            .expect("second process_stream should succeed");
    assert!(envelopes.is_empty());
    assert_eq!(state.events_seen, 1);
    assert_eq!(position, 1);
}

#[test]
fn non_es_events_skipped_returns_empty() {
    let recorded = RecordedEvent {
        event_id: uuid::Uuid::new_v4().to_string(),
        stream_id: uuid::Uuid::new_v4().to_string(),
        stream_version: 0,
        global_position: 5,
        event_type: "SomeEvent".to_string(),
        metadata: b"{}".to_vec(),
        payload: b"{}".to_vec(),
        recorded_at: 1_700_000_000_000,
    };
    let responses = vec![
        Ok(SubscribeResponse {
            content: Some(Content::Event(recorded)),
        }),
        caught_up_response(),
    ];
    let mut state = EchoSaga::default();
    let mut position = 0u64;

    let envelopes =
        ProcessManagerRunner::<EchoSaga>::process_stream(&mut state, &mut position, responses)
            .expect("process_stream should succeed");

    assert!(envelopes.is_empty());
    assert_eq!(state.events_seen, 0);
    assert_eq!(position, 6);
}

#[test]
fn pm_catch_up_react_event_decodes_and_advances_position() {
    let data_dir = DataPath::new().join("echo-saga");
    let mut runner = ProcessManagerRunner::<EchoSaga>::new(data_dir);

    let recorded = make_recorded_event(5, 0);
    let envelopes = runner.react_event(&recorded);

    assert_eq!(envelopes.len(), 1);
    assert_eq!(envelopes[0].aggregate_type, "target");
    assert_eq!(ProcessManagerCatchUp::position(&runner), 6);
}

#[test]
fn pm_catch_up_position_starts_at_zero() {
    let data_dir = DataPath::new().join("echo-saga");
    let runner = ProcessManagerRunner::<EchoSaga>::new(data_dir);

    assert_eq!(ProcessManagerCatchUp::position(&runner), 0);
    assert_eq!(runner.position(), 0);
    assert_eq!(runner.state(), &EchoSaga::default());
}

#[test]
fn pm_catch_up_react_event_skips_non_es_events() {
    let data_dir = DataPath::new().join("echo-saga");
    let mut runner = ProcessManagerRunner::<EchoSaga>::new(data_dir);

    let recorded = RecordedEvent {
        event_id: uuid::Uuid::new_v4().to_string(),
        stream_id: uuid::Uuid::new_v4().to_string(),
        stream_version: 0,
        global_position: 3,
        event_type: "SomeEvent".to_string(),
        metadata: b"{}".to_vec(),
        payload: b"{}".to_vec(),
        recorded_at: 1_700_000_000_000,
    };

    let envelopes = runner.react_event(&recorded);

    assert!(envelopes.is_empty());
    assert_eq!(ProcessManagerCatchUp::position(&runner), 4);
}

#[test]
fn react_recorded_event_skips_already_processed_positions() {
    let mut state = EchoSaga::default();
    let mut position: u64 = 5;

    let old_event = make_recorded_event(3, 3);
    let envelopes = react_recorded_event(&mut state, &mut position, &old_event);
    assert!(
        envelopes.is_empty(),
        "should not react to already-processed event"
    );
    assert_eq!(state.events_seen, 0, "state should not change");
    assert_eq!(position, 5, "position should not change");

    let current_event = make_recorded_event(5, 5);
    let envelopes = react_recorded_event(&mut state, &mut position, &current_event);
    assert_eq!(
        envelopes.len(),
        1,
        "should react to event at current position"
    );
    assert_eq!(state.events_seen, 1);
    assert_eq!(position, 6, "position should advance");

    let future_event = make_recorded_event(10, 10);
    let envelopes = react_recorded_event(&mut state, &mut position, &future_event);
    assert_eq!(
        envelopes.len(),
        1,
        "should react to event ahead of position"
    );
    assert_eq!(state.events_seen, 2);
    assert_eq!(position, 11);
}

#[test]
fn a_second_look_at_an_event_produces_nothing() {
    let mut state = EchoSaga::default();
    let mut position = 0u64;
    let recorded = make_recorded_event(4, 0);

    assert_eq!(react_recorded_event(&mut state, &mut position, &recorded).len(), 1);
    assert!(react_recorded_event(&mut state, &mut position, &recorded).is_empty());
    assert_eq!(state.events_seen, 1);
    assert_eq!(position, 5);
}

#[test]
fn an_undecoded_event_produces_nothing() {
    let mut state = EchoSaga { events_seen: 7 };
    let mut position = 3u64;

    assert!(react_decoded_event(&mut state, &mut position, 9, None).is_empty());
    assert_eq!(state.events_seen, 7);
    assert_eq!(position, 10);
}

#[test]
fn envelopes_come_in_the_order_of_their_events() {
    let mut state = EchoSaga::default();
    let mut position = 0u64;

    let envelopes = ProcessManagerRunner::<EchoSaga>::process_stream(
        &mut state,
        &mut position,
        vec![event_response(0, 0), event_response(1, 1), event_response(2, 2)],
    )
    .expect("the end of the stream is no error");

    assert_eq!(
        correlations(&envelopes),
        vec![
            Some("echo-1".to_string()),
            Some("echo-2".to_string()),
            Some("echo-3".to_string())
        ]
    );
    assert_eq!(position, 3);
}

#[test]
fn no_command_is_issued_twice_where_a_subscription_starts_early() {
    let mut state = EchoSaga::default();
    let mut position = 0u64;
    let mut envelopes = ProcessManagerRunner::<EchoSaga>::process_stream(
        &mut state,
        &mut position,
        vec![event_response(0, 0), event_response(1, 1), caught_up_response()],
    )
    .expect("first turn");
    envelopes.extend(
        ProcessManagerRunner::<EchoSaga>::process_stream(
            &mut state,
            &mut position,
            vec![event_response(0, 0), event_response(1, 1), event_response(2, 2)],
        )
        .expect("second turn"),
    );

    assert_eq!(envelopes.len(), 3);
    assert_eq!(state.events_seen, 3);
    assert_eq!(position, 3);
}

#[test]
fn a_broken_process_manager_stream_reports_the_failure() {
    let mut state = EchoSaga::default();
    let mut position = 0u64;

    let error = ProcessManagerRunner::<EchoSaga>::process_stream(
        &mut state,
        &mut position,
        vec![event_response(0, 0), Err("connection lost".to_string())],
    )
    .expect_err("the failure should be reported");

    assert_eq!(error.kind(), ErrorKind::Other);
    assert_eq!(error.message, "subscribe stream error: connection lost");
    assert_eq!(state.events_seen, 1);
    assert_eq!(position, 1);
}

#[test]
fn live_reactions_come_to_the_same_as_catching_up() {
    let mut live = ProcessManagerRunner::<EchoSaga>::new(DataPath::new());
    let mut one_by_one = Vec::new();
    for version in 0..3 {
        one_by_one.extend(live.react_event(&make_recorded_event(version, version)));
    }

    let mut state = EchoSaga::default();
    let mut position = 0u64;
    let at_once = ProcessManagerRunner::<EchoSaga>::process_stream(
        &mut state,
        &mut position,
        vec![event_response(0, 0), event_response(1, 1), event_response(2, 2)],
    )
    .expect("catching up");

    assert_eq!(correlations(&one_by_one), correlations(&at_once));
    assert_eq!(live.state(), &state);
    assert_eq!(live.position(), position);
}

#[test]
fn a_process_manager_catches_up_message_by_message() {
    let mut runner = ProcessManagerRunner::<EchoSaga>::new(DataPath::new());
    let mut envelopes = Vec::new();

    assert!(matches!(
        catch_up(&mut runner, &mut envelopes, event_response(0, 0)),
        StreamStep::Continue
    ));
    assert!(matches!(
        catch_up(
            &mut runner,
            &mut envelopes,
            Ok(SubscribeResponse { content: None })
        ),
        StreamStep::Continue
    ));
    assert!(matches!(
        catch_up(&mut runner, &mut envelopes, caught_up_response()),
        StreamStep::CaughtUp
    ));
    match catch_up(&mut runner, &mut envelopes, Err("gone".to_string())) {
        StreamStep::Failed(error) => assert_eq!(error.message, "subscribe stream error: gone"),
        other => panic!("a failure should end the catch-up, got {other:?}"),
    }
    assert_eq!(envelopes.len(), 1);
    assert_eq!(runner.position(), 1);
}

#[test]
fn the_dead_letter_log_is_in_the_data_directory() {
    let runner = ProcessManagerRunner::<EchoSaga>::new(
        DataPath::new().join("process_managers").join("echo-saga"),
    );

    let expected = ["process_managers", "echo-saga", "dead_letters.jsonl"];
    assert_eq!(runner.dead_letter_path().parts, expected);
    assert_eq!(
        ProcessManagerCatchUp::dead_letter_path(&runner).parts,
        expected
    );
}

#[test]
fn a_fresh_report_counts_nothing() {
    let report = ProcessManagerReport::default();
    assert_eq!(report.dispatched, 0);
    assert_eq!(report.dead_lettered, 0);
}
