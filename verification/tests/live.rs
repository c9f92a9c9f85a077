//! The live subscription: configuration, handle, backoff, and the processing of a stream.

use eventfold_es::builder::AggregateStoreBuilder;
use eventfold_es::dispatch::{DispatchAction, DispatchEvent};
use eventfold_es::dispatcher::TypedDispatcher;
use eventfold_es::live::{
    shutdown_outcome, LiveAction, LiveEvent, LiveLoop, StreamOutcome,
};
use eventfold_es::process_manager::ProcessManagerRunner;
use eventfold_es::projection::ProjectionRunner;
use eventfold_es::proto::subscribe_response::Content;
use eventfold_es::proto::{Empty, RecordedEvent, SubscribeResponse};
use eventfold_es::store::{LiveStep, Runtime};
use eventfold_es::{
    Aggregate, AggregateStore, CommandContext, CommandEnvelope, Duration, ErrorKind, LiveConfig,
    LiveHandle, ProcessManager, Projection, StoreError, StoredEvent,
};
use std::path::PathBuf;

/// A test projection that counts all events.
#[derive(Debug, Clone, Default, PartialEq)]
struct EventCounter {
    pub count: u64,
}

impl Projection for EventCounter {
    const NAME: &'static str = "event-counter";

    fn apply(&mut self, _event: &StoredEvent) {
        self.count += 1;
    }
}

/// A test process manager that sends a command to a "target" for each counter event.
#[derive(Debug, Clone, Default, PartialEq)]
struct EchoSaga {
    pub events_seen: u64,
}

impl ProcessManager for EchoSaga {
    const NAME: &'static str = "echo-saga";

    fn react(&mut self, event: &StoredEvent) -> Vec<CommandEnvelope> {
        if event.aggregate_type != "counter" {
            return Vec::new();
        }
        self.events_seen += 1;
        vec![CommandEnvelope {
            aggregate_type: "target".to_string(),
            instance_id: event.instance_id.clone(),
            command: serde_json::Value::String(event.event_type.clone()),
            context: CommandContext::default()
                .with_correlation_id(format!("echo-{}", self.events_seen)),
        }]
    }
}

/// An aggregate that accepts everything.
#[derive(Clone, Default)]
struct Target;

impl Aggregate for Target {
    const AGGREGATE_TYPE: &'static str = "target";

    type Command = ();
    type DomainEvent = ();
    type Error = ();

    fn handle(&self, _cmd: ()) -> Result<Vec<()>, ()> {
        Ok(vec![()])
    }

    fn apply(self, _event: &()) -> Self {
        self
    }
}

struct Fixture;

impl Runtime for Fixture {
    type Projection = ProjectionRunner<EventCounter>;
    type ProcessManager = ProcessManagerRunner<EchoSaga>;
    type Dispatcher = TypedDispatcher<Target>;
    type Handle = u64;
    type Task = &'static str;
    type Token = String;
}

fn make_recorded_event(global_position: u64, stream_version: u64) -> RecordedEvent {
    RecordedEvent {
        event_id: uuid::Uuid::new_v4().to_string(),
        stream_id: uuid::Uuid::new_v5(&uuid::Uuid::NAMESPACE_OID, b"counter/c-1").to_string(),
        stream_version,
        global_position,
        event_type: "Incremented".to_string(),
        metadata: br#"{"aggregate_type":"counter","instance_id":"c-1"}"#.to_vec(),
        payload: b"{}".to_vec(),
        recorded_at: 1_700_000_000_000,
    }
}

fn event_response(
    global_position: u64,
    stream_version: u64,
) -> Result<SubscribeResponse, String> {
    Ok(SubscribeResponse {
        content: Some(Content::Event(make_recorded_event(
            global_position,
            stream_version,
        ))),
    })
}

fn caught_up_response() -> Result<SubscribeResponse, String> {
    Ok(SubscribeResponse {
        content: Some(Content::CaughtUp(Empty {})),
    })
}

fn builder() -> AggregateStoreBuilder<Fixture> {
    AggregateStoreBuilder::new()
}

fn store_with_projection() -> AggregateStore<Fixture> {
    builder()
        .projection::<EventCounter>()
        .open(PathBuf::from("unused"))
        .store
}

fn store_with_projection_and_pm() -> AggregateStore<Fixture> {
    builder()
        .projection::<EventCounter>()
        .process_manager::<EchoSaga>()
        .open(PathBuf::from("unused"))
        .store
}

fn event_count(store: &AggregateStore<Fixture>) -> u64 {
    let index = store
        .projection::<EventCounter>()
        .expect("should have projection")
        .index;
    store.projection_runner(index).state_any().count
}

/// What a stream led to besides the changes of the store.
struct Processed {
    outcome: StreamOutcome,
    delivered: Vec<CommandEnvelope>,
    dead_letters: Vec<(Vec<String>, String)>,
    positions: Vec<u64>,
}

/// Processes a whole stream; every dispatcher accepts, every dead letter is written if
/// `writable` says so.
fn process(
    store: &mut AggregateStore<Fixture>,
    responses: Vec<Result<SubscribeResponse, String>>,
    writable: bool,
) -> Processed {
    let mut delivered = Vec::new();
    let mut dead_letters = Vec::new();
    let mut positions = Vec::new();
    let mut stream = responses.into_iter();
    loop {
        match store.process_stream_with_dispatch(stream.next()) {
            LiveStep::Dispatch(mut dispatch) => {
                let run = &mut dispatch.run;
                let mut action = run.step(&store.dispatchers, DispatchEvent::<String>::Begin);
                loop {
                    let event = match action {
                        DispatchAction::Dispatch => {
                            let envelope = &run.current().envelope;
                            delivered.push(CommandEnvelope {
                                aggregate_type: envelope.aggregate_type.clone(),
                                instance_id: envelope.instance_id.clone(),
                                command: envelope.command.clone(),
                                context: envelope.context.clone(),
                            });
                            DispatchEvent::Dispatched(Ok(()))
                        }
                        DispatchAction::DeadLetter(message) => {
                            if writable {
                                let path = run.current().dead_letter_path.parts.clone();
                                dead_letters.push((path, message));
                                DispatchEvent::DeadLettered(Ok(()))
                            } else {
                                DispatchEvent::DeadLettered(Err("disk full".to_string()))
                            }
                        }
                        DispatchAction::Done => break,
                        DispatchAction::Abort(_) => panic!("a live run should not give up"),
                    };
                    action = run.step(&store.dispatchers, event);
                }
                assert!(run.is_done());
                store.event_processed(&dispatch);
                if let Some(handle) = &store.live_handle {
                    positions.push(handle.subscribe());
                }
            }
            LiveStep::CaughtUp | LiveStep::Skip => {}
            LiveStep::Finished(outcome) => {
                return Processed {
                    outcome,
                    delivered,
                    dead_letters,
                    positions,
                };
            }
        }
    }
}

#[test]
fn live_config_default_values() {
    let config = LiveConfig::default();
    assert_eq!(config.reconnect_base_delay, Duration::from_secs(1));
    assert_eq!(config.reconnect_max_delay, Duration::from_secs(30));
}

#[test]
fn is_caught_up_returns_false_initially() {
    let handle: LiveHandle<()> = LiveHandle::new();
    assert!(!handle.is_caught_up());
}

#[test]
fn is_caught_up_returns_true_after_flag_set() {
    let mut handle: LiveHandle<()> = LiveHandle::new();
    handle.mark_caught_up();
    assert!(handle.is_caught_up());
}

#[test]
fn shutdown_with_no_task_returns_ok() {
    let mut handle: LiveHandle<()> = LiveHandle::new();
    let task = handle.shutdown();
    assert!(task.is_none());
    let result = shutdown_outcome(None);
    assert!(result.is_ok());
    assert!(handle.shutdown_requested);
}

#[test]
fn subscribe_returns_receiver_with_initial_value_zero() {
    let handle: LiveHandle<()> = LiveHandle::new();
    assert_eq!(handle.subscribe(), 0);
}

#[test]
fn subscribe_multiple_times_returns_independent_receivers() {
    let mut handle: LiveHandle<()> = LiveHandle::new();

    assert_eq!(handle.subscribe(), 0);
    assert_eq!(handle.subscribe(), 0);

    handle.mark_processed(42);

    assert_eq!(handle.subscribe(), 42);
    assert_eq!(handle.subscribe(), 42);
}

#[test]
fn shutdown_twice_returns_ok() {
    let mut handle = LiveHandle::new();
    handle.attach("task");
    assert_eq!(handle.shutdown(), Some("task"));
    shutdown_outcome(Some(Ok(Ok(())))).expect("first shutdown");
    assert_eq!(handle.shutdown(), None);
    shutdown_outcome(None).expect("second shutdown");
}

#[test]
fn a_shutdown_reports_how_the_loop_ended() {
    let failed = StoreError::new(ErrorKind::Other, "boom".to_string());
    let error = shutdown_outcome(Some(Ok(Err(failed)))).expect_err("the loop failed");
    assert_eq!(error.message, "boom");

    let error =
        shutdown_outcome(Some(Err("task 7 panicked".to_string()))).expect_err("the task panicked");
    assert_eq!(error.kind(), ErrorKind::Other);
    assert_eq!(error.message, "live loop task panicked: task 7 panicked");
}

#[test]
fn live_loop_processes_events_and_fans_out_to_projections() {
    let mut store = store_with_projection();
    store.start_live().expect("live mode should start");

    let processed = process(
        &mut store,
        vec![
            event_response(0, 0),
            event_response(1, 1),
            caught_up_response(),
        ],
        true,
    );

    assert!(matches!(processed.outcome, StreamOutcome::Ended));
    let handle = store.live_handle.as_ref().expect("live mode is active");
    assert!(handle.is_caught_up());
    assert_eq!(event_count(&store), 2);
}

#[test]
fn live_loop_dispatches_pm_envelopes_dead_letters_unknown_type() {
    let mut store = store_with_projection_and_pm();

    let processed = process(
        &mut store,
        vec![event_response(0, 0), caught_up_response()],
        true,
    );

    let path = ["process_managers", "echo-saga", "dead_letters.jsonl"];
    assert_eq!(processed.dead_letters.len(), 1);
    assert_eq!(processed.dead_letters[0].0, path);
    assert!(
        processed.dead_letters[0]
            .1
            .contains("unknown aggregate type: target"),
        "dead letter should mention unknown aggregate type"
    );
    assert!(processed.delivered.is_empty());
}

#[test]
fn commands_reach_a_registered_aggregate_type() {
    let mut store = builder()
        .projection::<EventCounter>()
        .process_manager::<EchoSaga>()
        .aggregate_type::<Target>()
        .open(PathBuf::from("unused"))
        .store;

    let processed = process(
        &mut store,
        vec![event_response(0, 0), event_response(1, 1)],
        true,
    );

    assert!(processed.dead_letters.is_empty());
    assert_eq!(processed.delivered.len(), 2);
    assert_eq!(
        processed.delivered[1].context.correlation_id,
        Some("echo-2".to_string())
    );
}

#[test]
fn a_dead_letter_that_cannot_be_written_is_passed_over_in_live_mode() {
    let mut store = store_with_projection_and_pm();
    store.start_live().expect("live mode should start");

    let processed = process(
        &mut store,
        vec![event_response(0, 0), event_response(1, 1)],
        false,
    );

    assert!(processed.dead_letters.is_empty());
    let handle = store.live_handle.as_ref().expect("live mode is active");
    assert_eq!(handle.subscribe(), 1);
}

#[test]
fn min_global_position_with_no_projections_returns_zero() {
    let store = builder().open(PathBuf::from("unused")).store;
    assert_eq!(store.min_global_position(), 0);
}

#[test]
fn min_global_position_returns_min_of_projections_and_pms() {
    let mut store = store_with_projection_and_pm();

    assert_eq!(store.min_global_position(), 0);

    process(
        &mut store,
        vec![
            event_response(0, 0),
            event_response(1, 1),
            caught_up_response(),
        ],
        true,
    );

    assert_eq!(store.min_global_position(), 2);
}

#[test]
fn the_slowest_runner_decides_where_to_subscribe() {
    let mut store = store_with_projection_and_pm();
    for version in 0..3 {
        store.catch_up_projection(0, event_response(version, version));
    }
    assert_eq!(store.min_global_position(), 0);

    process(&mut store, vec![event_response(0, 0)], true);
    assert_eq!(store.min_global_position(), 1);
    assert_eq!(event_count(&store), 3);
}

#[test]
fn the_last_position_of_all_is_subscribed_from() {
    let mut store = store_with_projection();
    store.catch_up_projection(0, event_response(u64::MAX - 1, 0));
    assert_eq!(store.min_global_position(), u64::MAX);
}

#[test]
fn backoff_respects_live_config_values() {
    let config = LiveConfig {
        reconnect_base_delay: Duration::from_millis(100),
        reconnect_max_delay: Duration::from_millis(300),
    };

    let mut live_loop = LiveLoop::new(config);
    assert_eq!(live_loop.backoff_delay, Duration::from_millis(100));

    live_loop.step(LiveEvent::BackoffElapsed);
    assert_eq!(live_loop.backoff_delay, Duration::from_millis(200));

    live_loop.step(LiveEvent::BackoffElapsed);
    assert_eq!(live_loop.backoff_delay, Duration::from_millis(300)); // capped

    live_loop.step(LiveEvent::BackoffElapsed);
    assert_eq!(live_loop.backoff_delay, Duration::from_millis(300)); // still capped
}

#[test]
fn the_sentinel_resets_the_backoff() {
    let mut live_loop = LiveLoop::new(LiveConfig::default());
    live_loop.step(LiveEvent::BackoffElapsed);
    live_loop.step(LiveEvent::BackoffElapsed);
    assert_eq!(live_loop.backoff_delay, Duration::from_secs(4));

    assert!(matches!(
        live_loop.step(LiveEvent::CaughtUp),
        LiveAction::Read
    ));
    assert_eq!(live_loop.backoff_delay, Duration::from_secs(1));
}

#[test]
fn a_clean_end_resets_the_backoff_once_caught_up() {
    let mut live_loop = LiveLoop::new(LiveConfig::default());
    live_loop.step(LiveEvent::BackoffElapsed);

    let action = live_loop.step(LiveEvent::Finished {
        outcome: StreamOutcome::Ended,
        caught_up: false,
    });
    assert!(matches!(action, LiveAction::Connect));
    assert_eq!(live_loop.backoff_delay, Duration::from_secs(2));

    let action = live_loop.step(LiveEvent::Finished {
        outcome: StreamOutcome::Ended,
        caught_up: true,
    });
    assert!(matches!(action, LiveAction::Connect));
    assert_eq!(live_loop.backoff_delay, Duration::from_secs(1));
}

#[test]
fn errors_are_waited_out_before_reconnecting() {
    let mut live_loop = LiveLoop::new(LiveConfig::default());

    match live_loop.step(LiveEvent::SubscribeFailed) {
        LiveAction::Sleep(delay) => assert_eq!(delay, Duration::from_secs(1)),
        other => panic!("should wait, got {other:?}"),
    }
    assert!(live_loop.can_back_off());
    assert!(matches!(
        live_loop.step(LiveEvent::BackoffElapsed),
        LiveAction::Connect
    ));

    let lost = StoreError::new(ErrorKind::Other, "lost".to_string());
    match live_loop.step(LiveEvent::Finished {
        outcome: StreamOutcome::Error(lost),
        caught_up: true,
    }) {
        LiveAction::Sleep(delay) => assert_eq!(delay, Duration::from_secs(2)),
        other => panic!("should wait, got {other:?}"),
    }
}

#[test]
fn a_delay_too_long_to_double_is_told_apart() {
    let config = LiveConfig {
        reconnect_base_delay: Duration::from_secs(u64::MAX),
        reconnect_max_delay: Duration::from_secs(u64::MAX),
    };
    assert!(!LiveLoop::new(config).can_back_off());
}

#[test]
fn no_wait_is_longer_than_the_maximum() {
    let config = LiveConfig {
        reconnect_base_delay: Duration::from_secs(10),
        reconnect_max_delay: Duration::from_secs(1),
    };
    let mut live_loop = LiveLoop::new(config);
    for event in [
        LiveEvent::BackoffElapsed,
        LiveEvent::CaughtUp,
        LiveEvent::Finished {
            outcome: StreamOutcome::Ended,
            caught_up: true,
        },
    ] {
        match live_loop.step(LiveEvent::SubscribeFailed) {
            LiveAction::Sleep(delay) => assert_eq!(delay, Duration::from_secs(1)),
            other => panic!("should wait, got {other:?}"),
        }
        live_loop.step(event);
        assert_eq!(live_loop.backoff_delay, Duration::from_secs(1));
    }
}

#[test]
fn the_loop_reconnects_where_the_slowest_runner_stands() {
    let mut store = store_with_projection_and_pm();
    process(&mut store, vec![event_response(0, 0), event_response(1, 1)], true);
    store.catch_up_projection(0, event_response(2, 2));

    let mut live_loop = LiveLoop::new(LiveConfig::default());
    match store.reconnect(&mut live_loop, false) {
        LiveAction::Subscribe { from_position } => assert_eq!(from_position, 2),
        other => panic!("should subscribe, got {other:?}"),
    }
    assert!(matches!(
        store.reconnect(&mut live_loop, true),
        LiveAction::Stop
    ));
}

#[test]
fn a_live_stream_as_a_whole() {
    let mut store = store_with_projection_and_pm();
    store.start_live().expect("live mode should start");

    let processed = process(
        &mut store,
        vec![
            event_response(0, 0),
            caught_up_response(),
            event_response(1, 1),
            Err("gone".to_string()),
            event_response(2, 2),
        ],
        true,
    );

    // The sentinel does not end the reading, the failure does.
    assert!(matches!(processed.outcome, StreamOutcome::Error(_)));
    assert_eq!(processed.positions, vec![0, 1]);
    assert_eq!(event_count(&store), 2);
    assert_eq!(store.process_managers[0].state().events_seen, 2);
    let handle = store.live_handle.as_ref().expect("live mode is active");
    assert_eq!(handle.subscribe(), 1);
    assert!(handle.is_caught_up());
}

#[test]
fn the_loop_ends_when_told_to() {
    let mut live_loop = LiveLoop::new(LiveConfig::default());
    assert!(matches!(
        live_loop.step(LiveEvent::Ready {
            shutdown: true,
            from_position: 9
        }),
        LiveAction::Stop
    ));
    assert!(matches!(
        live_loop.step(LiveEvent::Shutdown),
        LiveAction::Stop
    ));
}

#[test]
fn the_loop_subscribes_and_reads() {
    let mut live_loop = LiveLoop::new(LiveConfig::default());
    match live_loop.step(LiveEvent::Ready {
        shutdown: false,
        from_position: 9,
    }) {
        LiveAction::Subscribe { from_position } => assert_eq!(from_position, 9),
        other => panic!("should subscribe, got {other:?}"),
    }
    assert!(matches!(
        live_loop.step(LiveEvent::Subscribed),
        LiveAction::Read
    ));
}

#[test]
fn an_unrecoverable_error_ends_the_loop() {
    let mut live_loop = LiveLoop::new(LiveConfig::default());
    let fatal = StoreError::new(ErrorKind::Other, "fatal".to_string());
    match live_loop.step(LiveEvent::Unrecoverable(fatal)) {
        LiveAction::Fail(error) => assert_eq!(error.message, "fatal"),
        other => panic!("should fail, got {other:?}"),
    }
}

#[test]
fn stream_error_returns_stream_outcome_error() {
    let mut store = store_with_projection();

    let processed = process(
        &mut store,
        vec![
            event_response(0, 0),
            Err(tonic::Status::internal("connection lost").to_string()),
        ],
        true,
    );

    match processed.outcome {
        StreamOutcome::Error(error) => {
            assert!(error.message.starts_with("subscribe stream error: "));
            assert!(error.message.contains("connection lost"));
        }
        other => panic!("should be StreamOutcome::Error, got {other:?}"),
    }
    assert_eq!(event_count(&store), 1);
}

#[test]
fn process_stream_sends_position_after_each_event() {
    let mut store = store_with_projection();
    store.start_live().expect("live mode should start");

    process(
        &mut store,
        vec![
            event_response(0, 0),
            event_response(1, 1),
            caught_up_response(),
        ],
        true,
    );

    let handle = store.live_handle.as_ref().expect("live mode is active");
    assert_eq!(handle.subscribe(), 1);
}

#[test]
fn an_empty_live_message_is_skipped() {
    let mut store = store_with_projection();
    store.start_live().expect("live mode should start");

    let processed = process(&mut store, vec![Ok(SubscribeResponse { content: None })], true);

    assert!(matches!(processed.outcome, StreamOutcome::Ended));
    let handle = store.live_handle.as_ref().expect("live mode is active");
    assert!(!handle.is_caught_up());
    assert_eq!(event_count(&store), 0);
}
