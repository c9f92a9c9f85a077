//! The store and its builder.

use eventfold_es::builder::AggregateStoreBuilder;
use eventfold_es::dispatch::{DispatchAction, DispatchEvent};
use eventfold_es::dispatcher::TypedDispatcher;
use eventfold_es::process_manager::{ProcessManagerCatchUp, ProcessManagerRunner};
use eventfold_es::projection::{ProjectionCatchUp, ProjectionRunner};
use eventfold_es::proto::expected_version::Kind;
use eventfold_es::proto::subscribe_response::Content;
use eventfold_es::proto::{Empty, ProposedEvent, RecordedEvent, SubscribeResponse};
use eventfold_es::store::{
    projection_state, subscribe_failed, ActorKey, ProcessManagerPass, ReadPlan, Runtime,
};
use eventfold_es::stream::StreamStep;
use eventfold_es::{
    Aggregate, AggregateStore, CommandContext, CommandEnvelope, Duration, ErrorKind,
    InjectOptions, LiveConfig, ProcessManager, Projection, StoredEvent,
};
use std::any::TypeId;
use std::path::PathBuf;
use std::sync::{Arc, RwLock};

/// A minimal projection.
#[derive(Debug, Clone, Default, PartialEq)]
struct TestCounter {
    count: u64,
}

impl Projection for TestCounter {
    const NAME: &'static str = "test-counter";

    fn apply(&mut self, _event: &StoredEvent) {
        self.count += 1;
    }
}

/// A projection that no store of these tests has registered.
#[derive(Debug, Clone, Default, PartialEq)]
struct FallbackCounter;

impl Projection for FallbackCounter {
    const NAME: &'static str = "fallback-counter";

    fn apply(&mut self, _event: &StoredEvent) {}
}

/// A process manager that sends a command of its own type for each event.
#[derive(Debug, Clone, Default, PartialEq)]
struct EchoSaga {
    events_seen: u64,
}

impl ProcessManager for EchoSaga {
    const NAME: &'static str = "echo-saga";

    fn react(&mut self, event: &StoredEvent) -> Vec<CommandEnvelope> {
        self.events_seen += 1;
        vec![CommandEnvelope {
            aggregate_type: event.event_type.clone(),
            instance_id: event.instance_id.clone(),
            command: serde_json::Value::Null,
            context: CommandContext::default(),
        }]
    }
}

#[derive(Clone, Default)]
struct Counter;

impl Aggregate for Counter {
    const AGGREGATE_TYPE: &'static str = "counter";

    type Command = ();
    type DomainEvent = ();
    type Error = ();

    fn handle(&self, _cmd: ()) -> Result<Vec<()>, ()> {
        Ok(Vec::new())
    }

    fn apply(self, _event: &()) -> Self {
        self
    }
}

struct Fixture;

impl Runtime for Fixture {
    type Projection = ProjectionRunner<TestCounter>;
    type ProcessManager = ProcessManagerRunner<EchoSaga>;
    type Dispatcher = TypedDispatcher<Counter>;
    type Handle = String;
    type Task = ();
    type Token = Arc<RwLock<String>>;
}

fn builder() -> AggregateStoreBuilder<Fixture> {
    AggregateStoreBuilder::new()
}

fn empty_store() -> AggregateStore<Fixture> {
    builder().open(PathBuf::from("unused")).store
}

fn recorded(global_position: u64, event_type: &str) -> RecordedEvent {
    RecordedEvent {
        event_id: uuid::Uuid::new_v4().to_string(),
        stream_id: uuid::Uuid::new_v4().to_string(),
        stream_version: global_position,
        global_position,
        event_type: event_type.to_string(),
        metadata: br#"{"aggregate_type":"counter","instance_id":"c-1"}"#.to_vec(),
        payload: b"{}".to_vec(),
        recorded_at: 1_700_000_000_000,
    }
}

fn event_response(global_position: u64, event_type: &str) -> Result<SubscribeResponse, String> {
    Ok(SubscribeResponse {
        content: Some(Content::Event(recorded(global_position, event_type))),
    })
}

fn caught_up_response() -> Result<SubscribeResponse, String> {
    Ok(SubscribeResponse {
        content: Some(Content::CaughtUp(Empty {})),
    })
}

fn key(instance_id: &str) -> ActorKey {
    ActorKey {
        type_id: TypeId::of::<Counter>(),
        instance_id: instance_id.to_string(),
    }
}

#[test]
fn start_live_returns_ok_handle() {
    let mut store = empty_store();
    let result = store.start_live();
    assert!(result.is_ok(), "start_live should return Ok");
    let handle = store.live_handle.as_ref().expect("there should be a handle");
    assert!(!handle.is_caught_up());
    assert_eq!(handle.subscribe(), 0);
}

#[test]
fn start_live_twice_returns_already_exists_error() {
    let mut store = empty_store();
    store.start_live().expect("first start_live should succeed");

    let err = match store.start_live() {
        Err(e) => e,
        Ok(_) => panic!("second start_live should return Err"),
    };
    assert_eq!(err.kind(), ErrorKind::AlreadyExists);
    assert_eq!(err.message, "live subscription already started");
}

#[test]
fn live_projection_returns_state_when_live_active() {
    let mut store = builder()
        .projection::<TestCounter>()
        .open(PathBuf::from("unused"))
        .store;

    // Three events, as the live loop would have processed them.
    for global_position in 0..3 {
        store.catch_up_projection(0, event_response(global_position, "Incremented"));
    }
    store.start_live().expect("live mode should start");

    let index = match store.live_projection::<TestCounter>() {
        Ok(ReadPlan::Current { index }) => index,
        other => panic!("live_projection should succeed, got {other:?}"),
    };
    let state = store.projection_runner(index).state_any();
    assert_eq!(state.count, 3);
}

#[test]
fn live_projection_falls_back_when_not_live() {
    let store = empty_store();

    let err = store
        .live_projection::<FallbackCounter>()
        .expect_err("should fail for unregistered projection");
    assert_eq!(err.kind(), ErrorKind::NotFound);
}

#[test]
fn live_projection_catches_up_when_not_live() {
    let mut store = builder()
        .projection::<TestCounter>()
        .open(PathBuf::from("unused"))
        .store;
    store.catch_up_projection(0, event_response(6, "Incremented"));

    match store.live_projection::<TestCounter>() {
        Ok(ReadPlan::CatchUp {
            index,
            from_position,
        }) => {
            assert_eq!(index, 0);
            assert_eq!(from_position, 7);
        }
        other => panic!("should catch up, got {other:?}"),
    }
}

#[test]
fn projection_works_when_live_mode_active() {
    let mut store = empty_store();
    store.start_live().expect("live mode should start");

    let err = store
        .projection::<FallbackCounter>()
        .expect_err("should fail for unregistered projection");
    assert_eq!(err.kind(), ErrorKind::NotFound);
}

#[test]
fn projection_works_when_live_mode_not_active() {
    let store = empty_store();

    let err = store
        .projection::<FallbackCounter>()
        .expect_err("should fail for unregistered projection");
    assert_eq!(err.kind(), ErrorKind::NotFound);
    assert_eq!(err.message, "projection 'fallback-counter' not registered");
}

#[test]
fn a_projection_catches_up_from_where_it_stands() {
    let mut store = builder()
        .projection::<TestCounter>()
        .open(PathBuf::from("unused"))
        .store;
    let plan = store.projection::<TestCounter>().expect("registered");
    assert_eq!(plan.from_position, 0);

    let step = store.catch_up_projection(plan.index, event_response(0, "Incremented"));
    assert!(matches!(step, StreamStep::Continue));
    let step = store.catch_up_projection(plan.index, caught_up_response());
    assert!(matches!(step, StreamStep::CaughtUp));

    assert_eq!(store.projection_runner(plan.index).state().count, 1);
    assert_eq!(
        store
            .projection::<TestCounter>()
            .expect("registered")
            .from_position,
        1
    );
}

#[test]
fn a_projection_of_another_type_is_a_mismatch() {
    let state = projection_state(Some(TestCounter { count: 4 })).expect("the types match");
    assert_eq!(state.count, 4);

    let err = projection_state::<TestCounter>(None).expect_err("the types differ");
    assert_eq!(err.kind(), ErrorKind::Other);
    assert_eq!(err.message, "projection type mismatch");
}

#[test]
fn builder_stores_custom_live_config() {
    let custom = LiveConfig {
        reconnect_base_delay: Duration::from_millis(500),
        reconnect_max_delay: Duration::from_secs(60),
    };
    let store = builder()
        .live_config(custom.clone())
        .open(PathBuf::from("unused"))
        .store;
    assert_eq!(
        store.live_config.reconnect_base_delay,
        Duration::from_millis(500)
    );
    assert_eq!(
        store.live_config.reconnect_max_delay,
        Duration::from_secs(60)
    );
}

#[test]
fn builder_default_live_config() {
    let store = empty_store();
    let default = LiveConfig::default();
    assert_eq!(
        store.live_config.reconnect_base_delay,
        default.reconnect_base_delay
    );
    assert_eq!(
        store.live_config.reconnect_max_delay,
        default.reconnect_max_delay
    );
}

#[test]
fn builder_without_auth_token_has_none() {
    let builder = builder();
    assert!(
        builder.auth_token.is_none(),
        "auth_token should be None by default"
    );
}

#[test]
fn builder_with_auth_token_has_some() {
    let token = Arc::new(RwLock::new("tok".to_string()));
    let builder = builder().auth_token(token);
    assert!(
        builder.auth_token.is_some(),
        "auth_token should be Some after calling .auth_token()"
    );
}

#[test]
fn a_builder_without_configuration_has_defaults() {
    let opened = AggregateStoreBuilder::<Fixture>::default().open(PathBuf::from("fallback"));
    assert_eq!(opened.endpoint, "http://127.0.0.1:2113");
    assert!(opened.auth_token.is_none());
    assert_eq!(opened.store.base_dir, PathBuf::from("fallback"));
    assert_eq!(opened.store.idle_timeout, Duration::from_secs(300));
    assert!(opened.store.live_handle.is_none());
    assert!(opened.store.process_managers.is_empty());
    assert_eq!(opened.store.projections.len(), 0);
    assert_eq!(opened.store.dispatchers.len(), 0);
}

#[test]
fn a_builder_hands_its_configuration_on() {
    let token = Arc::new(RwLock::new("tok".to_string()));
    let opened = builder()
        .endpoint("http://127.0.0.1:1".to_string())
        .auth_token(token.clone())
        .base_dir(PathBuf::from("/tmp/my-app"))
        .idle_timeout(Duration::from_secs(7))
        .open(PathBuf::from("fallback"));
    assert_eq!(opened.endpoint, "http://127.0.0.1:1");
    assert!(Arc::ptr_eq(
        opened.auth_token.as_ref().expect("the token"),
        &token
    ));
    assert_eq!(opened.store.base_dir, PathBuf::from("/tmp/my-app"));
    assert_eq!(opened.store.idle_timeout, Duration::from_secs(7));
}

#[test]
fn registrations_under_one_name() {
    let store = builder()
        .projection::<TestCounter>()
        .projection::<TestCounter>()
        .process_manager::<EchoSaga>()
        .process_manager::<EchoSaga>()
        .aggregate_type::<Counter>()
        .aggregate_type::<Counter>()
        .open(PathBuf::from("unused"))
        .store;
    assert_eq!(store.projections.len(), 1);
    assert_eq!(store.dispatchers.len(), 1);
    assert_eq!(store.process_managers.len(), 2);
    assert!(store.dispatchers.get(&"counter".to_string()).is_some());
    assert!(store.dispatchers.get(&"order".to_string()).is_none());
}

#[test]
fn the_last_registration_counts() {
    let mut builder = builder();
    for events in [5, 2] {
        let mut runner = ProjectionRunner::<TestCounter>::new();
        for global_position in 0..events {
            runner.apply_event(&recorded(global_position, "Incremented"));
        }
        builder.projections.push(("test-counter".to_string(), runner));
    }

    let store = builder.open(PathBuf::from("unused")).store;

    assert_eq!(store.projections.len(), 1);
    assert_eq!(
        store
            .projection::<TestCounter>()
            .expect("registered")
            .from_position,
        2
    );
}

#[test]
fn everything_registered_starts_from_the_beginning() {
    let store = builder()
        .projection::<TestCounter>()
        .process_manager::<EchoSaga>()
        .open(PathBuf::from("unused"))
        .store;
    let index = store.projection::<TestCounter>().expect("registered").index;
    let runner = store.projection_runner(index);
    assert_eq!(ProjectionCatchUp::position(runner), 0);
    assert_eq!(runner.state(), &TestCounter::default());
    assert_eq!(ProcessManagerCatchUp::position(&store.process_managers[0]), 0);
    assert_eq!(store.process_managers[0].state(), &EchoSaga::default());
    assert_eq!(
        store.process_managers[0].dead_letter_path().parts,
        ["process_managers", "echo-saga", "dead_letters.jsonl"]
    );
}

#[test]
fn get_twice_returns_cached_alive_handles() {
    let mut store = empty_store();
    store.insert_handle(key("c-1"), "handle".to_string());

    let h1 = store.get(&key("c-1"), true).cloned();
    assert_eq!(h1.as_deref(), Some("handle"), "first handle should be alive");

    let h2 = store.get(&key("c-1"), true).cloned();
    assert_eq!(h2.as_deref(), Some("handle"), "second handle should be alive");
}

#[test]
fn a_stale_handle_is_evicted() {
    let mut store = empty_store();
    store.insert_handle(key("c-1"), "stale".to_string());
    store.insert_handle(key("c-2"), "other".to_string());

    assert!(store.get(&key("c-1"), false).is_none());
    assert!(store.cached(&key("c-1")).is_none());
    assert_eq!(store.cached(&key("c-2")).map(String::as_str), Some("other"));

    store.insert_handle(key("c-1"), "fresh".to_string());
    assert_eq!(store.cached(&key("c-1")).map(String::as_str), Some("fresh"));
}

#[test]
fn handles_of_different_types_are_kept_apart() {
    let mut store = empty_store();
    store.insert_handle(key("c-1"), "counter".to_string());
    let other = ActorKey {
        type_id: TypeId::of::<TestCounter>(),
        instance_id: "c-1".to_string(),
    };

    assert!(store.get(&other, true).is_none());
    assert_eq!(store.cached(&key("c-1")).map(String::as_str), Some("counter"));
}

fn proposed() -> ProposedEvent {
    ProposedEvent {
        event_id: "test-id".to_string(),
        event_type: "TestEvent".to_string(),
        metadata: vec![1],
        payload: vec![2],
    }
}

#[test]
fn an_injection_names_its_type_and_instance() {
    let target = empty_store().inject_target::<Counter>("c-1");
    assert_eq!(target.aggregate_type, "counter");
    assert_eq!(target.instance_id, "c-1");
}

#[test]
fn an_injected_event_is_appended_at_any_version() {
    let request = empty_store().inject_event("stream-1".to_string(), proposed());
    assert_eq!(request.stream_id, "stream-1");
    assert!(matches!(
        request.expected_version.and_then(|version| version.kind),
        Some(Kind::Any(_))
    ));
    assert_eq!(request.events.len(), 1);
    assert_eq!(request.events[0].event_id, "test-id");
    assert_eq!(request.events[0].payload, vec![2]);
}

#[test]
fn process_managers_run_after_an_injection_if_asked_for() {
    let store = empty_store();
    let default = InjectOptions::default();
    assert!(!default.run_process_managers);
    assert_eq!(store.event_injected(Ok(()), &default).ok(), Some(false));

    let opted_in = InjectOptions {
        run_process_managers: true,
    };
    assert_eq!(store.event_injected(Ok(()), &opted_in).ok(), Some(true));

    let err = store
        .event_injected(Err("unavailable".to_string()), &opted_in)
        .expect_err("the append failed");
    assert_eq!(err.kind(), ErrorKind::Other);
    assert_eq!(err.message, "gRPC append failed: unavailable");
}

#[test]
fn a_failed_subscription_is_reported() {
    let err = subscribe_failed("unavailable");
    assert_eq!(err.kind(), ErrorKind::Other);
    assert_eq!(err.message, "subscribe_all_from failed: unavailable");
}

#[test]
fn a_pass_over_the_process_managers() {
    let mut store = builder()
        .process_manager::<EchoSaga>()
        .process_manager::<EchoSaga>()
        .aggregate_type::<Counter>()
        .open(PathBuf::from("unused"))
        .store;
    let mut pass = ProcessManagerPass::new();

    assert_eq!(store.pass_position(&pass), Some(0));
    for response in [
        Some(event_response(0, "counter")),
        Some(event_response(1, "order")),
        Some(caught_up_response()),
    ] {
        store.run_process_managers(&mut pass, response);
    }
    // The second stream ends without a sentinel.
    assert_eq!(store.pass_position(&pass), Some(0));
    store.run_process_managers(&mut pass, Some(event_response(0, "counter")));
    assert!(matches!(
        store.run_process_managers(&mut pass, None),
        StreamStep::CaughtUp
    ));
    assert_eq!(store.pass_position(&pass), None);
    assert_eq!(store.process_managers[0].state().events_seen, 2);
    assert_eq!(store.process_managers[1].state().events_seen, 1);

    let mut run = pass.into_run(&store).expect("every process manager has caught up");
    let mut types = Vec::new();
    let mut letters = Vec::new();
    let mut action = run.step(&store.dispatchers, DispatchEvent::<String>::Begin);
    loop {
        let event = match action {
            DispatchAction::Dispatch => {
                types.push(run.current().envelope.aggregate_type.clone());
                DispatchEvent::Dispatched(Ok(()))
            }
            DispatchAction::DeadLetter(message) => {
                letters.push(message);
                DispatchEvent::DeadLettered(Ok(()))
            }
            DispatchAction::Done => break,
            DispatchAction::Abort(_) => panic!("every dead letter was written"),
        };
        action = run.step(&store.dispatchers, event);
    }
    assert_eq!(types, ["counter", "counter"]);
    assert_eq!(letters, ["unknown aggregate type: order"]);
    assert_eq!(run.report().dispatched, 2);
    assert_eq!(run.report().dead_lettered, 1);
}

#[test]
fn a_pass_ends_where_a_stream_breaks() {
    let mut store = builder()
        .process_manager::<EchoSaga>()
        .open(PathBuf::from("unused"))
        .store;
    let mut pass = ProcessManagerPass::new();

    match store.run_process_managers(&mut pass, Some(Err("gone".to_string()))) {
        StreamStep::Failed(error) => assert_eq!(error.message, "subscribe stream error: gone"),
        other => panic!("the pass should fail, got {other:?}"),
    }
    assert!(pass.batches.is_empty());
    assert!(pass.into_run(&store).is_none());
}

#[test]
fn nothing_is_dispatched_before_every_process_manager_has_caught_up() {
    let mut store = builder()
        .process_manager::<EchoSaga>()
        .process_manager::<EchoSaga>()
        .open(PathBuf::from("unused"))
        .store;
    let mut pass = ProcessManagerPass::new();
    store.run_process_managers(&mut pass, Some(event_response(0, "counter")));
    store.run_process_managers(&mut pass, Some(caught_up_response()));
    assert!(pass.into_run(&store).is_none());

    assert!(ProcessManagerPass::new().into_run(&empty_store()).is_some());
}
