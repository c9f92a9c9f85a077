use eventfold_es::proto;

#[test]
fn proto_proposed_event_is_accessible() {
    let event = proto::ProposedEvent {
        event_id: "test-id".to_string(),
        event_type: "TestEvent".to_string(),
        metadata: vec![],
        payload: vec![],
    };
    assert_eq!(event.event_id, "test-id");
    assert_eq!(event.event_type, "TestEvent");
}

#[test]
fn proto_recorded_event_is_accessible() {
    let event = proto::RecordedEvent {
        event_id: "evt-1".to_string(),
        stream_id: "stream-1".to_string(),
        stream_version: 0,
        global_position: 42,
        event_type: "Incremented".to_string(),
        metadata: vec![],
        payload: vec![],
        recorded_at: 1_700_000_000_000,
    };
    assert_eq!(event.global_position, 42);
    assert_eq!(event.recorded_at, 1_700_000_000_000);
}

#[test]
fn proto_append_request_is_accessible() {
    let req = proto::AppendRequest {
        stream_id: "stream-1".to_string(),
        expected_version: None,
        events: vec![],
    };
    assert_eq!(req.stream_id, "stream-1");
    assert!(req.events.is_empty());
}

#[test]
fn proto_expected_version_exact_variant() {
    let ev = proto::ExpectedVersion {
        kind: Some(proto::expected_version::Kind::Exact(5)),
    };
    assert!(matches!(
        ev.kind,
        Some(proto::expected_version::Kind::Exact(5))
    ));
}

#[test]
fn proto_subscribe_response_variants() {
    let caught_up = proto::SubscribeResponse {
        content: Some(proto::subscribe_response::Content::CaughtUp(
            proto::Empty {},
        )),
    };
    assert!(matches!(
        caught_up.content,
        Some(proto::subscribe_response::Content::CaughtUp(_))
    ));
}

#[test]
fn proto_list_streams_response_is_accessible() {
    let resp = proto::ListStreamsResponse { streams: vec![] };
    assert!(resp.streams.is_empty());
}
