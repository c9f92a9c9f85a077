//! Decoding of recorded events.

use eventfold_es::event::{assemble_event, EventParts};
use eventfold_es::proto::RecordedEvent;
use eventfold_es::decode_stored_event;

const EVENT_ID: &str = "67e55044-10b1-426f-9247-bb680e5fe0c8";
const STREAM_ID: &str = "0f7c0b2e-9a41-5d3c-8f55-2c1f3a6b7d90";

fn recorded(metadata: &[u8], payload: &[u8]) -> RecordedEvent {
    RecordedEvent {
        event_id: EVENT_ID.to_string(),
        stream_id: STREAM_ID.to_string(),
        stream_version: 3,
        global_position: 41,
        event_type: "Added".to_string(),
        metadata: metadata.to_vec(),
        payload: payload.to_vec(),
        recorded_at: 1_700_000_000_000,
    }
}

const METADATA: &[u8] =
    br#"{"aggregate_type":"counter","instance_id":"c-1","correlation_id":"x"}"#;

fn object(entries: &[(&str, serde_json::Value)]) -> serde_json::Value {
    let mut map = serde_json::Map::new();
    for (key, value) in entries {
        map.insert(key.to_string(), value.clone());
    }
    serde_json::Value::Object(map)
}

#[test]
fn every_field_of_a_decoded_event() {
    let event = decode_stored_event(&recorded(METADATA, br#"{"amount": 5}"#))
        .expect("the event should decode");

    assert_eq!(event.event_id.to_string(), EVENT_ID);
    assert_eq!(event.stream_id.to_string(), STREAM_ID);
    assert_eq!(event.aggregate_type, "counter");
    assert_eq!(event.instance_id, "c-1");
    assert_eq!(event.stream_version, 3);
    assert_eq!(event.global_position, 41);
    assert_eq!(event.event_type, "Added");
    assert_eq!(
        event.payload,
        object(&[("amount", serde_json::Value::from(5))])
    );
    assert_eq!(
        event.metadata,
        object(&[
            ("aggregate_type", serde_json::Value::from("counter")),
            ("instance_id", serde_json::Value::from("c-1")),
            ("correlation_id", serde_json::Value::from("x")),
        ])
    );
    assert_eq!(event.recorded_at, 1_700_000_000_000);
}

#[test]
fn a_uuid_may_be_written_without_hyphens() {
    let mut event = recorded(METADATA, b"{}");
    event.event_id = "67e5504410b1426f9247bb680e5fe0c8".to_string();

    let decoded = decode_stored_event(&event).expect("the event should decode");
    assert_eq!(decoded.event_id.to_string(), EVENT_ID);
}

#[test]
fn an_event_id_that_is_no_uuid_is_not_decoded() {
    let mut event = recorded(METADATA, b"{}");
    event.event_id = "evt-1".to_string();
    assert!(decode_stored_event(&event).is_none());
}

#[test]
fn a_stream_id_that_is_no_uuid_is_not_decoded() {
    let mut event = recorded(METADATA, b"{}");
    event.stream_id = "stream-1".to_string();
    assert!(decode_stored_event(&event).is_none());
}

#[test]
fn metadata_has_to_name_type_and_instance() {
    assert!(decode_stored_event(&recorded(b"{}", b"{}")).is_none());
    assert!(decode_stored_event(&recorded(br#"{"aggregate_type":"counter"}"#, b"{}")).is_none());
    assert!(decode_stored_event(&recorded(br#"{"instance_id":"c-1"}"#, b"{}")).is_none());
}

#[test]
fn metadata_has_to_name_them_as_text() {
    let numbered = br#"{"aggregate_type":1,"instance_id":"c-1"}"#;
    assert!(decode_stored_event(&recorded(numbered, b"{}")).is_none());
    assert!(decode_stored_event(&recorded(br#"["aggregate_type"]"#, b"{}")).is_none());
}

#[test]
fn metadata_and_payload_have_to_be_json() {
    assert!(decode_stored_event(&recorded(b"", b"{}")).is_none());
    assert!(decode_stored_event(&recorded(b"{not json", b"{}")).is_none());
    assert!(decode_stored_event(&recorded(METADATA, b"")).is_none());
    assert!(decode_stored_event(&recorded(METADATA, &[0xff, 0xfe])).is_none());
}

fn parts() -> EventParts {
    EventParts {
        event_id: Some(uuid::Uuid::from_u128(1)),
        stream_id: Some(uuid::Uuid::from_u128(2)),
        aggregate_type: Some("counter".to_string()),
        instance_id: Some("c-1".to_string()),
        payload: Some(serde_json::Value::Null),
        metadata: Some(serde_json::Value::Bool(true)),
    }
}

#[test]
fn an_event_is_put_together_from_its_parts() {
    let event = assemble_event(&recorded(b"", b""), parts()).expect("every part is there");
    assert_eq!(event.event_id, uuid::Uuid::from_u128(1));
    assert_eq!(event.stream_id, uuid::Uuid::from_u128(2));
    assert_eq!(event.aggregate_type, "counter");
    assert_eq!(event.instance_id, "c-1");
    assert_eq!(event.payload, serde_json::Value::Null);
    assert_eq!(event.metadata, serde_json::Value::Bool(true));
    assert_eq!(event.event_type, "Added");
    assert_eq!(event.global_position, 41);
}

#[test]
fn every_part_is_needed() {
    let whole = recorded(b"", b"");
    assert!(assemble_event(&whole, EventParts { event_id: None, ..parts() }).is_none());
    assert!(assemble_event(&whole, EventParts { stream_id: None, ..parts() }).is_none());
    assert!(assemble_event(&whole, EventParts { aggregate_type: None, ..parts() }).is_none());
    assert!(assemble_event(&whole, EventParts { instance_id: None, ..parts() }).is_none());
    assert!(assemble_event(&whole, EventParts { payload: None, ..parts() }).is_none());
    assert!(assemble_event(&whole, EventParts { metadata: None, ..parts() }).is_none());
}
