//! Events as the framework hands them to projections and process managers.

use crate::proto::{RecordedEvent, RecordedEventView};
use vstd::prelude::*;

verus! {

/// A universally unique identifier of the `uuid` crate; made by that crate and carried,
/// never looked into.
#[verifier::external_type_specification]
#[verifier::external_body]
pub struct ExUuid(uuid::Uuid);

/// A JSON value of the `serde_json` crate; carried, and looked into by way of that crate
/// alone.
#[verifier::external_type_specification]
#[verifier::external_body]
pub struct ExValue(serde_json::Value);

/// What `uuid::Uuid::parse_str` makes of a text.
pub uninterp spec fn uuid_of_text(text: Seq<char>) -> Option<uuid::Uuid>;

/// What `serde_json::from_slice` makes of bytes that should hold one JSON value.
pub uninterp spec fn json_of_bytes(bytes: Seq<u8>) -> Option<serde_json::Value>;

/// What `serde_json::Value::get` finds under a key.
pub uninterp spec fn json_member(value: serde_json::Value, key: Seq<char>) -> Option<serde_json::Value>;

/// What `serde_json::Value::as_str` gives for a value.
pub uninterp spec fn json_text(value: serde_json::Value) -> Option<Seq<char>>;

/// Calls `uuid::Uuid::parse_str` and drops the error. The result is a function of
/// the text.
#[verifier::external_body]
fn parse_uuid(text: &str) -> (id: Option<uuid::Uuid>)
    ensures
        id == uuid_of_text(text@),
{
    uuid::Uuid::parse_str(text).ok()
}

/// Calls `serde_json::from_slice` for a JSON value and drops the error. The result
/// is a function of the bytes.
#[verifier::external_body]
fn parse_json(bytes: &[u8]) -> (value: Option<serde_json::Value>)
    ensures
        value == json_of_bytes(bytes@),
{
    serde_json::from_slice(bytes).ok()
}

/// Calls `serde_json::Value::get` with a text key. The result is a function of the
/// value and the key.
#[verifier::external_body]
fn member<'a>(value: &'a serde_json::Value, key: &str) -> (found: Option<&'a serde_json::Value>)
    ensures
        found is Some <==> json_member(*value, key@) is Some,
        found matches Some(inner) ==> json_member(*value, key@) == Some(*inner),
{
    value.get(key)
}

/// Calls `serde_json::Value::as_str`. The result is a function of the value.
#[verifier::external_body]
fn text_of(value: &serde_json::Value) -> (text: Option<&str>)
    ensures
        text is Some <==> json_text(*value) is Some,
        text matches Some(chars) ==> json_text(*value) == Some(chars@),
{
    value.as_str()
}

/// A decoded event of the global log.
#[derive(Debug)]
pub struct StoredEvent {
    /// Identifier of the event.
    pub event_id: uuid::Uuid,
    /// Identifier of the stream that holds the event.
    pub stream_id: uuid::Uuid,
    /// Type of the aggregate that the event belongs to.
    pub aggregate_type: String,
    /// The aggregate instance that the event belongs to.
    pub instance_id: String,
    /// Zero-based version of the event within its stream.
    pub stream_version: u64,
    /// Zero-based position of the event in the global log.
    pub global_position: u64,
    /// Name of the event's type.
    pub event_type: String,
    /// The event's payload.
    pub payload: serde_json::Value,
    /// The event's metadata.
    pub metadata: serde_json::Value,
    /// When the server recorded the event, in milliseconds since the epoch.
    pub recorded_at: u64,
}

/// The contents of a [`StoredEvent`].
#[verifier::ext_equal]
pub struct StoredEventView {
    pub event_id: uuid::Uuid,
    pub stream_id: uuid::Uuid,
    pub aggregate_type: Seq<char>,
    pub instance_id: Seq<char>,
    pub stream_version: u64,
    pub global_position: u64,
    pub event_type: Seq<char>,
    pub payload: serde_json::Value,
    pub metadata: serde_json::Value,
    pub recorded_at: u64,
}

impl View for StoredEvent {
    type V = StoredEventView;

    open spec fn view(&self) -> StoredEventView {
        StoredEventView {
            event_id: self.event_id,
            stream_id: self.stream_id,
            aggregate_type: self.aggregate_type@,
            instance_id: self.instance_id@,
            stream_version: self.stream_version,
            global_position: self.global_position,
            event_type: self.event_type@,
            payload: self.payload,
            metadata: self.metadata,
            recorded_at: self.recorded_at,
        }
    }
}

/// What the fields of a recorded event turned out to hold; `None` where a field
/// could not be read.
pub struct EventParts {
    /// The event's identifier.
    pub event_id: Option<uuid::Uuid>,
    /// The stream's identifier.
    pub stream_id: Option<uuid::Uuid>,
    /// The `aggregate_type` text of the metadata.
    pub aggregate_type: Option<String>,
    /// The `instance_id` text of the metadata.
    pub instance_id: Option<String>,
    /// The payload.
    pub payload: Option<serde_json::Value>,
    /// The metadata.
    pub metadata: Option<serde_json::Value>,
}

/// The contents of [`EventParts`].
#[verifier::ext_equal]
pub struct EventPartsView {
    pub event_id: Option<uuid::Uuid>,
    pub stream_id: Option<uuid::Uuid>,
    pub aggregate_type: Option<Seq<char>>,
    pub instance_id: Option<Seq<char>>,
    pub payload: Option<serde_json::Value>,
    pub metadata: Option<serde_json::Value>,
}

/// The contents of an optional text.
pub open spec fn text_view(text: Option<String>) -> Option<Seq<char>> {
    match text {
        Some(chars) => Some(chars@),
        None => None,
    }
}

impl View for EventParts {
    type V = EventPartsView;

    open spec fn view(&self) -> EventPartsView {
        EventPartsView {
            event_id: self.event_id,
            stream_id: self.stream_id,
            aggregate_type: text_view(self.aggregate_type),
            instance_id: text_view(self.instance_id),
            payload: self.payload,
            metadata: self.metadata,
        }
    }
}

/// The text that a JSON object holds under a key, if it holds one there.
pub open spec fn text_member(value: Option<serde_json::Value>, key: Seq<char>) -> Option<Seq<char>> {
    match value {
        Some(object) => match json_member(object, key) {
            Some(inner) => json_text(inner),
            None => None,
        },
        None => None,
    }
}

/// What the fields of a recorded event hold.
pub open spec fn parts_of(recorded: RecordedEventView) -> EventPartsView {
    EventPartsView {
        event_id: uuid_of_text(recorded.event_id),
        stream_id: uuid_of_text(recorded.stream_id),
        aggregate_type: text_member(json_of_bytes(recorded.metadata), "aggregate_type"@),
        instance_id: text_member(json_of_bytes(recorded.metadata), "instance_id"@),
        payload: json_of_bytes(recorded.payload),
        metadata: json_of_bytes(recorded.metadata),
    }
}

/// The event that a recorded event and its parts make, if every part could be read.
pub open spec fn assembled(
    recorded: RecordedEventView,
    parts: EventPartsView,
) -> Option<StoredEventView> {
    match (
        parts.event_id,
        parts.stream_id,
        parts.aggregate_type,
        parts.instance_id,
        parts.payload,
        parts.metadata,
    ) {
        (
            Some(event_id),
            Some(stream_id),
            Some(aggregate_type),
            Some(instance_id),
            Some(payload),
            Some(metadata),
        ) => Some(
            StoredEventView {
                event_id,
                stream_id,
                aggregate_type,
                instance_id,
                stream_version: recorded.stream_version,
                global_position: recorded.global_position,
                event_type: recorded.event_type,
                payload,
                metadata,
                recorded_at: recorded.recorded_at,
            },
        ),
        _ => None,
    }
}

/// The decoded form of a recorded event, or `None` where it has none: its metadata
/// does not name an aggregate type and an instance, an identifier is no UUID, or its
/// metadata or payload is no JSON.
pub open spec fn decoded(recorded: RecordedEventView) -> Option<StoredEventView> {
    assembled(recorded, parts_of(recorded))
}

/// The contents of an optional event.
pub open spec fn event_view(event: Option<StoredEvent>) -> Option<StoredEventView> {
    match event {
        Some(stored) => Some(stored@),
        None => None,
    }
}

/// The text that `value` holds under `key`, if it is an object that holds one there.
fn find_text(value: &Option<serde_json::Value>, key: &str) -> (text: Option<String>)
    ensures
        text_view(text) == text_member(*value, key@),
{
    match value {
        Some(object) => match member(object, key) {
            Some(inner) => match text_of(inner) {
                Some(chars) => Some(chars.to_owned()),
                None => None,
            },
            None => None,
        },
        None => None,
    }
}

/// Puts a decoded event together out of a recorded event and its parts.
///
/// Returns `None` where a part is missing.
pub fn assemble_event(recorded: &RecordedEvent, parts: EventParts) -> (event: Option<StoredEvent>)
    ensures
        event_view(event) == assembled(recorded@, parts@),
{
    match (
        parts.event_id,
        parts.stream_id,
        parts.aggregate_type,
        parts.instance_id,
        parts.payload,
        parts.metadata,
    ) {
        (
            Some(event_id),
            Some(stream_id),
            Some(aggregate_type),
            Some(instance_id),
            Some(payload),
            Some(metadata),
        ) => Some(
            StoredEvent {
                event_id,
                stream_id,
                aggregate_type,
                instance_id,
                stream_version: recorded.stream_version,
                global_position: recorded.global_position,
                event_type: recorded.event_type.clone(),
                payload,
                metadata,
                recorded_at: recorded.recorded_at,
            },
        ),
        _ => None,
    }
}

/// Decodes a recorded event.
///
/// Returns `None` for an event that the framework did not write: its metadata does
/// not name an aggregate type and an instance, an identifier is no UUID, or its
/// metadata or payload is no JSON.
pub fn decode_stored_event(recorded: &RecordedEvent) -> (event: Option<StoredEvent>)
    ensures
        event_view(event) == decoded(recorded@),
{
    let metadata = parse_json(recorded.metadata.as_slice());
    let parts = EventParts {
        event_id: parse_uuid(recorded.event_id.as_str()),
        stream_id: parse_uuid(recorded.stream_id.as_str()),
        aggregate_type: find_text(&metadata, "aggregate_type"),
        instance_id: find_text(&metadata, "instance_id"),
        payload: parse_json(recorded.payload.as_slice()),
        metadata,
    };
    assemble_event(recorded, parts)
}

/// What is said of a decoded event is said of its fields, each under its own name.
pub proof fn law_a_stored_event_is_its_fields(event: StoredEvent)
    ensures
        event@.event_id == event.event_id,
        event@.stream_id == event.stream_id,
        event@.aggregate_type == event.aggregate_type@,
        event@.instance_id == event.instance_id@,
        event@.stream_version == event.stream_version,
        event@.global_position == event.global_position,
        event@.event_type == event.event_type@,
        event@.payload == event.payload,
        event@.metadata == event.metadata,
        event@.recorded_at == event.recorded_at,
        event_view(Some(event)) == Some(event@),
        event_view(None) is None,
{
}

/// An event is put together if and only if every part of it could be read, and then holds
/// those parts and what else was recorded, unchanged.
pub proof fn law_an_event_is_put_together_from_all_its_parts(
    recorded: RecordedEventView,
    parts: EventParts,
)
    ensures
        assembled(recorded, parts@) is Some <==> {
            &&& parts.event_id is Some
            &&& parts.stream_id is Some
            &&& parts.aggregate_type is Some
            &&& parts.instance_id is Some
            &&& parts.payload is Some
            &&& parts.metadata is Some
        },
        assembled(recorded, parts@) matches Some(event) ==> {
            &&& parts.event_id == Some(event.event_id)
            &&& parts.stream_id == Some(event.stream_id)
            &&& event.aggregate_type == parts.aggregate_type->Some_0@
            &&& event.instance_id == parts.instance_id->Some_0@
            &&& parts.payload == Some(event.payload)
            &&& parts.metadata == Some(event.metadata)
            &&& event.stream_version == recorded.stream_version
            &&& event.global_position == recorded.global_position
            &&& event.event_type == recorded.event_type
            &&& event.recorded_at == recorded.recorded_at
        },
{
}

/// A recorded event decodes if and only if its identifiers are UUIDs, its payload and its
/// metadata are JSON, and the metadata holds texts under `aggregate_type` and `instance_id`.
/// The decoded event holds exactly what was read, and what else was recorded, unchanged.
pub proof fn law_what_an_event_decodes_to(recorded: RecordedEventView)
    ensures
        decoded(recorded) is Some <==> {
            &&& uuid_of_text(recorded.event_id) is Some
            &&& uuid_of_text(recorded.stream_id) is Some
            &&& json_of_bytes(recorded.payload) is Some
            &&& json_of_bytes(recorded.metadata) matches Some(metadata)
            &&& json_member(metadata, "aggregate_type"@) matches Some(aggregate_type)
            &&& json_text(aggregate_type) is Some
            &&& json_member(metadata, "instance_id"@) matches Some(instance_id)
            &&& json_text(instance_id) is Some
        },
        decoded(recorded) matches Some(event) ==> {
            &&& uuid_of_text(recorded.event_id) == Some(event.event_id)
            &&& uuid_of_text(recorded.stream_id) == Some(event.stream_id)
            &&& json_of_bytes(recorded.payload) == Some(event.payload)
            &&& json_of_bytes(recorded.metadata) == Some(event.metadata)
            &&& json_text(json_member(event.metadata, "aggregate_type"@)->Some_0) == Some(
                event.aggregate_type,
            )
            &&& json_text(json_member(event.metadata, "instance_id"@)->Some_0) == Some(
                event.instance_id,
            )
            &&& event.stream_version == recorded.stream_version
            &&& event.global_position == recorded.global_position
            &&& event.event_type == recorded.event_type
            &&& event.recorded_at == recorded.recorded_at
        },
{
}

} // verus!
