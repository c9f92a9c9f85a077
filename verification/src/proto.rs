//! Messages of the `eventfold` service, as plain values.

pub mod expected_version;
pub mod subscribe_response;

use vstd::prelude::*;

verus! {

/// A message without content.
#[derive(Debug, Clone, Copy, PartialEq, Eq, Structural)]
pub struct Empty {}

/// An event as a client proposes it for appending.
#[derive(Debug, Clone)]
pub struct ProposedEvent {
    /// Identifier of the event, in text form.
    pub event_id: String,
    /// Name of the event's type.
    pub event_type: String,
    /// Metadata, as JSON bytes.
    pub metadata: Vec<u8>,
    /// Payload, as JSON bytes.
    pub payload: Vec<u8>,
}

/// An event as the server recorded it.
#[derive(Debug, Clone)]
pub struct RecordedEvent {
    /// Identifier of the event, in text form.
    pub event_id: String,
    /// Identifier of the stream that holds the event, in text form.
    pub stream_id: String,
    /// Zero-based version of the event within its stream.
    pub stream_version: u64,
    /// Zero-based position of the event in the global log.
    pub global_position: u64,
    /// Name of the event's type.
    pub event_type: String,
    /// Metadata, as JSON bytes.
    pub metadata: Vec<u8>,
    /// Payload, as JSON bytes.
    pub payload: Vec<u8>,
    /// When the server recorded the event, in milliseconds since the epoch.
    pub recorded_at: u64,
}

/// The contents of a [`RecordedEvent`].
#[verifier::ext_equal]
pub struct RecordedEventView {
    pub event_id: Seq<char>,
    pub stream_id: Seq<char>,
    pub stream_version: u64,
    pub global_position: u64,
    pub event_type: Seq<char>,
    pub metadata: Seq<u8>,
    pub payload: Seq<u8>,
    pub recorded_at: u64,
}

impl View for RecordedEvent {
    type V = RecordedEventView;

    open spec fn view(&self) -> RecordedEventView {
        RecordedEventView {
            event_id: self.event_id@,
            stream_id: self.stream_id@,
            stream_version: self.stream_version,
            global_position: self.global_position,
            event_type: self.event_type@,
            metadata: self.metadata@,
            payload: self.payload@,
            recorded_at: self.recorded_at,
        }
    }
}

/// The version that a stream must have for an append to be accepted.
#[derive(Debug, Clone, Copy, PartialEq, Eq, Structural)]
pub struct ExpectedVersion {
    /// The condition; absent when the sender set none.
    pub kind: Option<expected_version::Kind>,
}

/// A request to append events to one stream.
#[derive(Debug, Clone)]
pub struct AppendRequest {
    /// The stream to append to, in text form.
    pub stream_id: String,
    /// The condition on the stream's version.
    pub expected_version: Option<ExpectedVersion>,
    /// The events to append, in order.
    pub events: Vec<ProposedEvent>,
}

/// One message of a subscription.
#[derive(Debug, Clone)]
pub struct SubscribeResponse {
    /// What the message carries; absent in an empty message.
    pub content: Option<subscribe_response::Content>,
}

/// One stream in a listing.
#[derive(Debug, Clone)]
pub struct StreamInfo {
    /// The stream's identifier, in text form.
    pub stream_id: String,
}

/// The streams that the server holds.
#[derive(Debug, Clone)]
pub struct ListStreamsResponse {
    /// The streams, in the server's order.
    pub streams: Vec<StreamInfo>,
}

/// What is said of a recorded event is said of its fields, each under its own name.
pub proof fn law_a_recorded_event_is_its_fields(recorded: RecordedEvent)
    ensures
        recorded@.event_id == recorded.event_id@,
        recorded@.stream_id == recorded.stream_id@,
        recorded@.stream_version == recorded.stream_version,
        recorded@.global_position == recorded.global_position,
        recorded@.event_type == recorded.event_type@,
        recorded@.metadata == recorded.metadata@,
        recorded@.payload == recorded.payload@,
        recorded@.recorded_at == recorded.recorded_at,
{
}

} // verus!
