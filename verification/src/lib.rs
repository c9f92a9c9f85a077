//! Event-sourcing framework backed by an `eventfold-db` server.
//!
//! The crate holds the decisions of the framework: how recorded events are
//! decoded and folded into projections and process managers, how command
//! envelopes are routed or dead-lettered, how the live subscription reconnects,
//! and what a store remembers between calls. All of this is verified, against the
//! contracts of five small functions that are trusted: four call the `uuid` and
//! `serde_json` crates (see [`event`]), one compares type identities (see
//! [`store`]). The network, the clock and the disk live in the program around it.

pub mod aggregate;
pub mod builder;
pub mod command;
pub mod dead_letter;
pub mod dispatch;
pub mod dispatcher;
pub mod duration;
pub mod error;
pub mod event;
pub mod live;
pub mod path;
pub mod process_manager;
pub mod projection;
pub mod proto;
pub mod store;
pub mod stream;
pub mod table;
pub mod text;

pub use aggregate::Aggregate;
pub use builder::AggregateStoreBuilder;
pub use command::{CommandContext, CommandEnvelope};
pub use duration::Duration;
pub use error::{ErrorKind, StoreError};
pub use event::{decode_stored_event, StoredEvent};
pub use live::{LiveConfig, LiveHandle};
pub use process_manager::{ProcessManager, ProcessManagerReport};
pub use projection::Projection;
pub use store::{AggregateStore, InjectOptions};
