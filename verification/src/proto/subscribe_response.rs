//! The alternatives of a subscription message.

use crate::proto::{Empty, RecordedEvent};
use vstd::prelude::*;

verus! {

/// What a subscription message carries.
#[derive(Debug, Clone)]
pub enum Content {
    /// An event of the global log.
    Event(RecordedEvent),
    /// The sentinel: every event recorded so far has been sent.
    CaughtUp(Empty),
}

} // verus!
