//! Aggregate trait for domain-driven event sourcing.

use vstd::prelude::*;

verus! {

/// A domain aggregate whose state is derived from its event history.
///
/// The implementing type itself serves as the aggregate's state. State is built by
/// folding domain events through the [`apply`](Aggregate::apply) method.
///
/// # Contract
///
/// - [`handle`](Aggregate::handle) is a pure decision function: no I/O, no side
///   effects. It validates a command against the current state and returns zero or
///   more events. [`decision`](Aggregate::decision) is the function that it computes.
/// - [`apply`](Aggregate::apply) is a pure, total function. It takes ownership of the
///   current state and a reference to a domain event, returning the next state.
///   [`applied`](Aggregate::applied) is the function that it computes. Unknown event
///   variants should be ignored for forward compatibility.
pub trait Aggregate: Default + Clone + Send + Sync + 'static {
    /// Identifies this aggregate type (e.g. "order").
    const AGGREGATE_TYPE: &'static str;

    /// The set of commands this aggregate can handle.
    type Command: Send + 'static;

    /// The set of events this aggregate can produce and apply.
    type DomainEvent: Send + Sync + Clone + 'static;

    /// Command rejection / validation error type.
    type Error: Send + Sync + 'static;

    /// The events that a command leads to, or the reason for its rejection. Each
    /// implementation says what they are.
    closed spec fn decision(self, cmd: Self::Command) -> Result<
        Seq<Self::DomainEvent>,
        Self::Error,
    > {
        arbitrary()
    }

    /// The state that follows `self` once `event` has been applied. Each implementation
    /// says what it is.
    closed spec fn applied(self, event: Self::DomainEvent) -> Self {
        arbitrary()
    }

    /// Validates a command against the current state and produces events.
    ///
    /// Returns no events if the command is a no-op, and an error to reject the command.
    fn handle(&self, cmd: Self::Command) -> (outcome: Result<Vec<Self::DomainEvent>, Self::Error>)
        ensures
            match outcome {
                Ok(events) => self.decision(cmd) == Ok::<_, Self::Error>(events@),
                Err(reason) => self.decision(cmd) == Err::<Seq<Self::DomainEvent>, _>(reason),
            },
    ;

    /// Applies a single event to produce the next state.
    fn apply(self, event: &Self::DomainEvent) -> (next: Self)
        ensures
            next == self.applied(*event),
    ;
}

} // verus!
