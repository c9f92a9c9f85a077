//! Delivery of a command envelope to an aggregate of one type.

use crate::aggregate::Aggregate;
use crate::command::{CommandContext, CommandEnvelope};
use crate::error::{StoreError, StoreErrorView};
use std::marker::PhantomData;
use vstd::prelude::*;

verus! {

/// How far the delivery of an envelope has come.
#[derive(Debug)]
pub enum DeliveryEvent {
    /// The command has been read from its JSON form, or could not be.
    Decoded(Result<(), String>),
    /// The aggregate's actor has been found or spawned, or could not be.
    Spawned(Result<(), String>),
    /// The actor has executed the command, or refused it.
    Executed(Result<(), String>),
}

/// What the delivery of an envelope does next.
#[derive(Debug)]
pub enum DeliveryAction {
    /// Find or spawn the aggregate's actor.
    Spawn,
    /// Have the actor execute the command.
    Execute,
    /// Nothing: the command has been executed.
    Delivered,
    /// Give up.
    Fail(StoreError),
}

/// The contents of a [`DeliveryEvent`]; each step holds the reason for its failure if it
/// failed.
#[verifier::ext_equal]
pub enum DeliveryEventView {
    Decoded(Option<Seq<char>>),
    Spawned(Option<Seq<char>>),
    Executed(Option<Seq<char>>),
}

/// The contents of a [`DeliveryAction`].
#[verifier::ext_equal]
pub enum DeliveryActionView {
    Spawn,
    Execute,
    Delivered,
    Fail(StoreErrorView),
}

/// The reason for a failure, if there was one.
pub open spec fn failure(outcome: Result<(), String>) -> Option<Seq<char>> {
    match outcome {
        Ok(_) => None,
        Err(reason) => Some(reason@),
    }
}

impl View for DeliveryEvent {
    type V = DeliveryEventView;

    open spec fn view(&self) -> DeliveryEventView {
        match self {
            DeliveryEvent::Decoded(outcome) => DeliveryEventView::Decoded(failure(*outcome)),
            DeliveryEvent::Spawned(outcome) => DeliveryEventView::Spawned(failure(*outcome)),
            DeliveryEvent::Executed(outcome) => DeliveryEventView::Executed(failure(*outcome)),
        }
    }
}

impl View for DeliveryAction {
    type V = DeliveryActionView;

    open spec fn view(&self) -> DeliveryActionView {
        match self {
            DeliveryAction::Spawn => DeliveryActionView::Spawn,
            DeliveryAction::Execute => DeliveryActionView::Execute,
            DeliveryAction::Delivered => DeliveryActionView::Delivered,
            DeliveryAction::Fail(error) => DeliveryActionView::Fail(error@),
        }
    }
}

impl DeliveryEventView {
    /// What the delivery does next: the step after a step that succeeded, and giving up
    /// after one that failed.
    pub open spec fn next(self) -> DeliveryActionView {
        match self {
            DeliveryEventView::Decoded(None) => DeliveryActionView::Spawn,
            DeliveryEventView::Spawned(None) => DeliveryActionView::Execute,
            DeliveryEventView::Executed(None) => DeliveryActionView::Delivered,
            DeliveryEventView::Decoded(Some(reason)) => DeliveryActionView::Fail(
                StoreErrorView::other("command deserialization failed: "@, reason),
            ),
            DeliveryEventView::Spawned(Some(reason)) => DeliveryActionView::Fail(
                StoreErrorView::other("actor spawn failed: "@, reason),
            ),
            DeliveryEventView::Executed(Some(reason)) => DeliveryActionView::Fail(
                StoreErrorView::other("command execution failed: "@, reason),
            ),
        }
    }
}

/// How a delivery ends that takes the steps it is told to, where each argument is the
/// reason for which a step fails, if it fails.
pub open spec fn delivery(
    decoding: Option<Seq<char>>,
    spawning: Option<Seq<char>>,
    executing: Option<Seq<char>>,
) -> DeliveryActionView {
    let first = DeliveryEventView::Decoded(decoding).next();
    let second = if first is Spawn {
        DeliveryEventView::Spawned(spawning).next()
    } else {
        first
    };
    if second is Execute {
        DeliveryEventView::Executed(executing).next()
    } else {
        second
    }
}

/// What the delivery of an envelope hands out.
#[derive(Debug)]
pub struct Delivery {
    /// The instance whose actor executes the command.
    pub instance_id: String,
    /// The command, in its JSON form.
    pub command: serde_json::Value,
    /// What travels with the command.
    pub context: CommandContext,
}

/// Dispatcher for a specific aggregate type `A`.
pub struct TypedDispatcher<A: Aggregate> {
    /// Names the aggregate type.
    pub marker: PhantomData<A>,
}

impl<A: Aggregate> TypedDispatcher<A> {
    /// Creates a new typed dispatcher.
    pub fn new() -> (dispatcher: Self)
        ensures
            dispatcher == (TypedDispatcher::<A> { marker: PhantomData }),
    {
        TypedDispatcher { marker: PhantomData }
    }

    /// Says what the delivery of an envelope hands out: the command that is to be read, the
    /// instance whose actor executes it, and what travels with it.
    pub fn address(&self, envelope: CommandEnvelope) -> (delivery: Delivery)
        ensures
            delivery.instance_id == envelope.instance_id,
            delivery.command == envelope.command,
            delivery.context == envelope.context,
    {
        Delivery {
            instance_id: envelope.instance_id,
            command: envelope.command,
            context: envelope.context,
        }
    }

    /// Takes in how far the delivery of an envelope has come, and says what it does next:
    /// read the command, find the actor, execute, and give up at the first failure.
    pub fn dispatch(&self, event: DeliveryEvent) -> (action: DeliveryAction)
        ensures
            action@ == event@.next(),
    {
        match event {
            DeliveryEvent::Decoded(outcome) => match outcome {
                Ok(_) => DeliveryAction::Spawn,
                Err(reason) => DeliveryAction::Fail(
                    StoreError::other("command deserialization failed: ", reason.as_str()),
                ),
            },
            DeliveryEvent::Spawned(outcome) => match outcome {
                Ok(_) => DeliveryAction::Execute,
                Err(reason) => DeliveryAction::Fail(
                    StoreError::other("actor spawn failed: ", reason.as_str()),
                ),
            },
            DeliveryEvent::Executed(outcome) => match outcome {
                Ok(_) => DeliveryAction::Delivered,
                Err(reason) => DeliveryAction::Fail(
                    StoreError::other("command execution failed: ", reason.as_str()),
                ),
            },
        }
    }
}

/// A command is delivered if and only if every step succeeds, and otherwise the first step
/// that fails decides the error.
pub proof fn law_first_failure_decides(
    decoding: Option<Seq<char>>,
    spawning: Option<Seq<char>>,
    executing: Option<Seq<char>>,
)
    ensures
        delivery(decoding, spawning, executing) is Delivered <==> decoding is None && spawning
            is None && executing is None,
        decoding is Some ==> delivery(decoding, spawning, executing)
            == DeliveryEventView::Decoded(decoding).next(),
        decoding is None && spawning is Some ==> delivery(decoding, spawning, executing)
            == DeliveryEventView::Spawned(spawning).next(),
        decoding is None && spawning is None ==> delivery(decoding, spawning, executing)
            == DeliveryEventView::Executed(executing).next(),
{
}

/// A type that can stand for the dispatcher of an aggregate type `A`.
pub trait HoldsDispatcher<A: Aggregate>: Sized {
    /// Whether `self` stands for a dispatcher. Each implementation says when it does.
    closed spec fn holds(&self, dispatcher: TypedDispatcher<A>) -> bool {
        arbitrary()
    }

    /// Puts a dispatcher into what stands for it.
    fn hold(dispatcher: TypedDispatcher<A>) -> (held: Self)
        ensures
            held.holds(dispatcher),
    ;
}

impl<A: Aggregate> HoldsDispatcher<A> for TypedDispatcher<A> {
    open spec fn holds(&self, dispatcher: TypedDispatcher<A>) -> bool {
        *self == dispatcher
    }

    fn hold(dispatcher: TypedDispatcher<A>) -> (held: Self) {
        dispatcher
    }
}

/// What each step of a delivery leads to: the next step after a success, and an error that
/// says which step failed and why after a failure.
pub proof fn law_what_each_step_leads_to(
    event: DeliveryEvent,
    action: DeliveryAction,
    reason: String,
)
    ensures
        event == DeliveryEvent::Decoded(Ok(())) ==> event@.next() is Spawn,
        event == DeliveryEvent::Spawned(Ok(())) ==> event@.next() is Execute,
        event == DeliveryEvent::Executed(Ok(())) ==> event@.next() is Delivered,
        event == DeliveryEvent::Decoded(Err(reason)) ==> {
            &&& event@.next() matches DeliveryActionView::Fail(error)
            &&& error.kind is Other
            &&& error.message == "command deserialization failed: "@ + reason@
        },
        event == DeliveryEvent::Spawned(Err(reason)) ==> {
            &&& event@.next() matches DeliveryActionView::Fail(error)
            &&& error.kind is Other
            &&& error.message == "actor spawn failed: "@ + reason@
        },
        event == DeliveryEvent::Executed(Err(reason)) ==> {
            &&& event@.next() matches DeliveryActionView::Fail(error)
            &&& error.kind is Other
            &&& error.message == "command execution failed: "@ + reason@
        },
        action is Spawn <==> action@ is Spawn,
        action is Execute <==> action@ is Execute,
        action is Delivered <==> action@ is Delivered,
        action matches DeliveryAction::Fail(error) ==> action@ == DeliveryActionView::Fail(error@),
{
}

} // verus!
