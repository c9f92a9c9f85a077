//! Commands on their way to an aggregate.

use crate::event::text_view;
use vstd::prelude::*;

verus! {

/// What travels with a command.
#[derive(Debug, Clone)]
pub struct CommandContext {
    /// Ties the events that follow from one cause together.
    pub correlation_id: Option<String>,
}

/// The contents of a [`CommandContext`].
#[verifier::ext_equal]
pub struct CommandContextView {
    pub correlation_id: Option<Seq<char>>,
}

impl View for CommandContext {
    type V = CommandContextView;

    open spec fn view(&self) -> CommandContextView {
        CommandContextView { correlation_id: text_view(self.correlation_id) }
    }
}

impl Default for CommandContext {
    fn default() -> (context: Self)
        ensures
            context@ == (CommandContextView { correlation_id: None }),
    {
        CommandContext { correlation_id: None }
    }
}

impl CommandContext {
    /// The same context with the given correlation identifier.
    pub fn with_correlation_id(self, correlation_id: String) -> (context: Self)
        ensures
            context@ == (CommandContextView { correlation_id: Some(correlation_id@) }),
    {
        CommandContext { correlation_id: Some(correlation_id) }
    }
}

/// A command addressed to one aggregate instance.
#[derive(Debug)]
pub struct CommandEnvelope {
    /// Type of the aggregate that the command is for.
    pub aggregate_type: String,
    /// The aggregate instance that the command is for.
    pub instance_id: String,
    /// The command itself.
    pub command: serde_json::Value,
    /// What travels with the command.
    pub context: CommandContext,
}

/// The contents of a [`CommandEnvelope`].
#[verifier::ext_equal]
pub struct CommandEnvelopeView {
    pub aggregate_type: Seq<char>,
    pub instance_id: Seq<char>,
    pub command: serde_json::Value,
    pub context: CommandContextView,
}

impl View for CommandEnvelope {
    type V = CommandEnvelopeView;

    open spec fn view(&self) -> CommandEnvelopeView {
        CommandEnvelopeView {
            aggregate_type: self.aggregate_type@,
            instance_id: self.instance_id@,
            command: self.command,
            context: self.context@,
        }
    }
}

/// The contents of several envelopes.
pub open spec fn envelopes_view(envelopes: Seq<CommandEnvelope>) -> Seq<CommandEnvelopeView> {
    envelopes.map_values(|envelope: CommandEnvelope| envelope@)
}

/// What is said of an envelope is said of its fields, each under its own name, and what is
/// said of several envelopes is said of each of them, in order.
pub proof fn law_an_envelope_is_its_fields(
    envelope: CommandEnvelope,
    envelopes: Seq<CommandEnvelope>,
)
    ensures
        envelope@.aggregate_type == envelope.aggregate_type@,
        envelope@.instance_id == envelope.instance_id@,
        envelope@.command == envelope.command,
        envelope@.context.correlation_id is Some == envelope.context.correlation_id is Some,
        envelope.context.correlation_id matches Some(id) ==> envelope@.context.correlation_id
            == Some(id@),
        envelopes_view(envelopes).len() == envelopes.len(),
        forall|i: int|
            0 <= i < envelopes.len() ==> #[trigger] envelopes_view(envelopes)[i] == envelopes[i]@,
{
}

} // verus!
