//! Routing of command envelopes to their aggregates, and of those that cannot be
//! delivered to the dead-letter logs.

use crate::command::{envelopes_view, CommandEnvelope, CommandEnvelopeView};
use crate::path::DataPath;
use crate::process_manager::ProcessManagerReport;
use crate::table::Table;
use crate::text::prefixed;
use vstd::prelude::*;

verus! {

/// What one process manager wants dispatched.
#[derive(Debug)]
pub struct Batch {
    /// The envelopes, in order.
    pub envelopes: Vec<CommandEnvelope>,
    /// The dead-letter log for those that cannot be delivered.
    pub dead_letter_path: DataPath,
}

/// The contents of a [`Batch`].
#[verifier::ext_equal]
pub struct BatchView {
    pub envelopes: Seq<CommandEnvelopeView>,
    pub dead_letter_path: Seq<Seq<char>>,
}

impl View for Batch {
    type V = BatchView;

    open spec fn view(&self) -> BatchView {
        BatchView {
            envelopes: envelopes_view(self.envelopes@),
            dead_letter_path: self.dead_letter_path@,
        }
    }
}

/// The contents of several batches.
pub open spec fn batches_view(batches: Seq<Batch>) -> Seq<BatchView> {
    batches.map_values(|batch: Batch| batch@)
}

/// One envelope, and the dead-letter log it goes to if it cannot be delivered.
#[derive(Debug)]
pub struct PendingCommand {
    /// The envelope.
    pub envelope: CommandEnvelope,
    /// The dead-letter log.
    pub dead_letter_path: DataPath,
}

/// The contents of a [`PendingCommand`].
#[verifier::ext_equal]
pub struct PendingCommandView {
    pub envelope: CommandEnvelopeView,
    pub dead_letter_path: Seq<Seq<char>>,
}

impl View for PendingCommand {
    type V = PendingCommandView;

    open spec fn view(&self) -> PendingCommandView {
        PendingCommandView {
            envelope: self.envelope@,
            dead_letter_path: self.dead_letter_path@,
        }
    }
}

/// The commands of one batch, in order.
pub open spec fn commands_of(batch: BatchView) -> Seq<PendingCommandView> {
    batch.envelopes.map_values(
        |envelope: CommandEnvelopeView|
            PendingCommandView { envelope, dead_letter_path: batch.dead_letter_path },
    )
}

/// The commands of several batches, batch after batch.
pub open spec fn all_commands(batches: Seq<BatchView>) -> Seq<PendingCommandView>
    decreases batches.len(),
{
    if batches.len() == 0 {
        Seq::empty()
    } else {
        all_commands(batches.drop_last()) + commands_of(batches.last())
    }
}

/// What has happened to the current command. `E` is the error of a dead letter that could
/// not be written.
#[derive(Debug)]
pub enum DispatchEvent<E> {
    /// Nothing yet: the run begins.
    Begin,
    /// Its dispatcher has run, and failed with a message if it failed.
    Dispatched(Result<(), String>),
    /// Its dead letter has been written, or could not be.
    DeadLettered(Result<(), E>),
}

/// The contents of a [`DispatchEvent`].
#[verifier::ext_equal]
pub enum DispatchEventView {
    Begin,
    Delivered,
    Refused(Seq<char>),
    DeadLettered(bool),
}

impl<E> View for DispatchEvent<E> {
    type V = DispatchEventView;

    open spec fn view(&self) -> DispatchEventView {
        match self {
            DispatchEvent::Begin => DispatchEventView::Begin,
            DispatchEvent::Dispatched(Ok(_)) => DispatchEventView::Delivered,
            DispatchEvent::Dispatched(Err(message)) => DispatchEventView::Refused(message@),
            DispatchEvent::DeadLettered(outcome) => DispatchEventView::DeadLettered(outcome is Ok),
        }
    }
}

/// What is to be done next.
#[derive(Debug)]
pub enum DispatchAction<E> {
    /// Hand the current command to the dispatcher of its aggregate type.
    Dispatch,
    /// Write the current command to its dead-letter log, with the given message.
    DeadLetter(String),
    /// Nothing: every command has been handled.
    Done,
    /// Give up: a dead letter could not be written, for the given reason.
    Abort(E),
}

/// The contents of a [`DispatchAction`], but for the reason to give up.
#[verifier::ext_equal]
pub enum DispatchActionView {
    Dispatch,
    DeadLetter(Seq<char>),
    Done,
    Abort,
}

impl<E> View for DispatchAction<E> {
    type V = DispatchActionView;

    open spec fn view(&self) -> DispatchActionView {
        match self {
            DispatchAction::Dispatch => DispatchActionView::Dispatch,
            DispatchAction::DeadLetter(message) => DispatchActionView::DeadLetter(message@),
            DispatchAction::Done => DispatchActionView::Done,
            DispatchAction::Abort(_) => DispatchActionView::Abort,
        }
    }
}

/// What a dispatch run is waiting for.
#[derive(Debug, Clone, Copy, PartialEq, Eq, Structural)]
pub enum Awaiting {
    /// To begin.
    Begin,
    /// What the dispatcher of the current command answers.
    Dispatch,
    /// Whether the dead letter of the current command was written.
    DeadLetter,
    /// Nothing: every command has been handled.
    Done,
    /// Nothing: the run was given up.
    Aborted,
}

impl DispatchActionView {
    /// What a run waits for once it has asked for the action.
    pub open spec fn awaited(self) -> Awaiting {
        match self {
            DispatchActionView::Dispatch => Awaiting::Dispatch,
            DispatchActionView::DeadLetter(_) => Awaiting::DeadLetter,
            DispatchActionView::Done => Awaiting::Done,
            DispatchActionView::Abort => Awaiting::Aborted,
        }
    }
}

/// How far a dispatch run has come.
pub struct DispatchRun {
    commands: Vec<PendingCommand>,
    current: usize,
    report: ProcessManagerReport,
    strict: bool,
    awaiting: Awaiting,
}

/// The contents of a [`DispatchRun`].
#[verifier::ext_equal]
pub struct DispatchRunView {
    /// The commands of the run, in the order in which they are handled.
    pub commands: Seq<PendingCommandView>,
    /// How many of them have been handled.
    pub current: int,
    /// How many of those were delivered.
    pub dispatched: int,
    /// How many of those were written to a dead-letter log.
    pub dead_lettered: int,
    /// Whether a dead letter that cannot be written ends the run.
    pub strict: bool,
    /// What the run is waiting for.
    pub awaiting: Awaiting,
}

/// The message for a command whose aggregate type has no dispatcher.
pub open spec fn unknown_type(aggregate_type: Seq<char>) -> Seq<char> {
    "unknown aggregate type: "@ + aggregate_type
}

impl DispatchRunView {
    /// No more commands have been handled than there are, and each was delivered,
    /// dead-lettered or (where that is let pass) neither. An answer is awaited on a command
    /// that is there, and the run is done once every command has been handled.
    pub open spec fn wf(self) -> bool {
        &&& 0 <= self.current <= self.commands.len()
        &&& self.dispatched >= 0
        &&& self.dead_lettered >= 0
        &&& self.dispatched + self.dead_lettered <= self.current
        &&& self.strict ==> self.dispatched + self.dead_lettered == self.current
        &&& match self.awaiting {
            Awaiting::Begin => self.current == 0,
            Awaiting::Done => self.current == self.commands.len(),
            _ => self.current < self.commands.len(),
        }
    }

    /// Whether an event answers what the run is waiting for.
    pub open spec fn answered_by(self, event: DispatchEventView) -> bool {
        match event {
            DispatchEventView::Begin => self.awaiting is Begin,
            DispatchEventView::Delivered => self.awaiting is Dispatch,
            DispatchEventView::Refused(_) => self.awaiting is Dispatch,
            DispatchEventView::DeadLettered(_) => self.awaiting is DeadLetter,
        }
    }

    /// The run with one more command delivered.
    pub open spec fn delivered(self) -> Self {
        DispatchRunView { current: self.current + 1, dispatched: self.dispatched + 1, ..self }
    }

    /// The run with one more command dead-lettered.
    pub open spec fn dead_letter_written(self) -> Self {
        DispatchRunView { current: self.current + 1, dead_lettered: self.dead_lettered + 1, ..self }
    }

    /// The run with one more command given up.
    pub open spec fn passed_over(self) -> Self {
        DispatchRunView { current: self.current + 1, ..self }
    }

    /// The run with what an event says of the current command settled.
    pub open spec fn settled(self, event: DispatchEventView) -> Self {
        match event {
            DispatchEventView::Begin => self,
            DispatchEventView::Delivered => self.delivered(),
            DispatchEventView::Refused(_) => self,
            DispatchEventView::DeadLettered(true) => self.dead_letter_written(),
            DispatchEventView::DeadLettered(false) => if self.strict {
                self
            } else {
                self.passed_over()
            },
        }
    }

    /// What is to be done with the current command, where the aggregate types in
    /// `known` have a dispatcher.
    pub open spec fn opening(self, known: Set<Seq<char>>) -> DispatchActionView {
        if self.current >= self.commands.len() {
            DispatchActionView::Done
        } else {
            let aggregate_type = self.commands[self.current].envelope.aggregate_type;
            if known.contains(aggregate_type) {
                DispatchActionView::Dispatch
            } else {
                DispatchActionView::DeadLetter(unknown_type(aggregate_type))
            }
        }
    }

    /// What is to be done after an event.
    pub open spec fn action(
        self,
        event: DispatchEventView,
        known: Set<Seq<char>>,
    ) -> DispatchActionView {
        match event {
            DispatchEventView::Refused(message) => DispatchActionView::DeadLetter(message),
            DispatchEventView::DeadLettered(false) if self.strict => DispatchActionView::Abort,
            _ => self.settled(event).opening(known),
        }
    }

    /// The run after an event.
    pub open spec fn after(self, event: DispatchEventView, known: Set<Seq<char>>) -> Self {
        DispatchRunView {
            awaiting: self.action(event, known).awaited(),
            ..self.settled(event)
        }
    }

    /// Whether the run waits for what is to be done with the current command, where the
    /// aggregate types in `known` have a dispatcher.
    pub open spec fn opened(self, known: Set<Seq<char>>) -> bool {
        self.awaiting == self.opening(known).awaited()
    }

    /// The run after the current command has been handled, where `refusal` is what its
    /// dispatcher, if it has one, answers, and dead letters can be written.
    pub open spec fn handled(self, known: Set<Seq<char>>, refusal: Option<Seq<char>>) -> Self {
        match self.awaiting {
            Awaiting::Dispatch => match refusal {
                None => self.after(DispatchEventView::Delivered, known),
                Some(message) => self.after(DispatchEventView::Refused(message), known).after(
                    DispatchEventView::DeadLettered(true),
                    known,
                ),
            },
            Awaiting::DeadLetter => self.after(DispatchEventView::DeadLettered(true), known),
            _ => self,
        }
    }

    /// The run after the next commands have been handled, one for each of `refusals`.
    pub open spec fn handled_all(
        self,
        known: Set<Seq<char>>,
        refusals: Seq<Option<Seq<char>>>,
    ) -> Self
        decreases refusals.len(),
    {
        if refusals.len() == 0 {
            self
        } else {
            self.handled(known, refusals[0]).handled_all(known, refusals.drop_first())
        }
    }

    /// How many of the next commands have a dispatcher that accepts them, where each of
    /// `refusals` is what the dispatcher of one command answers.
    pub open spec fn accepted(self, known: Set<Seq<char>>, refusals: Seq<Option<Seq<char>>>) -> int
        decreases refusals.len(),
    {
        if refusals.len() == 0 || self.current >= self.commands.len() {
            0
        } else {
            let later = self.passed_over().accepted(known, refusals.drop_first());
            if known.contains(self.commands[self.current].envelope.aggregate_type)
                && refusals[0] is None {
                1 + later
            } else {
                later
            }
        }
    }
}

impl View for DispatchRun {
    type V = DispatchRunView;

    closed spec fn view(&self) -> DispatchRunView {
        DispatchRunView {
            commands: self.commands@.map_values(|command: PendingCommand| command@),
            current: self.current as int,
            dispatched: self.report.dispatched as int,
            dead_lettered: self.report.dead_lettered as int,
            strict: self.strict,
            awaiting: self.awaiting,
        }
    }
}

impl DispatchRun {
    /// A run over the commands of several batches. In a `strict` run a dead letter that
    /// cannot be written ends the run; otherwise the run passes over it.
    pub fn new(batches: Vec<Batch>, strict: bool) -> (run: Self)
        ensures
            run@ == (DispatchRunView {
                commands: all_commands(batches_view(batches@)),
                current: 0,
                dispatched: 0,
                dead_lettered: 0,
                strict,
                awaiting: Awaiting::Begin,
            }),
            run@.wf(),
    {
        let ghost all = batches_view(batches@);
        let mut commands: Vec<PendingCommand> = Vec::new();
        for batch in list: batches
            invariant
                all == batches_view(batches@),
                all == batches_view(list.seq()),
                commands@.map_values(|command: PendingCommand| command@) == all_commands(
                    all.take(list.index() as int),
                ),
        {
            let ghost before = commands@.map_values(|command: PendingCommand| command@);
            let ghost whole = batch@;
            let path = batch.dead_letter_path;
            let envelopes = batch.envelopes;
            for envelope in letters: envelopes
                invariant
                    whole.envelopes == envelopes_view(letters.seq()),
                    whole.dead_letter_path == path@,
                    commands@.map_values(|command: PendingCommand| command@) == before
                        + commands_of(whole).take(letters.index() as int),
            {
                let ghost so_far = commands@;
                let ghost taken = commands_of(whole).take(letters.index() as int);
                let command = PendingCommand { envelope, dead_letter_path: path.copy() };
                proof {
                    assert(command@ == commands_of(whole)[letters.index() as int]);
                    assert(commands_of(whole).take(letters.index() + 1) == taken.push(command@));
                    assert(so_far.push(command).map_values(|command: PendingCommand| command@)
                        == so_far.map_values(|command: PendingCommand| command@).push(command@));
                    assert(before + taken.push(command@) == (before + taken).push(command@));
                }
                commands.push(command);
            }
            proof {
                let index = list.index() as int;
                assert(all[index] == whole);
                assert(all.take(index + 1).drop_last() == all.take(index));
                assert(commands_of(whole).take(commands_of(whole).len() as int) == commands_of(
                    whole,
                ));
            }
        }
        assert(all.take(all.len() as int) == all);
        DispatchRun {
            commands,
            current: 0,
            report: ProcessManagerReport::default(),
            strict,
            awaiting: Awaiting::Begin,
        }
    }

    /// Whether every command has been handled.
    pub fn is_done(&self) -> (done: bool)
        ensures
            done == (self@.current >= self@.commands.len()),
    {
        self.current >= self.commands.len()
    }

    /// The command that is being handled.
    pub fn current(&self) -> (command: &PendingCommand)
        requires
            self@.wf(),
            self@.current < self@.commands.len(),
        ensures
            command@ == self@.commands[self@.current],
    {
        &self.commands[self.current]
    }

    /// How many commands have been delivered, and how many dead-lettered.
    pub fn report(&self) -> (report: ProcessManagerReport)
        ensures
            report.dispatched == self@.dispatched,
            report.dead_lettered == self@.dead_lettered,
    {
        self.report
    }

    /// What is to be done with the current command.
    fn open<D, E>(&mut self, dispatchers: &Table<String, D>) -> (action: DispatchAction<E>)
        requires
            dispatchers.wf(),
        ensures
            action@ == old(self)@.opening(dispatchers.map().dom()),
            final(self)@ == (DispatchRunView { awaiting: action@.awaited(), ..old(self)@ }),
    {
        if self.current >= self.commands.len() {
            self.awaiting = Awaiting::Done;
            return DispatchAction::Done;
        }
        let aggregate_type = &self.commands[self.current].envelope.aggregate_type;
        match dispatchers.get(aggregate_type) {
            Some(_) => {
                self.awaiting = Awaiting::Dispatch;
                DispatchAction::Dispatch
            },
            None => {
                let message = prefixed("unknown aggregate type: ", aggregate_type.as_str());
                self.awaiting = Awaiting::DeadLetter;
                DispatchAction::DeadLetter(message)
            },
        }
    }

    /// Takes in what has happened to the current command, and says what is to be done
    /// next. The event answers what the run has asked for.
    pub fn step<D, E>(&mut self, dispatchers: &Table<String, D>, event: DispatchEvent<E>) -> (action:
        DispatchAction<E>)
        requires
            old(self)@.wf(),
            dispatchers.wf(),
            old(self)@.answered_by(event@),
        ensures
            final(self)@.wf(),
            final(self)@ == old(self)@.after(event@, dispatchers.map().dom()),
            action@ == old(self)@.action(event@, dispatchers.map().dom()),
            action matches DispatchAction::Abort(error) ==> event == DispatchEvent::DeadLettered(
                Err::<(), E>(error),
            ),
    {
        assert(self@.commands.len() == self.commands.len());
        match event {
            DispatchEvent::Begin => {},
            DispatchEvent::Dispatched(Ok(_)) => {
                self.report.dispatched = self.report.dispatched + 1;
                self.current = self.current + 1;
            },
            DispatchEvent::Dispatched(Err(message)) => {
                self.awaiting = Awaiting::DeadLetter;
                return DispatchAction::DeadLetter(message);
            },
            DispatchEvent::DeadLettered(Ok(_)) => {
                self.report.dead_lettered = self.report.dead_lettered + 1;
                self.current = self.current + 1;
            },
            DispatchEvent::DeadLettered(Err(error)) => {
                if self.strict {
                    self.awaiting = Awaiting::Aborted;
                    return DispatchAction::Abort(error);
                }
                self.current = self.current + 1;
            },
        }
        self.open(dispatchers)
    }
}

/// Batches are dispatched one after the other: the commands of some batches and then of
/// others are those of the former followed by those of the latter.
pub proof fn law_batches_are_dispatched_in_order(first: Seq<BatchView>, second: Seq<BatchView>)
    ensures
        all_commands(first + second) == all_commands(first) + all_commands(second),
    decreases second.len(),
{
    if second.len() == 0 {
        assert(first + second == first);
        assert(all_commands(first) + all_commands(second) == all_commands(first));
    } else {
        assert((first + second).drop_last() == first + second.drop_last());
        law_batches_are_dispatched_in_order(first, second.drop_last());
        assert(all_commands(first) + (all_commands(second.drop_last()) + commands_of(second.last()))
            == (all_commands(first) + all_commands(second.drop_last())) + commands_of(
            second.last(),
        ));
    }
}

/// A strict run that has handled every command has delivered or dead-lettered each of
/// them, and none twice.
pub proof fn law_every_command_is_accounted_for(run: DispatchRunView)
    requires
        run.wf(),
        run.strict,
        run.current >= run.commands.len(),
    ensures
        run.dispatched + run.dead_lettered == run.commands.len(),
{
}

/// A run that has been told to begin is waiting for what is to be done with its first
/// command, if there is one.
pub proof fn law_a_run_begins_with_its_first_command(run: DispatchRunView, known: Set<Seq<char>>)
    requires
        run.wf(),
        run.awaiting is Begin,
    ensures
        run.after(DispatchEventView::Begin, known).wf(),
        run.after(DispatchEventView::Begin, known).opened(known),
        run.after(DispatchEventView::Begin, known).current == 0,
{
}

/// Where dead letters can be written, a run that has begun delivers those of the next
/// commands that have a dispatcher which accepts them, dead-letters the others, and leaves
/// the list of commands as it is.
pub proof fn law_delivered_or_dead_lettered(
    run: DispatchRunView,
    known: Set<Seq<char>>,
    refusals: Seq<Option<Seq<char>>>,
)
    requires
        run.wf(),
        run.opened(known),
        run.current + refusals.len() <= run.commands.len(),
    ensures
        ({
            let end = run.handled_all(known, refusals);
            let accepted = run.accepted(known, refusals);
            &&& end.wf()
            &&& end.opened(known)
            &&& end.commands == run.commands
            &&& end.current == run.current + refusals.len()
            &&& end.dispatched == run.dispatched + accepted
            &&& end.dead_lettered == run.dead_lettered + refusals.len() - accepted
        }),
    decreases refusals.len(),
{
    if refusals.len() > 0 {
        let next = run.handled(known, refusals[0]);
        law_delivered_or_dead_lettered(next, known, refusals.drop_first());
        lemma_accepted_by_commands(next, run.passed_over(), known, refusals.drop_first());
    }
}

/// How many commands are accepted depends on the commands and the place in them alone.
proof fn lemma_accepted_by_commands(
    one: DispatchRunView,
    other: DispatchRunView,
    known: Set<Seq<char>>,
    refusals: Seq<Option<Seq<char>>>,
)
    requires
        one.commands == other.commands,
        one.current == other.current,
    ensures
        one.accepted(known, refusals) == other.accepted(known, refusals),
    decreases refusals.len(),
{
    if refusals.len() > 0 && one.current < one.commands.len() {
        lemma_accepted_by_commands(
            one.passed_over(),
            other.passed_over(),
            known,
            refusals.drop_first(),
        );
    }
}

/// What is said of batches and of commands is said of their fields, each under its own name,
/// and what is said of several batches is said of each of them, in order.
pub proof fn law_a_batch_is_its_fields(batches: Seq<Batch>, command: PendingCommand)
    ensures
        batches_view(batches).len() == batches.len(),
        forall|b: int|
            0 <= b < batches.len() ==> {
                &&& (#[trigger] batches_view(batches)[b]).envelopes.len()
                    == batches[b].envelopes@.len()
                &&& forall|i: int|
                    0 <= i < batches[b].envelopes@.len() ==> #[trigger] batches_view(
                        batches,
                    )[b].envelopes[i] == batches[b].envelopes@[i]@
                &&& batches_view(batches)[b].dead_letter_path == batches[b].dead_letter_path@
            },
        command@.envelope == command.envelope@,
        command@.dead_letter_path == command.dead_letter_path@,
{
}

/// A run holds every envelope of every batch, batch after batch and in order, each with the
/// dead-letter log of its batch.
pub proof fn law_a_run_holds_every_envelope(batches: Seq<BatchView>)
    ensures
        all_commands(batches) == Seq::new(
            batches.len(),
            |b: int|
                Seq::new(
                    batches[b].envelopes.len(),
                    |i: int|
                        PendingCommandView {
                            envelope: batches[b].envelopes[i],
                            dead_letter_path: batches[b].dead_letter_path,
                        },
                ),
        ).flatten(),
        all_commands(batches).len() == batches.fold_left(
            0,
            |count: int, batch: BatchView| count + batch.envelopes.len(),
        ),
{
    lemma_commands_of_each(batches);
    lemma_commands_counted(batches);
}

/// The commands of batches, put together from the front.
proof fn lemma_commands_of_each(batches: Seq<BatchView>)
    ensures
        all_commands(batches) == Seq::new(
            batches.len(),
            |b: int|
                Seq::new(
                    batches[b].envelopes.len(),
                    |i: int|
                        PendingCommandView {
                            envelope: batches[b].envelopes[i],
                            dead_letter_path: batches[b].dead_letter_path,
                        },
                ),
        ).flatten(),
    decreases batches.len(),
{
    let each = Seq::new(
        batches.len(),
        |b: int|
            Seq::new(
                batches[b].envelopes.len(),
                |i: int|
                    PendingCommandView {
                        envelope: batches[b].envelopes[i],
                        dead_letter_path: batches[b].dead_letter_path,
                    },
            ),
    );
    if batches.len() == 0 {
        assert(each.flatten() == Seq::<PendingCommandView>::empty());
    } else {
        let (first, rest) = (seq![batches[0]], batches.drop_first());
        let later = Seq::new(
            rest.len(),
            |b: int|
                Seq::new(
                    rest[b].envelopes.len(),
                    |i: int|
                        PendingCommandView {
                            envelope: rest[b].envelopes[i],
                            dead_letter_path: rest[b].dead_letter_path,
                        },
                ),
        );
        lemma_commands_of_each(rest);
        law_batches_are_dispatched_in_order(first, rest);
        assert(first + rest == batches);
        assert(first.drop_last() == Seq::<BatchView>::empty());
        assert(all_commands(first.drop_last()) == Seq::<PendingCommandView>::empty());
        assert(all_commands(first) == commands_of(batches[0]));
        assert(commands_of(batches[0]) == each[0]);
        assert forall|b: int| 0 <= b < rest.len() implies each.drop_first()[b] == later[b] by {
            assert(each[b + 1] == later[b]);
        }
        assert(each.drop_first() == later);
        assert(each.flatten() == each[0] + each.drop_first().flatten());
    }
}

/// How many commands batches hold.
proof fn lemma_commands_counted(batches: Seq<BatchView>)
    ensures
        all_commands(batches).len() == batches.fold_left(
            0,
            |count: int, batch: BatchView| count + batch.envelopes.len(),
        ),
    decreases batches.len(),
{
    reveal(Seq::fold_left);
    if batches.len() > 0 {
        lemma_commands_counted(batches.drop_last());
    }
}

/// A strict run over batches that has handled every command has delivered or dead-lettered
/// as many commands as the batches held envelopes.
pub proof fn law_every_envelope_is_accounted_for(batches: Seq<BatchView>, run: DispatchRunView)
    requires
        run.commands == all_commands(batches),
        run.wf(),
        run.strict,
        run.awaiting is Done,
    ensures
        run.dispatched + run.dead_lettered == batches.fold_left(
            0,
            |count: int, batch: BatchView| count + batch.envelopes.len(),
        ),
{
    lemma_commands_counted(batches);
}

/// What a run counts adds up, and what it waits for is there to wait for.
pub proof fn law_a_run_adds_up(run: DispatchRunView)
    ensures
        run.wf() <==> {
            &&& 0 <= run.current <= run.commands.len()
            &&& 0 <= run.dispatched
            &&& 0 <= run.dead_lettered
            &&& run.dispatched + run.dead_lettered <= run.current
            &&& run.strict ==> run.dispatched + run.dead_lettered == run.current
            &&& run.awaiting is Begin ==> run.current == 0
            &&& run.awaiting is Done ==> run.current == run.commands.len()
            &&& run.awaiting is Dispatch || run.awaiting is DeadLetter || run.awaiting is Aborted
                ==> run.current < run.commands.len()
        },
{
}

/// What an answer does to a run, answer by answer: a delivered command counts as dispatched,
/// one whose letter was written as dead-lettered, and the run goes on to the next; a refusal
/// leaves the command where it is; a lost letter ends a strict run and is passed over in any
/// other. Nothing else about the run changes.
pub proof fn law_what_an_answer_does(
    run: DispatchRunView,
    event: DispatchEventView,
    known: Set<Seq<char>>,
)
    ensures
        ({
            let next = run.after(event, known);
            let handled = event is Delivered || event == DispatchEventView::DeadLettered(true) || (
            event == DispatchEventView::DeadLettered(false) && !run.strict);
            &&& next.commands == run.commands
            &&& next.strict == run.strict
            &&& next.current == run.current + if handled {
                1int
            } else {
                0
            }
            &&& next.dispatched == run.dispatched + if event is Delivered {
                1int
            } else {
                0
            }
            &&& next.dead_lettered == run.dead_lettered + if event
                == DispatchEventView::DeadLettered(true) {
                1int
            } else {
                0
            }
        }),
        run.answered_by(event) <==> match run.awaiting {
            Awaiting::Begin => event is Begin,
            Awaiting::Dispatch => event is Delivered || event is Refused,
            Awaiting::DeadLetter => event is DeadLettered,
            Awaiting::Done => false,
            Awaiting::Aborted => false,
        },
{
}

/// What a run asks for after an answer: a letter with the reason for a refusal, to give up
/// where a letter is lost in a strict run, and otherwise what the command at hand needs:
/// nothing if there is none, a dispatcher if its aggregate type has one, and else a letter
/// that says which type is unknown. What it asks for is what it then waits for.
pub proof fn law_what_a_run_asks_for(
    run: DispatchRunView,
    event: DispatchEventView,
    known: Set<Seq<char>>,
    message: Seq<char>,
)
    ensures
        ({
            let (next, action) = (run.after(event, known), run.action(event, known));
            let lost = run.strict && event == DispatchEventView::DeadLettered(false);
            let aggregate_type = run.commands[next.current].envelope.aggregate_type;
            &&& event == DispatchEventView::Refused(message) ==> action
                == DispatchActionView::DeadLetter(message)
            &&& lost ==> action is Abort
            &&& event !is Refused && !lost && next.current >= run.commands.len() ==> action is Done
            &&& event !is Refused && !lost && next.current < run.commands.len() ==> if known.contains(
                aggregate_type,
            ) {
                action is Dispatch
            } else {
                action == DispatchActionView::DeadLetter(
                    "unknown aggregate type: "@ + aggregate_type,
                )
            }
            &&& action is Dispatch ==> next.awaiting is Dispatch
            &&& action is DeadLetter ==> next.awaiting is DeadLetter
            &&& action is Done ==> next.awaiting is Done
            &&& action is Abort ==> next.awaiting is Aborted
        }),
{
}

/// What is said of an answer and of what is asked for is said of what they hold.
pub proof fn law_an_answer_says_what_it_holds<E>(
    event: DispatchEvent<E>,
    action: DispatchAction<E>,
    message: String,
)
    ensures
        event is Begin ==> event@ is Begin,
        event == DispatchEvent::<E>::Dispatched(Ok(())) ==> event@ is Delivered,
        event == DispatchEvent::<E>::Dispatched(Err(message)) ==> event@
            == DispatchEventView::Refused(message@),
        event matches DispatchEvent::DeadLettered(outcome) ==> event@
            == DispatchEventView::DeadLettered(outcome is Ok),
        action is Dispatch ==> action@ is Dispatch,
        action == DispatchAction::<E>::DeadLetter(message) ==> action@
            == DispatchActionView::DeadLetter(message@),
        action is Done ==> action@ is Done,
        action is Abort ==> action@ is Abort,
{
}

/// The counts of a run are those of the answers it was given, and a run that is done has
/// been given one final answer for each of its commands. `runs` is the run before each answer
/// and after the last.
pub proof fn law_the_report_counts_the_answers(
    runs: Seq<DispatchRunView>,
    events: Seq<DispatchEventView>,
    known: Set<Seq<char>>,
)
    requires
        runs.len() == events.len() + 1,
        runs[0].wf(),
        forall|i: int|
            0 <= i < events.len() ==> runs[i].answered_by(#[trigger] events[i]) && runs[i + 1]
                == runs[i].after(events[i], known),
    ensures
        ({
            let (first, last) = (runs[0], runs.last());
            &&& last.wf()
            &&& last.commands == first.commands
            &&& last.strict == first.strict
            &&& last.dispatched == first.dispatched + events.filter(
                |event: DispatchEventView| event is Delivered,
            ).len()
            &&& last.dead_lettered == first.dead_lettered + events.filter(
                |event: DispatchEventView| event == DispatchEventView::DeadLettered(true),
            ).len()
            &&& last.awaiting is Done ==> last.current == last.commands.len()
        }),
    decreases events.len(),
{
    reveal(Seq::filter);
    if events.len() > 0 {
        let (earlier, before) = (events.drop_last(), runs.drop_last());
        let end = events.len() - 1;
        assert forall|i: int| 0 <= i < earlier.len() implies before[i].answered_by(
            #[trigger] earlier[i],
        ) && before[i + 1] == before[i].after(earlier[i], known) by {
            assert(earlier[i] == events[i]);
        }
        law_the_report_counts_the_answers(before, earlier, known);
        assert(runs[end].answered_by(events[end]) && runs[end + 1] == runs[end].after(
            events[end],
            known,
        ));
        assert(before.last() == runs[end]);
        assert(events.last() == events[end]);
    }
}

} // verus!
