//! Cross-aggregate workflow coordination (process managers).
//!
//! A process manager reacts to events from the global event log and produces
//! [`CommandEnvelope`]s that are dispatched to (potentially different) aggregates.
//! Like a projection it keeps one cursor into the global log; unlike one it produces
//! commands rather than a read model.

use crate::command::{envelopes_view, CommandEnvelope, CommandEnvelopeView};
use crate::error::StoreError;
use crate::event::{decode_stored_event, decoded, event_view, StoredEvent, StoredEventView};
use crate::path::DataPath;
use crate::proto::{RecordedEvent, RecordedEventView, SubscribeResponse};
use crate::stream::{
    consumed_events, in_log_order, lemma_first_consumed, lemma_first_sent, lemma_rest,
    lemma_stops_at_the_last, next_position, positions_fit, read_response, response_view, responses_view, sent_from,
    step_after, stop_of, stream_error, ResponseView, Stop, StreamItem, StreamStep,
};
use vstd::prelude::*;

verus! {

/// A cross-aggregate workflow coordinator that reacts to events by producing
/// commands.
///
/// # Contract
///
/// - [`react`](ProcessManager::react) is deterministic: given the same sequence of
///   events, it produces the same command envelopes.
///   [`reacted`](ProcessManager::reacted) and [`reaction`](ProcessManager::reaction)
///   are the functions that it computes.
/// - Unknown event types or aggregate types should be silently ignored for forward
///   compatibility.
pub trait ProcessManager: Default + Send + Sync + 'static {
    /// Human-readable name, used as an identifier for the process manager.
    const NAME: &'static str;

    /// The state that follows `self` once it has reacted to `event`. Each implementation
    /// says what it is.
    closed spec fn reacted(self, event: StoredEventView) -> Self {
        arbitrary()
    }

    /// The envelopes that `self` produces at `event`. Each implementation says what they
    /// are.
    closed spec fn reaction(self, event: StoredEventView) -> Seq<CommandEnvelopeView> {
        arbitrary()
    }

    /// Reacts to a single event from the global log.
    ///
    /// Returns the command envelopes to dispatch; none if the event is irrelevant to
    /// the process manager.
    fn react(&mut self, event: &StoredEvent) -> (envelopes: Vec<CommandEnvelope>)
        ensures
            *final(self) == old(self).reacted(event@),
            envelopes_view(envelopes@) == old(self).reaction(event@),
    ;
}

/// The state that follows `state` at an event that decodes to `event`.
pub open spec fn react_event_to<PM: ProcessManager>(
    state: PM,
    event: Option<StoredEventView>,
) -> PM {
    match event {
        Some(stored) => state.reacted(stored),
        None => state,
    }
}

/// The envelopes that `state` produces at an event that decodes to `event`.
pub open spec fn reaction_to<PM: ProcessManager>(state: PM, event: Option<StoredEventView>) -> Seq<
    CommandEnvelopeView,
> {
    match event {
        Some(stored) => state.reaction(stored),
        None => Seq::empty(),
    }
}

/// The state, the position and the envelopes that follow an event at
/// `global_position` that decodes to `event`. An event before `position` has been seen
/// already: it changes nothing and produces nothing.
pub open spec fn react_at<PM: ProcessManager>(
    state: PM,
    position: u64,
    global_position: u64,
    event: Option<StoredEventView>,
) -> (PM, u64, Seq<CommandEnvelopeView>) {
    if global_position < position {
        (state, position, Seq::empty())
    } else {
        (
            react_event_to(state, event),
            next_position(position, global_position),
            reaction_to(state, event),
        )
    }
}

/// The state, the position and the envelopes that follow a recorded event.
pub open spec fn react_recorded<PM: ProcessManager>(
    state: PM,
    position: u64,
    recorded: RecordedEventView,
) -> (PM, u64, Seq<CommandEnvelopeView>) {
    react_at(state, position, recorded.global_position, decoded(recorded))
}

/// The state, the position and the envelopes that follow several recorded events, in
/// order.
pub open spec fn react_all<PM: ProcessManager>(
    state: PM,
    position: u64,
    events: Seq<RecordedEventView>,
) -> (PM, u64, Seq<CommandEnvelopeView>)
    decreases events.len(),
{
    if events.len() == 0 {
        (state, position, Seq::empty())
    } else {
        let (next, resume, produced) = react_recorded(state, position, events[0]);
        let (end, stand, later) = react_all(next, resume, events.drop_first());
        (end, stand, produced + later)
    }
}

/// The state and the envelopes that follow `state` when it reacts once to each event
/// that decodes, in order.
pub open spec fn fold_reactions<PM: ProcessManager>(
    state: PM,
    events: Seq<RecordedEventView>,
) -> (PM, Seq<CommandEnvelopeView>)
    decreases events.len(),
{
    if events.len() == 0 {
        (state, Seq::empty())
    } else {
        let event = decoded(events[0]);
        let (end, later) = fold_reactions(react_event_to(state, event), events.drop_first());
        (end, reaction_to(state, event) + later)
    }
}

/// Reacts to a decoded event with a process manager, advancing the position.
///
/// `event` is `None` for an event that cannot be decoded: it produces nothing, and the
/// position moves past it all the same.
pub fn react_decoded_event<PM: ProcessManager>(
    state: &mut PM,
    last_global_position: &mut u64,
    global_position: u64,
    event: Option<StoredEvent>,
) -> (envelopes: Vec<CommandEnvelope>)
    requires
        global_position < u64::MAX,
    ensures
        (*final(state), *final(last_global_position), envelopes_view(envelopes@)) == react_at(
            *old(state),
            *old(last_global_position),
            global_position,
            event_view(event),
        ),
{
    if global_position < *last_global_position {
        let none: Vec<CommandEnvelope> = Vec::new();
        assert(envelopes_view(none@) == Seq::<CommandEnvelopeView>::empty());
        return none;
    }
    let produced = match event {
        Some(stored) => state.react(&stored),
        None => {
            let none: Vec<CommandEnvelope> = Vec::new();
            assert(envelopes_view(none@) == Seq::<CommandEnvelopeView>::empty());
            none
        },
    };
    *last_global_position = global_position + 1;
    produced
}

/// Decodes a single recorded event and reacts to it with a process manager, advancing
/// the position.
///
/// Events before the position are skipped: this guards against replay when a
/// subscription starts at the smallest position of several process managers. Events
/// that cannot be decoded are silently skipped, but the position advances.
pub fn react_recorded_event<PM: ProcessManager>(
    state: &mut PM,
    last_global_position: &mut u64,
    recorded: &RecordedEvent,
) -> (envelopes: Vec<CommandEnvelope>)
    requires
        recorded.global_position < u64::MAX,
    ensures
        (*final(state), *final(last_global_position), envelopes_view(envelopes@))
            == react_recorded(*old(state), *old(last_global_position), recorded@),
{
    if recorded.global_position < *last_global_position {
        let none: Vec<CommandEnvelope> = Vec::new();
        assert(envelopes_view(none@) == Seq::<CommandEnvelopeView>::empty());
        return none;
    }
    react_decoded_event(
        state,
        last_global_position,
        recorded.global_position,
        decode_stored_event(recorded),
    )
}

/// Moves the envelopes of `more` to the end of `envelopes`.
fn extend(envelopes: &mut Vec<CommandEnvelope>, more: Vec<CommandEnvelope>)
    ensures
        envelopes_view(final(envelopes)@) == envelopes_view(old(envelopes)@) + envelopes_view(
            more@,
        ),
{
    let mut more = more;
    let ghost (before, added) = (envelopes@, more@);
    envelopes.append(&mut more);
    assert(envelopes@ == before + added);
    assert(envelopes_view(before + added) == envelopes_view(before) + envelopes_view(added));
}

/// Holds a process manager's state, its position in the global log, and where its
/// files are.
pub struct ProcessManagerRunner<PM: ProcessManager> {
    /// The process manager's current state.
    state: PM,
    /// Resume token: the next global position to read from.
    last_global_position: u64,
    /// Directory of this process manager's data files (dead-letter log).
    data_dir: DataPath,
}

impl<PM: ProcessManager> ProcessManagerRunner<PM> {
    /// The process manager's current state.
    pub closed spec fn current(&self) -> PM {
        self.state
    }

    /// The next global position to read from.
    pub closed spec fn resume(&self) -> u64 {
        self.last_global_position
    }

    /// The directory of the process manager's data files.
    pub closed spec fn directory(&self) -> Seq<Seq<char>> {
        self.data_dir@
    }

    /// Creates a new runner starting from global position 0, with the process manager
    /// in its default state.
    pub fn new(data_dir: DataPath) -> (runner: Self)
        ensures
            call_ensures(PM::default, (), runner.current()),
            runner.resume() == 0,
            runner.directory() == data_dir@,
    {
        ProcessManagerRunner { state: PM::default(), last_global_position: 0, data_dir }
    }

    /// Returns the current process manager state.
    pub fn state(&self) -> (state: &PM)
        ensures
            *state == self.current(),
    {
        &self.state
    }

    /// Returns the current global cursor position (resume token).
    pub fn position(&self) -> (position: u64)
        ensures
            position == self.resume(),
    {
        self.last_global_position
    }

    /// Returns the path to this process manager's dead-letter log.
    pub fn dead_letter_path(&self) -> (path: DataPath)
        ensures
            path@ == self.directory().push("dead_letters.jsonl"@),
    {
        self.data_dir.copy().join("dead_letters.jsonl")
    }

    /// Processes the messages of a subscription, updating state and position.
    ///
    /// Reads until the sentinel. Each event is reacted to as [`react_recorded_event`]
    /// does, and the envelopes are collected. Where the subscription breaks, the error
    /// is returned and the envelopes are lost, though the state and the position have
    /// moved on.
    pub fn process_stream(
        state: &mut PM,
        last_global_position: &mut u64,
        responses: Vec<Result<SubscribeResponse, String>>,
    ) -> (result: Result<Vec<CommandEnvelope>, StoreError>)
        requires
            positions_fit(consumed_events(responses_view(responses@))),
        ensures
            ({
                let (next, resume, produced) = react_all(
                    *old(state),
                    *old(last_global_position),
                    consumed_events(responses_view(responses@)),
                );
                &&& *final(state) == next
                &&& *final(last_global_position) == resume
                &&& match stop_of(responses_view(responses@)) {
                    Stop::Failed(reason) => result matches Err(error) && error@ == stream_error(
                        reason,
                    ),
                    _ => result matches Ok(envelopes) && envelopes_view(envelopes@) == produced,
                }
            }),
    {
        let ghost all = responses_view(responses@);
        let mut envelopes: Vec<CommandEnvelope> = Vec::new();
        proof {
            assert(all.skip(0) == all);
            let (next, resume, produced) = react_all(
                *state,
                *last_global_position,
                consumed_events(all),
            );
            assert(envelopes_view(envelopes@) + produced == produced);
        }
        for response in messages: responses
            invariant
                all == responses_view(responses@),
                all == responses_view(messages.seq()),
                positions_fit(consumed_events(all.skip(messages.index() as int))),
                ({
                    let (next, resume, produced) = react_all(
                        *state,
                        *last_global_position,
                        consumed_events(all.skip(messages.index() as int)),
                    );
                    react_all(*old(state), *old(last_global_position), consumed_events(all)) == (
                        next,
                        resume,
                        envelopes_view(envelopes@) + produced,
                    )
                }),
                stop_of(all) == stop_of(all.skip(messages.index() as int)),
        {
            let ghost rest = all.skip(messages.index() as int);
            let ghost collected = envelopes_view(envelopes@);
            proof {
                assert(rest[0] == response_view(response));
                assert(rest.drop_first() == all.skip(messages.index() + 1));
                lemma_first_consumed(rest);
            }
            match read_response(response) {
                StreamItem::Event(recorded) => {
                    let produced = react_recorded_event(state, last_global_position, &recorded);
                    proof {
                        let later = react_all(
                            *state,
                            *last_global_position,
                            consumed_events(rest.drop_first()),
                        ).2;
                        let now = envelopes_view(produced@);
                        assert(collected + (now + later) == (collected + now) + later);
                    }
                    extend(&mut envelopes, produced);
                },
                StreamItem::CaughtUp => {
                    assert(collected + Seq::<CommandEnvelopeView>::empty() == collected);
                    return Ok(envelopes);
                },
                StreamItem::Empty => {},
                StreamItem::Failed(error) => {
                    return Err(error);
                },
            }
        }
        proof {
            let collected = envelopes_view(envelopes@);
            assert(all.skip(all.len() as int) == Seq::<ResponseView>::empty());
            assert(collected + Seq::<CommandEnvelopeView>::empty() == collected);
        }
        Ok(envelopes)
    }
}

/// What the store needs of a process manager runner, whatever its process manager.
pub trait ProcessManagerCatchUp: Send + Sync {
    /// The next global position to read from. Each implementation says what it is.
    closed spec fn resume_position(&self) -> u64 {
        arbitrary()
    }

    /// Where the dead-letter log is. Each implementation says where.
    closed spec fn log_path(&self) -> Seq<Seq<char>> {
        arbitrary()
    }

    /// Whether `self` is what `before` becomes at a recorded event. Each implementation
    /// says what that is.
    closed spec fn follows(&self, before: &Self, recorded: RecordedEventView) -> bool {
        arbitrary()
    }

    /// The envelopes that `self` produces at a recorded event. Each implementation says
    /// what they are.
    closed spec fn produces(&self, recorded: RecordedEventView) -> Seq<CommandEnvelopeView> {
        arbitrary()
    }

    /// Decodes and reacts to a single recorded event, advancing the position.
    ///
    /// Returns the command envelopes that the process manager produced.
    fn react_event(&mut self, recorded: &RecordedEvent) -> (envelopes: Vec<CommandEnvelope>)
        requires
            recorded.global_position < u64::MAX,
        ensures
            final(self).follows(old(self), recorded@),
            envelopes_view(envelopes@) == old(self).produces(recorded@),
            final(self).resume_position() == next_position(
                old(self).resume_position(),
                recorded.global_position,
            ),
            final(self).log_path() == old(self).log_path(),
    ;

    /// Returns the current global cursor position (resume token).
    fn position(&self) -> (position: u64)
        ensures
            position == self.resume_position(),
    ;

    /// Returns the path to the dead-letter log file.
    fn dead_letter_path(&self) -> (path: DataPath)
        ensures
            path@ == self.log_path(),
    ;
}

impl<PM: ProcessManager> ProcessManagerCatchUp for ProcessManagerRunner<PM> {
    open spec fn resume_position(&self) -> u64 {
        self.resume()
    }

    open spec fn log_path(&self) -> Seq<Seq<char>> {
        self.directory().push("dead_letters.jsonl"@)
    }

    open spec fn follows(&self, before: &Self, recorded: RecordedEventView) -> bool {
        let (next, resume, _) = react_recorded(before.current(), before.resume(), recorded);
        &&& self.current() == next
        &&& self.resume() == resume
        &&& self.directory() == before.directory()
    }

    open spec fn produces(&self, recorded: RecordedEventView) -> Seq<CommandEnvelopeView> {
        react_recorded(self.current(), self.resume(), recorded).2
    }

    fn react_event(&mut self, recorded: &RecordedEvent) -> (envelopes: Vec<CommandEnvelope>) {
        react_recorded_event(&mut self.state, &mut self.last_global_position, recorded)
    }

    fn position(&self) -> (position: u64) {
        self.last_global_position
    }

    fn dead_letter_path(&self) -> (path: DataPath) {
        self.data_dir.copy().join("dead_letters.jsonl")
    }
}

/// Whether `after` is what `before` becomes at several recorded events, in order, and
/// `produced` is what it produces at them.
pub open spec fn reacts_to_all<M: ProcessManagerCatchUp>(
    after: M,
    before: M,
    events: Seq<RecordedEventView>,
    produced: Seq<CommandEnvelopeView>,
) -> bool
    decreases events.len(),
{
    if events.len() == 0 {
        after == before && produced.len() == 0
    } else {
        let now = before.produces(events[0]);
        &&& now.is_prefix_of(produced)
        &&& exists|next: M|
            {
                &&& #[trigger] next.follows(&before, events[0])
                &&& next.log_path() == before.log_path()
                &&& next.resume_position() == next_position(
                    before.resume_position(),
                    events[0].global_position,
                )
                &&& reacts_to_all(
                    after,
                    next,
                    events.drop_first(),
                    produced.skip(now.len() as int),
                )
            }
    }
}

/// A type that can stand for the runner of a process manager `PM`.
pub trait HoldsProcessManager<PM: ProcessManager>: ProcessManagerCatchUp + Sized {
    /// Whether `self` stands for a runner. Each implementation says when it does.
    closed spec fn holds(&self, runner: ProcessManagerRunner<PM>) -> bool {
        arbitrary()
    }

    /// Puts a runner into what stands for it. What stands for a runner produces what the
    /// runner produces, and stands, after an event, for what the runner becomes at it.
    fn hold(runner: ProcessManagerRunner<PM>) -> (held: Self)
        ensures
            held.holds(runner),
            held.resume_position() == runner.resume(),
            held.log_path() == runner.log_path(),
            forall|before: Self, inner: ProcessManagerRunner<PM>, recorded: RecordedEventView|
                #[trigger] before.holds(inner) ==> #[trigger] before.produces(recorded)
                    == inner.produces(recorded),
            forall|
                before: Self,
                after: Self,
                inner: ProcessManagerRunner<PM>,
                recorded: RecordedEventView,
            |
                #[trigger] before.holds(inner) && #[trigger] after.follows(&before, recorded)
                    ==> exists|next: ProcessManagerRunner<PM>|
                    #[trigger] after.holds(next) && next.follows(&inner, recorded),
    ;
}

/// Whether what stands for a runner produces what the runner produces, and stands, after an
/// event, for what the runner becomes at it.
pub open spec fn keeps_standing<PM: ProcessManager, M: HoldsProcessManager<PM>>() -> bool {
    &&& forall|before: M, inner: ProcessManagerRunner<PM>, recorded: RecordedEventView|
        #[trigger] before.holds(inner) ==> #[trigger] before.produces(recorded) == inner.produces(
            recorded,
        )
    &&& forall|before: M, after: M, inner: ProcessManagerRunner<PM>, recorded: RecordedEventView|
        #[trigger] before.holds(inner) && #[trigger] after.follows(&before, recorded)
            ==> exists|next: ProcessManagerRunner<PM>|
            #[trigger] after.holds(next) && next.follows(&inner, recorded)
}

impl<PM: ProcessManager> HoldsProcessManager<PM> for ProcessManagerRunner<PM> {
    open spec fn holds(&self, runner: ProcessManagerRunner<PM>) -> bool {
        *self == runner
    }

    fn hold(runner: ProcessManagerRunner<PM>) -> (held: Self) {
        proof {
            assert forall|
                before: Self,
                after: Self,
                inner: ProcessManagerRunner<PM>,
                recorded: RecordedEventView,
            | #[trigger] before.holds(inner) && #[trigger] after.follows(
                &before,
                recorded,
            ) implies exists|next: ProcessManagerRunner<PM>|
                #[trigger] after.holds(next) && next.follows(&inner, recorded) by {
                assert(after.holds(after));
            }
        }
        runner
    }
}

/// Hands one message of a catch-up subscription to a runner, and collects what it
/// produces at the end of `envelopes`.
///
/// An event is reacted to; the sentinel and a failure end the catch-up; an empty
/// message is skipped.
pub fn catch_up<M: ProcessManagerCatchUp>(
    runner: &mut M,
    envelopes: &mut Vec<CommandEnvelope>,
    response: Result<SubscribeResponse, String>,
) -> (step: StreamStep)
    requires
        response_view(response) matches ResponseView::Event(recorded) ==> recorded.global_position
            < u64::MAX,
    ensures
        step_after(step, response_view(response)),
        match response_view(response) {
            ResponseView::Event(recorded) => {
                &&& final(runner).follows(old(runner), recorded)
                &&& final(runner).log_path() == old(runner).log_path()
                &&& final(runner).resume_position() == next_position(
                    old(runner).resume_position(),
                    recorded.global_position,
                )
                &&& envelopes_view(final(envelopes)@) == envelopes_view(old(envelopes)@) + old(
                    runner,
                ).produces(recorded)
            },
            _ => *final(runner) == *old(runner) && *final(envelopes) == *old(envelopes),
        },
{
    match read_response(response) {
        StreamItem::Event(recorded) => {
            let produced = runner.react_event(&recorded);
            extend(envelopes, produced);
            StreamStep::Continue
        },
        StreamItem::CaughtUp => StreamStep::CaughtUp,
        StreamItem::Empty => StreamStep::Continue,
        StreamItem::Failed(error) => StreamStep::Failed(error),
    }
}

/// Summary of one pass over the process managers.
#[derive(Debug, Clone, Copy, PartialEq, Eq, Structural)]
pub struct ProcessManagerReport {
    /// Number of command envelopes successfully dispatched.
    pub dispatched: usize,
    /// Number of command envelopes written to dead-letter logs.
    pub dead_lettered: usize,
}

impl Default for ProcessManagerReport {
    fn default() -> (report: Self)
        ensures
            report.dispatched == 0,
            report.dead_lettered == 0,
    {
        ProcessManagerReport { dispatched: 0, dead_lettered: 0 }
    }
}

/// Reacting to a recorded event a second time changes nothing and produces nothing.
pub proof fn law_reacted_once<PM: ProcessManager>(
    state: PM,
    position: u64,
    recorded: RecordedEventView,
)
    requires
        recorded.global_position < u64::MAX,
    ensures
        ({
            let (next, resume, _) = react_recorded(state, position, recorded);
            react_recorded(next, resume, recorded) == (
                next,
                resume,
                Seq::<CommandEnvelopeView>::empty(),
            )
        }),
{
}

/// Events are reacted to in turn: several at once come to the same as a first stretch
/// and then the rest, and the envelopes come in that order.
pub proof fn law_reacting_in_turns<PM: ProcessManager>(
    state: PM,
    position: u64,
    first: Seq<RecordedEventView>,
    second: Seq<RecordedEventView>,
)
    ensures
        ({
            let (next, resume, produced) = react_all(state, position, first);
            let (end, stand, later) = react_all(next, resume, second);
            react_all(state, position, first + second) == (end, stand, produced + later)
        }),
    decreases first.len(),
{
    if first.len() == 0 {
        assert(first + second == second);
        let later = react_all(state, position, second).2;
        assert(Seq::<CommandEnvelopeView>::empty() + later == later);
    } else {
        let (next, resume, produced) = react_recorded(state, position, first[0]);
        assert((first + second).drop_first() == first.drop_first() + second);
        law_reacting_in_turns(next, resume, first.drop_first(), second);
        let (middle, halt, meanwhile) = react_all(next, resume, first.drop_first());
        let later = react_all(middle, halt, second).2;
        assert(produced + (meanwhile + later) == (produced + meanwhile) + later);
    }
}

/// The position that several events lead to is no smaller than where it stood, and
/// past every one of them.
pub proof fn law_position_passes_every_reaction<PM: ProcessManager>(
    state: PM,
    position: u64,
    events: Seq<RecordedEventView>,
)
    requires
        positions_fit(events),
    ensures
        react_all(state, position, events).1 >= position,
        forall|i: int|
            0 <= i < events.len() ==> (#[trigger] events[i]).global_position < react_all(
                state,
                position,
                events,
            ).1,
    decreases events.len(),
{
    if events.len() > 0 {
        let (next, resume, _) = react_recorded(state, position, events[0]);
        let rest = events.drop_first();
        lemma_rest(events);
        law_position_passes_every_reaction(next, resume, rest);
        assert forall|i: int| 0 <= i < events.len() implies (
        #[trigger] events[i]).global_position < react_all(state, position, events).1 by {
            if i > 0 {
                assert(events[i] == rest[i - 1]);
            }
        }
    }
}

/// Events before the position change nothing and produce nothing, however many there
/// are.
pub proof fn law_replayed_events_produce_nothing<PM: ProcessManager>(
    state: PM,
    position: u64,
    events: Seq<RecordedEventView>,
)
    requires
        forall|i: int|
            0 <= i < events.len() ==> (#[trigger] events[i]).global_position < position,
    ensures
        react_all(state, position, events) == (
            state,
            position,
            Seq::<CommandEnvelopeView>::empty(),
        ),
    decreases events.len(),
{
    if events.len() > 0 {
        let rest = events.drop_first();
        assert(events[0].global_position < position);
        assert forall|i: int| 0 <= i < rest.len() implies (
        #[trigger] rest[i]).global_position < position by {
            assert(events[i + 1].global_position < position);
        }
        law_replayed_events_produce_nothing(state, position, rest);
        let none = Seq::<CommandEnvelopeView>::empty();
        assert(none + none == none);
    }
}

/// A runner that has reacted to the first `seen` events of a log, and is then sent the
/// log again from any earlier point on, ends where a runner ends that is sent every
/// event once, and the two passes together produce the same envelopes: no command is
/// lost and none is issued twice.
pub proof fn law_resuming_early_issues_nothing_twice<PM: ProcessManager>(
    state: PM,
    position: u64,
    log: Seq<RecordedEventView>,
    seen: int,
    from: int,
)
    requires
        0 <= from <= seen <= log.len(),
        positions_fit(log),
    ensures
        ({
            let (next, resume, produced) = react_all(state, position, log.take(seen));
            let (end, stand, later) = react_all(next, resume, log.skip(from));
            react_all(state, position, log) == (end, stand, produced + later)
        }),
{
    let (next, resume, produced) = react_all(state, position, log.take(seen));
    let again = log.subrange(from, seen);
    assert(log.take(seen) + log.skip(seen) == log);
    assert(again + log.skip(seen) == log.skip(from));
    assert(positions_fit(log.take(seen))) by {
        assert forall|i: int| 0 <= i < seen implies (
        #[trigger] log.take(seen)[i]).global_position < u64::MAX by {
            assert(log[i].global_position < u64::MAX);
        }
    }
    law_position_passes_every_reaction(state, position, log.take(seen));
    assert forall|i: int| 0 <= i < again.len() implies (
    #[trigger] again[i]).global_position < resume by {
        assert(again[i] == log.take(seen)[from + i]);
    }
    law_replayed_events_produce_nothing(next, resume, again);
    law_reacting_in_turns(next, resume, again, log.skip(seen));
    law_reacting_in_turns(state, position, log.take(seen), log.skip(seen));
    let later = react_all(next, resume, log.skip(seen)).2;
    assert(Seq::<CommandEnvelopeView>::empty() + later == later);
}

/// A subscription may start anywhere up to the position of a runner: from the events that
/// it is then sent the runner becomes what it becomes from the whole log, and produces the
/// same envelopes, so none that it has yet to see is missed.
pub proof fn law_subscribing_early_misses_nothing<PM: ProcessManager>(
    state: PM,
    position: u64,
    log: Seq<RecordedEventView>,
    from: u64,
)
    requires
        from <= position,
        positions_fit(log),
    ensures
        react_all(state, position, sent_from(log, from)) == react_all(state, position, log),
    decreases log.len(),
{
    if log.len() > 0 {
        let (next, resume, produced) = react_recorded(state, position, log[0]);
        lemma_rest(log);
        lemma_first_sent(log, from);
        law_subscribing_early_misses_nothing(next, resume, log.drop_first(), from);
        let later = react_all(next, resume, log.drop_first()).2;
        assert(Seq::<CommandEnvelopeView>::empty() + later == later);
    }
}

/// What a process manager does is a fold of the log: it reacts once to each event that
/// decodes, where the events are in log order and none is before the position.
pub proof fn law_reactions_are_the_fold_of_the_log<PM: ProcessManager>(
    state: PM,
    position: u64,
    log: Seq<RecordedEventView>,
)
    requires
        positions_fit(log),
        in_log_order(log),
        log.len() > 0 ==> position <= log[0].global_position,
    ensures
        react_all(state, position, log).0 == fold_reactions(state, log).0,
        react_all(state, position, log).2 == fold_reactions(state, log).1,
        react_all(state, position, log).1 == if log.len() == 0 {
            position as int
        } else {
            log.last().global_position + 1
        },
    decreases log.len(),
{
    if log.len() > 0 {
        let (next, resume, _) = react_recorded(state, position, log[0]);
        let rest = log.drop_first();
        lemma_rest(log);
        if rest.len() > 0 {
            assert(rest[0] == log[1]);
            assert(log.last() == rest.last());
        }
        law_reactions_are_the_fold_of_the_log(next, resume, rest);
    }
}

/// Reacting to events one at a time, as in live mode, comes to the same as catching up on
/// all of them.
pub proof fn law_one_at_a_time_comes_to_the_same<PM: ProcessManager>(
    runners: Seq<ProcessManagerRunner<PM>>,
    events: Seq<RecordedEventView>,
)
    requires
        runners.len() == events.len() + 1,
        forall|i: int|
            0 <= i < events.len() ==> runners[i + 1].follows(&runners[i], #[trigger] events[i]),
    ensures
        ({
            let (next, resume, produced) = react_all(
                runners[0].current(),
                runners[0].resume(),
                events,
            );
            &&& runners.last().current() == next
            &&& runners.last().resume() == resume
            &&& Seq::new(events.len(), |i: int| runners[i].produces(events[i])).flatten()
                == produced
        }),
    decreases events.len(),
{
    let each = Seq::new(events.len(), |i: int| runners[i].produces(events[i]));
    if events.len() > 0 {
        let (later, rest) = (runners.drop_first(), events.drop_first());
        assert(runners[1].follows(&runners[0], events[0]));
        assert forall|i: int| 0 <= i < rest.len() implies later[i + 1].follows(
            &later[i],
            #[trigger] rest[i],
        ) by {
            assert(runners[i + 2].follows(&runners[i + 1], events[i + 1]));
        }
        law_one_at_a_time_comes_to_the_same(later, rest);
        assert(each.drop_first() == Seq::new(
            rest.len(),
            |i: int| later[i].produces(rest[i]),
        ));
        assert(each.flatten() == each[0] + each.drop_first().flatten());
    }
}

/// A runner that has reacted to several events has done so to all of them, in order, and
/// has produced the envelopes of all of them.
pub proof fn law_reacting_to_each_is_reacting_to_all<PM: ProcessManager>(
    after: ProcessManagerRunner<PM>,
    before: ProcessManagerRunner<PM>,
    events: Seq<RecordedEventView>,
    produced: Seq<CommandEnvelopeView>,
)
    requires
        reacts_to_all(after, before, events, produced),
    ensures
        (after.current(), after.resume(), produced) == react_all(
            before.current(),
            before.resume(),
            events,
        ),
    decreases events.len(),
{
    if events.len() > 0 {
        let now = before.produces(events[0]);
        let later = produced.skip(now.len() as int);
        let next = choose|next: ProcessManagerRunner<PM>|
            {
                &&& #[trigger] next.follows(&before, events[0])
                &&& next.log_path() == before.log_path()
                &&& next.resume_position() == next_position(
                    before.resume_position(),
                    events[0].global_position,
                )
                &&& reacts_to_all(after, next, events.drop_first(), later)
            };
        law_reacting_to_each_is_reacting_to_all(after, next, events.drop_first(), later);
        assert(produced == now + later);
    } else {
        assert(produced == Seq::<CommandEnvelopeView>::empty());
    }
}

/// What stands for a runner, once it has reacted to several events, stands for the runner
/// that has reacted to them all, in order, and has produced the envelopes of all of them.
pub proof fn law_what_stands_for_a_runner_reacts_to_all<
    PM: ProcessManager,
    M: HoldsProcessManager<PM>,
>(
    after: M,
    before: M,
    runner: ProcessManagerRunner<PM>,
    events: Seq<RecordedEventView>,
    produced: Seq<CommandEnvelopeView>,
)
    requires
        keeps_standing::<PM, M>(),
        before.holds(runner),
        reacts_to_all(after, before, events, produced),
    ensures
        exists|end: ProcessManagerRunner<PM>|
            #[trigger] after.holds(end) && (end.current(), end.resume(), produced) == react_all(
                runner.current(),
                runner.resume(),
                events,
            ),
    decreases events.len(),
{
    if events.len() == 0 {
        assert(after.holds(runner));
        assert(produced == Seq::<CommandEnvelopeView>::empty());
    } else {
        let now = before.produces(events[0]);
        let later = produced.skip(now.len() as int);
        let next = choose|next: M|
            {
                &&& #[trigger] next.follows(&before, events[0])
                &&& next.log_path() == before.log_path()
                &&& next.resume_position() == next_position(
                    before.resume_position(),
                    events[0].global_position,
                )
                &&& reacts_to_all(after, next, events.drop_first(), later)
            };
        let moved = choose|moved: ProcessManagerRunner<PM>|
            #[trigger] next.holds(moved) && moved.follows(&runner, events[0]);
        law_what_stands_for_a_runner_reacts_to_all(
            after,
            next,
            moved,
            events.drop_first(),
            later,
        );
        assert(now == runner.produces(events[0]));
        assert(produced == now + later);
    }
}

/// Handing a subscription to a runner message by message, up to the one that ends the
/// reading, comes to the same as processing it as a whole, and `collected`, to which the
/// envelopes of each message are added, ends with the same envelopes.
pub proof fn law_message_by_message_comes_to_the_same<PM: ProcessManager>(
    runners: Seq<ProcessManagerRunner<PM>>,
    collected: Seq<Seq<CommandEnvelopeView>>,
    responses: Seq<ResponseView>,
)
    requires
        runners.len() == responses.len() + 1,
        collected.len() == responses.len() + 1,
        responses.len() > 0 ==> stop_of(responses.drop_last()) is EndOfStream,
        forall|i: int|
            0 <= i < responses.len() ==> match #[trigger] responses[i] {
                ResponseView::Event(recorded) => {
                    &&& runners[i + 1].follows(&runners[i], recorded)
                    &&& collected[i + 1] == collected[i] + runners[i].produces(recorded)
                },
                _ => runners[i + 1] == runners[i] && collected[i + 1] == collected[i],
            },
    ensures
        ({
            let (next, resume, produced) = react_all(
                runners[0].current(),
                runners[0].resume(),
                consumed_events(responses),
            );
            &&& runners.last().current() == next
            &&& runners.last().resume() == resume
            &&& collected.last() == collected[0] + produced
        }),
    decreases responses.len(),
{
    let none = Seq::<CommandEnvelopeView>::empty();
    if responses.len() > 0 {
        let (later, more, rest) = (
            runners.drop_first(),
            collected.drop_first(),
            responses.drop_first(),
        );
        lemma_first_consumed(responses);
        lemma_stops_at_the_last(responses);
        let first = responses[0];
        assert forall|i: int| 0 <= i < rest.len() implies match #[trigger] rest[i] {
            ResponseView::Event(recorded) => {
                &&& later[i + 1].follows(&later[i], recorded)
                &&& more[i + 1] == more[i] + later[i].produces(recorded)
            },
            _ => later[i + 1] == later[i] && more[i + 1] == more[i],
        } by {
            assert(rest[i] == responses[i + 1]);
        }
        law_message_by_message_comes_to_the_same(later, more, rest);
        let then = react_all(
            runners[1].current(),
            runners[1].resume(),
            consumed_events(rest),
        ).2;
        match first {
            ResponseView::Event(recorded) => {
                let now = runners[0].produces(recorded);
                assert((collected[0] + now) + then == collected[0] + (now + then));
            },
            _ => {},
        }
    } else {
        assert(collected[0] + none == collected[0]);
    }
}

/// A process manager reacts to every event at or past the position that decodes, whatever
/// stream or version it has, and all of the envelopes of its reaction are handed out. An
/// event that does not decode produces nothing. Either way the position moves right behind
/// the event. An event before the position changes nothing and produces nothing.
pub proof fn law_every_event_at_or_past_the_position_is_reacted_to<PM: ProcessManager>(
    state: PM,
    position: u64,
    recorded: RecordedEventView,
    stored: StoredEventView,
)
    ensures
        recorded.global_position < position ==> {
            &&& react_recorded(state, position, recorded).0 == state
            &&& react_recorded(state, position, recorded).1 == position
            &&& react_recorded(state, position, recorded).2.len() == 0
        },
        position <= recorded.global_position < u64::MAX ==> {
            &&& react_recorded(state, position, recorded).1 == recorded.global_position + 1
            &&& decoded(recorded) == Some(stored) ==> {
                &&& react_recorded(state, position, recorded).0 == state.reacted(stored)
                &&& react_recorded(state, position, recorded).2 == state.reaction(stored)
            }
            &&& decoded(recorded) is None ==> {
                &&& react_recorded(state, position, recorded).0 == state
                &&& react_recorded(state, position, recorded).2.len() == 0
            }
        },
{
}

/// The same of an event that has been decoded beforehand: it stands at `global_position` and
/// decoded to `stored`, or to nothing.
pub proof fn law_every_decoded_event_is_reacted_to<PM: ProcessManager>(
    state: PM,
    position: u64,
    global_position: u64,
    stored: StoredEventView,
)
    ensures
        global_position < position ==> {
            &&& react_at(state, position, global_position, Some(stored)) == (
                state,
                position,
                Seq::<CommandEnvelopeView>::empty(),
            )
            &&& react_at(state, position, global_position, None) == (
                state,
                position,
                Seq::<CommandEnvelopeView>::empty(),
            )
        },
        position <= global_position < u64::MAX ==> {
            &&& react_at(state, position, global_position, Some(stored)) == (
                state.reacted(stored),
                (global_position + 1) as u64,
                state.reaction(stored),
            )
            &&& react_at(state, position, global_position, None) == (
                state,
                (global_position + 1) as u64,
                Seq::<CommandEnvelopeView>::empty(),
            )
        },
{
}

/// What several events lead to is reached by reacting to them one after the other, and the
/// envelopes of all the reactions come one after the other: `states` and `positions` are
/// what there is before each event and after the last, `produced` is what each event leads
/// to.
pub proof fn law_events_are_reacted_to_one_after_the_other<PM: ProcessManager>(
    states: Seq<PM>,
    positions: Seq<u64>,
    produced: Seq<Seq<CommandEnvelopeView>>,
    events: Seq<RecordedEventView>,
)
    requires
        states.len() == events.len() + 1,
        positions.len() == events.len() + 1,
        produced.len() == events.len(),
        forall|i: int|
            0 <= i < events.len() ==> (#[trigger] events[i]).global_position < u64::MAX && if events[
                i
            ].global_position < positions[i] {
                &&& states[i + 1] == states[i]
                &&& positions[i + 1] == positions[i]
                &&& produced[i].len() == 0
            } else {
                &&& positions[i + 1] == events[i].global_position + 1
                &&& decoded(events[i]) matches Some(stored) ==> {
                    &&& states[i + 1] == states[i].reacted(stored)
                    &&& produced[i] == states[i].reaction(stored)
                }
                &&& decoded(events[i]) is None ==> {
                    &&& states[i + 1] == states[i]
                    &&& produced[i].len() == 0
                }
            },
    ensures
        react_all(states[0], positions[0], events) == (
            states.last(),
            positions.last(),
            produced.flatten(),
        ),
    decreases events.len(),
{
    let none = Seq::<CommandEnvelopeView>::empty();
    if events.len() > 0 {
        let (later, onward, rest) = (
            states.drop_first(),
            positions.drop_first(),
            events.drop_first(),
        );
        let then = produced.drop_first();
        assert(events[0].global_position < u64::MAX);
        if produced[0].len() == 0 {
            assert(produced[0] == none);
        }
        assert forall|i: int| 0 <= i < rest.len() implies (
        #[trigger] rest[i]).global_position < u64::MAX && if rest[i].global_position < onward[i] {
            &&& later[i + 1] == later[i]
            &&& onward[i + 1] == onward[i]
            &&& then[i].len() == 0
        } else {
            &&& onward[i + 1] == rest[i].global_position + 1
            &&& decoded(rest[i]) matches Some(stored) ==> {
                &&& later[i + 1] == later[i].reacted(stored)
                &&& then[i] == later[i].reaction(stored)
            }
            &&& decoded(rest[i]) is None ==> {
                &&& later[i + 1] == later[i]
                &&& then[i].len() == 0
            }
        } by {
            assert(rest[i] == events[i + 1]);
        }
        law_events_are_reacted_to_one_after_the_other(later, onward, then, rest);
        assert(produced.flatten() == produced[0] + then.flatten());
    } else {
        assert(produced.flatten() == none);
    }
}

/// A log in order, none of it before the position, is reacted to in full: every event that
/// decodes, once, whatever stream it belongs to, and with every envelope of its reaction.
/// `states` is what there is before each event and after the last, `produced` is what each
/// event leads to.
pub proof fn law_a_log_is_reacted_to_in_full<PM: ProcessManager>(
    states: Seq<PM>,
    position: u64,
    produced: Seq<Seq<CommandEnvelopeView>>,
    log: Seq<RecordedEventView>,
)
    requires
        states.len() == log.len() + 1,
        produced.len() == log.len(),
        forall|i: int| 0 <= i < log.len() ==> (#[trigger] log[i]).global_position < u64::MAX,
        forall|i: int, j: int|
            0 <= i < j < log.len() ==> (#[trigger] log[i]).global_position < (
            #[trigger] log[j]).global_position,
        log.len() > 0 ==> position <= log[0].global_position,
        forall|i: int|
            0 <= i < log.len() ==> match decoded(#[trigger] log[i]) {
                Some(stored) => {
                    &&& states[i + 1] == states[i].reacted(stored)
                    &&& produced[i] == states[i].reaction(stored)
                },
                None => states[i + 1] == states[i] && produced[i].len() == 0,
            },
    ensures
        react_all(states[0], position, log).0 == states.last(),
        react_all(states[0], position, log).1 == if log.len() == 0 {
            position as int
        } else {
            log.last().global_position + 1
        },
        react_all(states[0], position, log).2 == produced.flatten(),
        fold_reactions(states[0], log) == (states.last(), produced.flatten()),
    decreases log.len(),
{
    let none = Seq::<CommandEnvelopeView>::empty();
    if log.len() > 0 {
        let (later, then, rest) = (
            states.drop_first(),
            produced.drop_first(),
            log.drop_first(),
        );
        let resume = (log[0].global_position + 1) as u64;
        assert(match decoded(log[0]) {
            Some(stored) => {
                &&& states[1] == states[0].reacted(stored)
                &&& produced[0] == states[0].reaction(stored)
            },
            None => states[1] == states[0] && produced[0].len() == 0,
        });
        if produced[0].len() == 0 {
            assert(produced[0] == none);
        }
        lemma_rest(log);
        assert forall|i: int| 0 <= i < rest.len() implies match decoded(#[trigger] rest[i]) {
            Some(stored) => {
                &&& later[i + 1] == later[i].reacted(stored)
                &&& then[i] == later[i].reaction(stored)
            },
            None => later[i + 1] == later[i] && then[i].len() == 0,
        } by {
            assert(rest[i] == log[i + 1]);
        }
        if rest.len() > 0 {
            assert(rest[0] == log[1]);
            assert(log.last() == rest.last());
        }
        law_a_log_is_reacted_to_in_full(later, resume, then, rest);
        assert(produced.flatten() == produced[0] + then.flatten());
    } else {
        assert(produced.flatten() == none);
    }
}

/// A runner follows an event exactly if it has reacted to it where it decodes and stands
/// right behind it, or had seen it already and has not changed. It produces the whole of its
/// reaction, or nothing. Its dead-letter log is the file of that name in its directory.
pub proof fn law_what_a_runner_does_at_an_event<PM: ProcessManager>(
    after: ProcessManagerRunner<PM>,
    before: ProcessManagerRunner<PM>,
    recorded: RecordedEventView,
)
    requires
        recorded.global_position < u64::MAX,
    ensures
        after.resume_position() == after.resume(),
        after.log_path() == after.directory() + seq!["dead_letters.jsonl"@],
        after.follows(&before, recorded) <==> {
            &&& after.directory() == before.directory()
            &&& if recorded.global_position < before.resume() {
                after.current() == before.current() && after.resume() == before.resume()
            } else {
                &&& after.resume() == recorded.global_position + 1
                &&& match decoded(recorded) {
                    Some(stored) => after.current() == before.current().reacted(stored),
                    None => after.current() == before.current(),
                }
            }
        },
        before.produces(recorded) == match decoded(recorded) {
            Some(stored) if recorded.global_position >= before.resume() =>
                before.current().reaction(stored),
            _ => Seq::empty(),
        },
{
}

/// A runner stands for itself and for no other.
pub proof fn law_a_runner_stands_for_itself<PM: ProcessManager>(
    held: ProcessManagerRunner<PM>,
    runner: ProcessManagerRunner<PM>,
)
    ensures
        held.holds(runner) <==> held == runner,
{
}

} // verus!
