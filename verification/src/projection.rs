//! Cross-stream projections (read models) fed from the global event log.
//!
//! A projection sees the events of every aggregate stream and keeps one cursor, the
//! global position to resume from.

use crate::error::StoreError;
use crate::event::{decode_stored_event, decoded, event_view, StoredEvent, StoredEventView};
use crate::proto::{RecordedEvent, RecordedEventView, SubscribeResponse};
use crate::stream::{
    consumed_events, in_log_order, lemma_first_consumed, lemma_first_sent, lemma_rest,
    lemma_stops_at_the_last, next_position, positions_fit, read_response, response_view, responses_view, sent_from,
    step_after, stop_of, stream_error, ResponseView, Stop, StreamItem, StreamStep,
};
use vstd::prelude::*;

verus! {

/// A cross-stream read model that consumes events from the global log.
///
/// Projections are eventually consistent: they catch up by reading new events from
/// the global log, and are rebuilt from scratch on every startup.
///
/// # Contract
///
/// - [`apply`](Projection::apply) is deterministic: given the same sequence of
///   events, it produces the same state. [`applied`](Projection::applied) is the
///   function that it computes.
/// - Unknown event types or aggregate types should be silently ignored for forward
///   compatibility.
pub trait Projection: Default + Clone + Send + Sync + 'static {
    /// Human-readable name, used as an identifier for the projection.
    const NAME: &'static str;

    /// The state that follows `self` once `event` has been applied. Each implementation
    /// says what it is.
    closed spec fn applied(self, event: StoredEventView) -> Self {
        arbitrary()
    }

    /// Applies a single event from the global log.
    fn apply(&mut self, event: &StoredEvent)
        ensures
            *final(self) == old(self).applied(event@),
    ;
}

/// The state that follows `state` at an event that decodes to `event`.
pub open spec fn apply_event_to<P: Projection>(state: P, event: Option<StoredEventView>) -> P {
    match event {
        Some(stored) => state.applied(stored),
        None => state,
    }
}

/// The state and the position that follow an event at `global_position` that decodes
/// to `event`. An event before `position` has been seen already and changes nothing.
pub open spec fn apply_at<P: Projection>(
    state: P,
    position: u64,
    global_position: u64,
    event: Option<StoredEventView>,
) -> (P, u64) {
    if global_position < position {
        (state, position)
    } else {
        (apply_event_to(state, event), next_position(position, global_position))
    }
}

/// The state and the position that follow a recorded event.
pub open spec fn apply_recorded<P: Projection>(
    state: P,
    position: u64,
    recorded: RecordedEventView,
) -> (P, u64) {
    apply_at(state, position, recorded.global_position, decoded(recorded))
}

/// The state and the position that follow several recorded events, in order.
pub open spec fn apply_all<P: Projection>(
    state: P,
    position: u64,
    events: Seq<RecordedEventView>,
) -> (P, u64)
    decreases events.len(),
{
    if events.len() == 0 {
        (state, position)
    } else {
        let (next, resume) = apply_recorded(state, position, events[0]);
        apply_all(next, resume, events.drop_first())
    }
}

/// The state that follows `state` when each event that decodes is applied once, in
/// order.
pub open spec fn fold_decoded<P: Projection>(state: P, events: Seq<RecordedEventView>) -> P
    decreases events.len(),
{
    if events.len() == 0 {
        state
    } else {
        fold_decoded(apply_event_to(state, decoded(events[0])), events.drop_first())
    }
}

/// Applies a decoded event to a projection's state, advancing the position.
///
/// `event` is `None` for an event that cannot be decoded: it leaves the state alone,
/// and the position moves past it all the same.
pub fn apply_decoded_event<P: Projection>(
    state: &mut P,
    last_global_position: &mut u64,
    global_position: u64,
    event: Option<StoredEvent>,
)
    requires
        global_position < u64::MAX,
    ensures
        (*final(state), *final(last_global_position)) == apply_at(
            *old(state),
            *old(last_global_position),
            global_position,
            event_view(event),
        ),
{
    if global_position < *last_global_position {
        return ;
    }
    match event {
        Some(stored) => {
            state.apply(&stored);
        },
        None => {},
    }
    *last_global_position = global_position + 1;
}

/// Decodes a single recorded event and applies it to a projection's state, advancing
/// the position.
///
/// Events before the position are skipped: this guards against replay when a
/// subscription starts at the smallest position of several projections. Events that
/// cannot be decoded are silently skipped, but the position advances.
pub fn apply_recorded_event<P: Projection>(
    state: &mut P,
    last_global_position: &mut u64,
    recorded: &RecordedEvent,
)
    requires
        recorded.global_position < u64::MAX,
    ensures
        (*final(state), *final(last_global_position)) == apply_recorded(
            *old(state),
            *old(last_global_position),
            recorded@,
        ),
{
    if recorded.global_position < *last_global_position {
        return ;
    }
    apply_decoded_event(
        state,
        last_global_position,
        recorded.global_position,
        decode_stored_event(recorded),
    );
}

/// Holds a projection's state and its position in the global log.
pub struct ProjectionRunner<P: Projection> {
    /// The projection's current state.
    state: P,
    /// Resume token: the next global position to read from.
    ///
    /// After an event at global position N, this is N + 1. A value of 0 means that no
    /// events have been seen yet.
    last_global_position: u64,
}

impl<P: Projection> ProjectionRunner<P> {
    /// The projection's current state.
    pub closed spec fn current(&self) -> P {
        self.state
    }

    /// The next global position to read from.
    pub closed spec fn resume(&self) -> u64 {
        self.last_global_position
    }

    /// Creates a new runner starting from global position 0, with the projection in
    /// its default state.
    pub fn new() -> (runner: Self)
        ensures
            call_ensures(P::default, (), runner.current()),
            runner.resume() == 0,
    {
        ProjectionRunner { state: P::default(), last_global_position: 0 }
    }

    /// Returns the current projection state.
    pub fn state(&self) -> (state: &P)
        ensures
            *state == self.current(),
    {
        &self.state
    }

    /// Returns the current global cursor position (resume token).
    pub fn position(&self) -> (position: u64)
        ensures
            position == self.resume(),
    {
        self.last_global_position
    }

    /// Returns a clone of the current projection state.
    pub fn state_any(&self) -> (state: P)
        ensures
            cloned(self.current(), state),
    {
        self.state.clone()
    }

    /// Processes the messages of a subscription, updating state and position.
    ///
    /// Reads until the sentinel. Each event is applied as [`apply_recorded_event`]
    /// does. Where the subscription breaks, the error is returned; the events before
    /// it have been applied.
    pub fn process_stream(
        state: &mut P,
        last_global_position: &mut u64,
        responses: Vec<Result<SubscribeResponse, String>>,
    ) -> (result: Result<(), StoreError>)
        requires
            positions_fit(consumed_events(responses_view(responses@))),
        ensures
            (*final(state), *final(last_global_position)) == apply_all(
                *old(state),
                *old(last_global_position),
                consumed_events(responses_view(responses@)),
            ),
            match stop_of(responses_view(responses@)) {
                Stop::Failed(reason) => result matches Err(error) && error@ == stream_error(reason),
                _ => result is Ok,
            },
    {
        let ghost all = responses_view(responses@);
        proof {
            assert(all.skip(0) == all);
        }
        for response in messages: responses
            invariant
                all == responses_view(responses@),
                all == responses_view(messages.seq()),
                positions_fit(consumed_events(all.skip(messages.index() as int))),
                apply_all(*old(state), *old(last_global_position), consumed_events(all)) == apply_all(
                    *state,
                    *last_global_position,
                    consumed_events(all.skip(messages.index() as int)),
                ),
                stop_of(all) == stop_of(all.skip(messages.index() as int)),
        {
            let ghost rest = all.skip(messages.index() as int);
            proof {
                assert(rest[0] == response_view(response));
                assert(rest.drop_first() == all.skip(messages.index() + 1));
                lemma_first_consumed(rest);
            }
            match read_response(response) {
                StreamItem::Event(recorded) => {
                    apply_recorded_event(state, last_global_position, &recorded);
                },
                StreamItem::CaughtUp => {
                    return Ok(());
                },
                StreamItem::Empty => {},
                StreamItem::Failed(error) => {
                    return Err(error);
                },
            }
        }
        Ok(())
    }
}

/// What the store needs of a projection runner, whatever its projection.
pub trait ProjectionCatchUp: Send + Sync {
    /// The next global position to read from. Each implementation says what it is.
    closed spec fn resume_position(&self) -> u64 {
        arbitrary()
    }

    /// Whether `self` is what `before` becomes at a recorded event. Each implementation
    /// says what that is.
    closed spec fn follows(&self, before: &Self, recorded: RecordedEventView) -> bool {
        arbitrary()
    }

    /// Decodes and applies a single recorded event, advancing the position.
    fn apply_event(&mut self, recorded: &RecordedEvent)
        requires
            recorded.global_position < u64::MAX,
        ensures
            final(self).follows(old(self), recorded@),
            final(self).resume_position() == next_position(
                old(self).resume_position(),
                recorded.global_position,
            ),
    ;

    /// Returns the current global cursor position (resume token).
    fn position(&self) -> (position: u64)
        ensures
            position == self.resume_position(),
    ;
}

impl<P: Projection> ProjectionCatchUp for ProjectionRunner<P> {
    open spec fn resume_position(&self) -> u64 {
        self.resume()
    }

    open spec fn follows(&self, before: &Self, recorded: RecordedEventView) -> bool {
        (self.current(), self.resume()) == apply_recorded(
            before.current(),
            before.resume(),
            recorded,
        )
    }

    fn apply_event(&mut self, recorded: &RecordedEvent) {
        apply_recorded_event(&mut self.state, &mut self.last_global_position, recorded);
    }

    fn position(&self) -> (position: u64) {
        self.last_global_position
    }
}

/// Whether `after` is what `before` becomes at several recorded events, in order.
pub open spec fn follows_all<R: ProjectionCatchUp>(
    after: R,
    before: R,
    events: Seq<RecordedEventView>,
) -> bool
    decreases events.len(),
{
    if events.len() == 0 {
        after == before
    } else {
        exists|next: R|
            {
                &&& #[trigger] next.follows(&before, events[0])
                &&& next.resume_position() == next_position(
                    before.resume_position(),
                    events[0].global_position,
                )
                &&& follows_all(after, next, events.drop_first())
            }
    }
}

/// A type that can stand for the runner of a projection `P`.
pub trait HoldsProjection<P: Projection>: ProjectionCatchUp + Sized {
    /// Whether `self` stands for a runner. Each implementation says when it does.
    closed spec fn holds(&self, runner: ProjectionRunner<P>) -> bool {
        arbitrary()
    }

    /// Puts a runner into what stands for it. What stands for a runner stands, after an
    /// event, for what the runner becomes at it.
    fn hold(runner: ProjectionRunner<P>) -> (held: Self)
        ensures
            held.holds(runner),
            held.resume_position() == runner.resume(),
            forall|before: Self, after: Self, inner: ProjectionRunner<P>, recorded: RecordedEventView|
                #[trigger] before.holds(inner) && #[trigger] after.follows(&before, recorded)
                    ==> exists|next: ProjectionRunner<P>|
                    #[trigger] after.holds(next) && next.follows(&inner, recorded),
    ;
}

/// Whether what stands for a runner stands, after an event, for what the runner becomes at
/// it.
pub open spec fn keeps_standing<P: Projection, R: HoldsProjection<P>>() -> bool {
    forall|before: R, after: R, inner: ProjectionRunner<P>, recorded: RecordedEventView|
        #[trigger] before.holds(inner) && #[trigger] after.follows(&before, recorded)
            ==> exists|next: ProjectionRunner<P>|
            #[trigger] after.holds(next) && next.follows(&inner, recorded)
}

impl<P: Projection> HoldsProjection<P> for ProjectionRunner<P> {
    open spec fn holds(&self, runner: ProjectionRunner<P>) -> bool {
        *self == runner
    }

    fn hold(runner: ProjectionRunner<P>) -> (held: Self) {
        proof {
            assert forall|
                before: Self,
                after: Self,
                inner: ProjectionRunner<P>,
                recorded: RecordedEventView,
            | #[trigger] before.holds(inner) && #[trigger] after.follows(
                &before,
                recorded,
            ) implies exists|next: ProjectionRunner<P>|
                #[trigger] after.holds(next) && next.follows(&inner, recorded) by {
                assert(after.holds(after));
            }
        }
        runner
    }
}

/// Hands one message of a catch-up subscription to a runner.
///
/// An event is applied; the sentinel and a failure end the catch-up; an empty message
/// is skipped.
pub fn catch_up<R: ProjectionCatchUp>(
    runner: &mut R,
    response: Result<SubscribeResponse, String>,
) -> (step: StreamStep)
    requires
        response_view(response) matches ResponseView::Event(recorded) ==> recorded.global_position
            < u64::MAX,
    ensures
        step_after(step, response_view(response)),
        match response_view(response) {
            ResponseView::Event(recorded) => {
                &&& final(runner).follows(old(runner), recorded)
                &&& final(runner).resume_position() == next_position(
                    old(runner).resume_position(),
                    recorded.global_position,
                )
            },
            _ => *final(runner) == *old(runner),
        },
{
    match read_response(response) {
        StreamItem::Event(recorded) => {
            runner.apply_event(&recorded);
            StreamStep::Continue
        },
        StreamItem::CaughtUp => StreamStep::CaughtUp,
        StreamItem::Empty => StreamStep::Continue,
        StreamItem::Failed(error) => StreamStep::Failed(error),
    }
}

/// Seeing a recorded event a second time changes nothing.
pub proof fn law_seen_twice_counts_once<P: Projection>(
    state: P,
    position: u64,
    recorded: RecordedEventView,
)
    requires
        recorded.global_position < u64::MAX,
    ensures
        ({
            let (next, resume) = apply_recorded(state, position, recorded);
            apply_recorded(next, resume, recorded) == (next, resume)
        }),
{
}

/// Events are applied in turn: several at once come to the same as a first stretch
/// and then the rest.
pub proof fn law_catching_up_in_turns<P: Projection>(
    state: P,
    position: u64,
    first: Seq<RecordedEventView>,
    second: Seq<RecordedEventView>,
)
    ensures
        ({
            let (next, resume) = apply_all(state, position, first);
            apply_all(state, position, first + second) == apply_all(next, resume, second)
        }),
    decreases first.len(),
{
    if first.len() == 0 {
        assert(first + second == second);
    } else {
        let (next, resume) = apply_recorded(state, position, first[0]);
        assert((first + second).drop_first() == first.drop_first() + second);
        law_catching_up_in_turns(next, resume, first.drop_first(), second);
    }
}

/// The position that several events lead to is no smaller than where it stood, and
/// past every one of them.
pub proof fn law_position_passes_every_event<P: Projection>(
    state: P,
    position: u64,
    events: Seq<RecordedEventView>,
)
    requires
        positions_fit(events),
    ensures
        apply_all(state, position, events).1 >= position,
        forall|i: int|
            0 <= i < events.len() ==> (#[trigger] events[i]).global_position < apply_all(
                state,
                position,
                events,
            ).1,
    decreases events.len(),
{
    if events.len() > 0 {
        let (next, resume) = apply_recorded(state, position, events[0]);
        let rest = events.drop_first();
        lemma_rest(events);
        law_position_passes_every_event(next, resume, rest);
        assert forall|i: int| 0 <= i < events.len() implies (
        #[trigger] events[i]).global_position < apply_all(state, position, events).1 by {
            if i > 0 {
                assert(events[i] == rest[i - 1]);
            }
        }
    }
}

/// Events before the position change nothing, however many there are.
pub proof fn law_replayed_events_are_skipped<P: Projection>(
    state: P,
    position: u64,
    events: Seq<RecordedEventView>,
)
    requires
        forall|i: int|
            0 <= i < events.len() ==> (#[trigger] events[i]).global_position < position,
    ensures
        apply_all(state, position, events) == (state, position),
    decreases events.len(),
{
    if events.len() > 0 {
        let rest = events.drop_first();
        assert(events[0].global_position < position);
        assert forall|i: int| 0 <= i < rest.len() implies (
        #[trigger] rest[i]).global_position < position by {
            assert(events[i + 1].global_position < position);
        }
        law_replayed_events_are_skipped(state, position, rest);
    }
}

/// A runner that has caught up with the first `seen` events of a log, and is then sent
/// the log again from any earlier point on, ends where a runner ends that is sent
/// every event once: no event is missed and none is applied twice.
pub proof fn law_resuming_early_is_harmless<P: Projection>(
    state: P,
    position: u64,
    log: Seq<RecordedEventView>,
    seen: int,
    from: int,
)
    requires
        0 <= from <= seen <= log.len(),
        positions_fit(log),
    ensures
        ({
            let (next, resume) = apply_all(state, position, log.take(seen));
            apply_all(next, resume, log.skip(from)) == apply_all(state, position, log)
        }),
{
    let (next, resume) = apply_all(state, position, log.take(seen));
    let again = log.subrange(from, seen);
    assert(log.take(seen) + log.skip(seen) == log);
    assert(again + log.skip(seen) == log.skip(from));
    assert(positions_fit(log.take(seen))) by {
        assert forall|i: int| 0 <= i < seen implies (
        #[trigger] log.take(seen)[i]).global_position < u64::MAX by {
            assert(log[i].global_position < u64::MAX);
        }
    }
    law_position_passes_every_event(state, position, log.take(seen));
    assert forall|i: int| 0 <= i < again.len() implies (
    #[trigger] again[i]).global_position < resume by {
        assert(again[i] == log.take(seen)[from + i]);
    }
    law_replayed_events_are_skipped(next, resume, again);
    law_catching_up_in_turns(next, resume, again, log.skip(seen));
    law_catching_up_in_turns(state, position, log.take(seen), log.skip(seen));
}

/// A subscription may start anywhere up to the position of a runner: from the events that
/// it is then sent the runner becomes what it becomes from the whole log, so none that it
/// has yet to see is missed.
pub proof fn law_subscribing_early_misses_nothing<P: Projection>(
    state: P,
    position: u64,
    log: Seq<RecordedEventView>,
    from: u64,
)
    requires
        from <= position,
        positions_fit(log),
    ensures
        apply_all(state, position, sent_from(log, from)) == apply_all(state, position, log),
    decreases log.len(),
{
    if log.len() > 0 {
        let (next, resume) = apply_recorded(state, position, log[0]);
        lemma_rest(log);
        lemma_first_sent(log, from);
        law_subscribing_early_misses_nothing(next, resume, log.drop_first(), from);
    }
}

/// The state of a projection is the fold of the log: events in log order, none of
/// them before the position, are each applied once where they decode.
pub proof fn law_state_is_the_fold_of_the_log<P: Projection>(
    state: P,
    position: u64,
    log: Seq<RecordedEventView>,
)
    requires
        positions_fit(log),
        in_log_order(log),
        log.len() > 0 ==> position <= log[0].global_position,
    ensures
        apply_all(state, position, log).0 == fold_decoded(state, log),
        apply_all(state, position, log).1 == if log.len() == 0 {
            position as int
        } else {
            log.last().global_position + 1
        },
    decreases log.len(),
{
    if log.len() > 0 {
        let (next, resume) = apply_recorded(state, position, log[0]);
        let rest = log.drop_first();
        lemma_rest(log);
        if rest.len() > 0 {
            assert(rest[0] == log[1]);
            assert(log.last() == rest.last());
        }
        law_state_is_the_fold_of_the_log(next, resume, rest);
    }
}

/// Applying events one at a time, as in live mode, comes to the same as catching up on all
/// of them.
pub proof fn law_one_at_a_time_comes_to_the_same<P: Projection>(
    runners: Seq<ProjectionRunner<P>>,
    events: Seq<RecordedEventView>,
)
    requires
        runners.len() == events.len() + 1,
        forall|i: int|
            0 <= i < events.len() ==> runners[i + 1].follows(&runners[i], #[trigger] events[i]),
    ensures
        (runners.last().current(), runners.last().resume()) == apply_all(
            runners[0].current(),
            runners[0].resume(),
            events,
        ),
    decreases events.len(),
{
    if events.len() > 0 {
        let (later, rest) = (runners.drop_first(), events.drop_first());
        assert(runners[1].follows(&runners[0], events[0]));
        assert forall|i: int| 0 <= i < rest.len() implies later[i + 1].follows(
            &later[i],
            #[trigger] rest[i],
        ) by {
            assert(runners[i + 2].follows(&runners[i + 1], events[i + 1]));
        }
        law_one_at_a_time_comes_to_the_same(later, rest);
    }
}

/// A runner that has followed several events has applied them all, in order.
pub proof fn law_following_is_applying_all<P: Projection>(
    after: ProjectionRunner<P>,
    before: ProjectionRunner<P>,
    events: Seq<RecordedEventView>,
)
    requires
        follows_all(after, before, events),
    ensures
        (after.current(), after.resume()) == apply_all(before.current(), before.resume(), events),
    decreases events.len(),
{
    if events.len() > 0 {
        let next = choose|next: ProjectionRunner<P>|
            {
                &&& #[trigger] next.follows(&before, events[0])
                &&& next.resume_position() == next_position(
                    before.resume_position(),
                    events[0].global_position,
                )
                &&& follows_all(after, next, events.drop_first())
            };
        law_following_is_applying_all(after, next, events.drop_first());
    }
}

/// What stands for a runner, once it has followed several events, stands for the runner
/// that has applied them all, in order.
pub proof fn law_what_stands_for_a_runner_applies_all<P: Projection, R: HoldsProjection<P>>(
    after: R,
    before: R,
    runner: ProjectionRunner<P>,
    events: Seq<RecordedEventView>,
)
    requires
        keeps_standing::<P, R>(),
        before.holds(runner),
        follows_all(after, before, events),
    ensures
        exists|end: ProjectionRunner<P>|
            #[trigger] after.holds(end) && (end.current(), end.resume()) == apply_all(
                runner.current(),
                runner.resume(),
                events,
            ),
    decreases events.len(),
{
    if events.len() == 0 {
        assert(after.holds(runner));
    } else {
        let next = choose|next: R|
            {
                &&& #[trigger] next.follows(&before, events[0])
                &&& next.resume_position() == next_position(
                    before.resume_position(),
                    events[0].global_position,
                )
                &&& follows_all(after, next, events.drop_first())
            };
        let moved = choose|moved: ProjectionRunner<P>|
            #[trigger] next.holds(moved) && moved.follows(&runner, events[0]);
        law_what_stands_for_a_runner_applies_all(after, next, moved, events.drop_first());
    }
}

/// Handing a subscription to a runner message by message, up to the one that ends the
/// reading, comes to the same as processing it as a whole.
pub proof fn law_message_by_message_comes_to_the_same<P: Projection>(
    runners: Seq<ProjectionRunner<P>>,
    responses: Seq<ResponseView>,
)
    requires
        runners.len() == responses.len() + 1,
        responses.len() > 0 ==> stop_of(responses.drop_last()) is EndOfStream,
        forall|i: int|
            0 <= i < responses.len() ==> match #[trigger] responses[i] {
                ResponseView::Event(recorded) => runners[i + 1].follows(&runners[i], recorded),
                _ => runners[i + 1] == runners[i],
            },
    ensures
        (runners.last().current(), runners.last().resume()) == apply_all(
            runners[0].current(),
            runners[0].resume(),
            consumed_events(responses),
        ),
    decreases responses.len(),
{
    if responses.len() > 0 {
        let (later, rest) = (runners.drop_first(), responses.drop_first());
        lemma_first_consumed(responses);
        lemma_stops_at_the_last(responses);
        assert forall|i: int| 0 <= i < rest.len() implies match #[trigger] rest[i] {
            ResponseView::Event(recorded) => later[i + 1].follows(&later[i], recorded),
            _ => later[i + 1] == later[i],
        } by {
            assert(rest[i] == responses[i + 1]);
        }
        law_message_by_message_comes_to_the_same(later, rest);
    }
}

/// Every event at or past the position that decodes is applied, whatever stream or version
/// it has. One that does not decode leaves the state alone. Either way the position moves
/// right behind the event. An event before the position changes nothing.
pub proof fn law_every_event_at_or_past_the_position_is_applied<P: Projection>(
    state: P,
    position: u64,
    recorded: RecordedEventView,
    stored: StoredEventView,
)
    ensures
        recorded.global_position < position ==> apply_recorded(state, position, recorded) == (
            state,
            position,
        ),
        position <= recorded.global_position < u64::MAX ==> {
            &&& apply_recorded(state, position, recorded).1 == recorded.global_position + 1
            &&& decoded(recorded) == Some(stored) ==> apply_recorded(state, position, recorded).0
                == state.applied(stored)
            &&& decoded(recorded) is None ==> apply_recorded(state, position, recorded).0 == state
        },
{
}

/// The same of an event that has been decoded beforehand: it stands at `global_position` and
/// decoded to `stored`, or to nothing.
pub proof fn law_every_decoded_event_is_applied<P: Projection>(
    state: P,
    position: u64,
    global_position: u64,
    stored: StoredEventView,
)
    ensures
        global_position < position ==> {
            &&& apply_at(state, position, global_position, Some(stored)) == (state, position)
            &&& apply_at(state, position, global_position, None) == (state, position)
        },
        position <= global_position < u64::MAX ==> {
            &&& apply_at(state, position, global_position, Some(stored)).0 == state.applied(stored)
            &&& apply_at(state, position, global_position, Some(stored)).1 == global_position + 1
            &&& apply_at(state, position, global_position, None).0 == state
            &&& apply_at(state, position, global_position, None).1 == global_position + 1
        },
{
}

/// What several events lead to is reached by applying them one after the other: `states` and
/// `positions` are what there is before each of them and after the last.
pub proof fn law_events_are_applied_one_after_the_other<P: Projection>(
    states: Seq<P>,
    positions: Seq<u64>,
    events: Seq<RecordedEventView>,
)
    requires
        states.len() == events.len() + 1,
        positions.len() == events.len() + 1,
        forall|i: int|
            0 <= i < events.len() ==> (#[trigger] events[i]).global_position < u64::MAX && if events[
                i
            ].global_position < positions[i] {
                &&& states[i + 1] == states[i]
                &&& positions[i + 1] == positions[i]
            } else {
                &&& positions[i + 1] == events[i].global_position + 1
                &&& decoded(events[i]) matches Some(stored) ==> states[i + 1] == states[i].applied(
                    stored,
                )
                &&& decoded(events[i]) is None ==> states[i + 1] == states[i]
            },
    ensures
        apply_all(states[0], positions[0], events) == (states.last(), positions.last()),
    decreases events.len(),
{
    if events.len() > 0 {
        let (later, onward, rest) = (
            states.drop_first(),
            positions.drop_first(),
            events.drop_first(),
        );
        assert(events[0].global_position < u64::MAX);
        assert forall|i: int| 0 <= i < rest.len() implies (
        #[trigger] rest[i]).global_position < u64::MAX && if rest[i].global_position < onward[i] {
            &&& later[i + 1] == later[i]
            &&& onward[i + 1] == onward[i]
        } else {
            &&& onward[i + 1] == rest[i].global_position + 1
            &&& decoded(rest[i]) matches Some(stored) ==> later[i + 1] == later[i].applied(stored)
            &&& decoded(rest[i]) is None ==> later[i + 1] == later[i]
        } by {
            assert(rest[i] == events[i + 1]);
        }
        law_events_are_applied_one_after_the_other(later, onward, rest);
    }
}

/// A log in order, none of it before the position, is applied in full: every event that
/// decodes, once, whatever stream it belongs to. `states` is what there is before each event
/// and after the last.
pub proof fn law_a_log_is_applied_in_full<P: Projection>(
    states: Seq<P>,
    position: u64,
    log: Seq<RecordedEventView>,
)
    requires
        states.len() == log.len() + 1,
        forall|i: int| 0 <= i < log.len() ==> (#[trigger] log[i]).global_position < u64::MAX,
        forall|i: int, j: int|
            0 <= i < j < log.len() ==> (#[trigger] log[i]).global_position < (
            #[trigger] log[j]).global_position,
        log.len() > 0 ==> position <= log[0].global_position,
        forall|i: int|
            0 <= i < log.len() ==> match decoded(#[trigger] log[i]) {
                Some(stored) => states[i + 1] == states[i].applied(stored),
                None => states[i + 1] == states[i],
            },
    ensures
        apply_all(states[0], position, log).0 == states.last(),
        apply_all(states[0], position, log).1 == if log.len() == 0 {
            position as int
        } else {
            log.last().global_position + 1
        },
        fold_decoded(states[0], log) == states.last(),
    decreases log.len(),
{
    if log.len() > 0 {
        let (later, rest) = (states.drop_first(), log.drop_first());
        let resume = (log[0].global_position + 1) as u64;
        assert(match decoded(log[0]) {
            Some(stored) => states[1] == states[0].applied(stored),
            None => states[1] == states[0],
        });
        lemma_rest(log);
        assert forall|i: int| 0 <= i < rest.len() implies match decoded(#[trigger] rest[i]) {
            Some(stored) => later[i + 1] == later[i].applied(stored),
            None => later[i + 1] == later[i],
        } by {
            assert(rest[i] == log[i + 1]);
        }
        if rest.len() > 0 {
            assert(rest[0] == log[1]);
            assert(log.last() == rest.last());
        }
        law_a_log_is_applied_in_full(later, resume, rest);
    }
}

/// A runner follows an event exactly if it has applied it where it decodes and stands right
/// behind it, or had seen it already and has not changed.
pub proof fn law_what_a_runner_becomes_at_an_event<P: Projection>(
    after: ProjectionRunner<P>,
    before: ProjectionRunner<P>,
    recorded: RecordedEventView,
)
    requires
        recorded.global_position < u64::MAX,
    ensures
        after.resume_position() == after.resume(),
        after.follows(&before, recorded) <==> if recorded.global_position < before.resume() {
            after.current() == before.current() && after.resume() == before.resume()
        } else {
            &&& after.resume() == recorded.global_position + 1
            &&& match decoded(recorded) {
                Some(stored) => after.current() == before.current().applied(stored),
                None => after.current() == before.current(),
            }
        },
{
}

/// A runner stands for itself and for no other.
pub proof fn law_a_runner_stands_for_itself<P: Projection>(
    held: ProjectionRunner<P>,
    runner: ProjectionRunner<P>,
)
    ensures
        held.holds(runner) <==> held == runner,
{
}

} // verus!
