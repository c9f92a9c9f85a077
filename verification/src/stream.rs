//! Reading the messages of a subscription.

use crate::error::{StoreError, StoreErrorView};
use crate::proto::subscribe_response::Content;
use crate::proto::{Empty, RecordedEvent, RecordedEventView, SubscribeResponse};
use vstd::prelude::*;

verus! {

/// What one message of a subscription says.
#[verifier::ext_equal]
pub enum ResponseView {
    /// An event of the global log.
    Event(RecordedEventView),
    /// Every event recorded so far has been sent.
    CaughtUp,
    /// Nothing.
    Empty,
    /// The subscription broke, for the given reason.
    Failed(Seq<char>),
}

/// What a message, or the failure that came in its place, says.
pub open spec fn response_view(response: Result<SubscribeResponse, String>) -> ResponseView {
    match response {
        Ok(message) => match message.content {
            Some(Content::Event(recorded)) => ResponseView::Event(recorded@),
            Some(Content::CaughtUp(_)) => ResponseView::CaughtUp,
            None => ResponseView::Empty,
        },
        Err(reason) => ResponseView::Failed(reason@),
    }
}

/// What the messages of a subscription say, in order.
pub open spec fn responses_view(responses: Seq<Result<SubscribeResponse, String>>) -> Seq<
    ResponseView,
> {
    responses.map_values(|response: Result<SubscribeResponse, String>| response_view(response))
}

/// Why the reading of a subscription ended.
#[verifier::ext_equal]
pub enum Stop {
    /// The sentinel was read.
    CaughtUp,
    /// There were no more messages.
    EndOfStream,
    /// The subscription broke, for the given reason.
    Failed(Seq<char>),
}

/// The events that a reader takes from a subscription: those before the first
/// sentinel or failure, in order.
pub open spec fn consumed_events(responses: Seq<ResponseView>) -> Seq<RecordedEventView>
    decreases responses.len(),
{
    if responses.len() == 0 {
        Seq::empty()
    } else {
        let rest = consumed_events(responses.drop_first());
        match responses[0] {
            ResponseView::Event(recorded) => seq![recorded] + rest,
            ResponseView::Empty => rest,
            ResponseView::CaughtUp => Seq::empty(),
            ResponseView::Failed(_) => Seq::empty(),
        }
    }
}

/// Why a reader stops: the first sentinel or failure, or the end of the stream.
pub open spec fn stop_of(responses: Seq<ResponseView>) -> Stop
    decreases responses.len(),
{
    if responses.len() == 0 {
        Stop::EndOfStream
    } else {
        match responses[0] {
            ResponseView::CaughtUp => Stop::CaughtUp,
            ResponseView::Failed(reason) => Stop::Failed(reason),
            _ => stop_of(responses.drop_first()),
        }
    }
}

/// The events that a live subscription brings: those before the first failure, in order.
/// The sentinel does not end the reading.
pub open spec fn live_events(responses: Seq<ResponseView>) -> Seq<RecordedEventView>
    decreases responses.len(),
{
    if responses.len() == 0 {
        Seq::empty()
    } else {
        let rest = live_events(responses.drop_first());
        match responses[0] {
            ResponseView::Event(recorded) => seq![recorded] + rest,
            ResponseView::Failed(_) => Seq::empty(),
            _ => rest,
        }
    }
}

/// That every one of the events has a successor position.
pub open spec fn positions_fit(events: Seq<RecordedEventView>) -> bool {
    forall|i: int| 0 <= i < events.len() ==> (#[trigger] events[i]).global_position < u64::MAX
}

/// That every event stands further on in the global log than those before it.
pub open spec fn in_log_order(events: Seq<RecordedEventView>) -> bool {
    forall|i: int, j: int|
        0 <= i < j < events.len() ==> (#[trigger] events[i]).global_position < (
        #[trigger] events[j]).global_position
}

/// The events of a log that a subscription from a position on is sent.
pub open spec fn sent_from(log: Seq<RecordedEventView>, from: u64) -> Seq<RecordedEventView> {
    log.filter(|recorded: RecordedEventView| recorded.global_position >= from)
}

/// The position to resume from once an event has been seen: past it, or where the
/// reader stood if that is further on.
pub open spec fn next_position(position: u64, global_position: u64) -> u64 {
    if global_position < position {
        position
    } else {
        (global_position + 1) as u64
    }
}

/// The error that a broken subscription is reported as.
pub open spec fn stream_error(reason: Seq<char>) -> StoreErrorView {
    StoreErrorView::other("subscribe stream error: "@, reason)
}

/// One message of a subscription, taken apart.
#[derive(Debug)]
pub enum StreamItem {
    /// An event of the global log.
    Event(RecordedEvent),
    /// Every event recorded so far has been sent.
    CaughtUp,
    /// Nothing.
    Empty,
    /// The subscription broke.
    Failed(StoreError),
}

/// What the reader of a subscription does after a message.
#[derive(Debug)]
pub enum StreamStep {
    /// Read on.
    Continue,
    /// Stop: the sentinel was read.
    CaughtUp,
    /// Stop: the subscription broke.
    Failed(StoreError),
}

/// Whether `step` is what a reader does after the given message.
pub open spec fn step_after(step: StreamStep, response: ResponseView) -> bool {
    match response {
        ResponseView::Event(_) => step is Continue,
        ResponseView::Empty => step is Continue,
        ResponseView::CaughtUp => step is CaughtUp,
        ResponseView::Failed(reason) => step matches StreamStep::Failed(error) && error@
            == stream_error(reason),
    }
}

/// Takes a message apart.
pub fn read_response(response: Result<SubscribeResponse, String>) -> (item: StreamItem)
    ensures
        match response_view(response) {
            ResponseView::Event(recorded) => item matches StreamItem::Event(event) && event@
                == recorded,
            ResponseView::CaughtUp => item is CaughtUp,
            ResponseView::Empty => item is Empty,
            ResponseView::Failed(reason) => item matches StreamItem::Failed(error) && error@
                == stream_error(reason),
        },
{
    match response {
        Ok(message) => match message.content {
            Some(Content::Event(recorded)) => StreamItem::Event(recorded),
            Some(Content::CaughtUp(_)) => StreamItem::CaughtUp,
            None => StreamItem::Empty,
        },
        Err(reason) => StreamItem::Failed(
            StoreError::other("subscribe stream error: ", reason.as_str()),
        ),
    }
}

/// What holds of the positions of all events holds without the first.
pub(crate) proof fn lemma_rest(events: Seq<RecordedEventView>)
    requires
        events.len() > 0,
    ensures
        positions_fit(events) ==> positions_fit(events.drop_first())
            && events[0].global_position < u64::MAX,
        in_log_order(events) ==> in_log_order(events.drop_first()),
{
    let rest = events.drop_first();
    if positions_fit(events) {
        assert(events[0].global_position < u64::MAX);
        assert forall|i: int| 0 <= i < rest.len() implies (
        #[trigger] rest[i]).global_position < u64::MAX by {
            assert(events[i + 1].global_position < u64::MAX);
        }
    }
    if in_log_order(events) {
        assert forall|i: int, j: int| 0 <= i < j < rest.len() implies (
        #[trigger] rest[i]).global_position < (#[trigger] rest[j]).global_position by {
            assert(events[i + 1].global_position < events[j + 1].global_position);
        }
    }
}

/// How the first event of a log contributes to what a subscription is sent.
pub(crate) proof fn lemma_first_sent(log: Seq<RecordedEventView>, from: u64)
    requires
        log.len() > 0,
    ensures
        sent_from(log, from) == if log[0].global_position >= from {
            seq![log[0]] + sent_from(log.drop_first(), from)
        } else {
            sent_from(log.drop_first(), from)
        },
        (seq![log[0]] + sent_from(log.drop_first(), from)).drop_first() == sent_from(
            log.drop_first(),
            from,
        ),
{
    log.lemma_filter_eq_filter_alt(
        |recorded: RecordedEventView| recorded.global_position >= from,
    );
}

/// How the first message contributes to what a reader takes.
pub(crate) proof fn lemma_first_consumed(responses: Seq<ResponseView>)
    requires
        responses.len() > 0,
    ensures
        match responses[0] {
            ResponseView::Event(recorded) => {
                let events = consumed_events(responses);
                &&& events.len() > 0
                &&& events[0] == recorded
                &&& events.drop_first() == consumed_events(responses.drop_first())
                &&& positions_fit(events) ==> positions_fit(events.drop_first())
                    && recorded.global_position < u64::MAX
            },
            ResponseView::Empty => consumed_events(responses) == consumed_events(
                responses.drop_first(),
            ),
            _ => consumed_events(responses).len() == 0,
        },
{
    match responses[0] {
        ResponseView::Event(recorded) => {
            let events = consumed_events(responses);
            assert(events.drop_first() == consumed_events(responses.drop_first()));
            lemma_rest(events);
        },
        _ => {},
    }
}

/// Where only the last message can stop the reader, so it is without the first one; and if
/// the first stops the reader, it is the last.
pub(crate) proof fn lemma_stops_at_the_last(responses: Seq<ResponseView>)
    requires
        responses.len() > 0,
        stop_of(responses.drop_last()) is EndOfStream,
    ensures
        responses.len() > 1 ==> {
            &&& stop_of(responses.drop_first().drop_last()) is EndOfStream
            &&& responses[0] is Event || responses[0] is Empty
        },
{
    if responses.len() > 1 {
        assert(responses.drop_last().drop_first() == responses.drop_first().drop_last());
        assert(responses.drop_last()[0] == responses[0]);
    }
}

/// A reader takes nothing from what follows the message it stopped at.
pub proof fn law_nothing_is_read_past_the_stop(read: Seq<ResponseView>, unread: Seq<ResponseView>)
    requires
        stop_of(read) !is EndOfStream,
    ensures
        consumed_events(read + unread) == consumed_events(read),
        stop_of(read + unread) == stop_of(read),
    decreases read.len(),
{
    if read.len() > 0 {
        assert((read + unread).drop_first() == read.drop_first() + unread);
        match read[0] {
            ResponseView::CaughtUp => {},
            ResponseView::Failed(_) => {},
            _ => law_nothing_is_read_past_the_stop(read.drop_first(), unread),
        }
    }
}

/// Where nothing stops the reader, it takes what two stretches of a subscription
/// hold as if they were one.
pub proof fn law_stretches_are_read_in_turn(first: Seq<ResponseView>, second: Seq<ResponseView>)
    requires
        stop_of(first) is EndOfStream,
    ensures
        consumed_events(first + second) == consumed_events(first) + consumed_events(second),
        stop_of(first + second) == stop_of(second),
    decreases first.len(),
{
    if first.len() == 0 {
        assert(first + second == second);
        assert(consumed_events(first) + consumed_events(second) == consumed_events(second));
    } else {
        assert((first + second).drop_first() == first.drop_first() + second);
        law_stretches_are_read_in_turn(first.drop_first(), second);
        let rest = consumed_events(first.drop_first());
        match first[0] {
            ResponseView::Event(recorded) => {
                assert(seq![recorded] + (rest + consumed_events(second)) == (seq![recorded] + rest)
                    + consumed_events(second));
            },
            _ => {},
        }
    }
}

/// The position to resume from never moves back, and never stays on an event that
/// has been seen.
pub proof fn law_position_never_moves_back(position: u64, global_position: u64)
    requires
        global_position < u64::MAX,
    ensures
        next_position(position, global_position) >= position,
        next_position(position, global_position) > global_position,
{
}

/// A message says what it carries: an event, the sentinel, nothing, or why the subscription
/// broke. Several messages say what each of them says, in order.
pub proof fn law_what_a_message_says(
    recorded: RecordedEvent,
    reason: String,
    responses: Seq<Result<SubscribeResponse, String>>,
)
    ensures
        response_view(
            Ok(SubscribeResponse { content: Some(Content::Event(recorded)) }),
        ) == ResponseView::Event(recorded@),
        response_view(
            Ok(SubscribeResponse { content: Some(Content::CaughtUp(Empty {  })) }),
        ) is CaughtUp,
        response_view(Ok(SubscribeResponse { content: None })) is Empty,
        response_view(Err(reason)) == ResponseView::Failed(reason@),
        responses_view(responses).len() == responses.len(),
        forall|i: int|
            0 <= i < responses.len() ==> #[trigger] responses_view(responses)[i] == response_view(
                responses[i],
            ),
{
}

/// What the first item of a sequence contributes where items are picked out of it.
proof fn lemma_first_picked<A, C>(items: Seq<A>, pick: spec_fn(A) -> Option<C>)
    requires
        items.len() > 0,
    ensures
        items.filter_map(pick) == match pick(items[0]) {
            Some(picked) => seq![picked] + items.drop_first().filter_map(pick),
            None => items.drop_first().filter_map(pick),
        },
    decreases items.len(),
{
    reveal(Seq::filter_map);
    let rest = items.drop_first();
    if items.len() == 1 {
        assert(items.drop_last() == Seq::<A>::empty());
        assert(rest == Seq::<A>::empty());
        assert(Seq::<A>::empty().filter_map(pick) == Seq::<C>::empty());
        assert(items.last() == items[0]);
    } else {
        lemma_first_picked(items.drop_last(), pick);
        assert(items.drop_last().drop_first() == rest.drop_last());
        assert(items.last() == rest.last());
        assert(items.drop_last()[0] == items[0]);
        match (pick(items[0]), pick(items.last())) {
            (Some(first), Some(last)) => {
                let middle = rest.drop_last().filter_map(pick);
                assert((seq![first] + middle) + seq![last] == seq![first] + (middle + seq![
                    last,
                ]));
            },
            _ => {},
        }
    }
}

/// A reader takes, in order, every event before the first sentinel or failure, and nothing
/// else; and that sentinel or failure is why it stops. `count` is how many messages come
/// before it, or how many there are in all.
pub proof fn law_a_reader_takes_every_event_up_to_the_stop(
    responses: Seq<ResponseView>,
    count: int,
)
    requires
        0 <= count <= responses.len(),
        forall|i: int|
            0 <= i < count ==> #[trigger] responses[i] !is CaughtUp && responses[i] !is Failed,
        count < responses.len() ==> responses[count] is CaughtUp || responses[count] is Failed,
    ensures
        consumed_events(responses) == responses.take(count).filter_map(
            |response: ResponseView|
                match response {
                    ResponseView::Event(recorded) => Some(recorded),
                    _ => None,
                },
        ),
        count == responses.len() <==> stop_of(responses) is EndOfStream,
        count < responses.len() && responses[count] is CaughtUp ==> stop_of(responses) is CaughtUp,
        count < responses.len() ==> (responses[count] matches ResponseView::Failed(reason)
            ==> stop_of(responses) == Stop::Failed(reason)),
    decreases responses.len(),
{
    let pick = |response: ResponseView|
        match response {
            ResponseView::Event(recorded) => Some(recorded),
            _ => None,
        };
    if count == 0 {
        reveal(Seq::filter_map);
        assert(responses.take(0) == Seq::<ResponseView>::empty());
        assert(responses.take(0).filter_map(pick) == Seq::<RecordedEventView>::empty());
    } else {
        let rest = responses.drop_first();
        assert(responses[0] !is CaughtUp && responses[0] !is Failed);
        assert forall|i: int| 0 <= i < count - 1 implies #[trigger] rest[i] !is CaughtUp && rest[i]
            !is Failed by {
            assert(responses[i + 1] !is CaughtUp);
        }
        law_a_reader_takes_every_event_up_to_the_stop(rest, count - 1);
        lemma_first_picked(responses.take(count), pick);
        assert(responses.take(count).drop_first() == rest.take(count - 1));
        assert(responses.take(count)[0] == responses[0]);
    }
}

/// A live subscription brings, in order, every event before the first failure, and nothing
/// else. `count` is how many messages come before it, or how many there are in all.
pub proof fn law_a_live_subscription_brings_every_event_up_to_the_failure(
    responses: Seq<ResponseView>,
    count: int,
)
    requires
        0 <= count <= responses.len(),
        forall|i: int| 0 <= i < count ==> #[trigger] responses[i] !is Failed,
        count < responses.len() ==> responses[count] is Failed,
    ensures
        live_events(responses) == responses.take(count).filter_map(
            |response: ResponseView|
                match response {
                    ResponseView::Event(recorded) => Some(recorded),
                    _ => None,
                },
        ),
    decreases responses.len(),
{
    let pick = |response: ResponseView|
        match response {
            ResponseView::Event(recorded) => Some(recorded),
            _ => None,
        };
    if count == 0 {
        reveal(Seq::filter_map);
        assert(responses.take(0) == Seq::<ResponseView>::empty());
        assert(responses.take(0).filter_map(pick) == Seq::<RecordedEventView>::empty());
    } else {
        let rest = responses.drop_first();
        assert(responses[0] !is Failed);
        assert forall|i: int| 0 <= i < count - 1 implies #[trigger] rest[i] !is Failed by {
            assert(responses[i + 1] !is Failed);
        }
        law_a_live_subscription_brings_every_event_up_to_the_failure(rest, count - 1);
        lemma_first_picked(responses.take(count), pick);
        assert(responses.take(count).drop_first() == rest.take(count - 1));
        assert(responses.take(count)[0] == responses[0]);
    }
}

/// A reader reads on after an event and after an empty message, stops at the sentinel, and
/// stops at a failure with an error that gives the reason.
pub proof fn law_when_a_reader_stops(step: StreamStep, response: ResponseView, reason: Seq<char>)
    ensures
        response is Event || response is Empty ==> (step_after(step, response) <==> step is Continue),
        response is CaughtUp ==> (step_after(step, response) <==> step is CaughtUp),
        response == ResponseView::Failed(reason) ==> (step_after(step, response) <==> {
            &&& step matches StreamStep::Failed(error)
            &&& error.kind is Other
            &&& error.message@ == "subscribe stream error: "@ + reason
        }),
        stream_error(reason).kind is Other,
        stream_error(reason).message == "subscribe stream error: "@ + reason,
{
}

/// An event that has been seen already leaves the position alone; any other moves it right
/// behind itself. Every event but one at the last position of all can be seen.
pub proof fn law_the_position_after_an_event(
    position: u64,
    global_position: u64,
    events: Seq<RecordedEventView>,
)
    ensures
        global_position < position ==> next_position(position, global_position) == position,
        position <= global_position < u64::MAX ==> next_position(position, global_position)
            == global_position + 1,
        positions_fit(events) <==> forall|i: int|
            0 <= i < events.len() ==> (#[trigger] events[i]).global_position != u64::MAX,
{
}

} // verus!
