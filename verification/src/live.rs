//! Live subscription configuration and control.
//!
//! [`LiveConfig`] tunes the reconnection behaviour of the live loop, [`LiveHandle`]
//! says how far a running loop has come and stops it, and [`LiveLoop`] decides what
//! the loop does next.

use crate::duration::Duration;
use crate::error::{StoreError, StoreErrorView};
use vstd::arithmetic::power2::{lemma2_to64, lemma_pow2_unfold, pow2};
use vstd::prelude::*;

verus! {

/// Configuration for live subscription behaviour.
///
/// Controls how the live loop reconnects after a stream disconnection.
#[derive(Debug, Clone, Copy)]
pub struct LiveConfig {
    /// Base delay for exponential backoff on stream reconnection.
    ///
    /// After a stream error, the loop waits this long, then twice as long, and so on,
    /// up to [`reconnect_max_delay`](LiveConfig::reconnect_max_delay), which also bounds
    /// the first wait. Catching up resets the backoff.
    ///
    /// Default: 1 second.
    pub reconnect_base_delay: Duration,
    /// Maximum delay between reconnection attempts.
    ///
    /// Default: 30 seconds.
    pub reconnect_max_delay: Duration,
}

impl Default for LiveConfig {
    fn default() -> (config: Self)
        ensures
            config.reconnect_base_delay.nanoseconds() == 1_000_000_000,
            config.reconnect_max_delay.nanoseconds() == 30_000_000_000,
    {
        LiveConfig {
            reconnect_base_delay: Duration::from_secs(1),
            reconnect_max_delay: Duration::from_secs(30),
        }
    }
}

/// State of a live subscription, for controlling it.
///
/// `T` is the type of the background task that runs the loop.
#[derive(Debug)]
pub struct LiveHandle<T> {
    /// Whether the loop has been told to stop.
    pub shutdown_requested: bool,
    /// Whether the loop has read the sentinel.
    pub caught_up: bool,
    /// Global position of the event processed last, 0 before the first.
    pub position: u64,
    /// The background task, until someone waits for it.
    pub task: Option<T>,
}

impl<T> LiveHandle<T> {
    /// A handle of a loop that has not begun.
    pub fn new() -> (handle: Self)
        ensures
            handle == (LiveHandle::<T> {
                shutdown_requested: false,
                caught_up: false,
                position: 0,
                task: None,
            }),
    {
        LiveHandle { shutdown_requested: false, caught_up: false, position: 0, task: None }
    }

    /// Remembers the background task.
    pub fn attach(&mut self, task: T)
        ensures
            *final(self) == (LiveHandle { task: Some(task), ..*old(self) }),
    {
        self.task = Some(task);
    }

    /// Returns `true` if the live loop has read the sentinel at least once, meaning
    /// that historical replay is complete.
    pub fn is_caught_up(&self) -> (caught_up: bool)
        ensures
            caught_up == self.caught_up,
    {
        self.caught_up
    }

    /// The global position that a new subscriber sees first: that of the event
    /// processed last, 0 before the first.
    pub fn subscribe(&self) -> (position: u64)
        ensures
            position == self.position,
    {
        self.position
    }

    /// Records that the sentinel was read.
    pub fn mark_caught_up(&mut self)
        ensures
            *final(self) == (LiveHandle { caught_up: true, ..*old(self) }),
    {
        self.caught_up = true;
    }

    /// Records that an event has been processed.
    pub fn mark_processed(&mut self, global_position: u64)
        ensures
            *final(self) == (LiveHandle { position: global_position, ..*old(self) }),
    {
        self.position = global_position;
    }

    /// Tells the loop to stop, and hands out the task to wait for.
    ///
    /// The task is handed out once; where there is none, there is nothing to wait for.
    pub fn shutdown(&mut self) -> (task: Option<T>)
        ensures
            task == old(self).task,
            *final(self) == shut_down(*old(self)),
    {
        self.shutdown_requested = true;
        self.task.take()
    }
}

/// The error for a background task that did not end in an orderly way.
pub open spec fn task_panicked(reason: Seq<char>) -> StoreErrorView {
    StoreErrorView::other("live loop task panicked: "@, reason)
}

/// What a shutdown comes to, once the task that it had to wait for, if there was one, has
/// ended with the result of its loop or could not be joined.
pub fn shutdown_outcome(ended: Option<Result<Result<(), StoreError>, String>>) -> (result: Result<
    (),
    StoreError,
>)
    ensures
        match ended {
            None => result is Ok,
            Some(Ok(outcome)) => result == outcome,
            Some(Err(reason)) => result matches Err(error) && error@ == task_panicked(reason@),
        },
{
    match ended {
        None => Ok(()),
        Some(Ok(outcome)) => outcome,
        Some(Err(reason)) => Err(
            StoreError::other("live loop task panicked: ", reason.as_str()),
        ),
    }
}

/// A handle after it has been shut down.
pub open spec fn shut_down<T>(handle: LiveHandle<T>) -> LiveHandle<T> {
    LiveHandle { shutdown_requested: true, task: None, ..handle }
}

/// Shutting down a second time finds nothing to wait for and changes nothing.
pub proof fn law_shutdown_is_safe_to_repeat<T>(handle: LiveHandle<T>)
    ensures
        shut_down(handle).task is None,
        shut_down(shut_down(handle)) == shut_down(handle),
{
}

/// How the processing of one stream ended.
#[derive(Debug)]
pub enum StreamOutcome {
    /// The stream ended cleanly.
    Ended,
    /// A stream error occurred and should trigger reconnection.
    Error(StoreError),
}

/// What has happened to the live loop.
#[derive(Debug)]
pub enum LiveEvent {
    /// The loop is about to (re)connect.
    Ready {
        /// Whether it has been told to stop.
        shutdown: bool,
        /// The position to subscribe from.
        from_position: u64,
    },
    /// The subscription stands.
    Subscribed,
    /// The subscription could not be made.
    SubscribeFailed,
    /// The sentinel was read.
    CaughtUp,
    /// The stream is over.
    Finished {
        /// How it ended.
        outcome: StreamOutcome,
        /// Whether the loop has read the sentinel, on this stream or an earlier one.
        caught_up: bool,
    },
    /// The stream could not be processed.
    Unrecoverable(StoreError),
    /// The backoff delay has passed.
    BackoffElapsed,
    /// The loop was told to stop while it was waiting.
    Shutdown,
}

/// What the live loop does next.
#[derive(Debug)]
pub enum LiveAction {
    /// Begin again: look for a shutdown, then connect.
    Connect,
    /// Subscribe to the global log from a position on.
    Subscribe {
        /// The position.
        from_position: u64,
    },
    /// Read on in the stream.
    Read,
    /// Wait before reconnecting.
    Sleep(Duration),
    /// End the loop.
    Stop,
    /// End the loop with an error.
    Fail(StoreError),
}

/// The backoff of the live loop, in nanoseconds.
#[verifier::ext_equal]
pub struct BackoffView {
    /// The delay to begin with, as far as the longest one allows.
    pub base: nat,
    /// The longest delay.
    pub max: nat,
    /// The next delay.
    pub delay: nat,
}

/// The smaller of two numbers.
pub open spec fn smaller(one: nat, other: nat) -> nat {
    if one <= other {
        one
    } else {
        other
    }
}

impl BackoffView {
    /// The backoff once its delay has been waited for.
    pub open spec fn elapsed(self) -> Self {
        BackoffView { delay: smaller(2 * self.delay, self.max), ..self }
    }

    /// The backoff as it was in the beginning.
    pub open spec fn reset(self) -> Self {
        BackoffView { delay: smaller(self.base, self.max), ..self }
    }

    /// The backoff after an event.
    pub open spec fn after(self, event: LiveEvent) -> Self {
        match event {
            LiveEvent::CaughtUp => self.reset(),
            LiveEvent::Finished { outcome: StreamOutcome::Ended, caught_up: true } => self.reset(),
            LiveEvent::BackoffElapsed => self.elapsed(),
            _ => self,
        }
    }

    /// The backoff after several events, in order.
    pub open spec fn after_all(self, events: Seq<LiveEvent>) -> Self
        decreases events.len(),
    {
        if events.len() == 0 {
            self
        } else {
            self.after(events[0]).after_all(events.drop_first())
        }
    }

    /// The backoff once its delays have been waited for `times` times.
    pub open spec fn elapsed_times(self, times: nat) -> Self
        decreases times,
    {
        if times == 0 {
            self
        } else {
            self.elapsed_times((times - 1) as nat).elapsed()
        }
    }
}

/// Decides what the live loop does.
///
/// The loop reconnects on errors with exponential backoff, and ends when it is told to.
#[derive(Debug)]
pub struct LiveLoop {
    /// The configuration.
    pub config: LiveConfig,
    /// How long to wait before the next reconnection.
    pub backoff_delay: Duration,
}

impl View for LiveLoop {
    type V = BackoffView;

    open spec fn view(&self) -> BackoffView {
        BackoffView {
            base: self.config.reconnect_base_delay.nanoseconds(),
            max: self.config.reconnect_max_delay.nanoseconds(),
            delay: self.backoff_delay.nanoseconds(),
        }
    }
}

impl LiveLoop {
    /// A loop that has not met an error yet.
    pub fn new(config: LiveConfig) -> (live_loop: Self)
        ensures
            live_loop.config == config,
            live_loop@ == live_loop@.reset(),
            live_loop@.delay <= live_loop@.max,
    {
        LiveLoop {
            config,
            backoff_delay: config.reconnect_base_delay.min(config.reconnect_max_delay),
        }
    }

    /// Whether the next delay can be doubled.
    pub fn can_back_off(&self) -> (fits: bool)
        ensures
            fits == (2 * self@.delay <= Duration::longest()),
    {
        match self.backoff_delay.checked_double() {
            Some(_) => true,
            None => false,
        }
    }

    /// Takes in what has happened, and says what the loop does next.
    pub fn step(&mut self, event: LiveEvent) -> (action: LiveAction)
        requires
            event is BackoffElapsed ==> 2 * old(self)@.delay <= Duration::longest(),
        ensures
            final(self).config == old(self).config,
            final(self)@ == old(self)@.after(event),
            old(self)@.delay <= old(self)@.max ==> {
                &&& final(self)@.delay <= final(self)@.max
                &&& action matches LiveAction::Sleep(wait) ==> wait.nanoseconds() <= old(self)@.max
            },
            match event {
                LiveEvent::Ready { shutdown, from_position } => if shutdown {
                    action is Stop
                } else {
                    action == (LiveAction::Subscribe { from_position })
                },
                LiveEvent::Subscribed => action is Read,
                LiveEvent::SubscribeFailed => action == LiveAction::Sleep(old(self).backoff_delay),
                LiveEvent::CaughtUp => action is Read,
                LiveEvent::Finished { outcome: StreamOutcome::Ended, .. } => action is Connect,
                LiveEvent::Finished { outcome: StreamOutcome::Error(_), .. } => action
                    == LiveAction::Sleep(old(self).backoff_delay),
                LiveEvent::Unrecoverable(error) => action == LiveAction::Fail(error),
                LiveEvent::BackoffElapsed => action is Connect,
                LiveEvent::Shutdown => action is Stop,
            },
    {
        match event {
            LiveEvent::Ready { shutdown, from_position } => {
                if shutdown {
                    LiveAction::Stop
                } else {
                    LiveAction::Subscribe { from_position }
                }
            },
            LiveEvent::Subscribed => LiveAction::Read,
            LiveEvent::SubscribeFailed => LiveAction::Sleep(self.backoff_delay),
            LiveEvent::CaughtUp => {
                self.backoff_delay = self.config.reconnect_base_delay.min(
                    self.config.reconnect_max_delay,
                );
                LiveAction::Read
            },
            LiveEvent::Finished { outcome, caught_up } => match outcome {
                StreamOutcome::Ended => {
                    if caught_up {
                        self.backoff_delay = self.config.reconnect_base_delay.min(
                            self.config.reconnect_max_delay,
                        );
                    }
                    LiveAction::Connect
                },
                StreamOutcome::Error(_) => LiveAction::Sleep(self.backoff_delay),
            },
            LiveEvent::Unrecoverable(error) => LiveAction::Fail(error),
            LiveEvent::BackoffElapsed => {
                match self.backoff_delay.checked_double() {
                    Some(twice) => {
                        self.backoff_delay = twice.min(self.config.reconnect_max_delay);
                    },
                    None => {},
                }
                LiveAction::Connect
            },
            LiveEvent::Shutdown => LiveAction::Stop,
        }
    }
}

/// After any number of reconnections in a row, the delay is what it was before them, doubled
/// once for each, but no more than the maximum.
pub proof fn law_backoff_doubles_up_to_the_maximum(backoff: BackoffView, times: nat)
    requires
        backoff.delay <= backoff.max,
    ensures
        backoff.elapsed_times(times).delay == smaller(
            backoff.delay * pow2(times),
            backoff.max,
        ),
        backoff.elapsed_times(times).base == backoff.base,
        backoff.elapsed_times(times).max == backoff.max,
    decreases times,
{
    let (delay, power) = (backoff.delay, pow2(times));
    if times == 0 {
        lemma2_to64();
        assert(delay * power == delay) by (nonlinear_arith)
            requires
                power == 1,
        ;
    } else {
        let before = (times - 1) as nat;
        let last = pow2(before);
        lemma_pow2_unfold(times);
        assert(delay * power == 2 * (delay * last)) by (nonlinear_arith)
            requires
                power == 2 * last,
        ;
        law_backoff_doubles_up_to_the_maximum(backoff, before);
        assert(backoff.elapsed_times(times) == backoff.elapsed_times(before).elapsed());
    }
}

/// Whatever happens, and in whatever order, no wait between two attempts is longer than the
/// maximum: the delay starts at or below it and stays there.
pub proof fn law_no_wait_exceeds_the_maximum(backoff: BackoffView, events: Seq<LiveEvent>)
    ensures
        backoff.reset().after_all(events).delay <= backoff.max,
        backoff.reset().after_all(events).max == backoff.max,
{
    lemma_delay_stays_bounded(backoff.reset(), events);
}

/// A delay at or below the maximum stays there.
proof fn lemma_delay_stays_bounded(backoff: BackoffView, events: Seq<LiveEvent>)
    requires
        backoff.delay <= backoff.max,
    ensures
        backoff.after_all(events).delay <= backoff.max,
        backoff.after_all(events).max == backoff.max,
    decreases events.len(),
{
    if events.len() > 0 {
        lemma_delay_stays_bounded(backoff.after(events[0]), events.drop_first());
    }
}

/// Reading the sentinel puts the delay back to what it was in the beginning, however many
/// reconnections went before.
pub proof fn law_catching_up_resets_the_backoff(backoff: BackoffView, times: nat)
    ensures
        backoff.elapsed_times(times).after(LiveEvent::CaughtUp).delay == smaller(
            backoff.base,
            backoff.max,
        ),
    decreases times,
{
    if times > 0 {
        law_catching_up_resets_the_backoff(backoff, (times - 1) as nat);
    }
}

/// What each event does to the delay: the sentinel, and a clean end once the sentinel has
/// been read, put it back to the base or to the maximum, whichever is shorter; a delay that
/// has passed doubles it, up to the maximum; and nothing else touches it.
pub proof fn law_what_each_event_does_to_the_delay(backoff: BackoffView, event: LiveEvent)
    ensures
        ({
            let next = backoff.after(event);
            let resets = event is CaughtUp || (event matches LiveEvent::Finished {
                outcome,
                caught_up,
            } && outcome is Ended && caught_up);
            &&& next.base == backoff.base
            &&& next.max == backoff.max
            &&& resets && backoff.base <= backoff.max ==> next.delay == backoff.base
            &&& resets && backoff.base > backoff.max ==> next.delay == backoff.max
            &&& event is BackoffElapsed && 2 * backoff.delay <= backoff.max ==> next.delay == 2
                * backoff.delay
            &&& event is BackoffElapsed && 2 * backoff.delay > backoff.max ==> next.delay
                == backoff.max
            &&& !resets && event !is BackoffElapsed ==> next.delay == backoff.delay
        }),
{
}

/// A loop begins with the base delay or with the maximum, whichever is shorter, and what is
/// said of its backoff is said of its configuration and of its next delay.
pub proof fn law_a_backoff_is_its_spans(live_loop: LiveLoop, backoff: BackoffView)
    ensures
        live_loop@.base == live_loop.config.reconnect_base_delay.nanoseconds(),
        live_loop@.max == live_loop.config.reconnect_max_delay.nanoseconds(),
        live_loop@.delay == live_loop.backoff_delay.nanoseconds(),
        backoff.reset().base == backoff.base,
        backoff.reset().max == backoff.max,
        backoff.base <= backoff.max ==> backoff.reset().delay == backoff.base,
        backoff.base > backoff.max ==> backoff.reset().delay == backoff.max,
{
}

/// Waiting once and then several times is waiting once more than that.
proof fn lemma_elapsed_first(backoff: BackoffView, times: nat)
    ensures
        backoff.elapsed().elapsed_times(times) == backoff.elapsed_times(times + 1),
    decreases times,
{
    if times > 0 {
        lemma_elapsed_first(backoff, (times - 1) as nat);
    } else {
        assert(backoff.elapsed_times(0) == backoff);
    }
}

/// However often attempts fail in a row, and however they fail, every delay that has passed
/// doubles the next one, up to the maximum: after failed subscriptions, broken streams and
/// reconnections, with `times` delays passed among them, the delay is the first one times two
/// to the power of `times`, or the maximum.
pub proof fn law_failures_in_a_row_double_the_delay(backoff: BackoffView, events: Seq<LiveEvent>)
    requires
        backoff.delay <= backoff.max,
        forall|i: int|
            0 <= i < events.len() ==> {
                ||| #[trigger] events[i] is BackoffElapsed
                ||| events[i] is SubscribeFailed
                ||| events[i] is Ready
                ||| events[i] is Subscribed
                ||| events[i] matches LiveEvent::Finished { outcome, .. } && outcome is Error
            },
    ensures
        ({
            let times = events.filter(|event: LiveEvent| event is BackoffElapsed).len();
            let end = backoff.after_all(events);
            &&& end == backoff.elapsed_times(times)
            &&& end.base == backoff.base
            &&& end.max == backoff.max
            &&& backoff.delay * pow2(times) <= backoff.max ==> end.delay == backoff.delay * pow2(
                times,
            )
            &&& backoff.delay * pow2(times) > backoff.max ==> end.delay == backoff.max
        }),
{
    let times = events.filter(|event: LiveEvent| event is BackoffElapsed).len();
    lemma_failures_elapse(backoff, events);
    law_backoff_doubles_up_to_the_maximum(backoff, times);
}

/// Among failures and reconnections, only the delays that have passed count.
proof fn lemma_failures_elapse(backoff: BackoffView, events: Seq<LiveEvent>)
    requires
        forall|i: int|
            0 <= i < events.len() ==> {
                ||| #[trigger] events[i] is BackoffElapsed
                ||| events[i] is SubscribeFailed
                ||| events[i] is Ready
                ||| events[i] is Subscribed
                ||| events[i] matches LiveEvent::Finished { outcome, .. } && outcome is Error
            },
    ensures
        backoff.after_all(events) == backoff.elapsed_times(
            events.filter(|event: LiveEvent| event is BackoffElapsed).len(),
        ),
    decreases events.len(),
{
    let waited = |event: LiveEvent| event is BackoffElapsed;
    reveal(Seq::filter);
    if events.len() > 0 {
        let (first, rest) = (events[0], events.drop_first());
        assert forall|i: int| 0 <= i < rest.len() implies {
            ||| #[trigger] rest[i] is BackoffElapsed
            ||| rest[i] is SubscribeFailed
            ||| rest[i] is Ready
            ||| rest[i] is Subscribed
            ||| rest[i] matches LiveEvent::Finished { outcome, .. } && outcome is Error
        } by {
            assert(rest[i] == events[i + 1]);
        }
        lemma_failures_elapse(backoff.after(first), rest);
        events.lemma_filter_eq_filter_alt(waited);
        assert(first is BackoffElapsed || backoff.after(first) == backoff);
        if first is BackoffElapsed {
            lemma_elapsed_first(backoff, rest.filter(waited).len());
        }
    }
}

/// What a shutdown leaves behind, and what it reports where the task could not be joined.
pub proof fn law_what_a_shutdown_leaves<T>(handle: LiveHandle<T>, reason: Seq<char>)
    ensures
        shut_down(handle).shutdown_requested,
        shut_down(handle).task is None,
        shut_down(handle).caught_up == handle.caught_up,
        shut_down(handle).position == handle.position,
        task_panicked(reason).kind is Other,
        task_panicked(reason).message == "live loop task panicked: "@ + reason,
{
}

} // verus!
