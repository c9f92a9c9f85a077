//! The store: what it remembers of aggregates, projections and process managers, and
//! what it decides about them.
//!
//! A store is put together by [`AggregateStoreBuilder`]. All state is rebuilt from the
//! event log on startup; there is no local disk caching.

use crate::aggregate::Aggregate;
use crate::command::{envelopes_view, CommandEnvelope, CommandEnvelopeView};
use crate::dispatch::{
    all_commands, batches_view, commands_of, law_a_run_holds_every_envelope, Awaiting, Batch,
    BatchView, DispatchRun, DispatchRunView, PendingCommandView,
};
use crate::duration::Duration;
use crate::error::{ErrorKind, StoreError, StoreErrorView};
use crate::live::{
    shut_down, LiveAction, LiveConfig, LiveEvent, LiveHandle, LiveLoop, StreamOutcome,
};
use crate::process_manager::{
    react_all, reacts_to_all, ProcessManager, ProcessManagerCatchUp, ProcessManagerRunner,
};
use crate::projection::{follows_all, Projection, ProjectionCatchUp};
use crate::proto::expected_version::Kind;
use crate::proto::subscribe_response::Content;
use crate::proto::{
    AppendRequest, Empty, ExpectedVersion, ProposedEvent, RecordedEvent, RecordedEventView,
    SubscribeResponse,
};
use crate::stream::{
    live_events, next_position, read_response, response_view, step_after, stream_error, ResponseView,
    StreamItem, StreamStep,
};
use crate::table::{Table, TableKey};
use crate::text::surrounded;
use vstd::prelude::*;

verus! {

/// A path of the file system; carried, never looked into.
#[verifier::external_type_specification]
#[verifier::external_body]
pub struct ExPathBuf(std::path::PathBuf);

/// The identity of a type; carried and compared.
#[verifier::external_type_specification]
#[verifier::external_body]
pub struct ExTypeId(std::any::TypeId);

/// Compares two type identities with `==`, which holds exactly where they are the
/// same.
#[verifier::external_body]
fn same_type(one: &std::any::TypeId, other: &std::any::TypeId) -> (same: bool)
    ensures
        same == (*one == *other),
{
    *one == *other
}

/// The types that the program around the store brings along.
pub trait Runtime {
    /// A projection runner, whatever its projection.
    type Projection: ProjectionCatchUp;

    /// A process manager runner, whatever its process manager.
    type ProcessManager: ProcessManagerCatchUp;

    /// What hands commands to the aggregates of one type.
    type Dispatcher;

    /// What addresses a running aggregate instance.
    type Handle;

    /// A background task.
    type Task;

    /// What authenticates the connection to the server.
    type Token;
}

/// Names an aggregate instance: its Rust type and its identifier.
#[derive(Debug)]
pub struct ActorKey {
    /// The aggregate's Rust type.
    pub type_id: std::any::TypeId,
    /// The instance's identifier within its type.
    pub instance_id: String,
}

impl View for ActorKey {
    type V = (std::any::TypeId, Seq<char>);

    open spec fn view(&self) -> (std::any::TypeId, Seq<char>) {
        (self.type_id, self.instance_id@)
    }
}

impl TableKey for ActorKey {
    fn same_key(&self, other: &Self) -> (same: bool) {
        same_type(&self.type_id, &other.type_id) && self.instance_id == other.instance_id
    }
}

/// The aggregate instance that a stream belongs to.
#[derive(Debug)]
pub struct StreamOwner {
    /// The aggregate's type.
    pub aggregate_type: String,
    /// The instance's identifier within its type.
    pub instance_id: String,
}

/// Options controlling what follows the injection of an event.
#[derive(Debug, Clone, Copy)]
pub struct InjectOptions {
    /// When `true`, run the process managers after appending the event. Defaults to
    /// `false`.
    pub run_process_managers: bool,
}

impl Default for InjectOptions {
    fn default() -> (options: Self)
        ensures
            !options.run_process_managers,
    {
        InjectOptions { run_process_managers: false }
    }
}

/// The handle that is found for an aggregate instance whose cached handle, if there is one,
/// leads to a running actor (`alive`) or not.
pub open spec fn found_handle<K, H>(cache: Map<K, H>, key: K, alive: bool) -> Option<H> {
    if alive && cache.contains_key(key) {
        Some(cache[key])
    } else {
        None
    }
}

/// The cached handles after one was looked for: without the entry where nothing was found.
pub open spec fn looked_up<K, H>(cache: Map<K, H>, key: K, alive: bool) -> Map<K, H> {
    if found_handle(cache, key, alive) is Some {
        cache
    } else {
        cache.remove(key)
    }
}

/// Central registry that manages aggregate instance lifecycles.
///
/// The store remembers the handles of running aggregates, the registered projections
/// and process managers, and whether a live subscription has been started.
pub struct AggregateStore<B: Runtime> {
    /// Root directory for dead-letter logs.
    pub base_dir: std::path::PathBuf,
    /// Handles of aggregate instances.
    pub cache: Table<ActorKey, B::Handle>,
    /// Projection runners, by projection name.
    pub projections: Table<String, B::Projection>,
    /// Process manager runners, in the order of their registration.
    pub process_managers: Vec<B::ProcessManager>,
    /// Dispatchers, by aggregate type.
    pub dispatchers: Table<String, B::Dispatcher>,
    /// How long an idle actor waits before it shuts down.
    pub idle_timeout: Duration,
    /// Configuration of the live subscription.
    pub live_config: LiveConfig,
    /// The live subscription, once started.
    pub live_handle: Option<LiveHandle<B::Task>>,
}

impl<B: Runtime> AggregateStore<B> {
    /// Every name and every aggregate instance is registered once.
    pub open spec fn wf(&self) -> bool {
        &&& self.cache.wf()
        &&& self.projections.wf()
        &&& self.dispatchers.wf()
    }

    /// The handle that is cached for an aggregate instance, if there is one.
    pub fn cached(&self, key: &ActorKey) -> (handle: Option<&B::Handle>)
        requires
            self.wf(),
        ensures
            match handle {
                Some(found) => self.cache.map().contains_key(key@) && *found
                    == self.cache.map()[key@],
                None => !self.cache.map().contains_key(key@),
            },
    {
        self.cache.get(key)
    }

    /// Looks for a handle to an aggregate instance.
    ///
    /// `alive` says whether the actor behind the cached handle still runs. Where there is
    /// a cached handle and its actor runs, that is the handle. Otherwise a stale entry is
    /// evicted, and a new actor has to be spawned.
    pub fn get(&mut self, key: &ActorKey, alive: bool) -> (handle: Option<&B::Handle>)
        requires
            old(self).wf(),
        ensures
            final(self).wf(),
            match found_handle(old(self).cache.map(), key@, alive) {
                Some(found) => handle == Some(&found) && *final(self) == *old(self),
                None => handle is None,
            },
            final(self).cache.map() == looked_up(old(self).cache.map(), key@, alive),
            *final(self) == (AggregateStore { cache: final(self).cache, ..*old(self) }),
    {
        if alive {
            match self.cache.index_of(key) {
                Some(index) => {
                    return Some(self.cache.at(index));
                },
                None => {},
            }
        }
        self.cache.remove(key);
        None
    }

    /// Remembers the handle of a freshly spawned actor.
    pub fn insert_handle(&mut self, key: ActorKey, handle: B::Handle)
        requires
            old(self).wf(),
        ensures
            final(self).wf(),
            final(self).cache.map() == old(self).cache.map().insert(key@, handle),
            *final(self) == (AggregateStore { cache: final(self).cache, ..*old(self) }),
    {
        self.cache.insert(key, handle);
    }

    /// Whose stream an event for an instance of aggregate type `A` is injected into.
    pub fn inject_target<A: Aggregate>(&self, instance_id: &str) -> (target: StreamOwner)
        ensures
            target.aggregate_type@ == A::AGGREGATE_TYPE@,
            target.instance_id@ == instance_id@,
    {
        StreamOwner {
            aggregate_type: A::AGGREGATE_TYPE.to_owned(),
            instance_id: instance_id.to_owned(),
        }
    }

    /// The request that appends a pre-built event to a stream as it is, bypassing command
    /// validation and whatever version the stream has.
    pub fn inject_event(&self, stream_id: String, proposed: ProposedEvent) -> (request:
        AppendRequest)
        ensures
            request.stream_id == stream_id,
            request.expected_version == Some(
                ExpectedVersion { kind: Some(Kind::Any(Empty {  })) },
            ),
            request.events@ == seq![proposed],
    {
        let mut events: Vec<ProposedEvent> = Vec::new();
        events.push(proposed);
        AppendRequest {
            stream_id,
            expected_version: Some(ExpectedVersion { kind: Some(Kind::Any(Empty {  })) }),
            events,
        }
    }

    /// Takes in whether an injected event was appended, and says whether the process
    /// managers are to be run now.
    pub fn event_injected(&self, appended: Result<(), String>, opts: &InjectOptions) -> (run:
        Result<bool, StoreError>)
        ensures
            match appended {
                Ok(_) => run == Ok::<_, StoreError>(opts.run_process_managers),
                Err(reason) => run matches Err(error) && error@ == StoreErrorView::other(
                    "gRPC append failed: "@,
                    reason@,
                ),
            },
    {
        match appended {
            Ok(_) => Ok(opts.run_process_managers),
            Err(reason) => Err(StoreError::other("gRPC append failed: ", reason.as_str())),
        }
    }

    /// Starts live mode.
    ///
    /// Can only be done once; a second attempt is an error and changes nothing.
    pub fn start_live(&mut self) -> (result: Result<(), StoreError>)
        ensures
            match old(self).live_handle {
                Some(_) => {
                    &&& result matches Err(error) && error@ == (StoreErrorView {
                        kind: ErrorKind::AlreadyExists,
                        message: "live subscription already started"@,
                    })
                    &&& *final(self) == *old(self)
                },
                None => {
                    &&& result is Ok
                    &&& *final(self) == (AggregateStore {
                        live_handle: Some(
                            LiveHandle::<B::Task> {
                                shutdown_requested: false,
                                caught_up: false,
                                position: 0,
                                task: None,
                            },
                        ),
                        ..*old(self)
                    })
                },
            },
    {
        if self.live_handle.is_some() {
            return Err(
                StoreError::new(
                    ErrorKind::AlreadyExists,
                    "live subscription already started".to_owned(),
                ),
            );
        }
        self.live_handle = Some(LiveHandle::new());
        Ok(())
    }

    /// Looks for a registered projection, which is to catch up before its state is read.
    ///
    /// The error is of kind [`ErrorKind::NotFound`] if the projection is not registered.
    pub fn projection<P: Projection>(&self) -> (plan: Result<CatchUpPlan, StoreError>)
        requires
            self.wf(),
        ensures
            match plan {
                Ok(found) => self.plans_catch_up(P::NAME@, found.index, found.from_position),
                Err(error) => {
                    &&& !self.projections.map().contains_key(P::NAME@)
                    &&& error@ == not_registered(P::NAME@)
                },
            },
    {
        match self.projections.index_of(&P::NAME.to_owned()) {
            Some(index) => {
                let from_position: u64 = self.projections.at(index).position();
                Ok(CatchUpPlan { index, from_position })
            },
            None => Err(
                StoreError::new(
                    ErrorKind::NotFound,
                    surrounded("projection '", P::NAME, "' not registered"),
                ),
            ),
        }
    }

    /// Looks for a registered projection, whose state is to be read as the live
    /// subscription left it.
    ///
    /// If live mode has not been started, the projection is to catch up first, as with
    /// [`projection`](AggregateStore::projection). The error is of kind
    /// [`ErrorKind::NotFound`] if the projection is not registered.
    pub fn live_projection<P: Projection>(&self) -> (plan: Result<ReadPlan, StoreError>)
        requires
            self.wf(),
        ensures
            match plan {
                Ok(ReadPlan::Current { index }) => {
                    &&& self.live_handle is Some
                    &&& self.holds_projection(P::NAME@, index)
                },
                Ok(ReadPlan::CatchUp { index, from_position }) => {
                    &&& self.live_handle is None
                    &&& self.plans_catch_up(P::NAME@, index, from_position)
                },
                Err(error) => {
                    &&& !self.projections.map().contains_key(P::NAME@)
                    &&& error@ == not_registered(P::NAME@)
                },
            },
    {
        match self.projection::<P>() {
            Ok(plan) => if self.live_handle.is_some() {
                Ok(ReadPlan::Current { index: plan.index })
            } else {
                Ok(ReadPlan::CatchUp { index: plan.index, from_position: plan.from_position })
            },
            Err(error) => Err(error),
        }
    }

    /// Whether the projection of the given name is at the given index.
    pub open spec fn holds_projection(&self, name: Seq<char>, index: usize) -> bool {
        &&& index < self.projections.keys().len()
        &&& self.projections.keys()[index as int] == name
        &&& self.projections.map().contains_key(name)
        &&& self.projections.map()[name] == self.projections.values()[index as int]
    }

    /// Whether the projection of the given name is at the given index and resumes from
    /// the given position.
    pub open spec fn plans_catch_up(
        &self,
        name: Seq<char>,
        index: usize,
        from_position: u64,
    ) -> bool {
        &&& self.holds_projection(name, index)
        &&& from_position == self.projections.map()[name].resume_position()
    }

    /// The projection runner at an index.
    pub fn projection_runner(&self, index: usize) -> (runner: &B::Projection)
        requires
            index < self.projections.keys().len(),
        ensures
            *runner == self.projections.values()[index as int],
    {
        self.projections.at(index)
    }

    /// Hands one message of a catch-up subscription to the projection at an index.
    pub fn catch_up_projection(
        &mut self,
        index: usize,
        response: Result<SubscribeResponse, String>,
    ) -> (step: StreamStep)
        requires
            old(self).wf(),
            index < old(self).projections.keys().len(),
            response_view(response) matches ResponseView::Event(recorded)
                ==> recorded.global_position < u64::MAX,
        ensures
            final(self).wf(),
            step_after(step, response_view(response)),
            *final(self) == (AggregateStore { projections: final(self).projections, ..*old(self) }),
            final(self).projections.keys() == old(self).projections.keys(),
            ({
                let before = old(self).projections.values();
                let after = final(self).projections.values();
                &&& after == before.update(index as int, after[index as int])
                &&& match response_view(response) {
                    ResponseView::Event(recorded) => {
                        &&& after[index as int].follows(&before[index as int], recorded)
                        &&& after[index as int].resume_position() == next_position(
                            before[index as int].resume_position(),
                            recorded.global_position,
                        )
                    },
                    _ => after[index as int] == before[index as int],
                }
            }),
    {
        crate::projection::catch_up(self.projections.at_mut(index), response)
    }
}

/// The batches that process managers produce at a recorded event: one for each that
/// produces anything, in their order.
pub open spec fn reactions<M: ProcessManagerCatchUp>(
    managers: Seq<M>,
    recorded: RecordedEventView,
) -> Seq<BatchView>
    decreases managers.len(),
{
    if managers.len() == 0 {
        Seq::empty()
    } else {
        let earlier = reactions(managers.drop_last(), recorded);
        let envelopes = managers.last().produces(recorded);
        if envelopes.len() == 0 {
            earlier
        } else {
            earlier.push(BatchView { envelopes, dead_letter_path: managers.last().log_path() })
        }
    }
}

/// Whether each projection runner is what it becomes at a recorded event.
pub open spec fn all_follow<R: ProjectionCatchUp>(
    before: Seq<R>,
    after: Seq<R>,
    recorded: RecordedEventView,
) -> bool {
    &&& after.len() == before.len()
    &&& forall|i: int|
        0 <= i < after.len() ==> (#[trigger] after[i]).follows(&before[i], recorded)
            && after[i].resume_position() == next_position(
            before[i].resume_position(),
            recorded.global_position,
        )
}

/// Whether each process manager runner is what it becomes at a recorded event.
pub open spec fn all_react<M: ProcessManagerCatchUp>(
    before: Seq<M>,
    after: Seq<M>,
    recorded: RecordedEventView,
) -> bool {
    &&& after.len() == before.len()
    &&& forall|i: int|
        0 <= i < after.len() ==> (#[trigger] after[i]).follows(&before[i], recorded)
            && after[i].log_path() == before[i].log_path() && after[i].resume_position()
            == next_position(before[i].resume_position(), recorded.global_position)
}

/// The positions that projection runners and process manager runners resume from.
pub open spec fn resume_positions<R: ProjectionCatchUp, M: ProcessManagerCatchUp>(
    projections: Seq<R>,
    managers: Seq<M>,
) -> Seq<u64> {
    projections.map_values(|runner: R| runner.resume_position()) + managers.map_values(
        |runner: M| runner.resume_position(),
    )
}

/// Whether `position` is the one to subscribe from: the smallest of `positions`, or 0
/// where there are none.
pub open spec fn subscribes_from(positions: Seq<u64>, position: u64) -> bool {
    if positions.len() == 0 {
        position == 0
    } else {
        &&& positions.contains(position)
        &&& forall|i: int| 0 <= i < positions.len() ==> position <= #[trigger] positions[i]
    }
}

impl<B: Runtime> AggregateStore<B> {
    /// Computes the smallest global position across all projections and process
    /// managers, from which a live subscription has to start so as not to miss an event
    /// that one of them has yet to see. Without any of them it is 0.
    pub fn min_global_position(&self) -> (position: u64)
        ensures
            subscribes_from(
                resume_positions(self.projections.values(), self.process_managers@),
                position,
            ),
    {
        let ghost all = resume_positions(self.projections.values(), self.process_managers@);
        let mut smallest: Option<u64> = None;
        let registered: usize = self.projections.len();
        for index in 0..registered
            invariant
                registered == self.projections.values().len(),
                registered == self.projections.keys().len(),
                all == resume_positions(self.projections.values(), self.process_managers@),
                smallest is None <==> index == 0,
                smallest matches Some(least) ==> subscribes_from(all.take(index as int), least),
        {
            let position: u64 = self.projections.at(index).position();
            proof {
                assert(all[index as int] == position);
                lemma_smallest_so_far(all, index as int, smallest);
            }
            smallest = Some(least_of(smallest, position));
        }
        for index in 0..self.process_managers.len()
            invariant
                registered == self.projections.values().len(),
                all == resume_positions(self.projections.values(), self.process_managers@),
                smallest is None <==> registered + index == 0,
                smallest matches Some(least) ==> subscribes_from(
                    all.take(registered + index),
                    least,
                ),
        {
            let position: u64 = self.process_managers[index].position();
            proof {
                assert(all[registered + index] == position);
                lemma_smallest_so_far(all, registered + index, smallest);
            }
            smallest = Some(least_of(smallest, position));
        }
        assert(all.take(all.len() as int) == all);
        match smallest {
            Some(least) => least,
            None => 0,
        }
    }

    /// Says where the live loop, which is about to (re)connect, subscribes from: the smallest
    /// global position across all projections and process managers. Where the loop has been
    /// told to stop (`shutdown`), it stops.
    pub fn reconnect(&self, live_loop: &mut LiveLoop, shutdown: bool) -> (action: LiveAction)
        ensures
            final(live_loop).config == old(live_loop).config,
            final(live_loop)@ == old(live_loop)@,
            if shutdown {
                action is Stop
            } else {
                &&& action matches LiveAction::Subscribe { from_position }
                &&& subscribes_from(
                    resume_positions(self.projections.values(), self.process_managers@),
                    from_position,
                )
            },
    {
        let from_position: u64 = self.min_global_position();
        live_loop.step(LiveEvent::Ready { shutdown, from_position })
    }

    /// Hands a recorded event to every projection.
    fn fan_out_to_projections(&mut self, recorded: &RecordedEvent)
        requires
            old(self).wf(),
            recorded.global_position < u64::MAX,
        ensures
            final(self).wf(),
            *final(self) == (AggregateStore { projections: final(self).projections, ..*old(self) }),
            final(self).projections.keys() == old(self).projections.keys(),
            all_follow(
                old(self).projections.values(),
                final(self).projections.values(),
                recorded@,
            ),
    {
        let registered: usize = self.projections.len();
        for index in 0..registered
            invariant
                recorded.global_position < u64::MAX,
                *self == (AggregateStore { projections: self.projections, ..*old(self) }),
                registered == self.projections.keys().len(),
                registered == self.projections.values().len(),
                registered == old(self).projections.values().len(),
                self.projections.keys() == old(self).projections.keys(),
                all_follow(
                    old(self).projections.values().take(index as int),
                    self.projections.values().take(index as int),
                    recorded@,
                ),
                forall|i: int|
                    index <= i < registered ==> (#[trigger] self.projections.values()[i]) == old(
                        self,
                    ).projections.values()[i],
        {
            let ghost before = self.projections.values();
            self.projections.at_mut(index).apply_event(recorded);
            proof {
                let after = self.projections.values();
                let start = old(self).projections.values();
                assert forall|i: int| 0 <= i < index + 1 implies (#[trigger] after.take(
                    index + 1,
                )[i]).follows(&start.take(index + 1)[i], recorded@) && after.take(
                    index + 1,
                )[i].resume_position() == next_position(
                    start.take(index + 1)[i].resume_position(),
                    recorded.global_position,
                ) by {
                    if i < index {
                        assert(after[i] == before[i]);
                        assert(before.take(index as int)[i].follows(
                            &start.take(index as int)[i],
                            recorded@,
                        ));
                    }
                }
            }
        }
        proof {
            let start = old(self).projections.values();
            assert(start.take(start.len() as int) == start);
            assert(self.projections.values().take(start.len() as int)
                == self.projections.values());
        }
    }

    /// Hands a recorded event to every process manager, and collects what they produce.
    fn fan_out_to_process_managers(&mut self, recorded: &RecordedEvent) -> (batches: Vec<Batch>)
        requires
            recorded.global_position < u64::MAX,
        ensures
            *final(self) == (AggregateStore {
                process_managers: final(self).process_managers,
                ..*old(self)
            }),
            all_react(old(self).process_managers@, final(self).process_managers@, recorded@),
            batches_view(batches@) == reactions(old(self).process_managers@, recorded@),
    {
        let mut batches: Vec<Batch> = Vec::new();
        let ghost start = self.process_managers@;
        let registered: usize = self.process_managers.len();
        assert(batches_view(batches@) == reactions(start.take(0), recorded@));
        for index in 0..registered
            invariant
                recorded.global_position < u64::MAX,
                start == old(self).process_managers@,
                *self == (AggregateStore { process_managers: self.process_managers, ..*old(self) }),
                registered == start.len(),
                registered == self.process_managers@.len(),
                batches_view(batches@) == reactions(start.take(index as int), recorded@),
                all_react(
                    start.take(index as int),
                    self.process_managers@.take(index as int),
                    recorded@,
                ),
                forall|i: int|
                    index <= i < registered ==> (#[trigger] self.process_managers@[i]) == start[i],
        {
            let ghost before = self.process_managers@;
            let ghost earlier = batches@;
            let envelopes = self.process_managers[index].react_event(recorded);
            proof {
                let after = self.process_managers@;
                assert forall|i: int| 0 <= i < index + 1 implies (#[trigger] after.take(
                    index + 1,
                )[i]).follows(&start.take(index + 1)[i], recorded@) && after.take(
                    index + 1,
                )[i].log_path() == start.take(index + 1)[i].log_path() && after.take(
                    index + 1,
                )[i].resume_position() == next_position(
                    start.take(index + 1)[i].resume_position(),
                    recorded.global_position,
                ) by {
                    if i < index {
                        assert(after[i] == before[i]);
                        assert(before.take(index as int)[i].follows(
                            &start.take(index as int)[i],
                            recorded@,
                        ));
                    }
                }
                assert(start.take(index + 1).drop_last() == start.take(index as int));
                assert(start.take(index + 1).last() == start[index as int]);
                assert(envelopes_view(envelopes@).len() == envelopes@.len());
            }
            if envelopes.len() > 0 {
                let batch = Batch {
                    envelopes,
                    dead_letter_path: self.process_managers[index].dead_letter_path(),
                };
                assert(batches_view(earlier.push(batch)) == batches_view(earlier).push(batch@));
                batches.push(batch);
            }
        }
        assert(start.take(registered as int) == start);
        assert(self.process_managers@.take(registered as int) == self.process_managers@);
        batches
    }
}

/// An event of the live subscription, until the commands that it led to have been handled.
pub struct LiveDispatch {
    /// The commands.
    pub run: DispatchRun,
    /// The event's global position.
    pub global_position: u64,
}

/// What the live subscription does after a message.
pub enum LiveStep {
    /// Dispatch the commands that an event led to, then report the event as processed.
    Dispatch(LiveDispatch),
    /// Read on: the sentinel was read.
    CaughtUp,
    /// Read on.
    Skip,
    /// The stream is over.
    Finished(StreamOutcome),
}

/// What a message of the live subscription says; `None` at the end of its stream.
pub open spec fn live_message(response: Option<Result<SubscribeResponse, String>>) -> Option<
    ResponseView,
> {
    match response {
        Some(message) => Some(response_view(message)),
        None => None,
    }
}

/// The live subscription once the sentinel has been read.
pub open spec fn caught_up_handle<T>(handle: Option<LiveHandle<T>>) -> Option<LiveHandle<T>> {
    match handle {
        Some(live) => Some(LiveHandle { caught_up: true, ..live }),
        None => None,
    }
}

/// The live subscription once an event has been processed.
pub open spec fn advanced_handle<T>(
    handle: Option<LiveHandle<T>>,
    global_position: u64,
) -> Option<LiveHandle<T>> {
    match handle {
        Some(live) => Some(LiveHandle { position: global_position, ..live }),
        None => None,
    }
}

/// Whether a recorded event has been handed to every projection and every process manager,
/// and nothing else has changed.
pub open spec fn fanned_out<B: Runtime>(
    before: AggregateStore<B>,
    after: AggregateStore<B>,
    recorded: RecordedEventView,
) -> bool {
    &&& after == (AggregateStore {
        projections: after.projections,
        process_managers: after.process_managers,
        ..before
    })
    &&& after.projections.keys() == before.projections.keys()
    &&& all_follow(before.projections.values(), after.projections.values(), recorded)
    &&& all_react(before.process_managers@, after.process_managers@, recorded)
}

/// The store once the sentinel has been read.
pub open spec fn caught_up_store<B: Runtime>(store: AggregateStore<B>) -> AggregateStore<B> {
    AggregateStore { live_handle: caught_up_handle(store.live_handle), ..store }
}

/// The store once an event has been processed.
pub open spec fn advanced_store<B: Runtime>(
    store: AggregateStore<B>,
    global_position: u64,
) -> AggregateStore<B> {
    AggregateStore { live_handle: advanced_handle(store.live_handle, global_position), ..store }
}

/// Whether the runners and the live subscription of `after` are what those of `before`
/// become at one message of the live subscription. Whatever else a store remembers may have
/// changed meanwhile, such as the handles of aggregates that commands were dispatched to.
pub open spec fn handled_live<B: Runtime>(
    before: AggregateStore<B>,
    after: AggregateStore<B>,
    response: ResponseView,
) -> bool {
    match response {
        ResponseView::Event(recorded) => {
            &&& after.projections.keys() == before.projections.keys()
            &&& all_follow(before.projections.values(), after.projections.values(), recorded)
            &&& all_react(before.process_managers@, after.process_managers@, recorded)
            &&& after.live_handle == advanced_handle(before.live_handle, recorded.global_position)
        },
        ResponseView::CaughtUp => {
            &&& same_runners(before, after)
            &&& after.live_handle == caught_up_handle(before.live_handle)
        },
        _ => same_runners(before, after) && after.live_handle == before.live_handle,
    }
}

/// Whether two stores have the same projection runners and process manager runners.
pub open spec fn same_runners<B: Runtime>(
    before: AggregateStore<B>,
    after: AggregateStore<B>,
) -> bool {
    &&& after.projections == before.projections
    &&& after.process_managers == before.process_managers
}

/// What the process manager at an index produces over a live subscription, where each store
/// is the one that a message finds.
pub open spec fn live_reactions<B: Runtime>(
    stores: Seq<AggregateStore<B>>,
    responses: Seq<ResponseView>,
    index: int,
) -> Seq<CommandEnvelopeView>
    decreases responses.len(),
{
    if responses.len() == 0 {
        Seq::empty()
    } else {
        let later = live_reactions(stores.drop_first(), responses.drop_first(), index);
        match responses[0] {
            ResponseView::Event(recorded) => stores[0].process_managers@[index].produces(recorded)
                + later,
            _ => later,
        }
    }
}

/// The position that subscribers see once the events have been processed: that of the last
/// one, or the one they saw before.
pub open spec fn published(position: u64, events: Seq<RecordedEventView>) -> u64 {
    if events.len() == 0 {
        position
    } else {
        events.last().global_position
    }
}

/// The dispatch run that a recorded event leads to in live mode, where a dead letter that
/// cannot be written is passed over.
pub open spec fn live_run<M: ProcessManagerCatchUp>(
    managers: Seq<M>,
    recorded: RecordedEventView,
) -> DispatchRunView {
    DispatchRunView {
        commands: all_commands(reactions(managers, recorded)),
        current: 0,
        dispatched: 0,
        dead_lettered: 0,
        strict: false,
        awaiting: Awaiting::Begin,
    }
}

impl<B: Runtime> AggregateStore<B> {
    /// Processes one message of the live subscription, or the end of its stream (`None`).
    ///
    /// An event is fanned out to all projections and process managers, and the commands
    /// that it leads to are handed out for dispatching. The sentinel sets the caught-up
    /// flag. At a failure and at the end the stream is over.
    pub fn process_stream_with_dispatch(
        &mut self,
        response: Option<Result<SubscribeResponse, String>>,
    ) -> (step: LiveStep)
        requires
            old(self).wf(),
            live_message(response) matches Some(ResponseView::Event(recorded))
                ==> recorded.global_position < u64::MAX,
        ensures
            final(self).wf(),
            match live_message(response) {
                Some(ResponseView::Event(recorded)) => {
                    &&& step matches LiveStep::Dispatch(dispatch)
                    &&& dispatch.run@ == live_run(old(self).process_managers@, recorded)
                    &&& dispatch.run@.wf()
                    &&& dispatch.global_position == recorded.global_position
                    &&& fanned_out(*old(self), *final(self), recorded)
                },
                Some(ResponseView::CaughtUp) => {
                    &&& step is CaughtUp
                    &&& *final(self) == caught_up_store(*old(self))
                },
                Some(ResponseView::Empty) => step is Skip && *final(self) == *old(self),
                Some(ResponseView::Failed(reason)) => {
                    &&& step matches LiveStep::Finished(StreamOutcome::Error(error))
                    &&& error@ == stream_error(reason)
                    &&& *final(self) == *old(self)
                },
                None => {
                    &&& step matches LiveStep::Finished(StreamOutcome::Ended)
                    &&& *final(self) == *old(self)
                },
            },
    {
        let message = match response {
            Some(message) => message,
            None => {
                return LiveStep::Finished(StreamOutcome::Ended);
            },
        };
        match read_response(message) {
            StreamItem::Event(recorded) => {
                self.fan_out_to_projections(&recorded);
                let batches = self.fan_out_to_process_managers(&recorded);
                LiveStep::Dispatch(
                    LiveDispatch {
                        run: DispatchRun::new(batches, false),
                        global_position: recorded.global_position,
                    },
                )
            },
            StreamItem::CaughtUp => {
                match self.live_handle.take() {
                    Some(handle) => {
                        let mut live = handle;
                        live.mark_caught_up();
                        self.live_handle = Some(live);
                    },
                    None => {},
                }
                LiveStep::CaughtUp
            },
            StreamItem::Empty => LiveStep::Skip,
            StreamItem::Failed(error) => LiveStep::Finished(StreamOutcome::Error(error)),
        }
    }

    /// Reports an event of the live subscription as processed, once every command that it
    /// led to has been handled.
    pub fn event_processed(&mut self, dispatch: &LiveDispatch)
        requires
            dispatch.run@.current >= dispatch.run@.commands.len(),
        ensures
            *final(self) == advanced_store(*old(self), dispatch.global_position),
    {
        match self.live_handle.take() {
            Some(handle) => {
                let mut live = handle;
                live.mark_processed(dispatch.global_position);
                self.live_handle = Some(live);
            },
            None => {},
        }
    }

    /// The position that the next process manager of a pass catches up from; `None` once
    /// all of them have caught up.
    pub fn pass_position(&self, pass: &ProcessManagerPass) -> (position: Option<u64>)
        ensures
            position == if pass@.batches.len() < self.process_managers@.len() {
                Some(self.process_managers@[pass@.batches.len() as int].resume_position())
            } else {
                None
            },
    {
        let index: usize = pass.batches.len();
        assert(pass@.batches.len() == pass.batches@.len());
        if index < self.process_managers.len() {
            Some(self.process_managers[index].position())
        } else {
            None
        }
    }

    /// Takes one message of the catch-up of a pass, or the end of its stream (`None`).
    ///
    /// An event is reacted to, and the envelopes are collected. At the sentinel and at the
    /// end of the stream the process manager has caught up, and what it produced is set
    /// aside for dispatching. A failure ends the pass: nothing of it is dispatched.
    pub fn run_process_managers(
        &mut self,
        pass: &mut ProcessManagerPass,
        response: Option<Result<SubscribeResponse, String>>,
    ) -> (step: StreamStep)
        requires
            !old(pass)@.failed,
            old(pass)@.batches.len() < old(self).process_managers@.len(),
            pass_message(response) matches ResponseView::Event(recorded)
                ==> recorded.global_position < u64::MAX,
        ensures
            step_after(step, pass_message(response)),
            *final(self) == (AggregateStore {
                process_managers: final(self).process_managers,
                ..*old(self)
            }),
            ({
                let index = old(pass)@.batches.len() as int;
                let before = old(self).process_managers@;
                let after = final(self).process_managers@;
                match pass_message(response) {
                    ResponseView::Event(recorded) => {
                        &&& after == before.update(index, after[index])
                        &&& after[index].follows(&before[index], recorded)
                        &&& after[index].log_path() == before[index].log_path()
                        &&& after[index].resume_position() == next_position(
                            before[index].resume_position(),
                            recorded.global_position,
                        )
                        &&& final(pass)@ == (PassView {
                            envelopes: old(pass)@.envelopes + before[index].produces(recorded),
                            ..old(pass)@
                        })
                    },
                    ResponseView::CaughtUp => {
                        &&& after == before
                        &&& final(pass)@ == (PassView {
                            batches: old(pass)@.batches.push(
                                BatchView {
                                    envelopes: old(pass)@.envelopes,
                                    dead_letter_path: before[index].log_path(),
                                },
                            ),
                            envelopes: Seq::empty(),
                            ..old(pass)@
                        })
                    },
                    ResponseView::Failed(_) => {
                        &&& after == before
                        &&& final(pass)@ == (PassView { failed: true, ..old(pass)@ })
                    },
                    ResponseView::Empty => after == before && *final(pass) == *old(pass),
                }
            }),
    {
        let index: usize = pass.batches.len();
        assert(pass@.batches.len() == pass.batches@.len());
        let message = match response {
            Some(message) => message,
            None => Ok(SubscribeResponse { content: Some(Content::CaughtUp(Empty {  })) }),
        };
        let step = crate::process_manager::catch_up(
            &mut self.process_managers[index],
            &mut pass.envelopes,
            message,
        );
        match step {
            StreamStep::CaughtUp => {
                let mut envelopes: Vec<CommandEnvelope> = Vec::new();
                std::mem::swap(&mut envelopes, &mut pass.envelopes);
                let batch = Batch {
                    envelopes,
                    dead_letter_path: self.process_managers[index].dead_letter_path(),
                };
                let ghost earlier = pass.batches@;
                pass.batches.push(batch);
                proof {
                    assert(batches_view(earlier.push(batch)) == batches_view(earlier).push(batch@));
                    assert(envelopes_view(pass.envelopes@) == Seq::<CommandEnvelopeView>::empty());
                }
            },
            StreamStep::Failed(_) => {
                pass.failed = true;
            },
            StreamStep::Continue => {},
        }
        step
    }
}

/// A pass over the process managers, until all of them have caught up.
#[derive(Debug)]
pub struct ProcessManagerPass {
    /// What those that have caught up produced, in their order.
    pub batches: Vec<Batch>,
    /// What the one that is catching up has produced so far.
    pub envelopes: Vec<CommandEnvelope>,
    /// Whether a stream broke.
    pub failed: bool,
}

/// The contents of a [`ProcessManagerPass`].
#[verifier::ext_equal]
pub struct PassView {
    pub batches: Seq<BatchView>,
    pub envelopes: Seq<CommandEnvelopeView>,
    pub failed: bool,
}

impl View for ProcessManagerPass {
    type V = PassView;

    open spec fn view(&self) -> PassView {
        PassView {
            batches: batches_view(self.batches@),
            envelopes: envelopes_view(self.envelopes@),
            failed: self.failed,
        }
    }
}

/// What a message of a catch-up says, where the end of the stream counts as the sentinel.
pub open spec fn pass_message(response: Option<Result<SubscribeResponse, String>>) -> ResponseView {
    match response {
        Some(message) => response_view(message),
        None => ResponseView::CaughtUp,
    }
}

impl ProcessManagerPass {
    /// A pass that has not begun.
    pub fn new() -> (pass: Self)
        ensures
            pass@ == (PassView { batches: Seq::empty(), envelopes: Seq::empty(), failed: false }),
            pass.batches@.len() == 0,
            pass.envelopes@.len() == 0,
    {
        let pass = ProcessManagerPass { batches: Vec::new(), envelopes: Vec::new(), failed: false };
        assert(pass@ == (PassView {
            batches: Seq::empty(),
            envelopes: Seq::empty(),
            failed: false,
        }));
        pass
    }

    /// The dispatch run over everything that the process managers produced, in which a
    /// dead letter that cannot be written ends the run.
    ///
    /// There is one only once every process manager of the store has caught up, and none
    /// after a failure.
    pub fn into_run<B: Runtime>(self, store: &AggregateStore<B>) -> (run: Option<DispatchRun>)
        ensures
            match run {
                Some(dispatch) => {
                    &&& self@.complete(store.process_managers@.len())
                    &&& dispatch@ == pass_run(self@)
                    &&& dispatch@.wf()
                },
                None => !self@.complete(store.process_managers@.len()),
            },
    {
        assert(self@.batches.len() == self.batches@.len());
        if self.failed || self.batches.len() < store.process_managers.len() {
            return None;
        }
        Some(DispatchRun::new(self.batches, true))
    }
}

impl PassView {
    /// Whether so many process managers have caught up, and no stream broke.
    pub open spec fn complete(self, managers: nat) -> bool {
        !self.failed && self.batches.len() >= managers
    }
}

/// The dispatch run over everything that a pass collected, in which a dead letter that
/// cannot be written ends the run.
pub open spec fn pass_run(pass: PassView) -> DispatchRunView {
    DispatchRunView {
        commands: all_commands(pass.batches),
        current: 0,
        dispatched: 0,
        dead_lettered: 0,
        strict: true,
        awaiting: Awaiting::Begin,
    }
}

/// The error for a catch-up whose subscription could not be made.
pub fn subscribe_failed(reason: &str) -> (error: StoreError)
    ensures
        error@ == StoreErrorView::other("subscribe_all_from failed: "@, reason@),
{
    StoreError::other("subscribe_all_from failed: ", reason)
}

/// The state that was asked for, where the registered projection turned out to be of the
/// type that was asked for; an error where not.
pub fn projection_state<P: Projection>(state: Option<P>) -> (result: Result<P, StoreError>)
    ensures
        match state {
            Some(found) => result == Ok::<_, StoreError>(found),
            None => result matches Err(error) && error@ == (StoreErrorView {
                kind: ErrorKind::Other,
                message: "projection type mismatch"@,
            }),
        },
{
    match state {
        Some(found) => Ok(found),
        None => Err(
            StoreError::new(ErrorKind::Other, "projection type mismatch".to_owned()),
        ),
    }
}

/// The smaller of a position and the smallest of earlier ones.
fn least_of(smallest: Option<u64>, position: u64) -> (least: u64)
    ensures
        least == match smallest {
            Some(so_far) => if so_far < position {
                so_far
            } else {
                position
            },
            None => position,
        },
{
    match smallest {
        Some(so_far) => if so_far < position {
            so_far
        } else {
            position
        },
        None => position,
    }
}

/// The smallest of the first positions, once one more is counted among them.
proof fn lemma_smallest_so_far(positions: Seq<u64>, index: int, smallest: Option<u64>)
    requires
        0 <= index < positions.len(),
        smallest is None <==> index == 0,
        smallest matches Some(so_far) ==> subscribes_from(positions.take(index), so_far),
    ensures
        subscribes_from(
            positions.take(index + 1),
            match smallest {
                Some(so_far) => if so_far < positions[index] {
                    so_far
                } else {
                    positions[index]
                },
                None => positions[index],
            },
        ),
{
    let more = positions.take(index + 1);
    assert(more[index] == positions[index]);
    match smallest {
        Some(so_far) => {
            let fewer = positions.take(index);
            let at = fewer.index_of(so_far);
            assert(more[at] == so_far);
            assert forall|i: int| 0 <= i < index implies so_far <= #[trigger] more[i] by {
                assert(so_far <= fewer[i]);
            }
        },
        None => {},
    }
}

/// A projection that is to catch up.
#[derive(Debug, Clone, Copy)]
pub struct CatchUpPlan {
    /// Where the projection is among the registered ones.
    pub index: usize,
    /// The global position to subscribe from.
    pub from_position: u64,
}

/// How a projection's state is to be read.
#[derive(Debug, Clone, Copy)]
pub enum ReadPlan {
    /// As it is.
    Current {
        /// Where the projection is among the registered ones.
        index: usize,
    },
    /// After catching up.
    CatchUp {
        /// Where the projection is among the registered ones.
        index: usize,
        /// The global position to subscribe from.
        from_position: u64,
    },
}

/// The error for a projection that is not registered.
pub open spec fn not_registered(name: Seq<char>) -> StoreErrorView {
    StoreErrorView {
        kind: ErrorKind::NotFound,
        message: "projection '"@ + name + "' not registered"@,
    }
}

/// A remembered handle is found again as long as its actor runs; once it has been looked
/// for in vain it is forgotten; and the handles of other instances are found as before.
pub proof fn law_running_actors_are_found_again<K, H>(
    cache: Map<K, H>,
    key: K,
    handle: H,
    other: K,
    alive: bool,
)
    requires
        other != key,
    ensures
        found_handle(cache.insert(key, handle), key, true) == Some(handle),
        looked_up(cache.insert(key, handle), key, true) == cache.insert(key, handle),
        found_handle(looked_up(cache, key, false), key, true) is None,
        found_handle(cache.insert(key, handle), other, true) == found_handle(cache, other, true),
        found_handle(looked_up(cache, key, alive), other, true) == found_handle(cache, other, true),
{
}

/// Once the sentinel has been read, the live subscription stays caught up: through events
/// that are processed, further sentinels, and its shutdown.
pub proof fn law_caught_up_stays<T>(live: LiveHandle<T>, global_position: u64)
    requires
        live.caught_up,
    ensures
        caught_up_handle(Some(live)) == Some(live),
        advanced_handle(Some(live), global_position) matches Some(next) && next.caught_up,
        shut_down(live).caught_up,
{
}

/// Every projection and every process manager resumes from the position to subscribe from,
/// or from further on.
pub proof fn law_subscription_covers_every_runner<R: ProjectionCatchUp, M: ProcessManagerCatchUp>(
    projections: Seq<R>,
    managers: Seq<M>,
    from: u64,
)
    requires
        subscribes_from(resume_positions(projections, managers), from),
    ensures
        forall|i: int|
            0 <= i < projections.len() ==> from <= (#[trigger] projections[i]).resume_position(),
        forall|i: int|
            0 <= i < managers.len() ==> from <= (#[trigger] managers[i]).resume_position(),
{
    let positions = resume_positions(projections, managers);
    assert forall|i: int| 0 <= i < projections.len() implies from <= (
    #[trigger] projections[i]).resume_position() by {
        assert(positions[i] == projections[i].resume_position());
    }
    assert forall|i: int| 0 <= i < managers.len() implies from <= (
    #[trigger] managers[i]).resume_position() by {
        assert(positions[projections.len() + i] == managers[i].resume_position());
    }
}

/// What a pass collects from a process manager, event after event, is what the process
/// manager produces over all of them.
pub proof fn law_pass_collects_every_reaction<PM: ProcessManager>(
    runners: Seq<ProcessManagerRunner<PM>>,
    passes: Seq<PassView>,
    events: Seq<RecordedEventView>,
)
    requires
        runners.len() == events.len() + 1,
        passes.len() == events.len() + 1,
        forall|i: int|
            0 <= i < events.len() ==> {
                &&& runners[i + 1].follows(&runners[i], #[trigger] events[i])
                &&& passes[i + 1] == (PassView {
                    envelopes: passes[i].envelopes + runners[i].produces(events[i]),
                    ..passes[i]
                })
            },
    ensures
        passes.last() == (PassView {
            envelopes: passes[0].envelopes + react_all(
                runners[0].current(),
                runners[0].resume(),
                events,
            ).2,
            ..passes[0]
        }),
    decreases events.len(),
{
    let produced = react_all(runners[0].current(), runners[0].resume(), events).2;
    if events.len() == 0 {
        assert(passes[0].envelopes + produced == passes[0].envelopes);
    } else {
        let (rest, later, onward) = (
            events.drop_first(),
            runners.drop_first(),
            passes.drop_first(),
        );
        assert(runners[1].follows(&runners[0], events[0]));
        assert forall|i: int| 0 <= i < rest.len() implies {
            &&& later[i + 1].follows(&later[i], #[trigger] rest[i])
            &&& onward[i + 1] == (PassView {
                envelopes: onward[i].envelopes + later[i].produces(rest[i]),
                ..onward[i]
            })
        } by {
            assert(runners[i + 2].follows(&runners[i + 1], events[i + 1]));
        }
        law_pass_collects_every_reaction(later, onward, rest);
        let now = runners[0].produces(events[0]);
        let then = react_all(runners[1].current(), runners[1].resume(), rest).2;
        assert((passes[0].envelopes + now) + then == passes[0].envelopes + (now + then));
    }
}

/// An event of the live subscription is handled once it has been fanned out and reported as
/// processed, whatever handles the commands in between have brought into the cache.
pub proof fn law_dispatching_leaves_the_runners_alone<B: Runtime>(
    before: AggregateStore<B>,
    dispatching: AggregateStore<B>,
    dispatched: AggregateStore<B>,
    recorded: RecordedEventView,
)
    requires
        fanned_out(before, dispatching, recorded),
        dispatched == (AggregateStore { cache: dispatched.cache, ..dispatching }),
    ensures
        handled_live(
            before,
            advanced_store(dispatched, recorded.global_position),
            ResponseView::Event(recorded),
        ),
{
}

/// A live subscription, message after message up to the first failure, leaves every
/// projection and every process manager as all of its events leave them, in order, and what
/// a process manager produced is what it produces at all of them. After each event
/// subscribers see the position of that event. The caught-up flag is set by a sentinel and
/// by nothing else.
pub proof fn law_live_stream_reaches_every_runner<B: Runtime>(
    stores: Seq<AggregateStore<B>>,
    responses: Seq<ResponseView>,
)
    requires
        stores.len() == responses.len() + 1,
        stores[0].live_handle is Some,
        forall|i: int|
            0 <= i < responses.len() ==> handled_live(
                stores[i],
                stores[i + 1],
                #[trigger] responses[i],
            ),
        forall|i: int| 0 <= i < responses.len() - 1 ==> #[trigger] responses[i] !is Failed,
    ensures
        ({
            let (first, last) = (stores[0], stores.last());
            let events = live_events(responses);
            let (before, after) = (first.projections.values(), last.projections.values());
            let (idle, done) = (first.process_managers@, last.process_managers@);
            &&& last.projections.keys() == first.projections.keys()
            &&& after.len() == before.len()
            &&& forall|i: int|
                0 <= i < after.len() ==> follows_all(#[trigger] after[i], before[i], events)
            &&& done.len() == idle.len()
            &&& forall|i: int|
                0 <= i < done.len() ==> reacts_to_all(
                    #[trigger] done[i],
                    idle[i],
                    events,
                    live_reactions(stores, responses, i),
                )
            &&& last.live_handle == Some(
                LiveHandle {
                    position: published(first.live_handle->Some_0.position, events),
                    caught_up: first.live_handle->Some_0.caught_up || responses.contains(
                        ResponseView::CaughtUp,
                    ),
                    ..first.live_handle->Some_0
                },
            )
        }),
        forall|i: int|
            0 <= i < responses.len() ==> (#[trigger] responses[i] matches ResponseView::Event(
                recorded,
            ) ==> {
                &&& stores[i + 1].live_handle matches Some(live)
                &&& live.position == recorded.global_position
            }),
    decreases responses.len(),
{
    let (first, last) = (stores[0], stores.last());
    let (before, after) = (first.projections.values(), last.projections.values());
    let (idle, done) = (first.process_managers@, last.process_managers@);
    let events = live_events(responses);
    if responses.len() > 0 {
        let (later, rest) = (stores.drop_first(), responses.drop_first());
        let remaining = live_events(rest);
        let next = stores[1];
        assert(handled_live(first, next, responses[0]));
        assert forall|i: int| 0 <= i < rest.len() implies handled_live(
            later[i],
            later[i + 1],
            #[trigger] rest[i],
        ) by {
            assert(rest[i] == responses[i + 1]);
        }
        assert forall|i: int| 0 <= i < rest.len() - 1 implies #[trigger] rest[i] !is Failed by {
            assert(rest[i] == responses[i + 1]);
        }
        law_live_stream_reaches_every_runner(later, rest);
        assert(responses.contains(ResponseView::CaughtUp) <==> responses[0]
            == ResponseView::CaughtUp || rest.contains(ResponseView::CaughtUp)) by {
            if responses.contains(ResponseView::CaughtUp) {
                let i = responses.index_of(ResponseView::CaughtUp);
                if i > 0 {
                    assert(rest[i - 1] == ResponseView::CaughtUp);
                }
            }
            if rest.contains(ResponseView::CaughtUp) {
                let i = rest.index_of(ResponseView::CaughtUp);
                assert(responses[i + 1] == ResponseView::CaughtUp);
            }
        }
        assert forall|i: int| 0 <= i < responses.len() implies (
        #[trigger] responses[i] matches ResponseView::Event(recorded) ==> {
            &&& stores[i + 1].live_handle matches Some(live)
            &&& live.position == recorded.global_position
        }) by {
            if i > 0 {
                assert(rest[i - 1] == responses[i]);
                assert(later[i] == stores[i + 1]);
            }
        }
        match responses[0] {
            ResponseView::Event(recorded) => {
                let (after_one, done_one) = (next.projections.values(), next.process_managers@);
                assert(events.drop_first() == remaining);
                assert(events[0] == recorded);
                assert(published(first.live_handle->Some_0.position, events) == published(
                    recorded.global_position,
                    remaining,
                )) by {
                    if remaining.len() > 0 {
                        assert(events.last() == remaining.last());
                    }
                }
                assert forall|i: int| 0 <= i < after.len() implies follows_all(
                    #[trigger] after[i],
                    before[i],
                    events,
                ) by {
                    assert(after_one[i].follows(&before[i], recorded));
                    assert(follows_all(after[i], after_one[i], remaining));
                }
                assert forall|i: int| 0 <= i < done.len() implies reacts_to_all(
                    #[trigger] done[i],
                    idle[i],
                    events,
                    live_reactions(stores, responses, i),
                ) by {
                    let now = idle[i].produces(recorded);
                    let then = live_reactions(later, rest, i);
                    assert(done_one[i].follows(&idle[i], recorded));
                    assert(reacts_to_all(done[i], done_one[i], remaining, then));
                    assert((now + then).skip(now.len() as int) == then);
                    assert(now.is_prefix_of(now + then));
                }
            },
            _ => {
                assert(remaining == events);
            },
        }
    }
}

/// The position to subscribe from moves on with every event that is fanned out, exactly as
/// the position of a single runner would: it never moves back, and passes the event.
pub proof fn law_subscription_moves_past_the_event(
    before: Seq<u64>,
    after: Seq<u64>,
    global_position: u64,
    from: u64,
    next: u64,
)
    requires
        before.len() > 0,
        after.len() == before.len(),
        forall|i: int|
            0 <= i < after.len() ==> #[trigger] after[i] == next_position(
                before[i],
                global_position,
            ),
        subscribes_from(before, from),
        subscribes_from(after, next),
        global_position < u64::MAX,
    ensures
        next == next_position(from, global_position),
        next >= from,
        next > global_position,
{
    let i = before.index_of(from);
    assert(after[i] == next_position(from, global_position));
    let j = after.index_of(next);
    assert(from <= before[j]);
}

/// The commands that an event leads to in live mode are those of every process manager, in
/// the order of their registration: every envelope that it produces, in order, with its own
/// dead-letter log.
pub proof fn law_a_live_run_holds_what_every_process_manager_produces<M: ProcessManagerCatchUp>(
    managers: Seq<M>,
    recorded: RecordedEventView,
)
    ensures
        ({
            let run = live_run(managers, recorded);
            &&& run.commands == Seq::new(
                managers.len(),
                |m: int|
                    Seq::new(
                        managers[m].produces(recorded).len(),
                        |i: int|
                            PendingCommandView {
                                envelope: managers[m].produces(recorded)[i],
                                dead_letter_path: managers[m].log_path(),
                            },
                    ),
            ).flatten()
            &&& run.commands.len() == managers.fold_left(
                0,
                |count: int, manager: M| count + manager.produces(recorded).len(),
            )
            &&& run.current == 0
            &&& run.dispatched == 0
            &&& run.dead_lettered == 0
            &&& !run.strict
            &&& run.awaiting is Begin
        }),
{
    lemma_commands_of_managers(managers, recorded);
    lemma_commands_of_managers_counted(managers, recorded);
}

/// The commands that process managers produce at an event, manager by manager.
proof fn lemma_commands_of_managers<M: ProcessManagerCatchUp>(
    managers: Seq<M>,
    recorded: RecordedEventView,
)
    ensures
        all_commands(reactions(managers, recorded)) == Seq::new(
            managers.len(),
            |m: int|
                Seq::new(
                    managers[m].produces(recorded).len(),
                    |i: int|
                        PendingCommandView {
                            envelope: managers[m].produces(recorded)[i],
                            dead_letter_path: managers[m].log_path(),
                        },
                ),
        ).flatten(),
    decreases managers.len(),
{
    let each = Seq::new(
        managers.len(),
        |m: int|
            Seq::new(
                managers[m].produces(recorded).len(),
                |i: int|
                    PendingCommandView {
                        envelope: managers[m].produces(recorded)[i],
                        dead_letter_path: managers[m].log_path(),
                    },
            ),
    );
    each.lemma_flatten_and_flatten_alt_are_equivalent();
    if managers.len() == 0 {
        assert(each.flatten() == Seq::<PendingCommandView>::empty());
    } else {
        let fewer = managers.drop_last();
        let earlier = Seq::new(
            fewer.len(),
            |m: int|
                Seq::new(
                    fewer[m].produces(recorded).len(),
                    |i: int|
                        PendingCommandView {
                            envelope: fewer[m].produces(recorded)[i],
                            dead_letter_path: fewer[m].log_path(),
                        },
                ),
        );
        let batch = BatchView {
            envelopes: managers.last().produces(recorded),
            dead_letter_path: managers.last().log_path(),
        };
        lemma_commands_of_managers(fewer, recorded);
        earlier.lemma_flatten_and_flatten_alt_are_equivalent();
        assert forall|m: int| 0 <= m < fewer.len() implies each.drop_last()[m] == earlier[m] by {
            assert(each[m] == earlier[m]);
        }
        assert(each.drop_last() == earlier);
        assert(each.last() == commands_of(batch));
        let before = reactions(fewer, recorded);
        if batch.envelopes.len() == 0 {
            assert(all_commands(before) + commands_of(batch) == all_commands(before));
        } else {
            assert(before.push(batch).drop_last() == before);
        }
    }
}

/// How many commands process managers produce at an event.
proof fn lemma_commands_of_managers_counted<M: ProcessManagerCatchUp>(
    managers: Seq<M>,
    recorded: RecordedEventView,
)
    ensures
        all_commands(reactions(managers, recorded)).len() == managers.fold_left(
            0,
            |count: int, manager: M| count + manager.produces(recorded).len(),
        ),
    decreases managers.len(),
{
    reveal(Seq::fold_left);
    if managers.len() > 0 {
        let fewer = managers.drop_last();
        let before = reactions(fewer, recorded);
        let batch = BatchView {
            envelopes: managers.last().produces(recorded),
            dead_letter_path: managers.last().log_path(),
        };
        lemma_commands_of_managers_counted(fewer, recorded);
        if batch.envelopes.len() > 0 {
            assert(before.push(batch).drop_last() == before);
        }
    }
}

/// The commands of a pass are all the envelopes of all its batches, batch after batch and in
/// order, each with the dead-letter log of its batch; the run has not begun, and ends where a
/// letter is lost. There is a run once as many have caught up as there are process managers,
/// unless a stream broke.
pub proof fn law_a_pass_dispatches_what_was_collected(pass: PassView, managers: nat)
    ensures
        ({
            let run = pass_run(pass);
            &&& run.commands == Seq::new(
                pass.batches.len(),
                |b: int|
                    Seq::new(
                        pass.batches[b].envelopes.len(),
                        |i: int|
                            PendingCommandView {
                                envelope: pass.batches[b].envelopes[i],
                                dead_letter_path: pass.batches[b].dead_letter_path,
                            },
                    ),
            ).flatten()
            &&& run.current == 0
            &&& run.dispatched == 0
            &&& run.dead_lettered == 0
            &&& run.strict
            &&& run.awaiting is Begin
        }),
        pass.complete(managers) <==> !pass.failed && pass.batches.len() >= managers,
{
    law_a_run_holds_every_envelope(pass.batches);
}

/// What is said of a pass is said of what it holds; a message of a pass says what it carries,
/// and the end of the stream says what the sentinel says. A message of the live subscription
/// says what it carries, and its end says nothing.
pub proof fn law_what_a_pass_is_told(
    pass: ProcessManagerPass,
    response: Result<SubscribeResponse, String>,
)
    ensures
        pass@.batches == batches_view(pass.batches@),
        pass@.envelopes == envelopes_view(pass.envelopes@),
        pass@.failed == pass.failed,
        pass_message(Some(response)) == response_view(response),
        pass_message(None) is CaughtUp,
        live_message(Some(response)) == Some(response_view(response)),
        live_message(None) is None,
{
}

/// A live event reaches every projection and every process manager, each in its place, and
/// changes nothing else about the store.
pub proof fn law_an_event_reaches_every_runner<B: Runtime>(
    before: AggregateStore<B>,
    after: AggregateStore<B>,
    recorded: RecordedEventView,
)
    requires
        fanned_out(before, after, recorded),
    ensures
        after.projections.keys() == before.projections.keys(),
        after.projections.values().len() == before.projections.values().len(),
        forall|i: int|
            0 <= i < before.projections.values().len() ==> {
                &&& (#[trigger] after.projections.values()[i]).follows(
                    &before.projections.values()[i],
                    recorded,
                )
                &&& after.projections.values()[i].resume_position() == next_position(
                    before.projections.values()[i].resume_position(),
                    recorded.global_position,
                )
            },
        after.process_managers@.len() == before.process_managers@.len(),
        forall|i: int|
            0 <= i < before.process_managers@.len() ==> {
                &&& (#[trigger] after.process_managers@[i]).follows(
                    &before.process_managers@[i],
                    recorded,
                )
                &&& after.process_managers@[i].log_path() == before.process_managers@[i].log_path()
                &&& after.process_managers@[i].resume_position() == next_position(
                    before.process_managers@[i].resume_position(),
                    recorded.global_position,
                )
            },
        after.base_dir == before.base_dir,
        after.cache == before.cache,
        after.dispatchers == before.dispatchers,
        after.idle_timeout == before.idle_timeout,
        after.live_config == before.live_config,
        after.live_handle == before.live_handle,
{
}

/// Reading the sentinel sets the flag, and an event that has been processed sets the
/// position; neither does anything else, and without a live subscription neither does
/// anything at all.
pub proof fn law_what_the_live_subscription_records<B: Runtime>(
    store: AggregateStore<B>,
    global_position: u64,
)
    ensures
        ({
            let next = caught_up_store(store);
            &&& store.live_handle is None ==> next == store
            &&& store.live_handle matches Some(live) ==> next == (AggregateStore {
                live_handle: Some(LiveHandle { caught_up: true, ..live }),
                ..store
            })
        }),
        ({
            let next = advanced_store(store, global_position);
            &&& store.live_handle is None ==> next == store
            &&& store.live_handle matches Some(live) ==> next == (AggregateStore {
                live_handle: Some(LiveHandle { position: global_position, ..live }),
                ..store
            })
        }),
{
}

/// The position to subscribe from is no further on than that of any runner; it is that of one
/// of them, and 0 only where there is none or one stands there.
pub proof fn law_the_slowest_runner_decides<R: ProjectionCatchUp, M: ProcessManagerCatchUp>(
    projections: Seq<R>,
    managers: Seq<M>,
    from: u64,
)
    ensures
        subscribes_from(resume_positions(projections, managers), from) <==> {
            &&& projections.len() + managers.len() == 0 ==> from == 0
            &&& projections.len() + managers.len() > 0 ==> {
                ||| exists|i: int|
                    0 <= i < projections.len() && (#[trigger] projections[i]).resume_position()
                        == from
                ||| exists|i: int|
                    0 <= i < managers.len() && (#[trigger] managers[i]).resume_position() == from
            }
            &&& forall|i: int|
                0 <= i < projections.len() ==> from <= (
                #[trigger] projections[i]).resume_position()
            &&& forall|i: int|
                0 <= i < managers.len() ==> from <= (#[trigger] managers[i]).resume_position()
        },
{
    let positions = resume_positions(projections, managers);
    let split = projections.len() as int;
    assert(positions.len() == projections.len() + managers.len());
    assert forall|i: int| 0 <= i < projections.len() implies positions[i] == (
    #[trigger] projections[i]).resume_position() by {}
    assert forall|i: int| 0 <= i < managers.len() implies positions[split + i] == (
    #[trigger] managers[i]).resume_position() by {}
    if subscribes_from(positions, from) {
        if positions.len() > 0 {
            let at = positions.index_of(from);
            if at < split {
                assert(projections[at].resume_position() == from);
            } else {
                assert(managers[at - split].resume_position() == from);
            }
        }
        assert forall|i: int| 0 <= i < projections.len() implies from <= (
        #[trigger] projections[i]).resume_position() by {
            assert(from <= positions[i]);
        }
        assert forall|i: int| 0 <= i < managers.len() implies from <= (
        #[trigger] managers[i]).resume_position() by {
            assert(from <= positions[split + i]);
        }
    } else if positions.len() > 0 {
        if forall|i: int| 0 <= i < positions.len() ==> from <= #[trigger] positions[i] {
            assert(!positions.contains(from));
            assert forall|i: int| 0 <= i < projections.len() implies (
            #[trigger] projections[i]).resume_position() != from by {
                assert(positions[i] != from);
            }
            assert forall|i: int| 0 <= i < managers.len() implies (
            #[trigger] managers[i]).resume_position() != from by {
                assert(positions[split + i] != from);
            }
        } else {
            let at = choose|i: int| 0 <= i < positions.len() && from > #[trigger] positions[i];
            if at < split {
                assert(projections[at].resume_position() < from);
            } else {
                assert(managers[at - split].resume_position() < from);
            }
        }
    }
}

/// A projection is read where it stands among the registered ones, catches up from its own
/// position, and is reported as missing by its name.
pub proof fn law_how_a_projection_is_found<B: Runtime>(
    store: AggregateStore<B>,
    name: Seq<char>,
    index: usize,
    from_position: u64,
)
    ensures
        store.plans_catch_up(name, index, from_position) ==> {
            &&& index < store.projections.keys().len()
            &&& store.projections.keys()[index as int] == name
            &&& store.projections.map().contains_key(name)
            &&& store.projections.map()[name] == store.projections.values()[index as int]
            &&& from_position == store.projections.values()[index as int].resume_position()
        },
        store.holds_projection(name, index) ==> {
            &&& index < store.projections.keys().len()
            &&& store.projections.keys()[index as int] == name
            &&& store.projections.map().contains_key(name)
            &&& store.projections.map()[name] == store.projections.values()[index as int]
        },
        not_registered(name).kind is NotFound,
        not_registered(name).message == "projection '"@ + name + "' not registered"@,
{
}

/// An actor key is a type and an instance. A handle is found exactly where there is one and
/// its actor runs, and where none is found the entry is gone, and that entry alone.
pub proof fn law_when_a_handle_is_found<K, H>(
    actor: ActorKey,
    cache: Map<K, H>,
    key: K,
    alive: bool,
)
    ensures
        actor@ == (actor.type_id, actor.instance_id@),
        found_handle(cache, key, alive) == if alive && cache.contains_key(key) {
            Some(cache[key])
        } else {
            None
        },
        looked_up(cache, key, alive) == if alive && cache.contains_key(key) {
            cache
        } else {
            cache.remove(key)
        },
{
}

/// Every name and every instance of a store is kept once, and with a value.
pub proof fn law_a_store_keeps_each_name_once<B: Runtime>(store: AggregateStore<B>)
    ensures
        store.wf() <==> {
            &&& store.cache.keys().no_duplicates()
            &&& store.cache.keys().len() == store.cache.values().len()
            &&& store.projections.keys().no_duplicates()
            &&& store.projections.keys().len() == store.projections.values().len()
            &&& store.dispatchers.keys().no_duplicates()
            &&& store.dispatchers.keys().len() == store.dispatchers.values().len()
        },
{
}

} // verus!
