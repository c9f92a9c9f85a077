//! Configuring and opening a store.

use crate::aggregate::Aggregate;
use crate::dispatcher::{HoldsDispatcher, TypedDispatcher};
use crate::duration::Duration;
use crate::live::LiveConfig;
use crate::path::DataPath;
use crate::process_manager::{
    HoldsProcessManager, ProcessManager, ProcessManagerCatchUp, ProcessManagerRunner,
};
use crate::projection::{HoldsProjection, Projection, ProjectionCatchUp, ProjectionRunner};
use crate::proto::RecordedEventView;
use crate::store::{resume_positions, AggregateStore, Runtime};
use crate::table::Table;
use std::marker::PhantomData;
use vstd::prelude::*;
use vstd::string::*;

verus! {

/// Default idle timeout for actors, in seconds: 5 minutes.
pub const DEFAULT_IDLE_TIMEOUT_SECS: u64 = 300;

/// Builder for configuring and opening an [`AggregateStore`].
///
/// Collects the endpoint URL, the directory for dead-letter logs, and the registered
/// aggregates, projections and process managers.
pub struct AggregateStoreBuilder<B: Runtime> {
    /// The server's URL, if one was given.
    pub endpoint: Option<String>,
    /// The directory for dead-letter logs, if one was given.
    pub base_dir: Option<std::path::PathBuf>,
    /// What authenticates the connection, if anything does.
    pub auth_token: Option<B::Token>,
    /// The registered projections, by name.
    pub projections: Vec<(String, B::Projection)>,
    /// The registered process managers, by name.
    pub process_managers: Vec<(String, B::ProcessManager)>,
    /// The dispatchers of the registered aggregates, by aggregate type.
    pub dispatchers: Vec<(String, B::Dispatcher)>,
    /// How long an idle actor waits before it shuts down.
    pub idle_timeout: Duration,
    /// Configuration of the live subscription.
    pub live_config: LiveConfig,
}

/// A store, and how to reach the server it is for.
pub struct OpenedStore<B: Runtime> {
    /// The server's URL.
    pub endpoint: String,
    /// What authenticates the connection, if anything does.
    pub auth_token: Option<B::Token>,
    /// The store.
    pub store: AggregateStore<B>,
}

/// The values registered under each name: where several were registered under one, the
/// last.
pub open spec fn registered<V>(entries: Seq<(String, V)>) -> Map<Seq<char>, V>
    decreases entries.len(),
{
    if entries.len() == 0 {
        Map::empty()
    } else {
        registered(entries.drop_last()).insert(entries.last().0@, entries.last().1)
    }
}

/// Whether `more` is `entries` with one more entry of the given name.
pub open spec fn adds_entry<V>(
    more: Seq<(String, V)>,
    entries: Seq<(String, V)>,
    name: Seq<char>,
) -> bool {
    &&& more.len() == entries.len() + 1
    &&& more.drop_last() == entries
    &&& more.last().0@ == name
}

/// Whether `held` stands for a fresh projection runner, in its default state and at
/// position 0, and goes on to stand for what the runner becomes.
pub open spec fn fresh_projection<P: Projection, R: HoldsProjection<P>>(held: R) -> bool {
    &&& crate::projection::keeps_standing::<P, R>()
    &&& held.resume_position() == 0
    &&& exists|runner: ProjectionRunner<P>|
        {
            &&& call_ensures(P::default, (), runner.current())
            &&& runner.resume() == 0
            &&& #[trigger] held.holds(runner)
        }
}

/// Whether `held` stands for a fresh process manager runner, in its default state, at
/// position 0, and with a data directory named after it, and goes on to stand for what the
/// runner becomes.
pub open spec fn fresh_process_manager<PM: ProcessManager, R: HoldsProcessManager<PM>>(
    held: R,
) -> bool {
    &&& crate::process_manager::keeps_standing::<PM, R>()
    &&& held.resume_position() == 0
    &&& held.log_path() == seq!["process_managers"@, PM::NAME@, "dead_letters.jsonl"@]
    &&& exists|runner: ProcessManagerRunner<PM>|
        {
            &&& call_ensures(PM::default, (), runner.current())
            &&& runner.resume() == 0
            &&& runner.directory() == seq!["process_managers"@, PM::NAME@]
            &&& #[trigger] held.holds(runner)
        }
}

/// Whether every position is the beginning of the log.
pub open spec fn all_at_the_beginning(positions: Seq<u64>) -> bool {
    forall|i: int| 0 <= i < positions.len() ==> #[trigger] positions[i] == 0
}

/// Puts named values into a table; of several under one name the last stays.
fn register_all<V>(entries: Vec<(String, V)>) -> (table: Table<String, V>)
    ensures
        table.wf(),
        table.map() == registered(entries@),
{
    let mut table: Table<String, V> = Table::new();
    assert(entries@.take(0) == Seq::<(String, V)>::empty());
    for entry in list: entries
        invariant
            list.seq() == entries@,
            table.wf(),
            table.map() == registered(entries@.take(list.index() as int)),
    {
        let ghost index = list.index() as int;
        let (name, value) = entry;
        proof {
            assert(entries@.take(index + 1).drop_last() == entries@.take(index));
            assert(entries@.take(index + 1).last() == entries@[index]);
        }
        table.insert(name, value);
    }
    assert(entries@.take(entries@.len() as int) == entries@);
    table
}

impl<B: Runtime> AggregateStoreBuilder<B> {
    /// Every registered projection and process manager is at the beginning of the log.
    pub open spec fn starts_fresh(&self) -> bool {
        &&& forall|i: int|
            0 <= i < self.projections@.len() ==> (#[trigger] self.projections@[
                i
            ]).1.resume_position() == 0
        &&& forall|i: int|
            0 <= i < self.process_managers@.len() ==> (#[trigger] self.process_managers@[
                i
            ]).1.resume_position() == 0
    }

    /// Creates a new builder with no configuration.
    pub fn new() -> (builder: Self)
        ensures
            builder.starts_fresh(),
            builder.endpoint is None,
            builder.base_dir is None,
            builder.auth_token is None,
            builder.projections@.len() == 0,
            builder.process_managers@.len() == 0,
            builder.dispatchers@.len() == 0,
            builder.idle_timeout.nanoseconds() == 300_000_000_000,
            builder.live_config.reconnect_base_delay.nanoseconds() == 1_000_000_000,
            builder.live_config.reconnect_max_delay.nanoseconds() == 30_000_000_000,
    {
        AggregateStoreBuilder {
            endpoint: None,
            base_dir: None,
            auth_token: None,
            projections: Vec::new(),
            process_managers: Vec::new(),
            dispatchers: Vec::new(),
            idle_timeout: Duration::from_secs(DEFAULT_IDLE_TIMEOUT_SECS),
            live_config: LiveConfig::default(),
        }
    }

    /// Sets the server's URL.
    pub fn endpoint(self, url: String) -> (builder: Self)
        ensures
            builder == (AggregateStoreBuilder { endpoint: Some(url), ..self }),
    {
        AggregateStoreBuilder { endpoint: Some(url), ..self }
    }

    /// Sets what authenticates the connection.
    pub fn auth_token(self, token: B::Token) -> (builder: Self)
        ensures
            builder == (AggregateStoreBuilder { auth_token: Some(token), ..self }),
    {
        AggregateStoreBuilder { auth_token: Some(token), ..self }
    }

    /// Sets the root directory for dead-letter logs.
    pub fn base_dir(self, path: std::path::PathBuf) -> (builder: Self)
        ensures
            builder == (AggregateStoreBuilder { base_dir: Some(path), ..self }),
    {
        AggregateStoreBuilder { base_dir: Some(path), ..self }
    }

    /// Registers an aggregate type as a dispatch target for process managers.
    pub fn aggregate_type<A: Aggregate>(self) -> (builder: Self) where
        B::Dispatcher: HoldsDispatcher<A>,

        ensures
            builder == (AggregateStoreBuilder { dispatchers: builder.dispatchers, ..self }),
            adds_entry(builder.dispatchers@, self.dispatchers@, A::AGGREGATE_TYPE@),
            builder.dispatchers@.last().1.holds(TypedDispatcher::<A> { marker: PhantomData }),
    {
        let mut builder = self;
        let held = B::Dispatcher::hold(TypedDispatcher::<A>::new());
        builder.dispatchers.push((A::AGGREGATE_TYPE.to_owned(), held));
        assert(builder.dispatchers@.drop_last() == self.dispatchers@);
        builder
    }

    /// Registers a projection type to be managed by the store.
    pub fn projection<P: Projection>(self) -> (builder: Self) where
        B::Projection: HoldsProjection<P>,

        ensures
            builder == (AggregateStoreBuilder { projections: builder.projections, ..self }),
            adds_entry(builder.projections@, self.projections@, P::NAME@),
            fresh_projection::<P, B::Projection>(builder.projections@.last().1),
            self.starts_fresh() ==> builder.starts_fresh(),
    {
        let mut builder = self;
        let runner = ProjectionRunner::<P>::new();
        let ghost fresh = runner;
        let held = B::Projection::hold(runner);
        assert(held.holds(fresh));
        builder.projections.push((P::NAME.to_owned(), held));
        assert(builder.projections@.drop_last() == self.projections@);
        builder
    }

    /// Registers a process manager type to be managed by the store.
    pub fn process_manager<PM: ProcessManager>(self) -> (builder: Self) where
        B::ProcessManager: HoldsProcessManager<PM>,

        ensures
            builder == (AggregateStoreBuilder { process_managers: builder.process_managers, ..self
            }),
            adds_entry(builder.process_managers@, self.process_managers@, PM::NAME@),
            fresh_process_manager::<PM, B::ProcessManager>(builder.process_managers@.last().1),
            self.starts_fresh() ==> builder.starts_fresh(),
    {
        let mut builder = self;
        let data_dir = DataPath::new().join("process_managers").join(PM::NAME);
        assert(data_dir@ == seq!["process_managers"@, PM::NAME@]);
        let runner = ProcessManagerRunner::<PM>::new(data_dir);
        let ghost fresh = runner;
        let held = B::ProcessManager::hold(runner);
        assert(held.holds(fresh));
        assert(held.log_path() == seq!["process_managers"@, PM::NAME@, "dead_letters.jsonl"@]);
        builder.process_managers.push((PM::NAME.to_owned(), held));
        assert(builder.process_managers@.drop_last() == self.process_managers@);
        builder
    }

    /// Sets the idle timeout for actor eviction.
    pub fn idle_timeout(self, timeout: Duration) -> (builder: Self)
        ensures
            builder == (AggregateStoreBuilder { idle_timeout: timeout, ..self }),
    {
        AggregateStoreBuilder { idle_timeout: timeout, ..self }
    }

    /// Sets the live subscription configuration.
    pub fn live_config(self, config: LiveConfig) -> (builder: Self)
        ensures
            builder == (AggregateStoreBuilder { live_config: config, ..self }),
    {
        AggregateStoreBuilder { live_config: config, ..self }
    }

    /// Builds the [`AggregateStore`].
    ///
    /// Dead-letter logs go below `default_dir` where no directory was set. Where several
    /// projections or aggregates were registered under one name, the last one counts;
    /// process managers are all kept, in their order. What was registered with this
    /// builder replays the log from the beginning.
    pub fn open(self, default_dir: std::path::PathBuf) -> (opened: OpenedStore<B>)
        ensures
            opened.endpoint@ == match self.endpoint {
                Some(url) => url@,
                None => "http://127.0.0.1:2113"@,
            },
            opened.auth_token == self.auth_token,
            opened.store.wf(),
            opened.store.base_dir == match self.base_dir {
                Some(path) => path,
                None => default_dir,
            },
            opened.store.cache.keys().len() == 0,
            opened.store.projections.map() == registered(self.projections@),
            opened.store.process_managers@ == self.process_managers@.map_values(
                |entry: (String, B::ProcessManager)| entry.1,
            ),
            opened.store.dispatchers.map() == registered(self.dispatchers@),
            opened.store.idle_timeout == self.idle_timeout,
            opened.store.live_config == self.live_config,
            opened.store.live_handle is None,
            self.starts_fresh() ==> all_at_the_beginning(
                resume_positions(
                    opened.store.projections.values(),
                    opened.store.process_managers@,
                ),
            ),
    {
        let endpoint = match self.endpoint {
            Some(url) => url,
            None => String::from_str("http://127.0.0.1:2113"),
        };
        let base_dir = match self.base_dir {
            Some(path) => path,
            None => default_dir,
        };
        let named = self.process_managers;
        let mut process_managers: Vec<B::ProcessManager> = Vec::new();
        for entry in list: named
            invariant
                list.seq() == named@,
                process_managers@ == named@.take(list.index() as int).map_values(
                    |entry: (String, B::ProcessManager)| entry.1,
                ),
        {
            let ghost index = list.index() as int;
            let (_name, runner) = entry;
            process_managers.push(runner);
            assert(named@.take(index + 1) == named@.take(index).push(named@[index]));
        }
        assert(named@.take(named@.len() as int) == named@);
        let projections = register_all(self.projections);
        proof {
            if self.starts_fresh() {
                lemma_registered_at_the_beginning(self.projections@, projections);
                let positions = resume_positions(projections.values(), process_managers@);
                assert forall|i: int| 0 <= i < positions.len() implies #[trigger] positions[i]
                    == 0 by {
                    let before = projections.values().len() as int;
                    if i >= before {
                        assert(self.process_managers@[i - before].1.resume_position() == 0);
                    } else {
                        assert(projections.values()[i].resume_position() == 0);
                    }
                }
            }
        }
        OpenedStore {
            endpoint,
            auth_token: self.auth_token,
            store: AggregateStore {
                base_dir,
                cache: Table::new(),
                projections,
                process_managers,
                dispatchers: register_all(self.dispatchers),
                idle_timeout: self.idle_timeout,
                live_config: self.live_config,
                live_handle: None,
            },
        }
    }
}

/// A name stands for one of the values that were registered under it.
proof fn lemma_registered_is_an_entry<V>(entries: Seq<(String, V)>, name: Seq<char>)
    requires
        registered(entries).contains_key(name),
    ensures
        exists|i: int|
            0 <= i < entries.len() && (#[trigger] entries[i]).1 == registered(entries)[name],
    decreases entries.len(),
{
    let last = entries.len() - 1;
    if entries[last].0@ != name {
        let earlier = entries.drop_last();
        lemma_registered_is_an_entry(earlier, name);
        let i = choose|i: int|
            0 <= i < earlier.len() && (#[trigger] earlier[i]).1 == registered(earlier)[name];
        assert(entries[i].1 == registered(entries)[name]);
    } else {
        assert(entries[last].1 == registered(entries)[name]);
    }
}

/// Where every registered runner is at the beginning of the log, so is every one in the
/// table.
proof fn lemma_registered_at_the_beginning<R: ProjectionCatchUp>(
    entries: Seq<(String, R)>,
    table: Table<String, R>,
)
    requires
        table.wf(),
        table.map() == registered(entries),
        forall|i: int| 0 <= i < entries.len() ==> (#[trigger] entries[i]).1.resume_position() == 0,
    ensures
        forall|i: int|
            0 <= i < table.values().len() ==> (#[trigger] table.values()[i]).resume_position() == 0,
{
    assert forall|i: int| 0 <= i < table.values().len() implies (
    #[trigger] table.values()[i]).resume_position() == 0 by {
        table.lemma_value_at(i);
        lemma_registered_is_an_entry(entries, table.keys()[i]);
    }
}

impl<B: Runtime> Default for AggregateStoreBuilder<B> {
    fn default() -> (builder: Self)
        ensures
            builder.starts_fresh(),
            builder.endpoint is None,
            builder.base_dir is None,
            builder.auth_token is None,
            builder.projections@.len() == 0,
            builder.process_managers@.len() == 0,
            builder.dispatchers@.len() == 0,
            builder.idle_timeout.nanoseconds() == 300_000_000_000,
            builder.live_config.reconnect_base_delay.nanoseconds() == 1_000_000_000,
            builder.live_config.reconnect_max_delay.nanoseconds() == 30_000_000_000,
    {
        AggregateStoreBuilder::new()
    }
}

/// A name stands for the value that was registered under it last, and names under which
/// nothing was registered stand for nothing.
pub proof fn law_last_registration_counts<V>(entries: Seq<(String, V)>, name: Seq<char>)
    ensures
        registered(entries).contains_key(name) <==> exists|i: int|
            0 <= i < entries.len() && (#[trigger] entries[i]).0@ == name,
        forall|i: int|
            #![trigger entries[i]]
            0 <= i < entries.len() && entries[i].0@ == name && (forall|j: int|
                i < j < entries.len() ==> (#[trigger] entries[j]).0@ != name) ==> registered(
                entries,
            )[name] == entries[i].1,
{
    lemma_registered_names(entries, name);
    assert forall|i: int|
        #![trigger entries[i]]
        0 <= i < entries.len() && entries[i].0@ == name && (forall|j: int|
            i < j < entries.len() ==> (#[trigger] entries[j]).0@ != name) implies registered(
        entries,
    )[name] == entries[i].1 by {
        lemma_registered_value(entries, name, i);
    }
}

/// Whether the entry at an index is the last one of the given name.
pub open spec fn registered_last<V>(
    entries: Seq<(String, V)>,
    name: Seq<char>,
    index: int,
) -> bool {
    &&& 0 <= index < entries.len()
    &&& entries[index].0@ == name
    &&& forall|j: int| index < j < entries.len() ==> (#[trigger] entries[j]).0@ != name
}

/// The names that stand for something are those of the entries.
proof fn lemma_registered_names<V>(entries: Seq<(String, V)>, name: Seq<char>)
    ensures
        registered(entries).contains_key(name) <==> exists|i: int|
            0 <= i < entries.len() && (#[trigger] entries[i]).0@ == name,
    decreases entries.len(),
{
    if entries.len() > 0 {
        let (earlier, last) = (entries.drop_last(), entries.len() - 1);
        lemma_registered_names(earlier, name);
        if entries[last].0@ != name {
            if registered(earlier).contains_key(name) {
                let i = choose|i: int|
                    0 <= i < earlier.len() && (#[trigger] earlier[i]).0@ == name;
                assert(entries[i].0@ == name);
            } else {
                assert forall|i: int| 0 <= i < entries.len() implies (
                #[trigger] entries[i]).0@ != name by {
                    if i < last {
                        assert(earlier[i] == entries[i]);
                    }
                }
            }
        }
    }
}

/// A name stands for the value of its last entry.
proof fn lemma_registered_value<V>(entries: Seq<(String, V)>, name: Seq<char>, index: int)
    requires
        registered_last(entries, name, index),
    ensures
        registered(entries)[name] == entries[index].1,
    decreases entries.len(),
{
    let (earlier, last) = (entries.drop_last(), entries.len() - 1);
    if index < last {
        assert(entries[last].0@ != name);
        assert forall|j: int| index < j < earlier.len() implies (
        #[trigger] earlier[j]).0@ != name by {
            assert(entries[j].0@ != name);
        }
        lemma_registered_value(earlier, name, index);
    }
}

/// A registration adds one entry, at the end and under its name, and leaves the others as
/// they are.
pub proof fn law_a_registration_adds_one_entry<V>(
    more: Seq<(String, V)>,
    entries: Seq<(String, V)>,
    name: Seq<char>,
)
    requires
        adds_entry(more, entries, name),
    ensures
        more.len() == entries.len() + 1,
        forall|i: int| 0 <= i < entries.len() ==> #[trigger] more[i] == entries[i],
        more.last().0@ == name,
{
    assert forall|i: int| 0 <= i < entries.len() implies #[trigger] more[i] == entries[i] by {
        assert(more.drop_last()[i] == entries[i]);
    }
}

/// What is registered starts from nothing: a projection in its default state at position 0.
pub proof fn law_a_registered_projection_starts_from_nothing<P: Projection, R: HoldsProjection<P>>(
    held: R,
)
    requires
        fresh_projection::<P, R>(held),
    ensures
        held.resume_position() == 0,
        exists|runner: ProjectionRunner<P>|
            {
                &&& #[trigger] held.holds(runner)
                &&& runner.resume() == 0
                &&& call_ensures(P::default, (), runner.current())
            },
        forall|before: R, after: R, inner: ProjectionRunner<P>, recorded: RecordedEventView|
            #[trigger] before.holds(inner) && #[trigger] after.follows(&before, recorded)
                ==> exists|next: ProjectionRunner<P>|
                #[trigger] after.holds(next) && next.follows(&inner, recorded),
{
}

/// What is registered starts from nothing: a process manager in its default state at position
/// 0, with its dead-letter log in a directory of its own.
pub proof fn law_a_registered_process_manager_starts_from_nothing<
    PM: ProcessManager,
    R: HoldsProcessManager<PM>,
>(held: R)
    requires
        fresh_process_manager::<PM, R>(held),
    ensures
        held.resume_position() == 0,
        held.log_path() == seq!["process_managers"@, PM::NAME@, "dead_letters.jsonl"@],
        exists|runner: ProcessManagerRunner<PM>|
            {
                &&& #[trigger] held.holds(runner)
                &&& runner.resume() == 0
                &&& runner.directory() == seq!["process_managers"@, PM::NAME@]
                &&& call_ensures(PM::default, (), runner.current())
            },
        forall|before: R, inner: ProcessManagerRunner<PM>, recorded: RecordedEventView|
            #[trigger] before.holds(inner) ==> #[trigger] before.produces(recorded)
                == inner.produces(recorded),
        forall|before: R, after: R, inner: ProcessManagerRunner<PM>, recorded: RecordedEventView|
            #[trigger] before.holds(inner) && #[trigger] after.follows(&before, recorded)
                ==> exists|next: ProcessManagerRunner<PM>|
                #[trigger] after.holds(next) && next.follows(&inner, recorded),
{
}

/// A builder starts fresh, and the positions of a store are at the beginning, if and only if
/// every one of them is 0.
pub proof fn law_everything_replays_from_the_beginning<B: Runtime>(
    builder: AggregateStoreBuilder<B>,
    positions: Seq<u64>,
)
    ensures
        builder.starts_fresh() <==> {
            &&& forall|i: int|
                0 <= i < builder.projections@.len() ==> (#[trigger] builder.projections@[
                    i
                ]).1.resume_position() == 0
            &&& forall|i: int|
                0 <= i < builder.process_managers@.len() ==> (#[trigger] builder.process_managers@[
                    i
                ]).1.resume_position() == 0
        },
        all_at_the_beginning(positions) <==> forall|i: int|
            0 <= i < positions.len() ==> #[trigger] positions[i] == 0,
{
}

} // verus!
