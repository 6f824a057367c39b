//! The prober's state in one place: the configuration store, the metric
//! state and the loop, with what each operation leaves alone.

use crate::config::{loaded, reloaded, ConfigError, ConfigSource, ConfigStore, SnapshotModel};
use crate::metrics::{record_all, updates_of, MetricState, Reading, Update};
use crate::probe::{ProbeOutcome, Round, SlotModel};
use crate::scheduler::{Action, Event, Scheduler};
use crate::target::TargetModel;
use vstd::prelude::*;

verus! {

/// The state of a running prober.
#[derive(Debug)]
pub struct Prober {
    store: ConfigStore,
    metrics: MetricState,
    scheduler: Scheduler,
}

impl Prober {
    /// The active snapshot of the configuration.
    pub closed spec fn snapshot(self) -> SnapshotModel {
        self.store.snapshot()
    }

    /// What has been recorded for an identity.
    pub closed spec fn reading(self, id: Seq<char>) -> Reading {
        self.metrics.reading(id)
    }

    /// The identities that have a series.
    pub closed spec fn labels(self) -> Seq<Seq<char>> {
        self.metrics.labels()
    }

    /// The state of the loop.
    pub closed spec fn schedule(self) -> Scheduler {
        self.scheduler
    }

    /// The prober is well formed when its snapshot is consistent and its
    /// metric state is well formed.
    pub closed spec fn wf(self) -> bool {
        self.store.wf() && self.metrics.wf()
    }

    /// In a well-formed prober the snapshot's targets are what its host
    /// specifications expand to, and every reading is well formed.
    pub proof fn lemma_wf(self, id: Seq<char>)
        requires
            self.wf(),
        ensures
            self.snapshot().wf(),
            self.reading(id).wf(),
    {
        self.metrics.lemma_wf_readings(id);
    }

    /// Starts a prober on what the source loads to: nothing recorded, the
    /// loop at rest. A source that is refused starts nothing.
    pub fn start(source: &ConfigSource, debounce_ms: u64) -> (r: Result<Prober, ConfigError>)
        ensures
            match r {
                Ok(prober) => prober.wf() && loaded(source@) == Ok::<SnapshotModel, ConfigError>(
                    prober.snapshot(),
                ) && prober.schedule() == Scheduler::at_rest(debounce_ms) && prober.labels()
                    == Seq::<Seq<char>>::empty() && forall|id: Seq<char>|
                    prober.reading(id) == Reading::zero(),
                Err(e) => loaded(source@) == Err::<SnapshotModel, ConfigError>(e),
            },
    {
        match ConfigStore::open(source) {
            Ok(store) => Ok(
                Prober { store, metrics: MetricState::new(), scheduler: Scheduler::new(debounce_ms) },
            ),
            Err(e) => Err(e),
        }
    }

    /// Takes an event of the loop. Neither the configuration nor any
    /// reading changes.
    pub fn step(&mut self, event: Event) -> (action: Action)
        ensures
            final(self).schedule() == old(self).schedule().next(event),
            action == old(self).schedule().action(event),
            final(self).snapshot() == old(self).snapshot(),
            final(self).labels() == old(self).labels(),
            forall|id: Seq<char>| final(self).reading(id) == old(self).reading(id),
            old(self).wf() ==> final(self).wf(),
    {
        let (next, action) = self.scheduler.step(event);
        self.scheduler = next;
        action
    }

    /// Reloads the configuration. An accepted source becomes the active
    /// snapshot, a refused one leaves the active snapshot in place. In
    /// either case no reading changes and the loop stands where it stood.
    pub fn reload(&mut self, source: &ConfigSource) -> (r: Result<(), ConfigError>)
        ensures
            final(self).snapshot() == reloaded(old(self).snapshot(), source@),
            match r {
                Ok(_) => loaded(source@) is Ok,
                Err(e) => loaded(source@) == Err::<SnapshotModel, ConfigError>(e),
            },
            final(self).schedule() == old(self).schedule(),
            final(self).labels() == old(self).labels(),
            forall|id: Seq<char>| final(self).reading(id) == old(self).reading(id),
            old(self).wf() ==> final(self).wf(),
    {
        self.store.reload(source)
    }

    /// Starts a round on the targets of the active snapshot.
    pub fn begin_round(&self) -> (round: Round)
        ensures
            round.wf(),
            round.targets() == self.snapshot().targets,
            round.addresses() == self.snapshot().targets.map_values(|t: TargetModel| t.address),
            round.slots() == Seq::new(self.snapshot().targets.len(), |i: int| SlotModel::Pending),
    {
        Round::begin(self.store.get().targets())
    }

    /// Records the outcomes of a round. The configuration and the loop
    /// stay as they are.
    pub fn account(&mut self, outcomes: &Vec<ProbeOutcome>) -> (updates: Vec<Update>)
        requires
            old(self).wf(),
        ensures
            final(self).wf(),
            forall|id: Seq<char>|
                #[trigger] final(self).reading(id) == record_all(
                    old(self).reading(id),
                    id,
                    outcomes@,
                ),
            forall|id: Seq<char>|
                old(self).reading(id).le(#[trigger] final(self).reading(id))
                    && final(self).reading(id).wf(),
            updates@ == updates_of(|id: Seq<char>| old(self).reading(id), outcomes@),
            final(self).snapshot() == old(self).snapshot(),
            final(self).schedule() == old(self).schedule(),
    {
        self.metrics.apply_all(outcomes)
    }

    /// The probe interval of the active snapshot, in milliseconds.
    pub fn interval_ms(&self) -> (ms: u64)
        ensures
            ms == self.snapshot().config.probe_interval_ms,
    {
        self.store.get().config().probe_interval_ms
    }

    /// The probe timeout of the active snapshot, in milliseconds.
    pub fn timeout_ms(&self) -> (ms: u64)
        ensures
            ms == self.snapshot().config.probe_timeout_ms,
    {
        self.store.get().config().probe_timeout_ms
    }

    /// The configuration store.
    pub fn store(&self) -> (store: &ConfigStore)
        ensures
            store.snapshot() == self.snapshot(),
    {
        &self.store
    }

    /// The metric state.
    pub fn metrics(&self) -> (metrics: &MetricState)
        ensures
            metrics.labels() == self.labels(),
            forall|id: Seq<char>| metrics.reading(id) == self.reading(id),
            self.wf() ==> metrics.wf(),
    {
        &self.metrics
    }
}

} // verus!
