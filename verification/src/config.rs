//! The configuration, its defaults, and the store that holds the active
//! snapshot and replaces it as a whole.

use crate::target::{
    distinct_identities, expand, expanded, models, texts, ExpandError, Target, TargetModel,
};
use vstd::prelude::*;
use vstd::string::*;

verus! {

/// Probe interval where the source names none, in milliseconds.
pub const DEFAULT_INTERVAL_MS: u64 = 1000;

/// Probe timeout where the source names none, in milliseconds.
pub const DEFAULT_TIMEOUT_MS: u64 = 500;

/// The listener address where the source names none.
pub open spec fn default_listener() -> Seq<char> {
    "127.0.0.1:9184"@
}

/// The host specifications where the source names none.
pub open spec fn default_hosts() -> Seq<Seq<char>> {
    seq!["127.0.0.1"@]
}

/// What a configuration source holds: each option as it was read, or
/// nothing where the source does not name it. Durations are in
/// milliseconds.
#[derive(Debug)]
pub struct ConfigSource {
    pub listener: Option<String>,
    pub hosts: Option<Vec<String>>,
    pub interval_ms: Option<i64>,
    pub timeout_ms: Option<i64>,
}

/// What a [`ConfigSource`] is to the contracts.
pub struct SourceModel {
    pub listener: Option<Seq<char>>,
    pub hosts: Option<Seq<Seq<char>>>,
    pub interval_ms: Option<i64>,
    pub timeout_ms: Option<i64>,
}

impl View for ConfigSource {
    type V = SourceModel;

    open spec fn view(&self) -> SourceModel {
        SourceModel {
            listener: match self.listener {
                Some(s) => Some(s@),
                None => None,
            },
            hosts: match self.hosts {
                Some(v) => Some(texts(v@)),
                None => None,
            },
            interval_ms: self.interval_ms,
            timeout_ms: self.timeout_ms,
        }
    }
}

/// The settings of the prober.
#[derive(Debug)]
pub struct Configuration {
    pub listener_address: String,
    pub targets: Vec<String>,
    pub probe_interval_ms: u64,
    pub probe_timeout_ms: u64,
}

/// What a [`Configuration`] is to the contracts.
pub struct ConfigModel {
    pub listener_address: Seq<char>,
    pub targets: Seq<Seq<char>>,
    pub probe_interval_ms: u64,
    pub probe_timeout_ms: u64,
}

impl View for Configuration {
    type V = ConfigModel;

    open spec fn view(&self) -> ConfigModel {
        ConfigModel {
            listener_address: self.listener_address@,
            targets: texts(self.targets@),
            probe_interval_ms: self.probe_interval_ms,
            probe_timeout_ms: self.probe_timeout_ms,
        }
    }
}

/// Why a configuration was not accepted.
#[derive(Clone, Copy, Debug, PartialEq, Eq, Structural)]
pub enum ConfigError {
    /// The probe interval is negative.
    NegativeInterval,
    /// The probe timeout is negative.
    NegativeTimeout,
    /// The host specification at `index` is malformed.
    MalformedHost { index: usize },
}

/// The configuration with every default in place.
pub open spec fn defaults() -> ConfigModel {
    ConfigModel {
        listener_address: default_listener(),
        targets: default_hosts(),
        probe_interval_ms: DEFAULT_INTERVAL_MS,
        probe_timeout_ms: DEFAULT_TIMEOUT_MS,
    }
}

/// The defaults overlaid with what the source names. A negative duration
/// is refused, the interval before the timeout.
pub open spec fn overlay(source: SourceModel) -> Result<ConfigModel, ConfigError> {
    if source.interval_ms matches Some(ms) && ms < 0 {
        Err(ConfigError::NegativeInterval)
    } else if source.timeout_ms matches Some(ms) && ms < 0 {
        Err(ConfigError::NegativeTimeout)
    } else {
        Ok(
            ConfigModel {
                listener_address: match source.listener {
                    Some(s) => s,
                    None => default_listener(),
                },
                targets: match source.hosts {
                    Some(hosts) => hosts,
                    None => default_hosts(),
                },
                probe_interval_ms: match source.interval_ms {
                    Some(ms) => ms as u64,
                    None => DEFAULT_INTERVAL_MS,
                },
                probe_timeout_ms: match source.timeout_ms {
                    Some(ms) => ms as u64,
                    None => DEFAULT_TIMEOUT_MS,
                },
            },
        )
    }
}

/// A configuration together with the targets that its host specifications
/// expand to.
#[derive(Debug)]
pub struct Snapshot {
    config: Configuration,
    targets: Vec<Target>,
}

/// What a [`Snapshot`] is to the contracts.
pub struct SnapshotModel {
    pub config: ConfigModel,
    pub targets: Seq<TargetModel>,
}

impl SnapshotModel {
    /// A snapshot is consistent when its targets are what its host
    /// specifications expand to.
    pub open spec fn wf(self) -> bool {
        expanded(self.config.targets) == Ok::<Seq<TargetModel>, ExpandError>(self.targets)
    }
}

impl View for Snapshot {
    type V = SnapshotModel;

    closed spec fn view(&self) -> SnapshotModel {
        SnapshotModel { config: self.config@, targets: models(self.targets@) }
    }
}

/// What loading a source gives: the overlaid configuration with its
/// targets, or the reason why it was refused.
pub open spec fn loaded(source: SourceModel) -> Result<SnapshotModel, ConfigError> {
    match overlay(source) {
        Err(e) => Err(e),
        Ok(config) => match expanded(config.targets) {
            Ok(targets) => Ok(SnapshotModel { config, targets }),
            Err(ExpandError::Malformed { index }) => Err(ConfigError::MalformedHost { index }),
        },
    }
}

/// The snapshot that is active after a reload: the one loaded from the
/// source, or the current one where the source was refused.
pub open spec fn reloaded(current: SnapshotModel, source: SourceModel) -> SnapshotModel {
    match loaded(source) {
        Ok(next) => next,
        Err(_) => current,
    }
}

/// Reloading an unchanged source a second time changes nothing, and what
/// is active afterwards depends on no counter: the targets after the second
/// reload are the targets after the first.
pub proof fn lemma_reload_idempotent(current: SnapshotModel, source: SourceModel)
    ensures
        reloaded(reloaded(current, source), source) == reloaded(current, source),
        loaded(source) is Ok ==> reloaded(current, source).wf(),
        current.wf() ==> reloaded(current, source).wf(),
{
}

fn copy_texts(from: &Vec<String>) -> (copy: Vec<String>)
    ensures
        copy@ == from@,
{
    let mut copy: Vec<String> = Vec::new();
    let mut i: usize = 0;
    while i < from.len()
        invariant
            i <= from@.len(),
            copy@ == from@.take(i as int),
        decreases from@.len() - i,
    {
        copy.push(from[i].clone());
        assert(copy@ =~= from@.take(i + 1));
        i += 1;
    }
    assert(from@.take(i as int) =~= from@);
    copy
}

impl Configuration {
    /// The configuration with every default in place.
    pub fn defaults() -> (config: Configuration)
        ensures
            config@ == defaults(),
    {
        let mut targets: Vec<String> = Vec::new();
        targets.push(String::from_str("127.0.0.1"));
        assert(texts(targets@) =~= default_hosts());
        Configuration {
            listener_address: String::from_str("127.0.0.1:9184"),
            targets,
            probe_interval_ms: DEFAULT_INTERVAL_MS,
            probe_timeout_ms: DEFAULT_TIMEOUT_MS,
        }
    }

    /// Overlays the defaults with what the source names.
    pub fn from_source(source: &ConfigSource) -> (r: Result<Configuration, ConfigError>)
        ensures
            match r {
                Ok(config) => overlay(source@) == Ok::<ConfigModel, ConfigError>(config@),
                Err(e) => overlay(source@) == Err::<ConfigModel, ConfigError>(e),
            },
    {
        let mut config = Configuration::defaults();
        match source.interval_ms {
            Some(ms) => {
                if ms < 0 {
                    return Err(ConfigError::NegativeInterval);
                }
                config.probe_interval_ms = ms as u64;
            },
            None => {},
        }
        match source.timeout_ms {
            Some(ms) => {
                if ms < 0 {
                    return Err(ConfigError::NegativeTimeout);
                }
                config.probe_timeout_ms = ms as u64;
            },
            None => {},
        }
        match &source.listener {
            Some(s) => {
                config.listener_address = s.clone();
            },
            None => {},
        }
        match &source.hosts {
            Some(hosts) => {
                config.targets = copy_texts(hosts);
            },
            None => {},
        }
        Ok(config)
    }

    /// Whether the timeout is longer than the interval. Such a
    /// configuration is accepted; the caller may warn of it.
    pub fn timeout_exceeds_interval(&self) -> (exceeds: bool)
        ensures
            exceeds == (self.probe_timeout_ms > self.probe_interval_ms),
    {
        self.probe_timeout_ms > self.probe_interval_ms
    }
}

impl Snapshot {
    /// Loads a snapshot from a source: overlays the defaults and expands
    /// the host specifications. A source with a negative duration or a
    /// malformed host specification is refused.
    pub fn load(source: &ConfigSource) -> (r: Result<Snapshot, ConfigError>)
        ensures
            match r {
                Ok(snapshot) => loaded(source@) == Ok::<SnapshotModel, ConfigError>(snapshot@)
                    && snapshot@.wf() && distinct_identities(snapshot@.targets),
                Err(e) => loaded(source@) == Err::<SnapshotModel, ConfigError>(e),
            },
    {
        let config = match Configuration::from_source(source) {
            Ok(config) => config,
            Err(e) => {
                return Err(e);
            },
        };
        match expand(&config.targets) {
            Ok(targets) => Ok(Snapshot { config, targets }),
            Err(ExpandError::Malformed { index }) => Err(ConfigError::MalformedHost { index }),
        }
    }

    /// The configuration of the snapshot.
    pub fn config(&self) -> (config: &Configuration)
        ensures
            config@ == self@.config,
    {
        &self.config
    }

    /// The targets of the snapshot.
    pub fn targets(&self) -> (targets: &Vec<Target>)
        ensures
            models(targets@) == self@.targets,
    {
        &self.targets
    }
}

/// Holds the active snapshot. Readers borrow it whole; a reload replaces
/// it whole or leaves it alone.
#[derive(Debug)]
pub struct ConfigStore {
    current: Snapshot,
}

impl ConfigStore {
    /// The active snapshot.
    pub closed spec fn snapshot(self) -> SnapshotModel {
        self.current@
    }

    /// The store is well formed when its snapshot is consistent.
    pub open spec fn wf(self) -> bool {
        self.snapshot().wf()
    }

    /// Opens a store on what the source loads to.
    pub fn open(source: &ConfigSource) -> (r: Result<ConfigStore, ConfigError>)
        ensures
            match r {
                Ok(store) => loaded(source@) == Ok::<SnapshotModel, ConfigError>(store.snapshot())
                    && store.wf(),
                Err(e) => loaded(source@) == Err::<SnapshotModel, ConfigError>(e),
            },
    {
        match Snapshot::load(source) {
            Ok(current) => Ok(ConfigStore { current }),
            Err(e) => Err(e),
        }
    }

    /// The active snapshot.
    pub fn get(&self) -> (snapshot: &Snapshot)
        ensures
            snapshot@ == self.snapshot(),
    {
        &self.current
    }

    /// Loads the source and, where it is accepted, makes it the active
    /// snapshot. A refused source leaves the store as it was and the error
    /// says why.
    pub fn reload(&mut self, source: &ConfigSource) -> (r: Result<(), ConfigError>)
        ensures
            final(self).snapshot() == reloaded(old(self).snapshot(), source@),
            match r {
                Ok(_) => loaded(source@) == Ok::<SnapshotModel, ConfigError>(
                    final(self).snapshot(),
                ),
                Err(e) => loaded(source@) == Err::<SnapshotModel, ConfigError>(e) && *final(self)
                    == *old(self),
            },
            old(self).wf() ==> final(self).wf(),
    {
        match Snapshot::load(source) {
            Ok(next) => {
                self.current = next;
                Ok(())
            },
            Err(e) => Err(e),
        }
    }
}

} // verus!
