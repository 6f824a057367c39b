use ping_exporter::addr::Address;
use ping_exporter::config::{
    ConfigError, ConfigSource, ConfigStore, Configuration, Snapshot, DEFAULT_INTERVAL_MS,
    DEFAULT_TIMEOUT_MS,
};
use ping_exporter::target::Target;

fn empty() -> ConfigSource {
    ConfigSource { listener: None, hosts: None, interval_ms: None, timeout_ms: None }
}

fn hosts(items: &[&str]) -> ConfigSource {
    ConfigSource { hosts: Some(items.iter().map(|s| s.to_string()).collect()), ..empty() }
}

fn identities(targets: &[Target]) -> Vec<String> {
    targets.iter().map(|t| t.identity.clone()).collect()
}

#[test]
fn defaults_are_in_place() {
    let c = Configuration::defaults();
    assert_eq!(c.listener_address, "127.0.0.1:9184");
    assert_eq!(c.targets, vec!["127.0.0.1".to_string()]);
    assert_eq!(c.probe_interval_ms, 1000);
    assert_eq!(c.probe_timeout_ms, 500);
    assert_eq!(DEFAULT_INTERVAL_MS, 1000);
    assert_eq!(DEFAULT_TIMEOUT_MS, 500);
}

#[test]
fn an_empty_source_gives_the_defaults() {
    let c = Configuration::from_source(&empty()).unwrap();
    assert_eq!(c.listener_address, "127.0.0.1:9184");
    assert_eq!(c.targets, vec!["127.0.0.1".to_string()]);
    assert_eq!((c.probe_interval_ms, c.probe_timeout_ms), (1000, 500));
}

#[test]
fn the_source_overrides_what_it_names() {
    let source = ConfigSource {
        listener: Some("0.0.0.0:9000".to_string()),
        hosts: Some(vec!["10.0.0.0/30".to_string(), "gw".to_string()]),
        interval_ms: Some(250),
        timeout_ms: None,
    };
    let c = Configuration::from_source(&source).unwrap();
    assert_eq!(c.listener_address, "0.0.0.0:9000");
    assert_eq!(c.targets, vec!["10.0.0.0/30".to_string(), "gw".to_string()]);
    assert_eq!((c.probe_interval_ms, c.probe_timeout_ms), (250, 500));
    let source = ConfigSource { timeout_ms: Some(0), ..empty() };
    let c = Configuration::from_source(&source).unwrap();
    assert_eq!((c.probe_interval_ms, c.probe_timeout_ms), (1000, 0));
}

#[test]
fn negative_durations_are_refused() {
    let source = ConfigSource { interval_ms: Some(-1), ..empty() };
    assert_eq!(Configuration::from_source(&source).unwrap_err(), ConfigError::NegativeInterval);
    let source = ConfigSource { timeout_ms: Some(i64::MIN), ..empty() };
    assert_eq!(Configuration::from_source(&source).unwrap_err(), ConfigError::NegativeTimeout);
    let source = ConfigSource { interval_ms: Some(-5), timeout_ms: Some(-5), ..hosts(&["bad/"]) };
    assert_eq!(Snapshot::load(&source).unwrap_err(), ConfigError::NegativeInterval);
}

#[test]
fn a_timeout_longer_than_the_interval_is_accepted_with_a_warning() {
    let source = ConfigSource { interval_ms: Some(100), timeout_ms: Some(500), ..empty() };
    let c = Configuration::from_source(&source).unwrap();
    assert!(c.timeout_exceeds_interval());
    assert!(Snapshot::load(&source).is_ok());
    assert!(!Configuration::defaults().timeout_exceeds_interval());
    let source = ConfigSource { interval_ms: Some(500), timeout_ms: Some(500), ..empty() };
    assert!(!Configuration::from_source(&source).unwrap().timeout_exceeds_interval());
}

#[test]
fn a_snapshot_carries_its_targets() {
    let s = Snapshot::load(&hosts(&["10.0.0.0/30", "127.0.0.1"])).unwrap();
    assert_eq!(identities(s.targets()), vec!["10.0.0.1", "10.0.0.2", "127.0.0.1"]);
    assert_eq!(s.config().targets, vec!["10.0.0.0/30".to_string(), "127.0.0.1".to_string()]);
    let s = Snapshot::load(&empty()).unwrap();
    assert_eq!(identities(s.targets()), vec!["127.0.0.1"]);
    assert_eq!(s.targets()[0].address, Some(Address::V4(0x7f00_0001)));
}

#[test]
fn a_malformed_host_fails_the_load() {
    let r = Snapshot::load(&hosts(&["127.0.0.1", "10.0.0.0/40"]));
    assert_eq!(r.unwrap_err(), ConfigError::MalformedHost { index: 1 });
    assert_eq!(
        ConfigStore::open(&hosts(&["not a host"])).unwrap_err(),
        ConfigError::MalformedHost { index: 0 }
    );
}

#[test]
fn reload_replaces_the_snapshot_as_a_whole() {
    let mut store = ConfigStore::open(&hosts(&["127.0.0.1"])).unwrap();
    let next = ConfigSource {
        listener: Some("[::]:9184".to_string()),
        hosts: Some(vec!["127.0.0.1".to_string(), "198.51.100.1".to_string()]),
        interval_ms: Some(2000),
        timeout_ms: Some(750),
    };
    assert_eq!(store.reload(&next), Ok(()));
    let s = store.get();
    assert_eq!(identities(s.targets()), vec!["127.0.0.1", "198.51.100.1"]);
    assert_eq!(s.config().listener_address, "[::]:9184");
    assert_eq!((s.config().probe_interval_ms, s.config().probe_timeout_ms), (2000, 750));
}

#[test]
fn a_refused_reload_leaves_the_snapshot_untouched() {
    let first = ConfigSource { interval_ms: Some(300), ..hosts(&["10.0.0.0/31"]) };
    let mut store = ConfigStore::open(&first).unwrap();
    let bad = ConfigSource { interval_ms: Some(900), ..hosts(&["10.0.0.0/31", "10.0.0.0/99"]) };
    assert_eq!(store.reload(&bad), Err(ConfigError::MalformedHost { index: 1 }));
    let s = store.get();
    assert_eq!(identities(s.targets()), vec!["10.0.0.0", "10.0.0.1"]);
    assert_eq!(s.config().probe_interval_ms, 300);
    assert_eq!(s.config().targets, vec!["10.0.0.0/31".to_string()]);
    let bad = ConfigSource { timeout_ms: Some(-1), ..empty() };
    assert_eq!(store.reload(&bad), Err(ConfigError::NegativeTimeout));
    assert_eq!(identities(store.get().targets()), vec!["10.0.0.0", "10.0.0.1"]);
}

#[test]
fn reloading_an_unchanged_source_changes_nothing() {
    let source = ConfigSource { interval_ms: Some(42), ..hosts(&["10.1.0.0/29", "gw", "10.1.0.3"]) };
    let mut store = ConfigStore::open(&source).unwrap();
    let before = identities(store.get().targets());
    assert_eq!(store.reload(&source), Ok(()));
    assert_eq!(identities(store.get().targets()), before);
    assert_eq!(store.reload(&source), Ok(()));
    assert_eq!(identities(store.get().targets()), before);
    assert_eq!(store.get().config().probe_interval_ms, 42);
    assert_eq!(before, vec!["10.1.0.1", "10.1.0.2", "10.1.0.3", "10.1.0.4", "10.1.0.5", "10.1.0.6", "gw"]);
}
